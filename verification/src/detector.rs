//! Momentum candles and the fair value gaps they leave.

use crate::decimal::{
    abs_of, add_ok, add_of, checked_add, checked_div, checked_sub, dec_eq_spec, dec_le_spec, dec_lt_spec,
    div_ok, div_of, eq_dec, le_dec, lt_dec, one_v, sub_ok, sub_of, zero_v, Dec,
};
use crate::decimal::{
    exact_difference, exact_sum, lemma_difference_value, lemma_exact_sum_at, lemma_neg_at, lemma_order_at,
    lemma_pow10_pos, lemma_quotient_at, pow10, quotient_is, quotient_within_ulp, scale_ok, value_at, MAX_SCALE,
};
use crate::domain::{Candle, Side};
use vstd::prelude::*;

verus! {

/// A momentum gap setup waiting for its limit entry to fill.
#[derive(Clone, Copy, Debug)]
pub struct PendingFvg {
    pub side: Side,
    pub zone_high: Dec,
    pub zone_low: Dec,
    /// Midpoint of the gap: the limit order level.
    pub entry: Dec,
    /// Low (long) or high (short) of the impulse candle: the structural stop.
    pub impulse_sl: Dec,
    /// The setup is dropped when the walk-forward index reaches this value.
    pub expiry_idx: usize,
}

/// Whether candle `c` reaches the zone of `f` (limit-order fill semantics).
pub open spec fn touched_spec(f: PendingFvg, c: Candle) -> bool {
    match f.side {
        Side::Long => dec_le_spec(c.low@, f.zone_high@),
        Side::Short => dec_le_spec(f.zone_low@, c.high@),
    }
}

impl PendingFvg {
    /// Returns true if `c` touches the gap zone: for a long setup its low is
    /// at or below the zone top, for a short one its high at or above the
    /// zone bottom.
    pub fn is_touched(&self, c: &Candle) -> (r: bool)
        ensures
            r == touched_spec(*self, *c),
    {
        match self.side {
            Side::Long => le_dec(c.low, self.zone_high),
            Side::Short => le_dec(self.zone_low, c.high),
        }
    }
}

/// High minus low of a candle.
pub open spec fn range_of(c: Candle) -> (int, int) {
    sub_of(c.high@, c.low@)
}

/// |close - open| / range.
pub open spec fn body_pct_of(c: Candle) -> (int, int) {
    div_of(abs_of(sub_of(c.close@, c.open@)), range_of(c))
}

/// (close - low) / range: 0 at the low, 1 at the high.
pub open spec fn close_pos_of(c: Candle) -> (int, int) {
    div_of(sub_of(c.close@, c.low@), range_of(c))
}

/// The computation of `momentum_side` overflows nowhere.
pub open spec fn momentum_ok(c: Candle, body_pct_min: (int, int), close_pct_min: (int, int)) -> bool {
    &&& sub_ok(c.high@, c.low@)
    &&& (!dec_eq_spec(range_of(c), zero_v()) ==> {
        &&& sub_ok(c.close@, c.open@)
        &&& div_ok(abs_of(sub_of(c.close@, c.open@)), range_of(c))
        &&& (!dec_lt_spec(body_pct_of(c), body_pct_min) ==> {
            &&& sub_ok(c.close@, c.low@)
            &&& div_ok(sub_of(c.close@, c.low@), range_of(c))
            &&& (!(dec_lt_spec(c.open@, c.close@) && dec_le_spec(close_pct_min, close_pos_of(c)))
                && dec_lt_spec(c.close@, c.open@) ==> sub_ok(one_v(), close_pct_min))
        })
    })
}

/// Classification of a candle: momentum long, momentum short, or neither.
///
/// The range must be non-zero and the body at least `body_pct_min` of it; a
/// bullish candle must close in the top `close_pct_min` fraction of its range,
/// a bearish one in the bottom `1 - close_pct_min`.
pub open spec fn momentum_spec(c: Candle, body_pct_min: (int, int), close_pct_min: (int, int)) -> Option<Side> {
    if dec_eq_spec(range_of(c), zero_v()) {
        None
    } else if dec_lt_spec(body_pct_of(c), body_pct_min) {
        None
    } else if dec_lt_spec(c.open@, c.close@) && dec_le_spec(close_pct_min, close_pos_of(c)) {
        Some(Side::Long)
    } else if dec_lt_spec(c.close@, c.open@) && dec_le_spec(
        close_pos_of(c),
        sub_of(one_v(), close_pct_min),
    ) {
        Some(Side::Short)
    } else {
        None
    }
}

/// The classification once the two ratios are known: `body_pct` (body over
/// range) and `close_pos` (close above the low, over range).  Too small a
/// body is never momentum; a bullish candle closing at or above
/// `close_pct_min` of its range is long, a bearish one closing at or below
/// `1 - close_pct_min` is short.
pub open spec fn ratios_spec(
    open: (int, int),
    close: (int, int),
    body_pct: (int, int),
    close_pos: (int, int),
    body_pct_min: (int, int),
    close_pct_min: (int, int),
) -> Option<Side> {
    if dec_lt_spec(body_pct, body_pct_min) {
        None
    } else if dec_lt_spec(open, close) && dec_le_spec(close_pct_min, close_pos) {
        Some(Side::Long)
    } else if dec_lt_spec(close, open) && dec_le_spec(close_pos, sub_of(one_v(), close_pct_min)) {
        Some(Side::Short)
    } else {
        None
    }
}

/// `ratios_spec` overflows nowhere (only `1 - close_pct_min` can).
pub open spec fn ratios_ok(
    open: (int, int),
    close: (int, int),
    body_pct: (int, int),
    close_pos: (int, int),
    body_pct_min: (int, int),
    close_pct_min: (int, int),
) -> bool {
    !dec_lt_spec(body_pct, body_pct_min) && !(dec_lt_spec(open, close) && dec_le_spec(close_pct_min, close_pos))
        && dec_lt_spec(close, open) ==> sub_ok(one_v(), close_pct_min)
}

/// Classifies a candle from its body and close ratios (`ratios_spec`);
/// `None` where `1 - close_pct_min` overflows.
pub fn momentum_from_ratios(
    open: Dec,
    close: Dec,
    body_pct: Dec,
    close_pos: Dec,
    body_pct_min: Dec,
    close_pct_min: Dec,
) -> (r: Option<Option<Side>>)
    ensures
        r is Some <==> ratios_ok(open@, close@, body_pct@, close_pos@, body_pct_min@, close_pct_min@),
        r matches Some(o) ==> o == ratios_spec(open@, close@, body_pct@, close_pos@, body_pct_min@, close_pct_min@),
{
    if lt_dec(body_pct, body_pct_min) {
        Some(None)
    } else if lt_dec(open, close) && le_dec(close_pct_min, close_pos) {
        Some(Some(Side::Long))
    } else if lt_dec(close, open) {
        let bottom = checked_sub(Dec::one(), close_pct_min)?;
        if le_dec(close_pos, bottom) {
            Some(Some(Side::Short))
        } else {
            Some(None)
        }
    } else {
        Some(None)
    }
}

/// The opposite direction.
pub open spec fn flip(o: Option<Side>) -> Option<Side> {
    match o {
        Some(Side::Long) => Some(Side::Short),
        Some(Side::Short) => Some(Side::Long),
        None => None,
    }
}

/// A decimal with its sign changed.
pub open spec fn neg_of(d: (int, int)) -> (int, int) {
    (-d.0, d.1)
}

/// The classification is symmetric under the price mirror: the mirrored
/// candle (prices negated, so high and low swap) has the same body ratio
/// and the close position `1 - close_pos`; with these ratios, and where
/// `1 - close_pct_min` is exact, a long candle mirrors to a short one, a
/// short one to a long one, and neither to neither.
pub proof fn lemma_ratios_mirror(
    open: (int, int),
    close: (int, int),
    body_pct: (int, int),
    close_pos: (int, int),
    mirror_close_pos: (int, int),
    body_pct_min: (int, int),
    close_pct_min: (int, int),
)
    requires
        scale_ok(open),
        scale_ok(close),
        scale_ok(close_pos),
        scale_ok(mirror_close_pos),
        scale_ok(close_pct_min),
        scale_ok(sub_of(one_v(), close_pct_min)),
        dec_eq_spec(mirror_close_pos, exact_difference(one_v(), close_pos)),
        dec_eq_spec(sub_of(one_v(), close_pct_min), exact_difference(one_v(), close_pct_min)),
    ensures
        ratios_spec(neg_of(open), neg_of(close), body_pct, mirror_close_pos, body_pct_min, close_pct_min) == flip(
            ratios_spec(open, close, body_pct, close_pos, body_pct_min, close_pct_min),
        ),
{
    let s = MAX_SCALE as int;
    let bottom = sub_of(one_v(), close_pct_min);
    lemma_order_at(open, close, s);
    lemma_order_at(close, open, s);
    lemma_order_at(neg_of(open), neg_of(close), s);
    lemma_order_at(neg_of(close), neg_of(open), s);
    lemma_order_at(close_pct_min, close_pos, s);
    lemma_order_at(close_pos, bottom, s);
    lemma_order_at(close_pct_min, mirror_close_pos, s);
    lemma_order_at(mirror_close_pos, bottom, s);
    lemma_order_at(mirror_close_pos, exact_difference(one_v(), close_pos), s);
    lemma_order_at(bottom, exact_difference(one_v(), close_pct_min), s);
    lemma_exact_sum_at(one_v(), neg_of(close_pos), s);
    lemma_exact_sum_at(one_v(), neg_of(close_pct_min), s);
    assert(value_at(neg_of(open), s) == -value_at(open, s)) by (nonlinear_arith)
        requires
            neg_of(open).0 == -open.0,
            neg_of(open).1 == open.1,
    ;
    assert(value_at(neg_of(close), s) == -value_at(close, s)) by (nonlinear_arith)
        requires
            neg_of(close).0 == -close.0,
            neg_of(close).1 == close.1,
    ;
    assert(value_at(neg_of(close_pos), s) == -value_at(close_pos, s)) by (nonlinear_arith)
        requires
            neg_of(close_pos).0 == -close_pos.0,
            neg_of(close_pos).1 == close_pos.1,
    ;
    assert(value_at(neg_of(close_pct_min), s) == -value_at(close_pct_min, s)) by (nonlinear_arith)
        requires
            neg_of(close_pct_min).0 == -close_pct_min.0,
            neg_of(close_pct_min).1 == close_pct_min.1,
    ;
    assert(exact_difference(one_v(), close_pos) == exact_sum(one_v(), neg_of(close_pos)));
    assert(exact_difference(one_v(), close_pct_min) == exact_sum(one_v(), neg_of(close_pct_min)));
}

/// Every step of classifying `c` is exact: the range, the body and the
/// distance of the close from the low are exact differences, and (with a
/// range) the two ratios exact quotients; all values at scales
/// `rust_decimal` holds.
pub open spec fn momentum_exact(c: Candle) -> bool {
    &&& scale_ok(c.open@)
    &&& scale_ok(c.high@)
    &&& scale_ok(c.low@)
    &&& scale_ok(c.close@)
    &&& scale_ok(range_of(c))
    &&& dec_eq_spec(range_of(c), exact_difference(c.high@, c.low@))
    &&& scale_ok(sub_of(c.close@, c.open@))
    &&& dec_eq_spec(sub_of(c.close@, c.open@), exact_difference(c.close@, c.open@))
    &&& scale_ok(sub_of(c.close@, c.low@))
    &&& dec_eq_spec(sub_of(c.close@, c.low@), exact_difference(c.close@, c.low@))
    &&& scale_ok(body_pct_of(c))
    &&& scale_ok(close_pos_of(c))
    &&& (!dec_eq_spec(range_of(c), zero_v()) ==> {
        &&& quotient_is(body_pct_of(c), abs_of(sub_of(c.close@, c.open@)), range_of(c))
        &&& quotient_is(close_pos_of(c), sub_of(c.close@, c.low@), range_of(c))
    })
}

proof fn lemma_cancel(x: int, y: int, k: int)
    by (nonlinear_arith)
    requires
        k != 0,
        x * k == y * k,
    ensures
        x == y,
{
}

/// The classification of candles is symmetric under the price mirror
/// (prices negated, so high and low swap): where every step of both
/// classifications is exact, and `1 - close_pct_min` too, the mirror of a
/// long candle is short, of a short one long, and of neither neither.
pub proof fn lemma_momentum_mirror(c: Candle, m: Candle, body_pct_min: (int, int), close_pct_min: (int, int))
    requires
        m.open@ == neg_of(c.open@),
        m.close@ == neg_of(c.close@),
        m.high@ == neg_of(c.low@),
        m.low@ == neg_of(c.high@),
        momentum_exact(c),
        momentum_exact(m),
        scale_ok(body_pct_min),
        scale_ok(close_pct_min),
        scale_ok(sub_of(one_v(), close_pct_min)),
        dec_eq_spec(sub_of(one_v(), close_pct_min), exact_difference(one_v(), close_pct_min)),
    ensures
        momentum_spec(m, body_pct_min, close_pct_min) == flip(momentum_spec(c, body_pct_min, close_pct_min)),
{
    let s = MAX_SCALE as int;
    let p = pow10(s as nat);
    lemma_pow10_pos(s as nat);
    lemma_neg_at(c.open@, s);
    lemma_neg_at(c.close@, s);
    lemma_neg_at(c.high@, s);
    lemma_neg_at(c.low@, s);
    let rc = range_of(c);
    let rm = range_of(m);
    lemma_difference_value(rc, c.high@, c.low@);
    lemma_difference_value(rm, m.high@, m.low@);
    let vr = value_at(rc, s);
    assert(value_at(rm, s) == vr);
    lemma_order_at(rc, zero_v(), s);
    lemma_order_at(rm, zero_v(), s);
    assert(value_at(zero_v(), s) == 0 * p);
    assert(0 * p == 0);
    if vr != 0 {
        let dc = sub_of(c.close@, c.open@);
        let dm = sub_of(m.close@, m.open@);
        lemma_difference_value(dc, c.close@, c.open@);
        lemma_difference_value(dm, m.close@, m.open@);
        lemma_neg_at(dc, s);
        lemma_neg_at(dm, s);
        let bc = body_pct_of(c);
        let bm = body_pct_of(m);
        lemma_quotient_at(bc, abs_of(dc), rc, s);
        lemma_quotient_at(bm, abs_of(dm), rm, s);
        assert(value_at(abs_of(dm), s) == value_at(abs_of(dc), s));
        lemma_cancel(value_at(bm, s), value_at(bc, s), vr);
        lemma_order_at(bc, body_pct_min, s);
        lemma_order_at(bm, body_pct_min, s);
        let ac = sub_of(c.close@, c.low@);
        let am = sub_of(m.close@, m.low@);
        lemma_difference_value(ac, c.close@, c.low@);
        lemma_difference_value(am, m.close@, m.low@);
        let pc = close_pos_of(c);
        let pm = close_pos_of(m);
        lemma_quotient_at(pc, ac, rc, s);
        lemma_quotient_at(pm, am, rm, s);
        assert((value_at(pm, s) + value_at(pc, s)) * vr == p * vr) by (nonlinear_arith)
            requires
                value_at(pm, s) * vr == value_at(am, s) * p,
                value_at(pc, s) * vr == value_at(ac, s) * p,
                value_at(am, s) + value_at(ac, s) == vr,
        ;
        lemma_cancel(value_at(pm, s) + value_at(pc, s), p, vr);
        let e = exact_difference(one_v(), pc);
        lemma_exact_sum_at(one_v(), (-pc.0, pc.1), s);
        lemma_neg_at(pc, s);
        assert(value_at(one_v(), s) == 1 * p);
        assert(1 * p == p);
        lemma_order_at(pm, e, s);
        lemma_ratios_mirror(c.open@, c.close@, bc, pc, pm, body_pct_min, close_pct_min);
    }
}

pub(crate) fn momentum_core(c: &Candle, body_pct_min: Dec, close_pct_min: Dec) -> (r: Option<Option<Side>>)
    ensures
        r == (if momentum_ok(*c, body_pct_min@, close_pct_min@) {
            Some(momentum_spec(*c, body_pct_min@, close_pct_min@))
        } else {
            None
        }),
{
    let range = match checked_sub(c.high, c.low) {
        Some(v) => v,
        None => return None,
    };
    if eq_dec(range, Dec::zero()) {
        return Some(None);
    }
    let diff = match checked_sub(c.close, c.open) {
        Some(v) => v,
        None => return None,
    };
    let body_pct = match checked_div(diff.abs(), range) {
        Some(v) => v,
        None => return None,
    };
    if lt_dec(body_pct, body_pct_min) {
        return Some(None);
    }
    let above_low = match checked_sub(c.close, c.low) {
        Some(v) => v,
        None => return None,
    };
    let close_pos = match checked_div(above_low, range) {
        Some(v) => v,
        None => return None,
    };
    momentum_from_ratios(c.open, c.close, body_pct, close_pos, body_pct_min, close_pct_min)
}

/// Classify a candle as momentum (Long/Short) or None.
///
/// Criteria:
/// - body/range >= `body_pct_min` (e.g. 0.6 = 60% body)
/// - close is in the top `close_pct_min` fraction for bullish
///   (or bottom for bearish); e.g. 0.8 means close ≥ 80% of range from low
pub fn momentum_side(c: &Candle, body_pct_min: Dec, close_pct_min: Dec) -> (r: Option<Side>)
    requires
        momentum_ok(*c, body_pct_min@, close_pct_min@),
    ensures
        r == momentum_spec(*c, body_pct_min@, close_pct_min@),
{
    momentum_core(c, body_pct_min, close_pct_min).unwrap()
}

/// `momentum_side` where no step overflows; `None` where `rust_decimal` would
/// overflow.
pub fn try_momentum_side(c: &Candle, body_pct_min: Dec, close_pct_min: Dec) -> (r: Option<Option<Side>>)
    ensures
        r == (if momentum_ok(*c, body_pct_min@, close_pct_min@) {
            Some(momentum_spec(*c, body_pct_min@, close_pct_min@))
        } else {
            None
        }),
{
    match momentum_core(c, body_pct_min, close_pct_min) {
        None => None,
        Some(_) => Some(momentum_side(c, body_pct_min, close_pct_min)),
    }
}

/// A bullish classification needs a close above the open, a bearish one a
/// close below it, and a candle without range is never momentum.
pub proof fn lemma_momentum_direction(c: Candle, body_pct_min: (int, int), close_pct_min: (int, int))
    ensures
        momentum_spec(c, body_pct_min, close_pct_min) == Some(Side::Long) ==> dec_lt_spec(c.open@, c.close@),
        momentum_spec(c, body_pct_min, close_pct_min) == Some(Side::Short) ==> dec_lt_spec(c.close@, c.open@),
        dec_eq_spec(range_of(c), zero_v()) ==> momentum_spec(c, body_pct_min, close_pct_min) is None,
        momentum_spec(c, body_pct_min, close_pct_min) is Some ==> !dec_lt_spec(body_pct_of(c), body_pct_min),
{
}

/// What a momentum classification says of the candle's prices (read at 28
/// decimal places, for a candle whose high is above its low and where every
/// step of the classification is exact): the body is at least `body_pct_min`
/// of the range; a long closes at least `close_pct_min` of the range above
/// the low; a short closes at most `1 - close_pct_min` of the range above
/// the low (where that difference is exact too).
pub proof fn lemma_momentum_thresholds(c: Candle, body_pct_min: (int, int), close_pct_min: (int, int))
    requires
        momentum_exact(c),
        dec_lt_spec(c.low@, c.high@),
        scale_ok(body_pct_min),
        scale_ok(close_pct_min),
    ensures
        ({
            let m = MAX_SCALE as int;
            let p = pow10(m as nat);
            let range = value_at(c.high@, m) - value_at(c.low@, m);
            let body = value_at(c.close@, m) - value_at(c.open@, m);
            let above_low = value_at(c.close@, m) - value_at(c.low@, m);
            let side = momentum_spec(c, body_pct_min, close_pct_min);
            &&& side is Some ==> (if body < 0 {
                -body
            } else {
                body
            }) * p >= value_at(body_pct_min, m) * range
            &&& side == Some(Side::Long) ==> above_low * p >= value_at(close_pct_min, m) * range
            &&& side == Some(Side::Short) && scale_ok(sub_of(one_v(), close_pct_min)) && dec_eq_spec(
                sub_of(one_v(), close_pct_min),
                exact_difference(one_v(), close_pct_min),
            ) ==> above_low * p <= (p - value_at(close_pct_min, m)) * range
        }),
{
    let m = MAX_SCALE as int;
    let p = pow10(m as nat);
    lemma_pow10_pos(m as nat);
    let side = momentum_spec(c, body_pct_min, close_pct_min);
    if side is Some {
        let rg = range_of(c);
        let d = sub_of(c.close@, c.open@);
        let bp = body_pct_of(c);
        let cp = close_pos_of(c);
        let dl = sub_of(c.close@, c.low@);
        lemma_difference_value(rg, c.high@, c.low@);
        lemma_difference_value(d, c.close@, c.open@);
        lemma_difference_value(dl, c.close@, c.low@);
        lemma_neg_at(d, m);
        lemma_order_at(c.low@, c.high@, m);
        assert(!dec_eq_spec(rg, zero_v()));
        lemma_quotient_at(bp, abs_of(d), rg, m);
        lemma_quotient_at(cp, dl, rg, m);
        lemma_order_at(body_pct_min, bp, m);
        let (vbp, vr, va, vmin) = (value_at(bp, m), value_at(rg, m), value_at(abs_of(d), m), value_at(body_pct_min, m));
        assert(va * p >= vmin * vr) by (nonlinear_arith)
            requires
                vbp * vr == va * p,
                vbp >= vmin,
                vr > 0,
        ;
        let (vcp, vdl, vc) = (value_at(cp, m), value_at(dl, m), value_at(close_pct_min, m));
        if side == Some(Side::Long) {
            lemma_order_at(close_pct_min, cp, m);
            assert(vdl * p >= vc * vr) by (nonlinear_arith)
                requires
                    vcp * vr == vdl * p,
                    vcp >= vc,
                    vr > 0,
            ;
        }
        let om = sub_of(one_v(), close_pct_min);
        if side == Some(Side::Short) && scale_ok(om) && dec_eq_spec(om, exact_difference(one_v(), close_pct_min)) {
            lemma_difference_value(om, one_v(), close_pct_min);
            assert(value_at(one_v(), m) == p) by {
                assert(1 * pow10((m - 0) as nat) == p);
            }
            lemma_order_at(cp, om, m);
            let vom = value_at(om, m);
            assert(vdl * p <= (p - vc) * vr) by (nonlinear_arith)
                requires
                    vcp * vr == vdl * p,
                    vcp <= vom,
                    vom == p - vc,
                    vr > 0,
            ;
        }
    }
}

/// The gap a momentum candle leaves between `pre` and `post`, as
/// `(zone_low, zone_high)`: for a long one `post.low` must lie above
/// `pre.high`, for a short one `post.high` below `pre.low`.
pub open spec fn zone_of(side: Side, pre: Candle, post: Candle) -> Option<(Dec, Dec)> {
    match side {
        Side::Long => if dec_lt_spec(pre.high@, post.low@) {
            Some((pre.high, post.low))
        } else {
            None
        },
        Side::Short => if dec_lt_spec(post.high@, pre.low@) {
            Some((post.high, pre.low))
        } else {
            None
        },
    }
}

/// The number two.
pub open spec fn two_v() -> (int, int) {
    (2, 0)
}

/// The computation of `detect` overflows nowhere.
pub open spec fn detect_ok(
    pre: Candle,
    impulse: Candle,
    post: Candle,
    body_pct_min: (int, int),
    close_pct_min: (int, int),
    min_zone_size: (int, int),
    post_idx: int,
    expiry_candles: int,
) -> bool {
    &&& momentum_ok(impulse, body_pct_min, close_pct_min)
    &&& match momentum_spec(impulse, body_pct_min, close_pct_min) {
        None => true,
        Some(side) => match zone_of(side, pre, post) {
            None => true,
            Some(z) => {
                &&& sub_ok(z.1@, z.0@)
                &&& (!dec_lt_spec(sub_of(z.1@, z.0@), min_zone_size) ==> {
                    &&& add_ok(z.1@, z.0@)
                    &&& div_ok(add_of(z.1@, z.0@), two_v())
                    &&& post_idx + expiry_candles <= usize::MAX
                })
            },
        },
    }
}

/// What `detect` returns.
///
/// The impulse candle must be momentum, the gap between `pre` and `post`
/// must lie on its side and be at least `min_zone_size` wide; the entry is
/// the midpoint of the gap, the structural stop the impulse candle's far
/// extreme, and the setup expires `expiry_candles` bars after `post_idx`.
pub open spec fn detect_spec(
    r: Option<PendingFvg>,
    pre: Candle,
    impulse: Candle,
    post: Candle,
    body_pct_min: (int, int),
    close_pct_min: (int, int),
    min_zone_size: (int, int),
    post_idx: int,
    expiry_candles: int,
) -> bool {
    match momentum_spec(impulse, body_pct_min, close_pct_min) {
        None => r is None,
        Some(side) => match zone_of(side, pre, post) {
            None => r is None,
            Some(z) => if dec_lt_spec(sub_of(z.1@, z.0@), min_zone_size) {
                r is None
            } else {
                &&& r is Some
                &&& r.unwrap().side == side
                &&& r.unwrap().zone_low == z.0
                &&& r.unwrap().zone_high == z.1
                &&& r.unwrap().entry@ == div_of(add_of(z.1@, z.0@), two_v())
                &&& r.unwrap().impulse_sl == (match side {
                    Side::Long => impulse.low,
                    Side::Short => impulse.high,
                })
                &&& r.unwrap().expiry_idx == post_idx + expiry_candles
            },
        },
    }
}

/// The entry lies within one unit of its last place of the midpoint
/// `(zone_high + zone_low) / 2` of the gap.
pub open spec fn midpoint_fits(f: PendingFvg) -> bool {
    quotient_within_ulp(f.entry@, add_of(f.zone_high@, f.zone_low@), (2, 0))
}

pub(crate) fn detect_core(
    pre: &Candle,
    impulse: &Candle,
    post: &Candle,
    body_pct_min: Dec,
    close_pct_min: Dec,
    min_zone_size: Dec,
    post_idx: usize,
    expiry_candles: usize,
) -> (r: Option<Option<PendingFvg>>)
    ensures
        detect_ok(
            *pre,
            *impulse,
            *post,
            body_pct_min@,
            close_pct_min@,
            min_zone_size@,
            post_idx as int,
            expiry_candles as int,
        ) <==> r is Some,
        r is Some ==> detect_spec(
            r.unwrap(),
            *pre,
            *impulse,
            *post,
            body_pct_min@,
            close_pct_min@,
            min_zone_size@,
            post_idx as int,
            expiry_candles as int,
        ),
        r matches Some(Some(f)) ==> midpoint_fits(f),
{
    let side = match momentum_core(impulse, body_pct_min, close_pct_min) {
        None => return None,
        Some(None) => return Some(None),
        Some(Some(s)) => s,
    };
    let (zone_low, zone_high) = match side {
        Side::Long => {
            if lt_dec(pre.high, post.low) {
                (pre.high, post.low)
            } else {
                return Some(None);
            }
        },
        Side::Short => {
            if lt_dec(post.high, pre.low) {
                (post.high, pre.low)
            } else {
                return Some(None);
            }
        },
    };
    let width = match checked_sub(zone_high, zone_low) {
        Some(v) => v,
        None => return None,
    };
    if lt_dec(width, min_zone_size) {
        return Some(None);
    }
    let sum = match checked_add(zone_high, zone_low) {
        Some(v) => v,
        None => return None,
    };
    let entry = match checked_div(sum, Dec::from_u64(2)) {
        Some(v) => v,
        None => return None,
    };
    let impulse_sl = match side {
        Side::Long => impulse.low,
        Side::Short => impulse.high,
    };
    if post_idx > usize::MAX - expiry_candles {
        return None;
    }
    Some(
        Some(
            PendingFvg {
                side,
                zone_high,
                zone_low,
                entry,
                impulse_sl,
                expiry_idx: post_idx + expiry_candles,
            },
        ),
    )
}

/// Attempt to build a PendingFvg from three consecutive candles `[pre, impulse, post]`.
///
/// Rules:
/// - `impulse` must qualify as a momentum candle
/// - There must be a price gap between `pre` and `post` matching the momentum side
///   (bullish: post.low > pre.high; bearish: post.high < pre.low)
/// - FVG zone must be at least `min_zone_size` wide (rejects micro-gaps)
///
/// `post_idx` is the walk-forward index of `post` (used to set expiry).
pub fn detect(
    pre: &Candle,
    impulse: &Candle,
    post: &Candle,
    body_pct_min: Dec,
    close_pct_min: Dec,
    min_zone_size: Dec,
    post_idx: usize,
    expiry_candles: usize,
) -> (r: Option<PendingFvg>)
    requires
        detect_ok(
            *pre,
            *impulse,
            *post,
            body_pct_min@,
            close_pct_min@,
            min_zone_size@,
            post_idx as int,
            expiry_candles as int,
        ),
    ensures
        detect_spec(
            r,
            *pre,
            *impulse,
            *post,
            body_pct_min@,
            close_pct_min@,
            min_zone_size@,
            post_idx as int,
            expiry_candles as int,
        ),
        r matches Some(f) ==> midpoint_fits(f),
{
    detect_core(
        pre,
        impulse,
        post,
        body_pct_min,
        close_pct_min,
        min_zone_size,
        post_idx,
        expiry_candles,
    ).unwrap()
}

/// `detect` where no step overflows; `None` where `rust_decimal` (or the
/// expiry index) would overflow.
pub fn try_detect(
    pre: &Candle,
    impulse: &Candle,
    post: &Candle,
    body_pct_min: Dec,
    close_pct_min: Dec,
    min_zone_size: Dec,
    post_idx: usize,
    expiry_candles: usize,
) -> (r: Option<Option<PendingFvg>>)
    ensures
        detect_ok(
            *pre,
            *impulse,
            *post,
            body_pct_min@,
            close_pct_min@,
            min_zone_size@,
            post_idx as int,
            expiry_candles as int,
        ) <==> r is Some,
        r is Some ==> detect_spec(
            r.unwrap(),
            *pre,
            *impulse,
            *post,
            body_pct_min@,
            close_pct_min@,
            min_zone_size@,
            post_idx as int,
            expiry_candles as int,
        ),
        r matches Some(Some(f)) ==> midpoint_fits(f),
{
    match detect_core(
        pre,
        impulse,
        post,
        body_pct_min,
        close_pct_min,
        min_zone_size,
        post_idx,
        expiry_candles,
    ) {
        None => None,
        Some(_) => Some(
            detect(
                pre,
                impulse,
                post,
                body_pct_min,
                close_pct_min,
                min_zone_size,
                post_idx,
                expiry_candles,
            ),
        ),
    }
}

/// A detected setup follows the impulse candle's momentum, lies in a real
/// gap (long: `pre.high < post.low`, short: `post.high < pre.low`) bounded by
/// those two prices, and keeps the impulse extreme as its stop.
pub proof fn lemma_detect_gap(
    r: Option<PendingFvg>,
    pre: Candle,
    impulse: Candle,
    post: Candle,
    body_pct_min: (int, int),
    close_pct_min: (int, int),
    min_zone_size: (int, int),
    post_idx: int,
    expiry_candles: int,
)
    requires
        detect_spec(
            r,
            pre,
            impulse,
            post,
            body_pct_min,
            close_pct_min,
            min_zone_size,
            post_idx,
            expiry_candles,
        ),
        r is Some,
    ensures
        Some(r.unwrap().side) == momentum_spec(impulse, body_pct_min, close_pct_min),
        dec_lt_spec(r.unwrap().zone_low@, r.unwrap().zone_high@),
        !dec_lt_spec(sub_of(r.unwrap().zone_high@, r.unwrap().zone_low@), min_zone_size),
        r.unwrap().side == Side::Long ==> r.unwrap().zone_low == pre.high && r.unwrap().zone_high
            == post.low && r.unwrap().impulse_sl == impulse.low,
        r.unwrap().side == Side::Short ==> r.unwrap().zone_low == post.high
            && r.unwrap().zone_high == pre.low && r.unwrap().impulse_sl == impulse.high,
        r.unwrap().expiry_idx == post_idx + expiry_candles,
{
}

/// A detected gap is at least `min_zone_size` wide: `zone_high - zone_low
/// >= min_zone_size` (read at 28 decimal places, where the width is exact).
pub proof fn lemma_gap_width(
    r: Option<PendingFvg>,
    pre: Candle,
    impulse: Candle,
    post: Candle,
    body_pct_min: (int, int),
    close_pct_min: (int, int),
    min_zone_size: (int, int),
    post_idx: int,
    expiry_candles: int,
)
    requires
        detect_spec(
            r,
            pre,
            impulse,
            post,
            body_pct_min,
            close_pct_min,
            min_zone_size,
            post_idx,
            expiry_candles,
        ),
        r is Some,
        scale_ok(r.unwrap().zone_low@),
        scale_ok(r.unwrap().zone_high@),
        scale_ok(min_zone_size),
        scale_ok(sub_of(r.unwrap().zone_high@, r.unwrap().zone_low@)),
        dec_eq_spec(
            sub_of(r.unwrap().zone_high@, r.unwrap().zone_low@),
            exact_difference(r.unwrap().zone_high@, r.unwrap().zone_low@),
        ),
    ensures
        value_at(r.unwrap().zone_high@, MAX_SCALE as int) - value_at(r.unwrap().zone_low@, MAX_SCALE as int)
            >= value_at(min_zone_size, MAX_SCALE as int),
{
    let f = r.unwrap();
    lemma_detect_gap(
        r,
        pre,
        impulse,
        post,
        body_pct_min,
        close_pct_min,
        min_zone_size,
        post_idx,
        expiry_candles,
    );
    let w = sub_of(f.zone_high@, f.zone_low@);
    lemma_difference_value(w, f.zone_high@, f.zone_low@);
    lemma_order_at(w, min_zone_size, MAX_SCALE as int);
}

/// The entry of a detected setup is the midpoint of its gap: where the sum
/// of the gap's bounds and its halving are exact, `2 * entry == zone_low +
/// zone_high` (read at 28 decimal places), so the entry lies strictly
/// inside the gap.
pub proof fn lemma_entry_midpoint(
    r: Option<PendingFvg>,
    pre: Candle,
    impulse: Candle,
    post: Candle,
    body_pct_min: (int, int),
    close_pct_min: (int, int),
    min_zone_size: (int, int),
    post_idx: int,
    expiry_candles: int,
)
    requires
        detect_spec(
            r,
            pre,
            impulse,
            post,
            body_pct_min,
            close_pct_min,
            min_zone_size,
            post_idx,
            expiry_candles,
        ),
        r is Some,
        scale_ok(r.unwrap().zone_low@),
        scale_ok(r.unwrap().zone_high@),
        scale_ok(add_of(r.unwrap().zone_high@, r.unwrap().zone_low@)),
        dec_eq_spec(
            add_of(r.unwrap().zone_high@, r.unwrap().zone_low@),
            exact_sum(r.unwrap().zone_high@, r.unwrap().zone_low@),
        ),
        scale_ok(div_of(add_of(r.unwrap().zone_high@, r.unwrap().zone_low@), two_v())),
        quotient_is(
            div_of(add_of(r.unwrap().zone_high@, r.unwrap().zone_low@), two_v()),
            add_of(r.unwrap().zone_high@, r.unwrap().zone_low@),
            two_v(),
        ),
    ensures
        2 * value_at(r.unwrap().entry@, MAX_SCALE as int) == value_at(r.unwrap().zone_low@, MAX_SCALE as int)
            + value_at(r.unwrap().zone_high@, MAX_SCALE as int),
        dec_lt_spec(r.unwrap().zone_low@, r.unwrap().entry@),
        dec_lt_spec(r.unwrap().entry@, r.unwrap().zone_high@),
{
    let f = r.unwrap();
    let m = MAX_SCALE as int;
    let p = pow10(m as nat);
    lemma_pow10_pos(m as nat);
    lemma_detect_gap(
        r,
        pre,
        impulse,
        post,
        body_pct_min,
        close_pct_min,
        min_zone_size,
        post_idx,
        expiry_candles,
    );
    let (zl, zh) = (f.zone_low@, f.zone_high@);
    let sum = add_of(zh, zl);
    let q = div_of(sum, two_v());
    assert(f.entry@ == q);
    lemma_order_at(sum, exact_sum(zh, zl), m);
    lemma_exact_sum_at(zh, zl, m);
    lemma_quotient_at(q, sum, two_v(), m);
    assert(value_at(two_v(), m) == 2 * p);
    let (vq, vs, vl, vh) = (value_at(q, m), value_at(sum, m), value_at(zl, m), value_at(zh, m));
    assert(2 * vq == vs) by (nonlinear_arith)
        requires
            vq * (2 * p) == vs * p,
            p > 0,
    ;
    lemma_order_at(zl, zh, m);
    lemma_order_at(zl, q, m);
    lemma_order_at(q, zh, m);
}

/// The plain values of a gap setup.
pub struct FvgView {
    pub side: Side,
    pub zone_high: (int, int),
    pub zone_low: (int, int),
    pub entry: (int, int),
    pub impulse_sl: (int, int),
    pub expiry_idx: int,
}

pub open spec fn fvg_view(f: PendingFvg) -> FvgView {
    FvgView {
        side: f.side,
        zone_high: f.zone_high@,
        zone_low: f.zone_low@,
        entry: f.entry@,
        impulse_sl: f.impulse_sl@,
        expiry_idx: f.expiry_idx as int,
    }
}

pub open spec fn opt_fvg_view(f: Option<PendingFvg>) -> Option<FvgView> {
    match f {
        Some(x) => Some(fvg_view(x)),
        None => None,
    }
}

/// `detect_spec` as a function of the plain values.
pub open spec fn detect_view(
    pre: Candle,
    impulse: Candle,
    post: Candle,
    body_pct_min: (int, int),
    close_pct_min: (int, int),
    min_zone_size: (int, int),
    post_idx: int,
    expiry_candles: int,
) -> Option<FvgView> {
    match momentum_spec(impulse, body_pct_min, close_pct_min) {
        None => None,
        Some(side) => match zone_of(side, pre, post) {
            None => None,
            Some(z) => if dec_lt_spec(sub_of(z.1@, z.0@), min_zone_size) {
                None
            } else {
                Some(
                    FvgView {
                        side,
                        zone_high: z.1@,
                        zone_low: z.0@,
                        entry: div_of(add_of(z.1@, z.0@), two_v()),
                        impulse_sl: match side {
                            Side::Long => impulse.low@,
                            Side::Short => impulse.high@,
                        },
                        expiry_idx: post_idx + expiry_candles,
                    },
                )
            },
        },
    }
}

pub proof fn lemma_detect_view(
    r: Option<PendingFvg>,
    pre: Candle,
    impulse: Candle,
    post: Candle,
    body_pct_min: (int, int),
    close_pct_min: (int, int),
    min_zone_size: (int, int),
    post_idx: int,
    expiry_candles: int,
)
    requires
        detect_spec(
            r,
            pre,
            impulse,
            post,
            body_pct_min,
            close_pct_min,
            min_zone_size,
            post_idx,
            expiry_candles,
        ),
    ensures
        opt_fvg_view(r) == detect_view(
            pre,
            impulse,
            post,
            body_pct_min,
            close_pct_min,
            min_zone_size,
            post_idx,
            expiry_candles,
        ),
{
}

} // verus!
