//! Indicators, position sizing and fill prices.

use crate::decimal::{
    abs_of, add_ok, add_of, checked_add, checked_div, checked_mul, checked_sub, dec_eq_spec, dec_fmt_result,
    dec_floor_result, dec_le_spec, dec_lt_spec, div_ok, div_of, eq_dec, exact_difference, exact_sum, fits,
    floor_dec, format_dec, le_dec, lt_dec, max_dec, max_of, min_dec, min_of, mul_ok, mul_of, one_v, sub_ok,
    opt_dec_view, sub_of, zero_v, Dec,
};
use crate::decimal::{
    lemma_difference_value, lemma_exact_sum_at, lemma_le_refl, lemma_le_trans, lemma_order_at, lemma_pow10_add,
    lemma_pow10_pos, lemma_product_at, lemma_quotient_at, pow10, product_is, quotient_is, quotient_within_ulp,
    scale_ok, value_at, MAX_SCALE,
};
use crate::domain::{Candle, Side};
use vstd::prelude::*;
use vstd::string::StringExecFns;

verus! {

/// One smoothing step: `x * k + prev * (1 - k)`.
pub open spec fn smooth_next(prev: (int, int), x: (int, int), k: (int, int)) -> (int, int) {
    add_of(mul_of(x, k), mul_of(prev, sub_of(one_v(), k)))
}

/// The smoothing step overflows nowhere.
pub open spec fn smooth_step_ok(prev: (int, int), x: (int, int), k: (int, int)) -> bool {
    &&& mul_ok(x, k)
    &&& sub_ok(one_v(), k)
    &&& mul_ok(prev, sub_of(one_v(), k))
    &&& add_ok(mul_of(x, k), mul_of(prev, sub_of(one_v(), k)))
}

/// One smoothing step weighs the newest value by `k` and the previous
/// smoothed value by `1 - k`: where every product, the difference and the
/// sum are exact, `next == x * k + prev * (1 - k)` (read at 28 decimal
/// places, scaled once more by `10^28`).
pub proof fn lemma_smooth_step(prev: (int, int), x: (int, int), k: (int, int))
    requires
        scale_ok(prev),
        scale_ok(x),
        scale_ok(k),
        scale_ok(mul_of(x, k)),
        product_is(mul_of(x, k), x, k),
        scale_ok(sub_of(one_v(), k)),
        dec_eq_spec(sub_of(one_v(), k), exact_difference(one_v(), k)),
        scale_ok(mul_of(prev, sub_of(one_v(), k))),
        product_is(mul_of(prev, sub_of(one_v(), k)), prev, sub_of(one_v(), k)),
        scale_ok(smooth_next(prev, x, k)),
        dec_eq_spec(smooth_next(prev, x, k), exact_sum(mul_of(x, k), mul_of(prev, sub_of(one_v(), k)))),
    ensures
        value_at(smooth_next(prev, x, k), MAX_SCALE as int) * pow10(MAX_SCALE as nat) == value_at(x, MAX_SCALE as int)
            * value_at(k, MAX_SCALE as int) + value_at(prev, MAX_SCALE as int) * (pow10(MAX_SCALE as nat)
            - value_at(k, MAX_SCALE as int)),
{
    let m = MAX_SCALE as int;
    let p = pow10(m as nat);
    let a = mul_of(x, k);
    let om = sub_of(one_v(), k);
    let b = mul_of(prev, om);
    lemma_product_at(a, x, k, m);
    lemma_product_at(b, prev, om, m);
    lemma_difference_value(om, one_v(), k);
    assert(value_at(one_v(), m) == p) by {
        assert(1 * pow10((m - 0) as nat) == p);
    }
    lemma_order_at(smooth_next(prev, x, k), exact_sum(a, b), m);
    lemma_exact_sum_at(a, b, m);
    let (vn, va, vb, vx, vk, vp, vom) = (
        value_at(smooth_next(prev, x, k), m),
        value_at(a, m),
        value_at(b, m),
        value_at(x, m),
        value_at(k, m),
        value_at(prev, m),
        value_at(om, m),
    );
    assert(vn * p == vx * vk + vp * (p - vk)) by (nonlinear_arith)
        requires
            vn == va + vb,
            va * p == vx * vk,
            vb * p == vp * vom,
            vom == p - vk,
    ;
}

/// The smoothed value at index `i >= period - 1`: the seed at `period - 1`,
/// then one step per further element of `xs`.
pub open spec fn smooth_at(xs: Seq<(int, int)>, period: int, seed: (int, int), k: (int, int), i: int) -> (int, int)
    decreases i - (period - 1),
{
    if i <= period - 1 {
        seed
    } else {
        smooth_next(smooth_at(xs, period, seed, k, i - 1), xs[i], k)
    }
}

/// No smoothing step from `period` up to `i` overflows.
pub open spec fn smooth_ok_upto(xs: Seq<(int, int)>, period: int, seed: (int, int), k: (int, int), i: int) -> bool
    decreases i - (period - 1),
{
    if i <= period - 1 {
        true
    } else {
        smooth_ok_upto(xs, period, seed, k, i - 1) && smooth_step_ok(
            smooth_at(xs, period, seed, k, i - 1),
            xs[i],
            k,
        )
    }
}

proof fn lemma_smooth_ok_mono(xs: Seq<(int, int)>, period: int, seed: (int, int), k: (int, int), i: int, j: int)
    requires
        j <= i,
        smooth_ok_upto(xs, period, seed, k, i),
    ensures
        smooth_ok_upto(xs, period, seed, k, j),
    decreases i - j,
{
    if j < i && i > period - 1 {
        lemma_smooth_ok_mono(xs, period, seed, k, i - 1, j);
    }
}

/// The running sum of the first `j` elements, added one by one from zero
/// (`Iterator::sum`).
pub open spec fn sum_upto(xs: Seq<(int, int)>, j: int) -> (int, int)
    decreases j,
{
    if j <= 0 {
        zero_v()
    } else {
        add_of(sum_upto(xs, j - 1), xs[j - 1])
    }
}

/// None of the additions of `sum_upto(xs, j)` overflows.
pub open spec fn sum_ok_upto(xs: Seq<(int, int)>, j: int) -> bool
    decreases j,
{
    if j <= 0 {
        true
    } else {
        sum_ok_upto(xs, j - 1) && add_ok(sum_upto(xs, j - 1), xs[j - 1])
    }
}

proof fn lemma_sum_ok_mono(xs: Seq<(int, int)>, i: int, j: int)
    requires
        j <= i,
        sum_ok_upto(xs, i),
    ensures
        sum_ok_upto(xs, j),
    decreases i - j,
{
    if j < i && i > 0 {
        lemma_sum_ok_mono(xs, i - 1, j);
    }
}

/// The views of a sequence of decimals.
pub open spec fn views(xs: Seq<Dec>) -> Seq<(int, int)> {
    xs.map_values(|d: Dec| d@)
}

/// The seed: the mean of the first `period` values.
pub open spec fn seed_of(xs: Seq<(int, int)>, period: int) -> (int, int) {
    div_of(sum_upto(xs, period), (period, 0))
}

/// A series of `n` entries that is `None` before index `period - 1` and
/// holds `smooth_at` from there on (all `None` when `n < period`).
pub open spec fn smoothed_series(
    r: Seq<Option<Dec>>,
    xs: Seq<(int, int)>,
    n: int,
    period: int,
    k: (int, int),
) -> bool {
    &&& r.len() == n
    &&& n < period ==> forall|i: int| 0 <= i < n ==> r[i] is None
    &&& n >= period ==> {
        &&& forall|i: int| 0 <= i < period - 1 ==> r[i] is None
        &&& forall|i: int|
            period - 1 <= i < n ==> #[trigger] r[i] is Some && r[i].unwrap()@ == smooth_at(
                xs,
                period,
                seed_of(xs, period),
                k,
                i,
            )
    }
}

/// The ATR series: `None` at every index below `period` (and everywhere
/// when `n < period`), `smooth_at` from index `period` on.
pub open spec fn atr_series(r: Seq<Option<Dec>>, xs: Seq<(int, int)>, n: int, period: int, k: (int, int)) -> bool {
    &&& r.len() == n
    &&& forall|i: int| 0 <= i < n && (i < period || n < period) ==> r[i] is None
    &&& n >= period ==> forall|i: int|
        period <= i < n ==> #[trigger] r[i] is Some && r[i].unwrap()@ == smooth_at(
            xs,
            period,
            seed_of(xs, period),
            k,
            i,
        )
}

/// Everything that the seed and the smoothing of `xs` compute overflows
/// nowhere (the seed divides by `period`, so `period` must not be zero).
pub open spec fn smoothing_ok(xs: Seq<(int, int)>, period: int, k: (int, int)) -> bool {
    xs.len() >= period ==> {
        &&& period > 0
        &&& sum_ok_upto(xs, period)
        &&& div_ok(sum_upto(xs, period), (period, 0))
        &&& smooth_ok_upto(xs, period, seed_of(xs, period), k, xs.len() - 1)
    }
}

pub(crate) fn none_series(n: usize) -> (r: Vec<Option<Dec>>)
    ensures
        r@.len() == n,
        forall|i: int| 0 <= i < n ==> r@[i] is None,
{
    let mut out: Vec<Option<Dec>> = Vec::new();
    let mut i: usize = 0;
    while i < n
        invariant
            i <= n,
            out@.len() == i,
            forall|j: int| 0 <= j < i ==> out@[j] is None,
        decreases n - i,
    {
        out.push(None);
        i = i + 1;
    }
    out
}

/// Seeds with the mean of the first `period` values and smooths the rest
/// with factor `k`; `None` where a step overflows.
/// The seed lies within one unit of its last place of the mean `sum / period`
/// of the first `period` values.
pub open spec fn seed_fits(xs: Seq<(int, int)>, period: int) -> bool {
    quotient_within_ulp(seed_of(xs, period), sum_upto(xs, period), (period, 0))
}

/// Every running sum up to `j` is exact (at scales `rust_decimal` holds).
pub open spec fn sums_exact(xs: Seq<(int, int)>, j: int) -> bool
    decreases j,
{
    if j <= 0 {
        true
    } else {
        &&& sums_exact(xs, j - 1)
        &&& scale_ok(xs[j - 1])
        &&& scale_ok(sum_upto(xs, j))
        &&& dec_eq_spec(sum_upto(xs, j), exact_sum(sum_upto(xs, j - 1), xs[j - 1]))
    }
}

/// The sum of the values read at 28 decimal places, first `j` of them.
pub open spec fn value_sum(xs: Seq<(int, int)>, j: int) -> int
    decreases j,
{
    if j <= 0 {
        0
    } else {
        value_sum(xs, j - 1) + value_at(xs[j - 1], MAX_SCALE as int)
    }
}

/// The running sum is the sum of the values where every addition is exact.
pub proof fn lemma_sum_value(xs: Seq<(int, int)>, j: int)
    requires
        sums_exact(xs, j),
    ensures
        value_at(sum_upto(xs, j), MAX_SCALE as int) == value_sum(xs, j),
        scale_ok(sum_upto(xs, j)),
    decreases j,
{
    let m = MAX_SCALE as int;
    if j <= 0 {
        assert(value_at(zero_v(), m) == 0) by {
            assert(0 * pow10((m - 0) as nat) == 0) by (nonlinear_arith);
        }
    } else {
        lemma_sum_value(xs, j - 1);
        lemma_order_at(sum_upto(xs, j), exact_sum(sum_upto(xs, j - 1), xs[j - 1]), m);
        lemma_exact_sum_at(sum_upto(xs, j - 1), xs[j - 1], m);
    }
}

/// The seed of a smoothed series is the mean of its first `period` values:
/// where every addition and the division are exact, `seed * period` is
/// their sum (read at 28 decimal places).
pub proof fn lemma_seed_mean(xs: Seq<(int, int)>, period: int)
    requires
        0 < period,
        sums_exact(xs, period),
        scale_ok(div_of(sum_upto(xs, period), (period, 0))),
        quotient_is(div_of(sum_upto(xs, period), (period, 0)), sum_upto(xs, period), (period, 0)),
    ensures
        value_at(seed_of(xs, period), MAX_SCALE as int) * period == value_sum(xs, period),
{
    let m = MAX_SCALE as int;
    let p = pow10(m as nat);
    lemma_pow10_pos(m as nat);
    lemma_sum_value(xs, period);
    let q = div_of(sum_upto(xs, period), (period, 0));
    lemma_quotient_at(q, sum_upto(xs, period), (period, 0), m);
    assert(value_at((period, 0), m) == period * p);
    let (vq, vs) = (value_at(q, m), value_at(sum_upto(xs, period), m));
    assert(vq * period == vs) by (nonlinear_arith)
        requires
            vq * (period * p) == vs * p,
            p > 0,
    ;
}

fn smooth_series(xs: &Vec<Dec>, period: usize, k: Dec) -> (r: Option<Vec<Option<Dec>>>)
    requires
        0 < period <= xs@.len(),
    ensures
        r is Some <==> smoothing_ok(views(xs@), period as int, k@),
        r is Some ==> smoothed_series(r.unwrap()@, views(xs@), xs@.len() as int, period as int, k@),
        r is Some ==> seed_fits(views(xs@), period as int),
{
    let n = xs.len();
    let ghost v = views(xs@);
    let mut sum = Dec::zero();
    let mut j: usize = 0;
    while j < period
        invariant
            j <= period <= n == xs@.len(),
            v == views(xs@),
            sum@ == sum_upto(v, j as int),
            sum_ok_upto(v, j as int),
        decreases period - j,
    {
        assert(v[j as int] == xs@[j as int]@);
        sum = match checked_add(sum, xs[j]) {
            Some(t) => t,
            None => {
                proof {
                    if sum_ok_upto(v, period as int) {
                        lemma_sum_ok_mono(v, period as int, j + 1);
                    }
                }
                return None;
            },
        };
        j = j + 1;
    }
    let seed = match checked_div(sum, Dec::from_u64(period as u64)) {
        Some(t) => t,
        None => return None,
    };
    let mut out = none_series(n);
    out.set(period - 1, Some(seed));
    let mut value = seed;
    let mut i: usize = period;
    let ghost s = seed_of(v, period as int);
    assert(seed@ == s);
    while i < n
        invariant
            0 < period <= i <= n == xs@.len(),
            out@.len() == n,
            v == views(xs@),
            s == seed_of(v, period as int),
            sum_ok_upto(v, period as int),
            div_ok(sum_upto(v, period as int), (period as int, 0)),
            value@ == smooth_at(v, period as int, s, k@, i - 1),
            smooth_ok_upto(v, period as int, s, k@, i - 1),
            forall|m: int| 0 <= m < period - 1 ==> out@[m] is None,
            forall|m: int|
                period - 1 <= m < i ==> #[trigger] out@[m] is Some && out@[m].unwrap()@
                    == smooth_at(v, period as int, s, k@, m),
        decreases n - i,
    {
        assert(v[i as int] == xs@[i as int]@);
        proof {
            if smooth_ok_upto(v, period as int, s, k@, n - 1) {
                lemma_smooth_ok_mono(v, period as int, s, k@, n - 1, i as int);
            }
        }
        let ghost before = out@;
        let a = match checked_mul(xs[i], k) {
            Some(t) => t,
            None => return None,
        };
        let rest = match checked_sub(Dec::one(), k) {
            Some(t) => t,
            None => return None,
        };
        let b = match checked_mul(value, rest) {
            Some(t) => t,
            None => return None,
        };
        value = match checked_add(a, b) {
            Some(t) => t,
            None => return None,
        };
        assert(value@ == smooth_at(v, period as int, s, k@, i as int));
        out.set(i, Some(value));
        assert(forall|m: int| 0 <= m < n && m != i ==> out@[m] == before[m]);
        assert(out@[i as int] == Some(value));
        i = i + 1;
    }
    Some(out)
}

/// The EMA factor `2 / (period + 1)` as `rust_decimal` divides, with
/// `period + 1` truncated to `u32`.
pub open spec fn ema_factor(period: int) -> (int, int) {
    div_of((2, 0), (((period + 1) as u32) as int, 0))
}

/// `rolling_ema` overflows nowhere.
pub open spec fn ema_ok(prices: Seq<Dec>, period: int) -> bool {
    &&& period + 1 <= usize::MAX
    &&& div_ok((2, 0), (((period + 1) as u32) as int, 0))
    &&& smoothing_ok(views(prices), period, ema_factor(period))
}

/// The EMA factor lies within one unit of its last place of `2 / (period + 1)`
/// (with `period + 1` truncated to `u32`).
pub open spec fn ema_factor_fits(period: int) -> bool {
    quotient_within_ulp(ema_factor(period), (2, 0), (((period + 1) as u32) as int, 0))
}

/// The weight of the newest price in the EMA is `2 / (period + 1)`: where
/// `rust_decimal`'s quotient `2 / (period + 1)` lies within one unit of its
/// last place, so does the factor, `|k * (period + 1) - 2| <= (period + 1) *
/// 10^-scale(k)`; where that quotient is exact, `k * (period + 1) == 2`
/// (read at 28 decimal places).
pub proof fn lemma_ema_weight(period: int)
    requires
        0 < period,
        period + 1 <= u32::MAX,
        scale_ok(div_of((2, 0), (period + 1, 0))),
    ensures
        quotient_within_ulp(div_of((2, 0), (period + 1, 0)), (2, 0), (period + 1, 0)) ==> ema_factor_fits(period),
        quotient_within_ulp(div_of((2, 0), (period + 1, 0)), (2, 0), (period + 1, 0)) ==> {
            let k = ema_factor(period);
            let err = value_at(k, MAX_SCALE as int) * (period + 1) - 2 * pow10(MAX_SCALE as nat);
            let bound = (period + 1) * pow10((MAX_SCALE - k.1) as nat);
            -bound <= err <= bound
        },
        quotient_is(div_of((2, 0), (period + 1, 0)), (2, 0), (period + 1, 0)) ==> value_at(
            ema_factor(period),
            MAX_SCALE as int,
        ) * (period + 1) == 2 * pow10(MAX_SCALE as nat),
{
    let m = period + 1;
    assert(((period + 1) as u32) as int == m);
    let k = ema_factor(period);
    assert(k == div_of((2, 0), (m, 0)));
    let t = pow10((MAX_SCALE - k.1) as nat);
    let tk = pow10(k.1 as nat);
    let p = pow10(MAX_SCALE as nat);
    lemma_pow10_add((MAX_SCALE - k.1) as nat, k.1 as nat);
    assert(t * tk == p);
    lemma_pow10_pos((MAX_SCALE - k.1) as nat);
    assert(pow10(0) == 1);
    assert(pow10((0 + k.1) as nat) == tk);
    let k0 = k.0;
    if quotient_within_ulp(k, (2, 0), (m, 0)) {
        assert(-m <= k0 * m - 2 * tk <= m);
        assert(-(m * t) <= (k0 * t) * m - 2 * p <= m * t) by (nonlinear_arith)
            requires
                -m <= k0 * m - 2 * tk <= m,
                t * tk == p,
                t >= 1,
        ;
    }
    if quotient_is(k, (2, 0), (m, 0)) {
        assert(k0 * m == 2 * tk);
        assert((k0 * t) * m == 2 * p) by (nonlinear_arith)
            requires
                k0 * m == 2 * tk,
                t * tk == p,
        ;
    }
}

pub(crate) fn ema_core(prices: &Vec<Dec>, period: usize) -> (r: Option<Vec<Option<Dec>>>)
    ensures
        r is Some <==> ema_ok(prices@, period as int),
        r is Some ==> ema_factor_fits(period as int),
        r is Some && prices@.len() >= period ==> seed_fits(views(prices@), period as int),
        r is Some ==> smoothed_series(
            r.unwrap()@,
            views(prices@),
            prices@.len() as int,
            period as int,
            ema_factor(period as int),
        ),
{
    if period == usize::MAX {
        return None;
    }
    let k = match checked_div(
        Dec::from_u64(2),
        Dec::from_u64(#[verifier::truncate] ((period + 1) as u32) as u64),
    ) {
        Some(t) => t,
        None => return None,
    };
    if prices.len() < period {
        return Some(none_series(prices.len()));
    }
    if period == 0 {
        return None;
    }
    smooth_series(prices, period, k)
}

/// Exponential moving average of `prices`, seeded with the simple mean of
/// the first `period` prices.  Entry `i` is `None` for `i < period - 1` and
/// when there are fewer than `period` prices.
pub fn rolling_ema(prices: &Vec<Dec>, period: usize) -> (r: Vec<Option<Dec>>)
    requires
        ema_ok(prices@, period as int),
    ensures
        smoothed_series(r@, views(prices@), prices@.len() as int, period as int, ema_factor(period as int)),
        ema_factor_fits(period as int),
        prices@.len() >= period ==> seed_fits(views(prices@), period as int),
{
    ema_core(prices, period).unwrap()
}

/// `rolling_ema` where nothing overflows; `None` where `rust_decimal` would
/// overflow or divide by zero.
pub fn try_rolling_ema(prices: &Vec<Dec>, period: usize) -> (r: Option<Vec<Option<Dec>>>)
    ensures
        r is Some <==> ema_ok(prices@, period as int),
        r is Some ==> smoothed_series(
            r.unwrap()@,
            views(prices@),
            prices@.len() as int,
            period as int,
            ema_factor(period as int),
        ),
        r is Some ==> ema_factor_fits(period as int),
        r is Some && prices@.len() >= period ==> seed_fits(views(prices@), period as int),
{
    match ema_core(prices, period) {
        None => None,
        Some(_) => Some(rolling_ema(prices, period)),
    }
}

/// True range of candle `i`: high - low for the first candle, otherwise the
/// largest of high - low, |high - previous close| and |low - previous close|.
pub open spec fn true_range(cs: Seq<Candle>, i: int) -> (int, int) {
    let hl = sub_of(cs[i].high@, cs[i].low@);
    if i == 0 {
        hl
    } else {
        let pc = cs[i - 1].close@;
        max_of(max_of(hl, abs_of(sub_of(cs[i].high@, pc))), abs_of(sub_of(cs[i].low@, pc)))
    }
}

/// The true range of candle `i` is computed without overflow.
pub open spec fn true_range_ok(cs: Seq<Candle>, i: int) -> bool {
    &&& sub_ok(cs[i].high@, cs[i].low@)
    &&& i > 0 ==> sub_ok(cs[i].high@, cs[i - 1].close@) && sub_ok(cs[i].low@, cs[i - 1].close@)
}

/// The true ranges of all candles.
pub open spec fn true_ranges(cs: Seq<Candle>) -> Seq<(int, int)> {
    Seq::new(cs.len(), |i: int| true_range(cs, i))
}

/// The ATR factor `1 / period`.
pub open spec fn atr_factor(period: int) -> (int, int) {
    div_of(one_v(), (period, 0))
}

/// The ATR factor lies within one unit of its last place of `1 / period`.
pub open spec fn atr_factor_fits(period: int) -> bool {
    quotient_within_ulp(atr_factor(period), one_v(), (period, 0))
}

/// Each ATR step gives the newest true range the weight `1 / period`: where
/// `rust_decimal`'s quotient `1 / period` lies within one unit of its last
/// place, so does the factor; where it is exact, `k * period == 1` (read at
/// 28 decimal places).
pub proof fn lemma_atr_weight(period: int)
    requires
        0 < period,
        scale_ok(div_of(one_v(), (period, 0))),
    ensures
        quotient_within_ulp(div_of(one_v(), (period, 0)), one_v(), (period, 0)) ==> atr_factor_fits(period),
        quotient_is(div_of(one_v(), (period, 0)), one_v(), (period, 0)) ==> value_at(
            atr_factor(period),
            MAX_SCALE as int,
        ) * period == pow10(MAX_SCALE as nat),
{
    let k = atr_factor(period);
    let m = MAX_SCALE as int;
    let p = pow10(m as nat);
    if quotient_is(k, one_v(), (period, 0)) {
        lemma_quotient_at(k, one_v(), (period, 0), m);
        assert(value_at(one_v(), m) == p) by {
            assert(1 * pow10((m - 0) as nat) == p);
        }
        assert(value_at((period, 0), m) == period * p);
        lemma_pow10_pos(m as nat);
        let vk = value_at(k, m);
        assert(vk * period == p) by (nonlinear_arith)
            requires
                vk * (period * p) == p * p,
                p > 0,
        ;
    }
}

/// `rolling_atr` overflows nowhere.
pub open spec fn atr_ok(cs: Seq<Candle>, period: int) -> bool {
    cs.len() >= period ==> {
        &&& forall|i: int| 0 <= i < cs.len() ==> #[trigger] true_range_ok(cs, i)
        &&& div_ok(one_v(), (period, 0))
        &&& smoothing_ok(true_ranges(cs), period, atr_factor(period))
    }
}

fn atr_core(candles: &[Candle], period: usize) -> (r: Option<Vec<Option<Dec>>>)
    ensures
        r is Some <==> atr_ok(candles@, period as int),
        r is Some ==> atr_series(
            r.unwrap()@,
            true_ranges(candles@),
            candles@.len() as int,
            period as int,
            atr_factor(period as int),
        ),
        r is Some && candles@.len() >= period ==> atr_factor_fits(period as int),
        r is Some && candles@.len() >= period ==> seed_fits(true_ranges(candles@), period as int),
{
    let n = candles.len();
    if n < period {
        return Some(none_series(n));
    }
    let ghost cs = candles@;
    let mut trs: Vec<Dec> = Vec::new();
    let mut i: usize = 0;
    while i < n
        invariant
            i <= n == cs.len(),
            period <= n,
            cs == candles@,
            forall|j: int| 0 <= j < i ==> #[trigger] true_range_ok(cs, j),
            trs@.len() == i,
            forall|j: int| 0 <= j < i ==> #[trigger] trs@[j]@ == true_range(cs, j),
        decreases n - i,
    {
        let c = candles[i];
        let hl = match checked_sub(c.high, c.low) {
            Some(t) => t,
            None => {
                assert(!true_range_ok(cs, i as int));
                assert(!atr_ok(candles@, period as int));
                return None;
            },
        };
        let tr = if i == 0 {
            hl
        } else {
            let pc = candles[i - 1].close;
            let up = match checked_sub(c.high, pc) {
                Some(t) => t,
                None => {
                    assert(!true_range_ok(cs, i as int));
                assert(!atr_ok(candles@, period as int));
                    return None;
                },
            };
            let down = match checked_sub(c.low, pc) {
                Some(t) => t,
                None => {
                    assert(!true_range_ok(cs, i as int));
                assert(!atr_ok(candles@, period as int));
                    return None;
                },
            };
            max_dec(max_dec(hl, up.abs()), down.abs())
        };
        assert(true_range_ok(cs, i as int));
        trs.push(tr);
        i = i + 1;
    }
    assert(views(trs@) =~= true_ranges(cs));
    if period == 0 {
        return None;
    }
    let k = match checked_div(Dec::one(), Dec::from_u64(period as u64)) {
        Some(t) => t,
        None => return None,
    };
    let mut out = smooth_series(&trs, period, k)?;
    // the seed at index `period - 1` is not reported
    out.set(period - 1, None);
    Some(out)
}

/// Wilder's RMA-smoothed ATR(period). Returns None for indices < period.
pub fn rolling_atr(candles: &[Candle], period: usize) -> (r: Vec<Option<Dec>>)
    requires
        atr_ok(candles@, period as int),
    ensures
        atr_series(r@, true_ranges(candles@), candles@.len() as int, period as int, atr_factor(period as int)),
        candles@.len() >= period ==> atr_factor_fits(period as int),
        candles@.len() >= period ==> seed_fits(true_ranges(candles@), period as int),
{
    atr_core(candles, period).unwrap()
}

/// `rolling_atr` where nothing overflows; `None` where `rust_decimal` would
/// overflow or divide by zero.
pub fn try_rolling_atr(candles: &[Candle], period: usize) -> (r: Option<Vec<Option<Dec>>>)
    ensures
        r is Some <==> atr_ok(candles@, period as int),
        r is Some ==> atr_series(
            r.unwrap()@,
            true_ranges(candles@),
            candles@.len() as int,
            period as int,
            atr_factor(period as int),
        ),
        r is Some && candles@.len() >= period ==> atr_factor_fits(period as int),
        r is Some && candles@.len() >= period ==> seed_fits(true_ranges(candles@), period as int),
{
    match atr_core(candles, period) {
        None => None,
        Some(_) => Some(rolling_atr(candles, period)),
    }
}

/// Lots for a risk of `balance * risk_pct` over `sl_distance`:
/// `floor(raw / vol_step) * vol_step` with
/// `raw = (balance * risk_pct) / (sl_distance * value_per_lot)`.
pub open spec fn raw_volume(
    balance: (int, int),
    risk_pct: (int, int),
    sl_distance: (int, int),
    value_per_lot: (int, int),
) -> (int, int) {
    div_of(mul_of(balance, risk_pct), mul_of(sl_distance, value_per_lot))
}

/// The volume rounded down to a whole number of steps.
pub open spec fn stepped_volume(
    balance: (int, int),
    risk_pct: (int, int),
    sl_distance: (int, int),
    value_per_lot: (int, int),
    vol_step: (int, int),
) -> (int, int) {
    mul_of(
        dec_floor_result(div_of(raw_volume(balance, risk_pct, sl_distance, value_per_lot), vol_step)),
        vol_step,
    )
}

/// `size_position` overflows nowhere and never divides by zero.
pub open spec fn size_ok(
    balance: (int, int),
    risk_pct: (int, int),
    sl_distance: (int, int),
    value_per_lot: (int, int),
    vol_step: (int, int),
) -> bool {
    !dec_eq_spec(sl_distance, zero_v()) ==> {
        &&& mul_ok(balance, risk_pct)
        &&& mul_ok(sl_distance, value_per_lot)
        &&& div_ok(mul_of(balance, risk_pct), mul_of(sl_distance, value_per_lot))
        &&& div_ok(raw_volume(balance, risk_pct, sl_distance, value_per_lot), vol_step)
        &&& mul_ok(
            dec_floor_result(div_of(raw_volume(balance, risk_pct, sl_distance, value_per_lot), vol_step)),
            vol_step,
        )
    }
}

/// What `size_position` returns: nothing for a zero stop distance or a
/// volume below `min_vol`, otherwise the stepped volume capped at `max_vol`.
pub open spec fn size_spec(
    r: Option<Dec>,
    balance: (int, int),
    risk_pct: (int, int),
    sl_distance: (int, int),
    value_per_lot: (int, int),
    vol_step: (int, int),
    min_vol: (int, int),
    max_vol: (int, int),
) -> bool {
    let volume = stepped_volume(balance, risk_pct, sl_distance, value_per_lot, vol_step);
    if dec_eq_spec(sl_distance, zero_v()) {
        r is None
    } else if dec_lt_spec(volume, min_vol) {
        r is None
    } else {
        r is Some && r.unwrap()@ == min_of(volume, max_vol)
    }
}

/// The lot size once the number of volume steps is known: whole steps
/// only (`floor(steps) * vol_step`), refused below `min_vol`, capped at
/// `max_vol`.
pub open spec fn steps_volume_spec(steps: (int, int), vol_step: (int, int), min_vol: (int, int), max_vol: (int, int)) -> Option<(int, int)> {
    let volume = mul_of(dec_floor_result(steps), vol_step);
    if dec_lt_spec(volume, min_vol) {
        None
    } else {
        Some(min_of(volume, max_vol))
    }
}

/// The lot size from the number of volume steps `steps` (the quotient of
/// the raw volume by `vol_step`), as `steps_volume_spec`; `None` where the
/// product overflows.
pub fn volume_from_steps(steps: Dec, vol_step: Dec, min_vol: Dec, max_vol: Dec) -> (r: Option<Option<Dec>>)
    ensures
        r is Some <==> mul_ok(dec_floor_result(steps@), vol_step@),
        r matches Some(o) ==> opt_dec_view(o) == steps_volume_spec(steps@, vol_step@, min_vol@, max_vol@),
{
    let volume = checked_mul(floor_dec(steps), vol_step)?;
    if lt_dec(volume, min_vol) {
        return Some(None);
    }
    Some(Some(min_dec(volume, max_vol)))
}

pub(crate) fn size_core(
    balance: Dec,
    risk_pct: Dec,
    sl_distance: Dec,
    value_per_lot: Dec,
    vol_step: Dec,
    min_vol: Dec,
    max_vol: Dec,
) -> (r: Option<Option<Dec>>)
    ensures
        r is Some <==> size_ok(balance@, risk_pct@, sl_distance@, value_per_lot@, vol_step@),
        r is Some ==> size_spec(
            r.unwrap(),
            balance@,
            risk_pct@,
            sl_distance@,
            value_per_lot@,
            vol_step@,
            min_vol@,
            max_vol@,
        ),
{
    if eq_dec(sl_distance, Dec::zero()) {
        return Some(None);
    }
    let risk = match checked_mul(balance, risk_pct) {
        Some(t) => t,
        None => return None,
    };
    let per_lot = match checked_mul(sl_distance, value_per_lot) {
        Some(t) => t,
        None => return None,
    };
    let raw = match checked_div(risk, per_lot) {
        Some(t) => t,
        None => return None,
    };
    let steps = match checked_div(raw, vol_step) {
        Some(t) => t,
        None => return None,
    };
    volume_from_steps(steps, vol_step, min_vol, max_vol)
}

/// Lot size for risking `risk_pct` of `balance` over a stop `sl_distance`
/// away, rounded down to `vol_step`, refused below `min_vol` and capped at
/// `max_vol`.
pub fn size_position(
    balance: Dec,
    risk_pct: Dec,
    sl_distance: Dec,
    value_per_lot: Dec,
    vol_step: Dec,
    min_vol: Dec,
    max_vol: Dec,
) -> (r: Option<Dec>)
    requires
        size_ok(balance@, risk_pct@, sl_distance@, value_per_lot@, vol_step@),
    ensures
        size_spec(r, balance@, risk_pct@, sl_distance@, value_per_lot@, vol_step@, min_vol@, max_vol@),
{
    size_core(balance, risk_pct, sl_distance, value_per_lot, vol_step, min_vol, max_vol).unwrap()
}

/// `size_position` where nothing overflows; `None` where `rust_decimal`
/// would overflow or divide by zero.
pub fn try_size_position(
    balance: Dec,
    risk_pct: Dec,
    sl_distance: Dec,
    value_per_lot: Dec,
    vol_step: Dec,
    min_vol: Dec,
    max_vol: Dec,
) -> (r: Option<Option<Dec>>)
    ensures
        r is Some <==> size_ok(balance@, risk_pct@, sl_distance@, value_per_lot@, vol_step@),
        r is Some ==> size_spec(
            r.unwrap(),
            balance@,
            risk_pct@,
            sl_distance@,
            value_per_lot@,
            vol_step@,
            min_vol@,
            max_vol@,
        ),
{
    match size_core(balance, risk_pct, sl_distance, value_per_lot, vol_step, min_vol, max_vol) {
        None => None,
        Some(_) => Some(
            size_position(balance, risk_pct, sl_distance, value_per_lot, vol_step, min_vol, max_vol),
        ),
    }
}

/// A sized position never exceeds `max_vol`, and is at least `min_vol`
/// unless it is `max_vol` itself; a zero stop distance is never sized.
pub proof fn lemma_size_bounds(
    r: Option<Dec>,
    balance: (int, int),
    risk_pct: (int, int),
    sl_distance: (int, int),
    value_per_lot: (int, int),
    vol_step: (int, int),
    min_vol: (int, int),
    max_vol: (int, int),
)
    requires
        size_spec(r, balance, risk_pct, sl_distance, value_per_lot, vol_step, min_vol, max_vol),
    ensures
        dec_eq_spec(sl_distance, zero_v()) ==> r is None,
        r is Some ==> dec_le_spec(r.unwrap()@, max_vol),
        r is Some ==> r.unwrap()@ == max_vol || dec_le_spec(min_vol, r.unwrap()@),
{
}

/// Every step of `size_position` is exact: the two products, the two
/// quotients and the final product, with the floor at most the step count
/// (all values at scales `rust_decimal` holds).
pub open spec fn size_exact(
    balance: (int, int),
    risk_pct: (int, int),
    sl_distance: (int, int),
    value_per_lot: (int, int),
    vol_step: (int, int),
) -> bool {
    let risk = mul_of(balance, risk_pct);
    let per_lot = mul_of(sl_distance, value_per_lot);
    let raw = raw_volume(balance, risk_pct, sl_distance, value_per_lot);
    let steps = div_of(raw, vol_step);
    let whole = dec_floor_result(steps);
    let volume = stepped_volume(balance, risk_pct, sl_distance, value_per_lot, vol_step);
    &&& scale_ok(balance) && scale_ok(risk_pct) && scale_ok(sl_distance) && scale_ok(value_per_lot)
    &&& scale_ok(vol_step) && scale_ok(risk) && scale_ok(per_lot) && scale_ok(raw) && scale_ok(steps)
    &&& scale_ok(whole) && scale_ok(volume)
    &&& product_is(risk, balance, risk_pct)
    &&& product_is(per_lot, sl_distance, value_per_lot)
    &&& quotient_is(raw, risk, per_lot)
    &&& quotient_is(steps, raw, vol_step)
    &&& dec_le_spec(whole, steps)
    &&& product_is(volume, whole, vol_step)
}

/// A sized position never risks more than `risk_pct` of the balance: with
/// a positive volume step and a positive stop distance times lot value,
/// and where no step of the sizing rounds, `volume * sl_distance *
/// value_per_lot <= balance * risk_pct` (read at 28 decimal places).
pub proof fn lemma_size_risk(
    balance: (int, int),
    risk_pct: (int, int),
    sl_distance: (int, int),
    value_per_lot: (int, int),
    vol_step: (int, int),
    min_vol: (int, int),
    max_vol: (int, int),
    x: (int, int),
)
    requires
        size_view(balance, risk_pct, sl_distance, value_per_lot, vol_step, min_vol, max_vol) == Some(x),
        scale_ok(max_vol),
        dec_lt_spec(zero_v(), vol_step),
        dec_lt_spec(zero_v(), mul_of(sl_distance, value_per_lot)),
        size_exact(balance, risk_pct, sl_distance, value_per_lot, vol_step),
    ensures
        value_at(x, MAX_SCALE as int) * value_at(sl_distance, MAX_SCALE as int) * value_at(value_per_lot, MAX_SCALE as int)
            <= value_at(balance, MAX_SCALE as int) * value_at(risk_pct, MAX_SCALE as int) * pow10(MAX_SCALE as nat),
{
    let s = MAX_SCALE as int;
    let p = pow10(s as nat);
    lemma_pow10_pos(s as nat);
    let risk = mul_of(balance, risk_pct);
    let per_lot = mul_of(sl_distance, value_per_lot);
    let raw = raw_volume(balance, risk_pct, sl_distance, value_per_lot);
    let steps = div_of(raw, vol_step);
    let whole = dec_floor_result(steps);
    let volume = stepped_volume(balance, risk_pct, sl_distance, value_per_lot, vol_step);
    lemma_product_at(risk, balance, risk_pct, s);
    lemma_product_at(per_lot, sl_distance, value_per_lot, s);
    lemma_quotient_at(raw, risk, per_lot, s);
    lemma_quotient_at(steps, raw, vol_step, s);
    lemma_product_at(volume, whole, vol_step, s);
    lemma_order_at(whole, steps, s);
    lemma_order_at(zero_v(), vol_step, s);
    lemma_order_at(zero_v(), per_lot, s);
    assert(value_at(zero_v(), s) == 0 * pow10((s - 0) as nat));
    assert(0 * pow10((s - 0) as nat) == 0);
    // the result is at most the stepped volume
    lemma_order_at(volume, max_vol, s);
    lemma_order_at(max_vol, volume, s);
    assert(x == min_of(volume, max_vol));
    assert(value_at(x, s) <= value_at(volume, s));
    let (vx, vsl, vv, vb, vri) = (
        value_at(x, s),
        value_at(sl_distance, s),
        value_at(value_per_lot, s),
        value_at(balance, s),
        value_at(risk_pct, s),
    );
    let (vr, vp, vraw, vst, vw, vstep, vvol) = (
        value_at(risk, s),
        value_at(per_lot, s),
        value_at(raw, s),
        value_at(steps, s),
        value_at(whole, s),
        value_at(vol_step, s),
        value_at(volume, s),
    );
    assert(vvol <= vraw) by (nonlinear_arith)
        requires
            vvol * p == vw * vstep,
            vw <= vst,
            vstep > 0,
            vst * vstep == vraw * p,
            p > 0,
    ;
    assert(vx * vp <= vraw * vp) by (nonlinear_arith)
        requires
            vx <= vvol,
            vvol <= vraw,
            vp > 0,
    ;
    assert(vx * vsl * vv == vx * vp * p) by (nonlinear_arith)
        requires
            vp * p == vsl * vv,
    ;
    assert(vx * vp * p <= vraw * vp * p) by (nonlinear_arith)
        requires
            vx * vp <= vraw * vp,
            p > 0,
    ;
    assert(vraw * vp * p == vb * vri * p) by (nonlinear_arith)
        requires
            vraw * vp == vr * p,
            vr * p == vb * vri,
    ;
}

/// A sized position is at most one volume step short of the full risk:
/// unless it is capped at `max_vol`, `(volume + vol_step) * sl_distance *
/// value_per_lot > balance * risk_pct` (read at 28 decimal places, where
/// no step of the sizing rounds and the floor is `rust_decimal`'s).
pub proof fn lemma_size_near_risk(
    balance: (int, int),
    risk_pct: (int, int),
    sl_distance: (int, int),
    value_per_lot: (int, int),
    vol_step: (int, int),
    min_vol: (int, int),
    max_vol: (int, int),
    x: (int, int),
)
    requires
        size_view(balance, risk_pct, sl_distance, value_per_lot, vol_step, min_vol, max_vol) == Some(x),
        scale_ok(max_vol),
        dec_lt_spec(zero_v(), vol_step),
        dec_lt_spec(zero_v(), mul_of(sl_distance, value_per_lot)),
        size_exact(balance, risk_pct, sl_distance, value_per_lot, vol_step),
        dec_eq_spec(
            dec_floor_result(div_of(raw_volume(balance, risk_pct, sl_distance, value_per_lot), vol_step)),
            (div_of(raw_volume(balance, risk_pct, sl_distance, value_per_lot), vol_step).0 / pow10(
                div_of(raw_volume(balance, risk_pct, sl_distance, value_per_lot), vol_step).1 as nat,
            ), 0),
        ),
    ensures
        x == max_vol || (value_at(x, MAX_SCALE as int) + value_at(vol_step, MAX_SCALE as int)) * value_at(
            sl_distance,
            MAX_SCALE as int,
        ) * value_at(value_per_lot, MAX_SCALE as int) > value_at(balance, MAX_SCALE as int) * value_at(
            risk_pct,
            MAX_SCALE as int,
        ) * pow10(MAX_SCALE as nat),
{
    let s = MAX_SCALE as int;
    let p = pow10(s as nat);
    lemma_pow10_pos(s as nat);
    let risk = mul_of(balance, risk_pct);
    let per_lot = mul_of(sl_distance, value_per_lot);
    let raw = raw_volume(balance, risk_pct, sl_distance, value_per_lot);
    let steps = div_of(raw, vol_step);
    let whole = dec_floor_result(steps);
    let volume = stepped_volume(balance, risk_pct, sl_distance, value_per_lot, vol_step);
    if x != max_vol {
        assert(x == volume);
        lemma_product_at(risk, balance, risk_pct, s);
        lemma_product_at(per_lot, sl_distance, value_per_lot, s);
        lemma_quotient_at(raw, risk, per_lot, s);
        lemma_quotient_at(steps, raw, vol_step, s);
        lemma_product_at(volume, whole, vol_step, s);
        assert(value_at(zero_v(), s) == 0) by {
            assert(0 * pow10((s - 0) as nat) == 0) by (nonlinear_arith);
        }
        lemma_order_at(zero_v(), vol_step, s);
        lemma_order_at(zero_v(), per_lot, s);
        // the floor is more than the step count less one
        let fl = (steps.0 / pow10(steps.1 as nat), 0int);
        lemma_order_at(whole, fl, s);
        let ts = pow10(steps.1 as nat);
        let us = pow10((s - steps.1) as nat);
        lemma_pow10_pos(steps.1 as nat);
        lemma_pow10_pos((s - steps.1) as nat);
        lemma_pow10_add((s - steps.1) as nat, steps.1 as nat);
        assert(us * ts == p);
        let q = steps.0 / ts;
        assert(q * ts > steps.0 - ts) by (nonlinear_arith)
            requires
                ts > 0,
                q == steps.0 / ts,
        ;
        assert(value_at(fl, s) == q * p);
        assert(value_at(steps, s) == steps.0 * us);
        let (vw, vst) = (value_at(whole, s), value_at(steps, s));
        assert(vw > vst - p) by (nonlinear_arith)
            requires
                vw == q * p,
                vst == steps.0 * us,
                q * ts > steps.0 - ts,
                us * ts == p,
                us > 0,
        {
            assert(q * ts * us > (steps.0 - ts) * us);
        }
        let (vx, vsl, vv, vb, vri) = (
            value_at(x, s),
            value_at(sl_distance, s),
            value_at(value_per_lot, s),
            value_at(balance, s),
            value_at(risk_pct, s),
        );
        let (vr, vp, vraw, vstep, vvol) = (
            value_at(risk, s),
            value_at(per_lot, s),
            value_at(raw, s),
            value_at(vol_step, s),
            value_at(volume, s),
        );
        assert(vvol + vstep > vraw) by (nonlinear_arith)
            requires
                vvol * p == vw * vstep,
                vw > vst - p,
                vstep > 0,
                vst * vstep == vraw * p,
                p > 0,
        {
            assert(vw * vstep > (vst - p) * vstep);
        }
        assert((vx + vstep) * vp > vraw * vp) by (nonlinear_arith)
            requires
                vx == vvol,
                vvol + vstep > vraw,
                vp > 0,
        ;
        assert((vx + vstep) * vsl * vv == (vx + vstep) * vp * p) by (nonlinear_arith)
            requires
                vp * p == vsl * vv,
        ;
        assert((vx + vstep) * vp * p > vraw * vp * p) by (nonlinear_arith)
            requires
                (vx + vstep) * vp > vraw * vp,
                p > 0,
        ;
        assert(vraw * vp * p == vb * vri * p) by (nonlinear_arith)
            requires
                vraw * vp == vr * p,
                vr * p == vb * vri,
        ;
    }
}

/// Price at which an entry at `level` actually fills: a long buys at the
/// ask, `level + spread`; a short sells at the bid, `level`.
pub open spec fn entry_spec(side: Side, level: (int, int), spread: (int, int)) -> (int, int) {
    match side {
        Side::Long => add_of(level, spread),
        Side::Short => level,
    }
}

/// `actual_entry` does not overflow.
pub open spec fn entry_ok(side: Side, level: (int, int), spread: (int, int)) -> bool {
    side == Side::Long ==> add_ok(level, spread)
}

pub(crate) fn entry_core(side: Side, level: Dec, spread: Dec) -> (r: Option<Dec>)
    ensures
        r is Some <==> entry_ok(side, level@, spread@),
        r is Some ==> r.unwrap()@ == entry_spec(side, level@, spread@),
        r is Some && side == Side::Long && fits(exact_sum(level@, spread@)) ==> dec_eq_spec(
            r.unwrap()@,
            exact_sum(level@, spread@),
        ),
{
    match side {
        Side::Long => checked_add(level, spread),
        Side::Short => Some(level),
    }
}

/// The fill price of an entry at `level`: a long pays the spread, a short
/// fills at the level.  Where the exact sum fits, a long fills at exactly
/// `level + spread`.
pub fn actual_entry(side: Side, level: Dec, spread: Dec) -> (r: Dec)
    requires
        entry_ok(side, level@, spread@),
    ensures
        r@ == entry_spec(side, level@, spread@),
        side == Side::Long && fits(exact_sum(level@, spread@)) ==> dec_eq_spec(
            r@,
            exact_sum(level@, spread@),
        ),
{
    entry_core(side, level, spread).unwrap()
}

/// `actual_entry` where the addition does not overflow, `None` otherwise.
pub fn try_actual_entry(side: Side, level: Dec, spread: Dec) -> (r: Option<Dec>)
    ensures
        r is Some <==> entry_ok(side, level@, spread@),
        r is Some ==> r.unwrap()@ == entry_spec(side, level@, spread@),
{
    match entry_core(side, level, spread) {
        None => None,
        Some(_) => Some(actual_entry(side, level, spread)),
    }
}

/// Price at which an exit at `level` actually fills: a long sells at the
/// bid, less `slip` on a stop; a short buys back at the ask,
/// `level + spread`, plus `slip` on a stop.
pub open spec fn exit_spec(side: Side, level: (int, int), is_sl: bool, spread: (int, int), slip: (int, int)) -> (int, int) {
    match side {
        Side::Long => if is_sl {
            sub_of(level, slip)
        } else {
            level
        },
        Side::Short => if is_sl {
            add_of(add_of(level, spread), slip)
        } else {
            add_of(level, spread)
        },
    }
}

/// `actual_exit` does not overflow.
pub open spec fn exit_ok(side: Side, level: (int, int), is_sl: bool, spread: (int, int), slip: (int, int)) -> bool {
    match side {
        Side::Long => is_sl ==> sub_ok(level, slip),
        Side::Short => add_ok(level, spread) && (is_sl ==> add_ok(add_of(level, spread), slip)),
    }
}

/// Costs never favour the trader: with a non-negative spread and slippage,
/// a long exits at or below the level and a short at or above it.
pub open spec fn exit_costs_against(side: Side, level: (int, int), r: (int, int)) -> bool {
    match side {
        Side::Long => dec_le_spec(r, level),
        Side::Short => dec_le_spec(level, r),
    }
}

pub(crate) fn exit_core(side: Side, level: Dec, is_sl: bool, spread: Dec, slip: Dec) -> (r: Option<Dec>)
    ensures
        r is Some <==> exit_ok(side, level@, is_sl, spread@, slip@),
        r is Some ==> r.unwrap()@ == exit_spec(side, level@, is_sl, spread@, slip@),
        r is Some && side == Side::Long && is_sl && fits(exact_difference(level@, slip@))
            ==> dec_eq_spec(r.unwrap()@, exact_difference(level@, slip@)),
        r is Some && side == Side::Short && !is_sl && fits(exact_sum(level@, spread@))
            ==> dec_eq_spec(r.unwrap()@, exact_sum(level@, spread@)),
        r is Some && dec_le_spec(zero_v(), spread@) && dec_le_spec(zero_v(), slip@) ==> exit_costs_against(
            side,
            level@,
            r.unwrap()@,
        ),
{
    proof {
        lemma_le_refl(level@);
    }
    match side {
        Side::Long => {
            if is_sl {
                checked_sub(level, slip)
            } else {
                Some(level)
            }
        },
        Side::Short => {
            let ask = match checked_add(level, spread) {
                Some(t) => t,
                None => return None,
            };
            if is_sl {
                let r = checked_add(ask, slip);
                proof {
                    if let Some(v) = r {
                        if dec_le_spec(zero_v(), spread@) && dec_le_spec(zero_v(), slip@) {
                            lemma_le_trans(level@, ask@, v@);
                        }
                    }
                }
                r
            } else {
                Some(ask)
            }
        },
    }
}

/// The fill price of an exit at `level` (see `exit_spec`).  Where the exact
/// values fit, a long stop fills at exactly `level - slip` and a short
/// target at exactly `level + spread`.
pub fn actual_exit(side: Side, level: Dec, is_sl: bool, spread: Dec, slip: Dec) -> (r: Dec)
    requires
        exit_ok(side, level@, is_sl, spread@, slip@),
    ensures
        r@ == exit_spec(side, level@, is_sl, spread@, slip@),
        side == Side::Long && is_sl && fits(exact_difference(level@, slip@)) ==> dec_eq_spec(
            r@,
            exact_difference(level@, slip@),
        ),
        side == Side::Short && !is_sl && fits(exact_sum(level@, spread@)) ==> dec_eq_spec(
            r@,
            exact_sum(level@, spread@),
        ),
        dec_le_spec(zero_v(), spread@) && dec_le_spec(zero_v(), slip@) ==> exit_costs_against(
            side,
            level@,
            r@,
        ),
{
    exit_core(side, level, is_sl, spread, slip).unwrap()
}

/// `actual_exit` where no addition or subtraction overflows, `None`
/// otherwise.
pub fn try_actual_exit(side: Side, level: Dec, is_sl: bool, spread: Dec, slip: Dec) -> (r: Option<Dec>)
    ensures
        r is Some <==> exit_ok(side, level@, is_sl, spread@, slip@),
        r is Some ==> r.unwrap()@ == exit_spec(side, level@, is_sl, spread@, slip@),
        r is Some && dec_le_spec(zero_v(), spread@) && dec_le_spec(zero_v(), slip@) ==> exit_costs_against(
            side,
            level@,
            r.unwrap()@,
        ),
{
    match exit_core(side, level, is_sl, spread, slip) {
        None => None,
        Some(_) => Some(actual_exit(side, level, is_sl, spread, slip)),
    }
}

/// A price written with `prec` decimal places.
pub fn fmt_price(d: Dec, prec: usize) -> (r: String)
    ensures
        r@ == dec_fmt_result(d@, prec as int),
{
    format_dec(d, prec)
}

/// A profit or loss with two decimal places, with a leading `+` when it is
/// not negative.
pub fn fmt_pnl(pnl: Dec) -> (r: String)
    ensures
        dec_le_spec(zero_v(), pnl@) ==> r@ == seq!['+'] + dec_fmt_result(pnl@, 2),
        !dec_le_spec(zero_v(), pnl@) ==> r@ == dec_fmt_result(pnl@, 2),
{
    let body = format_dec(pnl, 2);
    if le_dec(Dec::zero(), pnl) {
        let mut out = <String as StringExecFns>::from_str("+");
        proof {
            reveal_strlit("+");
        }
        out.append(body.as_str());
        out
    } else {
        body
    }
}

/// `size_spec` as a function of the plain values.
pub open spec fn size_view(
    balance: (int, int),
    risk_pct: (int, int),
    sl_distance: (int, int),
    value_per_lot: (int, int),
    vol_step: (int, int),
    min_vol: (int, int),
    max_vol: (int, int),
) -> Option<(int, int)> {
    let volume = stepped_volume(balance, risk_pct, sl_distance, value_per_lot, vol_step);
    if dec_eq_spec(sl_distance, zero_v()) {
        None
    } else if dec_lt_spec(volume, min_vol) {
        None
    } else {
        Some(min_of(volume, max_vol))
    }
}

/// The smoothed series as plain values (see `smoothed_series`).
pub open spec fn series_view(xs: Seq<(int, int)>, n: int, period: int, k: (int, int)) -> Seq<Option<(int, int)>> {
    Seq::new(
        n as nat,
        |i: int|
            if n < period || i < period - 1 {
                None
            } else {
                Some(smooth_at(xs, period, seed_of(xs, period), k, i))
            },
    )
}

} // verus!
