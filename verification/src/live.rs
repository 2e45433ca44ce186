//! The decisions of the live trading loop.  Fetching positions, orders,
//! candles and the account, placing and cancelling orders, and notifying
//! happen around these functions; each function here takes what was fetched
//! and says what to do next.

use crate::backtest::{
    dist_of, ema_exec, ema_values, ema_values_ok, lemma_stop_beyond_impulse, opt_view, pip_of, shift_exact,
    sl_of, tp_of, SymbolSpec,
};
use crate::decimal::{
    dec_floor_result, dec_le_spec, exact_difference, exact_sum, lemma_difference_value, lemma_exact_sum_at,
    lemma_neg_at, lemma_order_at, lemma_pow10_pos, lemma_product_at, lemma_quotient_at, pow10, product_is,
    quotient_is, quotient_within_ulp, scale_ok, value_at, MAX_SCALE,
};
use crate::decimal::{
    abs_of, add_ok, add_of, checked_add, checked_div, checked_mul, checked_sub, dec_eq_spec, dec_lt_spec,
    div_ok, div_of, eq_dec, lt_dec, mul_ok, mul_of, sub_of, sub_ok, zero_v, Dec,
};
use crate::detector::{detect_core, detect_ok, detect_view, lemma_detect_view, momentum_spec, FvgView};
use crate::domain::{minutes_of, timeframe_minutes, Candle, Deal, Side, Timeframe};
use crate::helpers::{
    lemma_size_near_risk, lemma_size_risk, raw_volume, size_core, size_exact, size_ok, size_spec, size_view,
};
use crate::mt5::{limit_type_of, opt_text_is, TradeRequest, ACTION_PENDING};
use crate::sse::SsePosition;
use crate::text::str_eq;
use vstd::prelude::*;

verus! {

/// Magic number that marks the bot's own orders and positions.
pub const MAGIC: u64 = 19730u64;

/// Number of candles fetched per poll.
pub const CANDLE_FETCH: u32 = 100u32;

/// Trade server return code of an accepted request (`TRADE_RETCODE_DONE`).
pub const RETCODE_DONE: u32 = 10009u32;

/// Telegram destination for trade notifications.
#[derive(Clone, Debug)]
pub struct TelegramConfig {
    pub token: String,
    pub chat_id: i64,
    pub thread_id: Option<i64>,
}

/// Settings of the live loop for one symbol.
#[derive(Clone, Debug)]
pub struct LiveConfig {
    pub symbol: String,
    pub timeframe: Timeframe,
    pub risk_pct: Dec,
    pub body_pct_min: Dec,
    pub close_pct_min: Dec,
    pub fvg_expiry_candles: usize,
    pub min_fvg_pips: Dec,
    pub min_sl_pips: Dec,
    pub sl_buffer: Dec,
    pub min_rr: Dec,
    pub slippage_points: Dec,
    pub spread_override: Option<Dec>,
    pub ema_period: usize,
    pub poll_secs: u64,
    pub mt5_base_url: String,
    pub telegram: Option<TelegramConfig>,
}

/// An open position as the trading account reports it.
#[derive(Clone, Debug)]
pub struct Position {
    pub ticket: u64,
    pub symbol: String,
    pub magic: u64,
    pub side: Side,
    pub volume: Dec,
    pub price_open: Dec,
    pub sl: Dec,
    pub tp: Dec,
}

/// A pending order as the trading account reports it.
#[derive(Clone, Debug)]
pub struct OrderRef {
    pub ticket: u64,
    pub symbol: String,
    pub magic: u64,
}

/// Whether a position belongs to the bot on `symbol`.
pub open spec fn own_position(p: Position, symbol: Seq<char>) -> bool {
    p.symbol@ == symbol && p.magic == MAGIC
}

/// The index of the first position of the bot on `symbol`, if any.  The
/// loop does nothing else while such a position is open.
pub fn find_own_position(positions: &Vec<Position>, symbol: &str) -> (r: Option<usize>)
    ensures
        r is None ==> forall|j: int| 0 <= j < positions@.len() ==> !own_position(#[trigger] positions@[j], symbol@),
        r matches Some(k) ==> k < positions@.len() && own_position(positions@[k as int], symbol@)
            && forall|j: int| 0 <= j < k ==> !own_position(#[trigger] positions@[j], symbol@),
{
    let mut i: usize = 0;
    while i < positions.len()
        invariant
            i <= positions@.len(),
            forall|j: int| 0 <= j < i ==> !own_position(#[trigger] positions@[j], symbol@),
        decreases positions@.len() - i,
    {
        if str_eq(positions[i].symbol.as_str(), symbol) && positions[i].magic == MAGIC {
            return Some(i);
        }
        i = i + 1;
    }
    None
}

/// What a poll attends to.
#[derive(Clone, Copy, Debug, PartialEq, Eq, Structural)]
pub enum TickPhase {
    /// The bot holds the position at this index: record it if needed and
    /// do nothing else.
    PositionOpen(usize),
    /// No position, but a pending order is recorded: manage that order.
    ManagePending,
    /// Neither: look for a new setup.
    LookForSetup,
}

/// The phase of a poll: an open position of the bot comes first, then a
/// recorded pending order; only with neither does the poll look for a new
/// setup, so no order is placed while either exists.
pub fn tick_phase(positions: &Vec<Position>, symbol: &str, has_pending_record: bool) -> (r: TickPhase)
    ensures
        (exists|j: int| 0 <= j < positions@.len() && own_position(#[trigger] positions@[j], symbol@)) ==> (r
            matches TickPhase::PositionOpen(k) && k < positions@.len() && own_position(positions@[k as int], symbol@)
            && forall|j: int| 0 <= j < k ==> !own_position(#[trigger] positions@[j], symbol@)),
        !(exists|j: int| 0 <= j < positions@.len() && own_position(#[trigger] positions@[j], symbol@)) ==> r == (
        if has_pending_record {
            TickPhase::ManagePending
        } else {
            TickPhase::LookForSetup
        }),
{
    match find_own_position(positions, symbol) {
        Some(k) => TickPhase::PositionOpen(k),
        None => if has_pending_record {
            TickPhase::ManagePending
        } else {
            TickPhase::LookForSetup
        },
    }
}

/// Whether the bot's pending order `ticket` is still among `orders`.
pub fn order_still_pending(orders: &Vec<OrderRef>, ticket: u64) -> (r: bool)
    ensures
        r == exists|j: int| 0 <= j < orders@.len() && #[trigger] orders@[j].ticket == ticket && orders@[j].magic == MAGIC,
{
    let mut i: usize = 0;
    while i < orders.len()
        invariant
            i <= orders@.len(),
            forall|j: int| 0 <= j < i ==> !(#[trigger] orders@[j].ticket == ticket && orders@[j].magic == MAGIC),
        decreases orders@.len() - i,
    {
        if orders[i].ticket == ticket && orders[i].magic == MAGIC {
            return true;
        }
        i = i + 1;
    }
    false
}

/// What to do about the bot's recorded pending order.
#[derive(Clone, Copy, Debug, PartialEq, Eq, Structural)]
pub enum PendingAction {
    /// The order is still pending and not expired: keep waiting.
    Wait,
    /// The order is still pending but its setup expired: cancel it, then
    /// forget it.
    CancelExpired,
    /// The order is gone from the terminal while the bot holds no position
    /// (a poll only manages a recorded order then, see `tick_phase`): taken
    /// as cancelled outside the bot.  Forget it and announce the
    /// cancellation.  (An order that filled and closed between two polls,
    /// without the event stream reporting it, looks the same.)
    CancelledElsewhere,
}

/// The decision on a recorded pending order, given whether it is still
/// pending and the current and expiry instants (in any common unit).
pub fn pending_action(still_pending: bool, now: i64, expires_at: i64) -> (r: PendingAction)
    ensures
        still_pending && now < expires_at ==> r == PendingAction::Wait,
        still_pending && now >= expires_at ==> r == PendingAction::CancelExpired,
        !still_pending ==> r == PendingAction::CancelledElsewhere,
{
    if still_pending {
        if now < expires_at {
            PendingAction::Wait
        } else {
            PendingAction::CancelExpired
        }
    } else {
        PendingAction::CancelledElsewhere
    }
}

/// Whether the trade server accepted a request.
pub fn order_accepted(retcode: u32) -> (r: bool)
    ensures
        r == (retcode == RETCODE_DONE),
{
    retcode == RETCODE_DONE
}

/// Minutes until a placed order's setup expires: the candle period times
/// the number of expiry candles (the count taken as `i64`).
pub open spec fn expiry_minutes_of(tf: Timeframe, expiry_candles: usize) -> int {
    minutes_of(tf) * ((expiry_candles as i64) as int)
}

/// Expiry of a placed order in minutes, `None` where it overflows `i64`.
pub fn expiry_minutes(tf: Timeframe, expiry_candles: usize) -> (r: Option<i64>)
    ensures
        r is Some <==> i64::MIN <= expiry_minutes_of(tf, expiry_candles) <= i64::MAX,
        r matches Some(m) ==> m == expiry_minutes_of(tf, expiry_candles),
{
    let m = timeframe_minutes(tf);
    let k: i64 = #[verifier::truncate] (expiry_candles as i64);
    m.checked_mul(k)
}


// ── price levels ─────────────────────────────────────────────────────────────

/// Price levels of the live loop for one symbol: a pip, the smallest stop
/// distance and gap width, the slippage and the spread, all in price units.
#[derive(Clone, Copy, Debug)]
pub struct LiveLevels {
    pub pip: Dec,
    pub min_sl: Dec,
    pub min_zone: Dec,
    pub slip: Dec,
    pub spread: Dec,
}

pub struct LevelsView {
    pub pip: (int, int),
    pub min_sl: (int, int),
    pub min_zone: (int, int),
    pub slip: (int, int),
    pub spread: (int, int),
}

pub open spec fn levels_view(l: LiveLevels) -> LevelsView {
    LevelsView {
        pip: l.pip@,
        min_sl: l.min_sl@,
        min_zone: l.min_zone@,
        slip: l.slip@,
        spread: l.spread@,
    }
}

/// The levels: a pip is ten points for symbols quoted with an odd number of
/// digits; stop and gap minimums are given in pips, slippage in points; the
/// spread is the override, else the symbol's spread in points.
pub open spec fn levels_of(sym: SymbolSpec, cfg: LiveConfig) -> LevelsView {
    LevelsView {
        pip: pip_of(sym),
        min_sl: mul_of(cfg.min_sl_pips@, pip_of(sym)),
        min_zone: mul_of(cfg.min_fvg_pips@, pip_of(sym)),
        slip: mul_of(cfg.slippage_points@, sym.point@),
        spread: match cfg.spread_override {
            Some(d) => d@,
            None => mul_of((sym.spread as int, 0), sym.point@),
        },
    }
}

/// No product of `levels_of` overflows.
pub open spec fn levels_ok(sym: SymbolSpec, cfg: LiveConfig) -> bool {
    &&& (sym.digits % 2 == 1 ==> mul_ok(sym.point@, (10, 0)))
    &&& mul_ok(cfg.min_sl_pips@, pip_of(sym))
    &&& mul_ok(cfg.min_fvg_pips@, pip_of(sym))
    &&& mul_ok(cfg.slippage_points@, sym.point@)
    &&& (cfg.spread_override is None ==> mul_ok((sym.spread as int, 0), sym.point@))
}

/// The levels are what their settings say, in price units (read at 28
/// decimal places, where each product is exact): the stop minimum is
/// `min_sl_pips` pips, the gap minimum `min_fvg_pips` pips, the slippage
/// `slippage_points` points, and without an override the spread is the
/// symbol's spread in points.
pub proof fn lemma_levels(sym: SymbolSpec, cfg: LiveConfig)
    requires
        scale_ok(pip_of(sym)),
        scale_ok(sym.point@),
    ensures
        ({
            let l = levels_of(sym, cfg);
            let m = MAX_SCALE as int;
            let p = pow10(m as nat);
            &&& scale_ok(cfg.min_sl_pips@) && scale_ok(mul_of(cfg.min_sl_pips@, pip_of(sym))) && product_is(
                mul_of(cfg.min_sl_pips@, pip_of(sym)),
                cfg.min_sl_pips@,
                pip_of(sym),
            ) ==> value_at(l.min_sl, m) * p == value_at(cfg.min_sl_pips@, m) * value_at(pip_of(sym), m)
            &&& scale_ok(cfg.min_fvg_pips@) && scale_ok(mul_of(cfg.min_fvg_pips@, pip_of(sym))) && product_is(
                mul_of(cfg.min_fvg_pips@, pip_of(sym)),
                cfg.min_fvg_pips@,
                pip_of(sym),
            ) ==> value_at(l.min_zone, m) * p == value_at(cfg.min_fvg_pips@, m) * value_at(pip_of(sym), m)
            &&& scale_ok(cfg.slippage_points@) && scale_ok(mul_of(cfg.slippage_points@, sym.point@)) && product_is(
                mul_of(cfg.slippage_points@, sym.point@),
                cfg.slippage_points@,
                sym.point@,
            ) ==> value_at(l.slip, m) * p == value_at(cfg.slippage_points@, m) * value_at(sym.point@, m)
            &&& cfg.spread_override matches Some(d) ==> l.spread == d@
            &&& cfg.spread_override is None && scale_ok((sym.spread as int, 0)) && scale_ok(
                mul_of((sym.spread as int, 0), sym.point@),
            ) && product_is(mul_of((sym.spread as int, 0), sym.point@), (sym.spread as int, 0), sym.point@)
                ==> value_at(l.spread, m) == sym.spread * value_at(sym.point@, m)
        }),
{
    let m = MAX_SCALE as int;
    let p = pow10(m as nat);
    lemma_pow10_pos(m as nat);
    let pip = pip_of(sym);
    let a = mul_of(cfg.min_sl_pips@, pip);
    if scale_ok(cfg.min_sl_pips@) && scale_ok(a) && product_is(a, cfg.min_sl_pips@, pip) {
        lemma_product_at(a, cfg.min_sl_pips@, pip, m);
    }
    let b = mul_of(cfg.min_fvg_pips@, pip);
    if scale_ok(cfg.min_fvg_pips@) && scale_ok(b) && product_is(b, cfg.min_fvg_pips@, pip) {
        lemma_product_at(b, cfg.min_fvg_pips@, pip, m);
    }
    let c = mul_of(cfg.slippage_points@, sym.point@);
    if scale_ok(cfg.slippage_points@) && scale_ok(c) && product_is(c, cfg.slippage_points@, sym.point@) {
        lemma_product_at(c, cfg.slippage_points@, sym.point@, m);
    }
    let sp = (sym.spread as int, 0);
    let d = mul_of(sp, sym.point@);
    if cfg.spread_override is None && scale_ok(sp) && scale_ok(d) && product_is(d, sp, sym.point@) {
        lemma_product_at(d, sp, sym.point@, m);
        assert(value_at(sp, m) == sym.spread * p);
        let (vd, vpt) = (value_at(d, m), value_at(sym.point@, m));
        let n = sym.spread as int;
        assert(vd == n * vpt) by (nonlinear_arith)
            requires
                vd * p == (n * p) * vpt,
                p > 0,
        ;
    }
}

/// The price levels of a symbol; `None` where a product overflows.
pub fn live_levels(sym: &SymbolSpec, cfg: &LiveConfig) -> (r: Option<LiveLevels>)
    ensures
        r is Some <==> levels_ok(*sym, *cfg),
        r matches Some(l) ==> levels_view(l) == levels_of(*sym, *cfg),
{
    let pip = if sym.digits % 2 == 1 {
        checked_mul(sym.point, Dec::from_u64(10))?
    } else {
        sym.point
    };
    let min_sl = checked_mul(cfg.min_sl_pips, pip)?;
    let min_zone = checked_mul(cfg.min_fvg_pips, pip)?;
    let slip = checked_mul(cfg.slippage_points, sym.point)?;
    let spread = match cfg.spread_override {
        Some(d) => d,
        None => checked_mul(Dec::from_i64(sym.spread), sym.point)?,
    };
    Some(LiveLevels { pip, min_sl, min_zone, slip, spread })
}

// ── a new setup ──────────────────────────────────────────────────────────────

/// A limit order to place: side, entry, stop, target and the stop distance.
#[derive(Clone, Copy, Debug)]
pub struct Setup {
    pub side: Side,
    pub entry: Dec,
    pub sl: Dec,
    pub tp: Dec,
    pub sl_dist: Dec,
}

pub struct SetupView {
    pub side: Side,
    pub entry: (int, int),
    pub sl: (int, int),
    pub tp: (int, int),
    pub sl_dist: (int, int),
}

pub open spec fn setup_view(s: Setup) -> SetupView {
    SetupView { side: s.side, entry: s.entry@, sl: s.sl@, tp: s.tp@, sl_dist: s.sl_dist@ }
}

pub open spec fn opt_setup_view(s: Option<Setup>) -> Option<SetupView> {
    match s {
        Some(v) => Some(setup_view(v)),
        None => None,
    }
}

/// Whether an EMA is computed: a positive period no longer than the
/// candles fetched.
pub open spec fn ema_on(cs: Seq<Candle>, period: int) -> bool {
    period > 0 && cs.len() >= period
}

/// The close of the last closed candle (`cs[n - 2]`) beside a trend level:
/// a long needs the close above it, a short below.
pub open spec fn beside_level(side: Side, close: (int, int), level: (int, int)) -> bool {
    match side {
        Side::Long => dec_lt_spec(level, close),
        Side::Short => dec_lt_spec(close, level),
    }
}

/// The trend filter on the last closed candle (`cs[n - 2]`).  A period of
/// zero disables it.  With a positive period and at least that many
/// candles, the close must lie beside the EMA there (no EMA value there
/// means no trade); with fewer candles than the period, the level is zero.
pub open spec fn live_ema_pass(cs: Seq<Candle>, period: int, side: Side) -> bool {
    let n = cs.len() as int;
    if period == 0 {
        true
    } else if ema_on(cs, period) {
        match ema_values(cs, period)[n - 2] {
            Some(e) => beside_level(side, cs[n - 2].close@, e),
            None => false,
        }
    } else {
        beside_level(side, cs[n - 2].close@, zero_v())
    }
}

/// The live trend filter judges the last closed candle's close: a period
/// of zero lets every setup through; with at least `period` candles a long
/// needs that close above the EMA there and a short below it (no EMA value
/// there: no trade); with fewer candles a long needs a positive close and a
/// short a negative one.
pub proof fn lemma_live_trend(cs: Seq<Candle>, period: int, side: Side)
    requires
        period >= 0,
    ensures
        ({
            let n = cs.len() as int;
            let close = cs[n - 2].close@;
            let level_ok = |e: (int, int)|
                match side {
                    Side::Long => dec_lt_spec(e, close),
                    Side::Short => dec_lt_spec(close, e),
                };
            &&& period == 0 ==> live_ema_pass(cs, period, side)
            &&& period > 0 && n >= period ==> (live_ema_pass(cs, period, side) <==> (ema_values(cs, period)[n
                - 2] matches Some(e) && level_ok(e)))
            &&& period > 0 && n < period ==> (live_ema_pass(cs, period, side) <==> level_ok((0, 0)))
        }),
{
}

/// The gap setup of the last three closed candles, if any: the candles at
/// `n - 4`, `n - 3` and `n - 2` (the candle at `n - 1` is still forming).
pub open spec fn live_fvg(cs: Seq<Candle>, cfg: LiveConfig, min_zone: (int, int)) -> Option<FvgView> {
    let n = cs.len() as int;
    detect_view(
        cs[n - 4],
        cs[n - 3],
        cs[n - 2],
        cfg.body_pct_min@,
        cfg.close_pct_min@,
        min_zone,
        n - 4,
        cfg.fvg_expiry_candles as int,
    )
}

/// What a poll without position or pending order decides: with at least
/// five candles, a gap setup on the last closed candles that passes the
/// trend filter and whose stop lies at least `min_sl` from the entry gives a
/// limit order at the gap's midpoint, the stop beyond the impulse candle by
/// the buffer and the target `min_rr` stop distances away.
pub open spec fn plan_spec(cs: Seq<Candle>, cfg: LiveConfig, min_zone: (int, int), min_sl: (int, int)) -> Option<SetupView> {
    if cs.len() < 5 {
        None
    } else {
        match live_fvg(cs, cfg, min_zone) {
            None => None,
            Some(f) => if !live_ema_pass(cs, cfg.ema_period as int, f.side) {
                None
            } else if dec_lt_spec(dist_of(f, cfg.sl_buffer@), min_sl) {
                None
            } else {
                Some(
                    SetupView {
                        side: f.side,
                        entry: f.entry,
                        sl: sl_of(f, cfg.sl_buffer@),
                        tp: tp_of(f, dist_of(f, cfg.sl_buffer@), cfg.min_rr@),
                        sl_dist: dist_of(f, cfg.sl_buffer@),
                    },
                )
            },
        }
    }
}

/// No decimal step of `plan_spec` overflows.
pub open spec fn plan_ok(cs: Seq<Candle>, cfg: LiveConfig, min_zone: (int, int), min_sl: (int, int)) -> bool {
    let n = cs.len() as int;
    cs.len() >= 5 ==> {
        &&& detect_ok(
            cs[n - 4],
            cs[n - 3],
            cs[n - 2],
            cfg.body_pct_min@,
            cfg.close_pct_min@,
            min_zone,
            n - 4,
            cfg.fvg_expiry_candles as int,
        )
        &&& (live_fvg(cs, cfg, min_zone) matches Some(f) ==> {
            &&& (ema_on(cs, cfg.ema_period as int) ==> ema_values_ok(cs, cfg.ema_period as int))
            &&& (live_ema_pass(cs, cfg.ema_period as int, f.side) ==> {
                &&& match f.side {
                    Side::Long => sub_ok(f.impulse_sl, cfg.sl_buffer@),
                    Side::Short => add_ok(f.impulse_sl, cfg.sl_buffer@),
                }
                &&& sub_ok(f.entry, sl_of(f, cfg.sl_buffer@))
                &&& (!dec_lt_spec(dist_of(f, cfg.sl_buffer@), min_sl) ==> {
                    &&& mul_ok(dist_of(f, cfg.sl_buffer@), cfg.min_rr@)
                    &&& match f.side {
                        Side::Long => add_ok(f.entry, mul_of(dist_of(f, cfg.sl_buffer@), cfg.min_rr@)),
                        Side::Short => sub_ok(f.entry, mul_of(dist_of(f, cfg.sl_buffer@), cfg.min_rr@)),
                    }
                })
            })
        })
    }
}

/// The trend filter on the executed side.
fn ema_pass_exec(candles: &[Candle], period: usize, side: Side) -> (r: Option<bool>)
    requires
        candles@.len() >= 2,
    ensures
        r is Some <==> (ema_on(candles@, period as int) ==> ema_values_ok(candles@, period as int)),
        r matches Some(b) ==> b == live_ema_pass(candles@, period as int, side),
{
    let n = candles.len();
    if period > 0 && n >= period {
        let ema = ema_exec(candles, period)?;
        assert(opt_view(ema@[n - 2]) == ema_values(candles@, period as int)[n - 2]);
        let close = candles[n - 2].close;
        match ema[n - 2] {
            Some(e) => Some(
                match side {
                    Side::Long => lt_dec(e, close),
                    Side::Short => lt_dec(close, e),
                },
            ),
            None => Some(false),
        }
    } else if period > 0 {
        let close = candles[n - 2].close;
        Some(
            match side {
                Side::Long => lt_dec(Dec::zero(), close),
                Side::Short => lt_dec(close, Dec::zero()),
            },
        )
    } else {
        Some(true)
    }
}

/// A stop clear of the impulse candle: at or above its high for a short, at
/// or below its low for a long.
pub open spec fn stop_clear(side: Side, sl: (int, int), impulse: Candle) -> bool {
    match side {
        Side::Long => dec_le_spec(sl, impulse.low@),
        Side::Short => dec_le_spec(impulse.high@, sl),
    }
}

/// The order a poll places when nothing is open or pending (`plan_spec`);
/// `None` where a decimal step would overflow.
pub fn plan_setup(candles: &[Candle], cfg: &LiveConfig, levels: &LiveLevels) -> (r: Option<Option<Setup>>)
    ensures
        r is Some <==> plan_ok(candles@, *cfg, levels.min_zone@, levels.min_sl@),
        r matches Some(o) ==> opt_setup_view(o) == plan_spec(candles@, *cfg, levels.min_zone@, levels.min_sl@),
        r matches Some(Some(s)) ==> (dec_le_spec(zero_v(), cfg.sl_buffer@) ==> stop_clear(
            s.side,
            s.sl@,
            candles@[candles@.len() - 3],
        )),
{
    let n = candles.len();
    if n < 5 {
        return Some(None);
    }
    let found = detect_core(
        &candles[n - 4],
        &candles[n - 3],
        &candles[n - 2],
        cfg.body_pct_min,
        cfg.close_pct_min,
        levels.min_zone,
        n - 4,
        cfg.fvg_expiry_candles,
    )?;
    proof {
        lemma_detect_view(
            found,
            candles@[n - 4],
            candles@[n - 3],
            candles@[n - 2],
            cfg.body_pct_min@,
            cfg.close_pct_min@,
            levels.min_zone@,
            n - 4,
            cfg.fvg_expiry_candles as int,
        );
    }
    let f = match found {
        Some(f) => f,
        None => return Some(None),
    };
    let pass = ema_pass_exec(candles, cfg.ema_period, f.side)?;
    if !pass {
        return Some(None);
    }
    let sl = match f.side {
        Side::Long => checked_sub(f.impulse_sl, cfg.sl_buffer)?,
        Side::Short => checked_add(f.impulse_sl, cfg.sl_buffer)?,
    };
    let sl_dist = checked_sub(f.entry, sl)?.abs();
    if lt_dec(sl_dist, levels.min_sl) {
        return Some(None);
    }
    let reward = checked_mul(sl_dist, cfg.min_rr)?;
    let tp = match f.side {
        Side::Long => checked_add(f.entry, reward)?,
        Side::Short => checked_sub(f.entry, reward)?,
    };
    Some(Some(Setup { side: f.side, entry: f.entry, sl, tp, sl_dist }))
}

/// A planned order follows the rules of the strategy: there were at least
/// five candles; the candle before the last closed one is a momentum candle
/// in the order's direction; the last closed candle left a gap on that side
/// between itself and the candle before the impulse, at least `min_zone`
/// wide; the trend filter passed; the stop lies at least `min_sl` from the
/// entry, and the target `min_rr` stop distances beyond the entry.
pub proof fn lemma_plan_follows_rules(cs: Seq<Candle>, cfg: LiveConfig, min_zone: (int, int), min_sl: (int, int))
    ensures
        plan_spec(cs, cfg, min_zone, min_sl) matches Some(v) ==> {
            let n = cs.len() as int;
            &&& n >= 5
            &&& momentum_spec(cs[n - 3], cfg.body_pct_min@, cfg.close_pct_min@) == Some(v.side)
            &&& (v.side == Side::Long ==> dec_lt_spec(cs[n - 4].high@, cs[n - 2].low@)
                && !dec_lt_spec(sub_of(cs[n - 2].low@, cs[n - 4].high@), min_zone))
            &&& (v.side == Side::Short ==> dec_lt_spec(cs[n - 2].high@, cs[n - 4].low@)
                && !dec_lt_spec(sub_of(cs[n - 4].low@, cs[n - 2].high@), min_zone))
            &&& live_ema_pass(cs, cfg.ema_period as int, v.side)
            &&& !dec_lt_spec(v.sl_dist, min_sl)
            &&& v.sl_dist == abs_of(sub_of(v.entry, v.sl))
            &&& v.tp == match v.side {
                Side::Long => add_of(v.entry, mul_of(v.sl_dist, cfg.min_rr@)),
                Side::Short => sub_of(v.entry, mul_of(v.sl_dist, cfg.min_rr@)),
            }
        },
{
}

// ── sizing and the order ─────────────────────────────────────────────────────

/// The planned stop lies beyond the impulse candle (the candle before the
/// last closed one) by exactly the buffer: its high plus `sl_buffer` for a
/// short, its low minus `sl_buffer` for a long (read at 28 decimal places,
/// where these sums are exact), so with a non-negative buffer it is clear
/// of the impulse candle; and the stop distance is `|entry - stop|` where
/// that difference is exact.
pub proof fn lemma_plan_stop(cs: Seq<Candle>, cfg: LiveConfig, min_zone: (int, int), min_sl: (int, int))
    requires
        shift_exact(cs[cs.len() - 3].high@, cfg.sl_buffer@),
        shift_exact(cs[cs.len() - 3].low@, cfg.sl_buffer@),
    ensures
        plan_spec(cs, cfg, min_zone, min_sl) matches Some(v) ==> {
            let imp = cs[cs.len() - 3];
            let b = cfg.sl_buffer@;
            let m = MAX_SCALE as int;
            &&& (v.side == Side::Short ==> value_at(v.sl, m) == value_at(imp.high@, m) + value_at(b, m))
            &&& (v.side == Side::Long ==> value_at(v.sl, m) == value_at(imp.low@, m) - value_at(b, m))
            &&& (dec_le_spec(zero_v(), b) ==> stop_clear(v.side, v.sl, imp))
            &&& (scale_ok(v.entry) && scale_ok(sub_of(v.entry, v.sl)) && dec_eq_spec(
                sub_of(v.entry, v.sl),
                exact_difference(v.entry, v.sl),
            ) ==> value_at(v.sl_dist, m) == (if value_at(v.entry, m) < value_at(v.sl, m) {
                value_at(v.sl, m) - value_at(v.entry, m)
            } else {
                value_at(v.entry, m) - value_at(v.sl, m)
            }))
        },
{
    if let Some(v) = plan_spec(cs, cfg, min_zone, min_sl) {
        let f = live_fvg(cs, cfg, min_zone).unwrap();
        let b = cfg.sl_buffer@;
        let m = MAX_SCALE as int;
        lemma_stop_beyond_impulse(f, b);
        assert(v.sl == sl_of(f, b));
        let d = sub_of(v.entry, v.sl);
        if scale_ok(v.entry) && scale_ok(d) && dec_eq_spec(d, exact_difference(v.entry, v.sl)) {
            assert(scale_ok(v.sl));
            lemma_difference_value(d, v.entry, v.sl);
            lemma_neg_at(d, m);
        }
    }
}

/// Account-currency value of one lot per unit of price: the contract size
/// for USD-profit symbols (or a zero close), else the contract size over the
/// close.
pub open spec fn lot_value_of(usd: bool, contract_size: (int, int), close: (int, int)) -> (int, int) {
    if usd || dec_eq_spec(close, zero_v()) {
        contract_size
    } else {
        div_of(contract_size, close)
    }
}

/// `size_setup` overflows nowhere.
pub open spec fn setup_size_ok(s: SetupView, close: (int, int), balance: (int, int), risk_pct: (int, int), sym: SymbolSpec) -> bool {
    &&& (!(sym.profit_is_usd || dec_eq_spec(close, zero_v())) ==> div_ok(sym.contract_size@, close))
    &&& size_ok(balance, risk_pct, s.sl_dist, lot_value_of(sym.profit_is_usd, sym.contract_size@, close), sym.volume_step@)
}

/// The volume of a setup: `size_position` with the account balance, the
/// risk share, the stop distance and the lot value at the last closed
/// candle's close `close`; `None` where a decimal step would overflow.
pub fn size_setup(setup: &Setup, close: Dec, balance: Dec, risk_pct: Dec, sym: &SymbolSpec) -> (r: Option<Option<Dec>>)
    ensures
        r is Some <==> setup_size_ok(setup_view(*setup), close@, balance@, risk_pct@, *sym),
        r matches Some(v) ==> size_spec(
            v,
            balance@,
            risk_pct@,
            setup.sl_dist@,
            lot_value_of(sym.profit_is_usd, sym.contract_size@, close@),
            sym.volume_step@,
            sym.volume_min@,
            sym.volume_max@,
        ),
        r is Some && !(sym.profit_is_usd || dec_eq_spec(close@, zero_v())) ==> quotient_within_ulp(
            lot_value_of(sym.profit_is_usd, sym.contract_size@, close@),
            sym.contract_size@,
            close@,
        ),
{
    let value_per_lot = if sym.profit_is_usd || eq_dec(close, Dec::zero()) {
        sym.contract_size
    } else {
        checked_div(sym.contract_size, close)?
    };
    size_core(
        balance,
        risk_pct,
        setup.sl_dist,
        value_per_lot,
        sym.volume_step,
        sym.volume_min,
        sym.volume_max,
    )
}

/// For a profit currency other than the account's, one lot is worth the
/// contract size over the close, so the volume `x` sized for a setup risks
/// at most `balance * risk_pct` in the account currency: `x * sl_dist *
/// contract_size <= balance * risk_pct * close` (read at 28 decimal places,
/// where no step of the sizing rounds).
pub proof fn lemma_setup_risk(
    sl_dist: (int, int),
    close: (int, int),
    balance: (int, int),
    risk_pct: (int, int),
    sym: SymbolSpec,
    x: (int, int),
)
    requires
        !sym.profit_is_usd,
        dec_lt_spec(zero_v(), close),
        scale_ok(close),
        scale_ok(sym.contract_size@),
        scale_ok(div_of(sym.contract_size@, close)),
        quotient_is(div_of(sym.contract_size@, close), sym.contract_size@, close),
        size_view(
            balance,
            risk_pct,
            sl_dist,
            lot_value_of(false, sym.contract_size@, close),
            sym.volume_step@,
            sym.volume_min@,
            sym.volume_max@,
        ) == Some(x),
        scale_ok(sym.volume_max@),
        dec_lt_spec(zero_v(), sym.volume_step@),
        dec_lt_spec(zero_v(), mul_of(sl_dist, lot_value_of(false, sym.contract_size@, close))),
        size_exact(balance, risk_pct, sl_dist, lot_value_of(false, sym.contract_size@, close), sym.volume_step@),
    ensures
        value_at(x, MAX_SCALE as int) * value_at(sl_dist, MAX_SCALE as int) * value_at(
            sym.contract_size@,
            MAX_SCALE as int,
        ) <= value_at(balance, MAX_SCALE as int) * value_at(risk_pct, MAX_SCALE as int) * value_at(
            close,
            MAX_SCALE as int,
        ),
{
    let m = MAX_SCALE as int;
    let p = pow10(m as nat);
    lemma_pow10_pos(m as nat);
    let cs = sym.contract_size@;
    assert(!dec_eq_spec(close, zero_v())) by {
        assert(pow10(0) == 1);
    }
    let lv = lot_value_of(false, cs, close);
    assert(lv == div_of(cs, close));
    lemma_size_risk(
        balance,
        risk_pct,
        sl_dist,
        lv,
        sym.volume_step@,
        sym.volume_min@,
        sym.volume_max@,
        x,
    );
    lemma_quotient_at(lv, cs, close, m);
    assert(value_at(zero_v(), m) == 0) by {
        assert(0 * pow10((m - 0) as nat) == 0) by (nonlinear_arith);
    }
    lemma_order_at(zero_v(), close, m);
    let (vx, vsl, vlv, vc, vcl, vb, vr) = (
        value_at(x, m),
        value_at(sl_dist, m),
        value_at(lv, m),
        value_at(cs, m),
        value_at(close, m),
        value_at(balance, m),
        value_at(risk_pct, m),
    );
    assert(vx * vsl * vc <= vb * vr * vcl) by (nonlinear_arith)
        requires
            vx * vsl * vlv <= vb * vr * p,
            vlv * vcl == vc * p,
            vcl > 0,
            p > 0,
    {
        assert(vx * vsl * vlv * vcl <= vb * vr * p * vcl);
        assert(vx * vsl * vlv * vcl == vx * vsl * vc * p);
        assert(vx * vsl * vc * p <= vb * vr * vcl * p);
    }
}

/// For a profit currency other than the account's, the volume `x` sized for
/// a setup is at most one volume step short of the full risk: unless it is
/// capped at `volume_max`, `(x + volume_step) * sl_dist * contract_size >
/// balance * risk_pct * close` (read at 28 decimal places, where no step of
/// the sizing rounds and the floor is `rust_decimal`'s).
pub proof fn lemma_setup_near_risk(
    sl_dist: (int, int),
    close: (int, int),
    balance: (int, int),
    risk_pct: (int, int),
    sym: SymbolSpec,
    x: (int, int),
)
    requires
        !sym.profit_is_usd,
        dec_lt_spec(zero_v(), close),
        scale_ok(close),
        scale_ok(sym.contract_size@),
        scale_ok(div_of(sym.contract_size@, close)),
        quotient_is(div_of(sym.contract_size@, close), sym.contract_size@, close),
        size_view(
            balance,
            risk_pct,
            sl_dist,
            lot_value_of(false, sym.contract_size@, close),
            sym.volume_step@,
            sym.volume_min@,
            sym.volume_max@,
        ) == Some(x),
        scale_ok(sym.volume_max@),
        dec_lt_spec(zero_v(), sym.volume_step@),
        dec_lt_spec(zero_v(), mul_of(sl_dist, lot_value_of(false, sym.contract_size@, close))),
        size_exact(balance, risk_pct, sl_dist, lot_value_of(false, sym.contract_size@, close), sym.volume_step@),
        ({
            let steps = div_of(
                raw_volume(balance, risk_pct, sl_dist, lot_value_of(false, sym.contract_size@, close)),
                sym.volume_step@,
            );
            dec_eq_spec(dec_floor_result(steps), (steps.0 / pow10(steps.1 as nat), 0))
        }),
    ensures
        x == sym.volume_max@ || (value_at(x, MAX_SCALE as int) + value_at(sym.volume_step@, MAX_SCALE as int))
            * value_at(sl_dist, MAX_SCALE as int) * value_at(sym.contract_size@, MAX_SCALE as int) > value_at(
            balance,
            MAX_SCALE as int,
        ) * value_at(risk_pct, MAX_SCALE as int) * value_at(close, MAX_SCALE as int),
{
    let m = MAX_SCALE as int;
    let p = pow10(m as nat);
    lemma_pow10_pos(m as nat);
    let cs = sym.contract_size@;
    assert(!dec_eq_spec(close, zero_v())) by {
        assert(pow10(0) == 1);
    }
    let lv = lot_value_of(false, cs, close);
    assert(lv == div_of(cs, close));
    lemma_size_near_risk(
        balance,
        risk_pct,
        sl_dist,
        lv,
        sym.volume_step@,
        sym.volume_min@,
        sym.volume_max@,
        x,
    );
    if x != sym.volume_max@ {
        lemma_quotient_at(lv, cs, close, m);
        assert(value_at(zero_v(), m) == 0) by {
            assert(0 * pow10((m - 0) as nat) == 0) by (nonlinear_arith);
        }
        lemma_order_at(zero_v(), close, m);
        let (vx, vst, vsl, vlv, vc, vcl, vb, vr) = (
            value_at(x, m),
            value_at(sym.volume_step@, m),
            value_at(sl_dist, m),
            value_at(lv, m),
            value_at(cs, m),
            value_at(close, m),
            value_at(balance, m),
            value_at(risk_pct, m),
        );
        let y = vx + vst;
        assert(y * vsl * vc > vb * vr * vcl) by (nonlinear_arith)
            requires
                y * vsl * vlv > vb * vr * p,
                vlv * vcl == vc * p,
                vcl > 0,
                p > 0,
        {
            assert(y * vsl * vlv * vcl > vb * vr * p * vcl);
            assert(y * vsl * vlv * vcl == y * vsl * vc * p);
            assert(y * vsl * vc * p > vb * vr * vcl * p);
        }
    }
}

/// The limit order of a setup, marked with the bot's magic number.
pub fn setup_order(setup: &Setup, symbol: String, volume: Dec, comment: String) -> (r: TradeRequest)
    ensures
        r.action == ACTION_PENDING,
        r.symbol@ == symbol@,
        r.volume == Some(volume),
        r.order_type == Some(limit_type_of(setup.side)),
        r.price == Some(setup.entry),
        r.sl == Some(setup.sl),
        r.tp == Some(setup.tp),
        r.magic == Some(MAGIC),
        opt_text_is(r.comment, comment@),
        r.order is None,
        r.deviation is None,
{
    TradeRequest::limit(setup.side, symbol, volume, setup.entry, setup.sl, setup.tp, MAGIC, comment)
}


// ── orders placed and positions held ────────────────────────────────────────

/// The text chrono writes with `format("%m%d-%H%M")` for the UTC instant
/// `t` (seconds since the Unix epoch); `None` where chrono has no such
/// instant.
pub uninterp spec fn stamp_text(t: int) -> Option<Seq<char>>;

/// `DateTime::<Utc>::from_timestamp(t, 0)` formatted with
/// `"%m%d-%H%M"`: month, day, hour and minute of the instant in UTC.  The
/// text, and the range of instants chrono takes, are left to the name.
#[verifier::external_body]
fn format_stamp(t: i64) -> (r: Option<String>)
    ensures
        match r {
            Some(s) => stamp_text(t as int) == Some(s@),
            None => stamp_text(t as int) is None,
        },
{
    chrono::DateTime::from_timestamp(t, 0).map(|d| d.format("%m%d-%H%M").to_string())
}

/// The comment of the bot's orders: `ares-` and the opening instant of the
/// last closed candle as `MMDD-HHMM` (UTC).
pub fn order_comment(candle_time: i64) -> (r: Option<String>)
    ensures
        match r {
            Some(s) => stamp_text(candle_time as int) matches Some(t) && s@ == "ares-"@ + t,
            None => stamp_text(candle_time as int) is None,
        },
{
    let stamp = format_stamp(candle_time)?;
    Some(String::from_str("ares-").concat(stamp.as_str()))
}

/// The instant (seconds) at which an order placed at `now` expires:
/// `expiry_minutes` later; `None` where it leaves the `i64` range.
pub fn expiry_instant(now: i64, tf: Timeframe, expiry_candles: usize) -> (r: Option<i64>)
    ensures
        r is Some <==> i64::MIN <= expiry_minutes_of(tf, expiry_candles) <= i64::MAX
            && i64::MIN <= expiry_minutes_of(tf, expiry_candles) * 60 <= i64::MAX
            && i64::MIN <= now + expiry_minutes_of(tf, expiry_candles) * 60 <= i64::MAX,
        r matches Some(t) ==> t == now + expiry_minutes_of(tf, expiry_candles) * 60,
{
    let m = expiry_minutes(tf, expiry_candles)?;
    let secs = m.checked_mul(60)?;
    now.checked_add(secs)
}

/// The name a side is recorded under (`Long` / `Short`).
pub open spec fn side_name_of(side: Side) -> Seq<char> {
    match side {
        Side::Long => "Long"@,
        Side::Short => "Short"@,
    }
}

/// The name a side is recorded under.
pub fn side_name(side: Side) -> (r: &'static str)
    ensures
        r@ == side_name_of(side),
{
    match side {
        Side::Long => "Long",
        Side::Short => "Short",
    }
}

/// The side of a reported position: type 0 is a buy, any other a sell.
pub fn side_of_pos_type(pos_type: u32) -> (r: Side)
    ensures
        r == (if pos_type == 0 {
            Side::Long
        } else {
            Side::Short
        }),
{
    if pos_type == 0 {
        Side::Long
    } else {
        Side::Short
    }
}

/// The bot's pending order, as recorded between polls: its ticket, when it
/// expires (seconds), the notification message that announced it, and the
/// order's side, prices and volume.
#[derive(Clone, Debug)]
pub struct PendingRecord {
    pub ticket: u64,
    pub expires_at: i64,
    pub tg_message_id: Option<i64>,
    pub side: Side,
    pub entry: Dec,
    pub sl: Dec,
    pub tp: Dec,
    pub volume: Dec,
}

/// The bot's open position, as recorded for the close notification.
#[derive(Clone, Debug)]
pub struct PositionRecord {
    pub ticket: u64,
    pub tg_message_id: Option<i64>,
    pub side: Side,
    pub entry: Dec,
    pub sl: Dec,
    pub tp: Dec,
    pub volume: Dec,
}

/// The record of an order just placed for `setup`.
pub fn pending_record(
    ticket: u64,
    expires_at: i64,
    tg_message_id: Option<i64>,
    setup: &Setup,
    volume: Dec,
) -> (r: PendingRecord)
    ensures
        r == (PendingRecord {
            ticket,
            expires_at,
            tg_message_id,
            side: setup.side,
            entry: setup.entry,
            sl: setup.sl,
            tp: setup.tp,
            volume,
        }),
{
    PendingRecord {
        ticket,
        expires_at,
        tg_message_id,
        side: setup.side,
        entry: setup.entry,
        sl: setup.sl,
        tp: setup.tp,
        volume,
    }
}

/// The notification message of a pending record, if any.
pub open spec fn message_of(p: Option<PendingRecord>) -> Option<i64> {
    match p {
        Some(r) => r.tg_message_id,
        None => None,
    }
}

/// The record of a position found open at a poll, keeping the message of
/// the pending order that led to it.
pub fn record_found_position(pos: &Position, pending: &Option<PendingRecord>) -> (r: PositionRecord)
    ensures
        r == (PositionRecord {
            ticket: pos.ticket,
            tg_message_id: message_of(*pending),
            side: pos.side,
            entry: pos.price_open,
            sl: pos.sl,
            tp: pos.tp,
            volume: pos.volume,
        }),
{
    let msg = match pending {
        Some(p) => p.tg_message_id,
        None => None,
    };
    PositionRecord {
        ticket: pos.ticket,
        tg_message_id: msg,
        side: pos.side,
        entry: pos.price_open,
        sl: pos.sl,
        tp: pos.tp,
        volume: pos.volume,
    }
}

/// The record of a position the stream reports opened, keeping the message
/// of the pending order that led to it.
pub fn record_opened_position(pos: &SsePosition, pending: &Option<PendingRecord>) -> (r: PositionRecord)
    ensures
        r == (PositionRecord {
            ticket: pos.ticket,
            tg_message_id: message_of(*pending),
            side: if pos.pos_type == 0 {
                Side::Long
            } else {
                Side::Short
            },
            entry: pos.price_open,
            sl: pos.sl,
            tp: pos.tp,
            volume: pos.volume,
        }),
{
    let msg = match pending {
        Some(p) => p.tg_message_id,
        None => None,
    };
    PositionRecord {
        ticket: pos.ticket,
        tg_message_id: msg,
        side: side_of_pos_type(pos.pos_type),
        entry: pos.price_open,
        sl: pos.sl,
        tp: pos.tp,
        volume: pos.volume,
    }
}

/// The record of a position after the stream reports a new stop or target:
/// the same record with the reported stop and target.
pub fn record_modified_position(rec: &PositionRecord, pos: &SsePosition) -> (r: PositionRecord)
    ensures
        r == (PositionRecord { sl: pos.sl, tp: pos.tp, ..*rec }),
{
    PositionRecord {
        ticket: rec.ticket,
        tg_message_id: rec.tg_message_id,
        side: rec.side,
        entry: rec.entry,
        sl: pos.sl,
        tp: pos.tp,
        volume: rec.volume,
    }
}

// ── profit summary ───────────────────────────────────────────────────────────

/// A deal that closed one of the bot's positions.
pub open spec fn closing_deal(d: Deal) -> bool {
    d.entry == 1 && d.magic == MAGIC
}

/// The net result of a deal: profit plus commission plus swap.
pub open spec fn deal_net(d: Deal) -> (int, int) {
    add_of(add_of(d.profit@, d.commission@), d.swap@)
}

/// The net result of a deal is its profit plus its commission plus its swap
/// (read at 28 decimal places, where both sums are exact).
pub proof fn lemma_deal_net(d: Deal)
    requires
        scale_ok(d.profit@),
        scale_ok(d.commission@),
        scale_ok(d.swap@),
        scale_ok(add_of(d.profit@, d.commission@)),
        dec_eq_spec(add_of(d.profit@, d.commission@), exact_sum(d.profit@, d.commission@)),
        scale_ok(deal_net(d)),
        dec_eq_spec(deal_net(d), exact_sum(add_of(d.profit@, d.commission@), d.swap@)),
    ensures
        value_at(deal_net(d), MAX_SCALE as int) == value_at(d.profit@, MAX_SCALE as int) + value_at(
            d.commission@,
            MAX_SCALE as int,
        ) + value_at(d.swap@, MAX_SCALE as int),
{
    let m = MAX_SCALE as int;
    let pc = add_of(d.profit@, d.commission@);
    lemma_order_at(pc, exact_sum(d.profit@, d.commission@), m);
    lemma_exact_sum_at(d.profit@, d.commission@, m);
    lemma_order_at(deal_net(d), exact_sum(pc, d.swap@), m);
    lemma_exact_sum_at(pc, d.swap@, m);
}

/// Counts and net profit of the bot's closing deals among `ds`: how many,
/// how many with a positive profit, and the sum of their net results,
/// added up from zero in order.
pub struct PnlView {
    pub total: int,
    pub wins: int,
    pub profit: (int, int),
}

pub open spec fn pnl_of(ds: Seq<Deal>) -> PnlView
    decreases ds.len(),
{
    if ds.len() == 0 {
        PnlView { total: 0, wins: 0, profit: zero_v() }
    } else {
        let p = pnl_of(ds.drop_last());
        let d = ds.last();
        if closing_deal(d) {
            PnlView {
                total: p.total + 1,
                wins: p.wins + if dec_lt_spec(zero_v(), d.profit@) {
                    1int
                } else {
                    0int
                },
                profit: add_of(p.profit, deal_net(d)),
            }
        } else {
            p
        }
    }
}

/// No sum of `pnl_of` overflows.
pub open spec fn pnl_ok(ds: Seq<Deal>) -> bool
    decreases ds.len(),
{
    if ds.len() == 0 {
        true
    } else {
        let d = ds.last();
        &&& pnl_ok(ds.drop_last())
        &&& (closing_deal(d) ==> {
            &&& add_ok(d.profit@, d.commission@)
            &&& add_ok(add_of(d.profit@, d.commission@), d.swap@)
            &&& add_ok(pnl_of(ds.drop_last()).profit, deal_net(d))
        })
    }
}

proof fn lemma_pnl_counts(ds: Seq<Deal>)
    ensures
        0 <= pnl_of(ds).wins <= pnl_of(ds).total <= ds.len(),
    decreases ds.len(),
{
    if ds.len() > 0 {
        lemma_pnl_counts(ds.drop_last());
    }
}

/// The summary of the bot's closed trades.
#[derive(Clone, Copy, Debug)]
pub struct PnlSummary {
    pub total: usize,
    pub wins: usize,
    pub losses: usize,
    pub profit: Dec,
}

/// Trades, wins (positive profit), losses (the rest) and net profit of the
/// bot's closing deals; `None` where the sum overflows.
pub fn pnl_summary(deals: &Vec<Deal>) -> (r: Option<PnlSummary>)
    ensures
        r is Some <==> pnl_ok(deals@),
        r matches Some(s) ==> s.total == pnl_of(deals@).total && s.wins == pnl_of(deals@).wins
            && s.losses == s.total - s.wins && s.profit@ == pnl_of(deals@).profit,
{
    let mut total: usize = 0;
    let mut wins: usize = 0;
    let mut profit = Dec::zero();
    let mut i: usize = 0;
    while i < deals.len()
        invariant
            i <= deals@.len(),
            pnl_ok(deals@.subrange(0, i as int)),
            total == pnl_of(deals@.subrange(0, i as int)).total,
            wins == pnl_of(deals@.subrange(0, i as int)).wins,
            profit@ == pnl_of(deals@.subrange(0, i as int)).profit,
            wins <= total <= i,
        decreases deals@.len() - i,
    {
        proof {
            lemma_pnl_ok_prefix(deals@, i as int + 1);
        }
        let d = &deals[i];
        assert(deals@.subrange(0, i + 1).drop_last() =~= deals@.subrange(0, i as int));
        if d.entry == 1 && d.magic == MAGIC {
            let a = match checked_add(d.profit, d.commission) {
                Some(v) => v,
                None => return None,
            };
            let net = match checked_add(a, d.swap) {
                Some(v) => v,
                None => return None,
            };
            profit = match checked_add(profit, net) {
                Some(v) => v,
                None => return None,
            };
            if lt_dec(Dec::zero(), d.profit) {
                wins = wins + 1;
            }
            total = total + 1;
        }
        i = i + 1;
    }
    proof {
        assert(deals@.subrange(0, deals@.len() as int) =~= deals@);
        lemma_pnl_counts(deals@);
    }
    Some(PnlSummary { total, wins, losses: total - wins, profit })
}

/// A prefix of a deal list whose sums do not overflow has sums that do not
/// overflow either; where a prefix overflows, so does the whole list.
proof fn lemma_pnl_ok_prefix(ds: Seq<Deal>, k: int)
    requires
        0 <= k <= ds.len(),
    ensures
        pnl_ok(ds) ==> pnl_ok(ds.subrange(0, k)),
    decreases ds.len() - k,
{
    if k < ds.len() {
        lemma_pnl_ok_prefix(ds, k + 1);
        assert(ds.subrange(0, k + 1).drop_last() =~= ds.subrange(0, k));
    } else {
        assert(ds.subrange(0, k) =~= ds);
    }
}

} // verus!
