//! Walk-forward simulation of the momentum gap strategy over historical
//! candles.

use crate::decimal::{
    abs_of, add_ok, add_of, checked_add, checked_div, checked_mul, checked_sub, dec_eq_spec,
    dec_le_spec, dec_lt_spec, div_ok, div_of, eq_dec, le_dec, lt_dec, mul_ok, mul_of, one_v, sub_ok,
    sub_of, zero_v, Dec,
};
use crate::detector::{
    detect_core, detect_ok, detect_view, fvg_view, lemma_detect_view, opt_fvg_view, FvgView, PendingFvg,
};
use crate::decimal::{
    exact_difference, exact_sum, lemma_difference_value, lemma_exact_sum_at, lemma_le_refl, lemma_le_trans,
    lemma_neg_at, lemma_order_at, lemma_pow10_pos, lemma_product_at, lemma_quotient_at, pow10, product_is,
    quotient_is, quotient_within_ulp, scale_ok, value_at, MAX_SCALE,
};
use crate::domain::{Candle, Side, Timeframe};
use crate::helpers::{
    ema_factor, ema_ok, entry_ok, entry_spec, exit_ok, exit_spec, series_view, size_ok, size_spec,
    size_view, views,
};
use vstd::prelude::*;

verus! {

/// Days from 0001-01-01 (day 1) to 1970-01-01 in the proleptic Gregorian
/// calendar, the day count of `NaiveDate::num_days_from_ce`.
pub const UNIX_EPOCH_DAY_FROM_CE: i64 = 719163i64;

/// Seconds per day.
pub const SECONDS_PER_DAY: i64 = 86400i64;

/// Settings of a backtest run.  Dates are day numbers counted as
/// `NaiveDate::num_days_from_ce` counts them.
#[derive(Clone, Debug)]
pub struct BacktestConfig {
    pub timeframe: Timeframe,
    pub candles: u32,
    pub balance: Dec,
    pub risk_pct: Dec,
    pub body_pct_min: Dec,
    pub close_pct_min: Dec,
    pub fvg_expiry: usize,
    pub min_fvg_pips: Dec,
    pub min_sl_pips: Dec,
    pub sl_buffer: Dec,
    pub min_rr: Dec,
    pub timeout_candles: usize,
    pub commission: Dec,
    pub slippage_points: Dec,
    pub spread_override: Option<Dec>,
    pub ema_period: usize,
    pub date_from: Option<i64>,
    pub date_to: Option<i64>,
    pub stop_out_pct: Dec,
    pub tf_str: String,
}

/// What the simulation needs to know of the traded symbol.  `spread` is in
/// points; `profit_is_usd` tells whether profits are booked in USD.
#[derive(Clone, Debug)]
pub struct SymbolSpec {
    pub contract_size: Dec,
    pub point: Dec,
    pub digits: u32,
    pub spread: i64,
    pub volume_step: Dec,
    pub volume_min: Dec,
    pub volume_max: Dec,
    pub profit_is_usd: bool,
}

/// A position held by the simulation.
#[derive(Clone, Copy, Debug)]
pub struct OpenTrade {
    pub open_time: i64,
    pub side: Side,
    pub entry_level: Dec,
    pub actual_entry: Dec,
    pub sl: Dec,
    pub tp: Dec,
    pub volume: Dec,
    pub open_candle_idx: usize,
}

/// How a simulated trade ended.
#[derive(Clone, Copy, Debug, PartialEq, Eq, Structural)]
pub enum ExitKind {
    /// Closed at the candle's close after `timeout_candles` bars.
    Timeout,
    /// Closed because equity fell to the stop-out level.
    StopOut,
    StopLoss,
    TakeProfit,
    /// Still open when the data ran out; closed at the last close.
    EndOfData,
}

/// One closed trade, in the order the simulation closed them.
#[derive(Clone, Copy, Debug)]
pub struct TradeEvent {
    pub kind: ExitKind,
    pub open_time: i64,
    pub side: Side,
    pub actual_entry: Dec,
    pub sl: Dec,
    pub tp: Dec,
    pub volume: Dec,
    pub exit: Dec,
    /// Cost of spread and slippage (stop-loss and take-profit exits only).
    pub friction: Option<Dec>,
    pub pnl: Dec,
    pub balance: Dec,
}

/// The outcome of a backtest run.
#[derive(Clone, Debug)]
pub struct BacktestReport {
    pub total: usize,
    pub spread_price: Dec,
    pub slippage_price: Dec,
    pub balance: Dec,
    pub peak: Dec,
    pub max_drawdown: Dec,
    pub margin_called: bool,
    pub trades: u32,
    pub wins: u32,
    pub losses: u32,
    pub timeouts: u32,
    pub missed_fills: u32,
    pub total_pnl: Dec,
    pub total_friction: Dec,
    pub sum_wins: Dec,
    pub sum_losses: Dec,
    pub max_consec: u32,
    pub cur_consec: u32,
    pub open_trade: Option<OpenTrade>,
    pub pending_fvg: Option<PendingFvg>,
    pub events: Vec<TradeEvent>,
}

// ── plain-value model ────────────────────────────────────────────────────────

pub struct TradeView {
    pub open_time: int,
    pub side: Side,
    pub entry_level: (int, int),
    pub actual_entry: (int, int),
    pub sl: (int, int),
    pub tp: (int, int),
    pub volume: (int, int),
    pub open_idx: int,
}

pub struct EventView {
    pub kind: ExitKind,
    pub open_time: int,
    pub side: Side,
    pub actual_entry: (int, int),
    pub sl: (int, int),
    pub tp: (int, int),
    pub volume: (int, int),
    pub exit: (int, int),
    pub friction: Option<(int, int)>,
    pub pnl: (int, int),
    pub balance: (int, int),
}

/// The state of the walk-forward loop.
pub struct SimView {
    pub balance: (int, int),
    pub peak: (int, int),
    pub max_drawdown: (int, int),
    pub open: Option<TradeView>,
    pub pending: Option<FvgView>,
    pub margin_called: bool,
    pub trades: int,
    pub wins: int,
    pub losses: int,
    pub timeouts: int,
    pub missed_fills: int,
    pub total_pnl: (int, int),
    pub total_friction: (int, int),
    pub sum_wins: (int, int),
    pub sum_losses: (int, int),
    pub max_consec: int,
    pub cur_consec: int,
    pub events: Seq<EventView>,
}

/// Prices derived once from the symbol and the settings.
pub struct CostsView {
    pub spread: (int, int),
    pub slip: (int, int),
    pub pip: (int, int),
    pub min_zone: (int, int),
    pub min_sl: (int, int),
    pub stop_out_balance: (int, int),
    pub usd: bool,
    pub contract_size: (int, int),
}

pub open spec fn trade_view(t: OpenTrade) -> TradeView {
    TradeView {
        open_time: t.open_time as int,
        side: t.side,
        entry_level: t.entry_level@,
        actual_entry: t.actual_entry@,
        sl: t.sl@,
        tp: t.tp@,
        volume: t.volume@,
        open_idx: t.open_candle_idx as int,
    }
}

pub open spec fn opt_trade_view(t: Option<OpenTrade>) -> Option<TradeView> {
    match t {
        Some(x) => Some(trade_view(x)),
        None => None,
    }
}

pub open spec fn opt_view(d: Option<Dec>) -> Option<(int, int)> {
    match d {
        Some(x) => Some(x@),
        None => None,
    }
}

pub open spec fn event_view(e: TradeEvent) -> EventView {
    EventView {
        kind: e.kind,
        open_time: e.open_time as int,
        side: e.side,
        actual_entry: e.actual_entry@,
        sl: e.sl@,
        tp: e.tp@,
        volume: e.volume@,
        exit: e.exit@,
        friction: opt_view(e.friction),
        pnl: e.pnl@,
        balance: e.balance@,
    }
}

/// Spread in price units: the override, else the symbol's spread in points
/// times the point size.
pub open spec fn spread_price_of(sym: SymbolSpec, cfg: BacktestConfig) -> (int, int) {
    match cfg.spread_override {
        Some(d) => d@,
        None => mul_of((sym.spread as int, 0), sym.point@),
    }
}

/// One pip: ten points for symbols quoted with an odd number of digits.
pub open spec fn pip_of(sym: SymbolSpec) -> (int, int) {
    if sym.digits % 2 == 1 {
        mul_of(sym.point@, (10, 0))
    } else {
        sym.point@
    }
}

/// A pip is one point for a symbol quoted with an even number of digits,
/// and ten points, where that product is exact, for one quoted with an odd
/// number (read at 28 decimal places).
pub proof fn lemma_pip(sym: SymbolSpec)
    ensures
        sym.digits % 2 == 0 ==> pip_of(sym) == sym.point@,
        sym.digits % 2 == 1 && scale_ok(sym.point@) && scale_ok(mul_of(sym.point@, (10, 0))) && product_is(
            mul_of(sym.point@, (10, 0)),
            sym.point@,
            (10, 0),
        ) ==> value_at(pip_of(sym), MAX_SCALE as int) == 10 * value_at(sym.point@, MAX_SCALE as int),
{
    let m = MAX_SCALE as int;
    let x = mul_of(sym.point@, (10, 0));
    if sym.digits % 2 == 1 && scale_ok(sym.point@) && scale_ok(x) && product_is(x, sym.point@, (10, 0)) {
        let p = pow10(m as nat);
        lemma_pow10_pos(m as nat);
        lemma_product_at(x, sym.point@, (10, 0), m);
        assert(value_at((10, 0), m) == 10 * p);
        let (vx, vp) = (value_at(x, m), value_at(sym.point@, m));
        assert(vx == 10 * vp) by (nonlinear_arith)
            requires
                vx * p == vp * (10 * p),
                p > 0,
        ;
    }
}

pub open spec fn costs_of(sym: SymbolSpec, cfg: BacktestConfig) -> CostsView {
    CostsView {
        spread: spread_price_of(sym, cfg),
        slip: mul_of(cfg.slippage_points@, sym.point@),
        pip: pip_of(sym),
        min_zone: mul_of(cfg.min_fvg_pips@, pip_of(sym)),
        min_sl: mul_of(cfg.min_sl_pips@, pip_of(sym)),
        stop_out_balance: mul_of(cfg.balance@, cfg.stop_out_pct@),
        usd: sym.profit_is_usd,
        contract_size: sym.contract_size@,
    }
}

/// The run's price levels are what their settings say (read at 28 decimal
/// places, where each product is exact): the stop minimum is `min_sl_pips`
/// pips, the gap minimum `min_fvg_pips` pips, the slippage
/// `slippage_points` points, the stop-out balance is `stop_out_pct` of the
/// starting balance, and the contract size and profit currency are the
/// symbol's.
pub proof fn lemma_costs(sym: SymbolSpec, cfg: BacktestConfig)
    ensures
        ({
            let cv = costs_of(sym, cfg);
            let m = MAX_SCALE as int;
            let p = pow10(m as nat);
            let pip = pip_of(sym);
            &&& scale_ok(pip) && scale_ok(cfg.min_sl_pips@) && scale_ok(mul_of(cfg.min_sl_pips@, pip)) && product_is(
                mul_of(cfg.min_sl_pips@, pip),
                cfg.min_sl_pips@,
                pip,
            ) ==> value_at(cv.min_sl, m) * p == value_at(cfg.min_sl_pips@, m) * value_at(pip, m)
            &&& scale_ok(pip) && scale_ok(cfg.min_fvg_pips@) && scale_ok(mul_of(cfg.min_fvg_pips@, pip))
                && product_is(mul_of(cfg.min_fvg_pips@, pip), cfg.min_fvg_pips@, pip) ==> value_at(cv.min_zone, m)
                * p == value_at(cfg.min_fvg_pips@, m) * value_at(pip, m)
            &&& scale_ok(sym.point@) && scale_ok(cfg.slippage_points@) && scale_ok(
                mul_of(cfg.slippage_points@, sym.point@),
            ) && product_is(mul_of(cfg.slippage_points@, sym.point@), cfg.slippage_points@, sym.point@)
                ==> value_at(cv.slip, m) * p == value_at(cfg.slippage_points@, m) * value_at(sym.point@, m)
            &&& scale_ok(cfg.balance@) && scale_ok(cfg.stop_out_pct@) && scale_ok(
                mul_of(cfg.balance@, cfg.stop_out_pct@),
            ) && product_is(mul_of(cfg.balance@, cfg.stop_out_pct@), cfg.balance@, cfg.stop_out_pct@)
                ==> value_at(cv.stop_out_balance, m) * p == value_at(cfg.balance@, m) * value_at(cfg.stop_out_pct@, m)
            &&& cv.contract_size == sym.contract_size@ && cv.usd == sym.profit_is_usd
        }),
{
    let m = MAX_SCALE as int;
    let pip = pip_of(sym);
    let a = mul_of(cfg.min_sl_pips@, pip);
    if scale_ok(pip) && scale_ok(cfg.min_sl_pips@) && scale_ok(a) && product_is(a, cfg.min_sl_pips@, pip) {
        lemma_product_at(a, cfg.min_sl_pips@, pip, m);
    }
    let b = mul_of(cfg.min_fvg_pips@, pip);
    if scale_ok(pip) && scale_ok(cfg.min_fvg_pips@) && scale_ok(b) && product_is(b, cfg.min_fvg_pips@, pip) {
        lemma_product_at(b, cfg.min_fvg_pips@, pip, m);
    }
    let c = mul_of(cfg.slippage_points@, sym.point@);
    if scale_ok(sym.point@) && scale_ok(cfg.slippage_points@) && scale_ok(c) && product_is(
        c,
        cfg.slippage_points@,
        sym.point@,
    ) {
        lemma_product_at(c, cfg.slippage_points@, sym.point@, m);
    }
    let d = mul_of(cfg.balance@, cfg.stop_out_pct@);
    if scale_ok(cfg.balance@) && scale_ok(cfg.stop_out_pct@) && scale_ok(d) && product_is(
        d,
        cfg.balance@,
        cfg.stop_out_pct@,
    ) {
        lemma_product_at(d, cfg.balance@, cfg.stop_out_pct@, m);
    }
}

pub open spec fn costs_ok(sym: SymbolSpec, cfg: BacktestConfig) -> bool {
    &&& (cfg.spread_override is None ==> mul_ok((sym.spread as int, 0), sym.point@))
    &&& mul_ok(cfg.slippage_points@, sym.point@)
    &&& (sym.digits % 2 == 1 ==> mul_ok(sym.point@, (10, 0)))
    &&& mul_ok(cfg.min_fvg_pips@, pip_of(sym))
    &&& mul_ok(cfg.min_sl_pips@, pip_of(sym))
    &&& mul_ok(cfg.balance@, cfg.stop_out_pct@)
}

/// The closes of the candles.
pub open spec fn closes_of(cs: Seq<Candle>) -> Seq<Dec> {
    cs.map_values(|c: Candle| c.close)
}

/// The EMA filter values per candle (`None` everywhere when disabled).
pub open spec fn ema_values(cs: Seq<Candle>, period: int) -> Seq<Option<(int, int)>> {
    if period > 0 {
        series_view(views(closes_of(cs)), cs.len() as int, period, ema_factor(period))
    } else {
        Seq::new(cs.len(), |i: int| None::<(int, int)>)
    }
}

pub open spec fn ema_values_ok(cs: Seq<Candle>, period: int) -> bool {
    period > 0 ==> ema_ok(closes_of(cs), period)
}

/// The day (as `num_days_from_ce` counts) of an instant in seconds since the
/// Unix epoch, in UTC.
pub open spec fn day_of(t: int) -> int {
    t / (SECONDS_PER_DAY as int) + UNIX_EPOCH_DAY_FROM_CE as int
}

// ── trade accounting ────────────────────────────────────────────────────────

/// Profit in price terms of moving from `entry` to `exit`, before the
/// profit-currency rate: `(exit - entry) * volume * contract_size` for a
/// long, `(entry - exit) * ...` for a short.
pub open spec fn gross_of(side: Side, entry: (int, int), exit: (int, int), volume: (int, int), cs: (int, int)) -> (int, int) {
    let d = match side {
        Side::Long => sub_of(exit, entry),
        Side::Short => sub_of(entry, exit),
    };
    mul_of(mul_of(d, volume), cs)
}

pub open spec fn gross_ok(side: Side, entry: (int, int), exit: (int, int), volume: (int, int), cs: (int, int)) -> bool {
    let d = match side {
        Side::Long => sub_of(exit, entry),
        Side::Short => sub_of(entry, exit),
    };
    &&& match side {
        Side::Long => sub_ok(exit, entry),
        Side::Short => sub_ok(entry, exit),
    }
    &&& mul_ok(d, volume)
    &&& mul_ok(mul_of(d, volume), cs)
}

/// Every step of the move from price `a` down by price `b` over `volume`
/// lots of `cs` units is exact: the difference `a - b` and both products
/// (all at scales `rust_decimal` holds).
pub open spec fn move_exact(a: (int, int), b: (int, int), volume: (int, int), cs: (int, int)) -> bool {
    let d = sub_of(a, b);
    let dv = mul_of(d, volume);
    let g = mul_of(dv, cs);
    &&& scale_ok(d) && scale_ok(dv) && scale_ok(g)
    &&& dec_eq_spec(d, exact_difference(a, b))
    &&& product_is(dv, d, volume)
    &&& product_is(g, dv, cs)
}

/// A short from `entry` to `exit` books exactly what a long from `exit` back
/// to `entry` books, and overflows exactly when that long does.
pub proof fn lemma_gross_mirror(entry: (int, int), exit: (int, int), volume: (int, int), cs: (int, int))
    ensures
        gross_of(Side::Short, entry, exit, volume, cs) == gross_of(Side::Long, exit, entry, volume, cs),
        gross_ok(Side::Short, entry, exit, volume, cs) == gross_ok(Side::Long, exit, entry, volume, cs),
{
}

proof fn lemma_move_value(a: (int, int), b: (int, int), volume: (int, int), cs: (int, int))
    requires
        scale_ok(a),
        scale_ok(b),
        scale_ok(volume),
        scale_ok(cs),
        move_exact(a, b, volume, cs),
    ensures
        value_at(mul_of(mul_of(sub_of(a, b), volume), cs), MAX_SCALE as int) * pow10(MAX_SCALE as nat)
            * pow10(MAX_SCALE as nat) == (value_at(a, MAX_SCALE as int) - value_at(b, MAX_SCALE as int))
            * value_at(volume, MAX_SCALE as int) * value_at(cs, MAX_SCALE as int),
{
    let s = MAX_SCALE as int;
    let p = pow10(s as nat);
    let d = sub_of(a, b);
    let dv = mul_of(d, volume);
    let g = mul_of(dv, cs);
    lemma_difference_value(d, a, b);
    lemma_product_at(dv, d, volume, s);
    lemma_product_at(g, dv, cs, s);
    let (vg, vdv, vd, vv, vc) = (value_at(g, s), value_at(dv, s), value_at(d, s), value_at(volume, s), value_at(cs, s));
    assert(vg * p * p == vd * vv * vc) by (nonlinear_arith)
        requires
            vg * p == vdv * vc,
            vdv * p == vd * vv,
    ;
}

/// The gross result of a trade follows its direction: `(exit - entry) *
/// volume * contract_size` for a long and `(entry - exit) * volume *
/// contract_size` for a short (read at 28 decimal places, where no step
/// rounds).  So a short that exits below its entry, and a long that exits
/// above it, with a positive volume and contract size, book a gain; each
/// books the other's result with the sign turned.
pub proof fn lemma_gross_direction(entry: (int, int), exit: (int, int), volume: (int, int), cs: (int, int))
    requires
        scale_ok(entry),
        scale_ok(exit),
        scale_ok(volume),
        scale_ok(cs),
        move_exact(exit, entry, volume, cs),
        move_exact(entry, exit, volume, cs),
    ensures
        value_at(gross_of(Side::Long, entry, exit, volume, cs), MAX_SCALE as int) * pow10(MAX_SCALE as nat)
            * pow10(MAX_SCALE as nat) == (value_at(exit, MAX_SCALE as int) - value_at(entry, MAX_SCALE as int))
            * value_at(volume, MAX_SCALE as int) * value_at(cs, MAX_SCALE as int),
        value_at(gross_of(Side::Short, entry, exit, volume, cs), MAX_SCALE as int) * pow10(MAX_SCALE as nat)
            * pow10(MAX_SCALE as nat) == (value_at(entry, MAX_SCALE as int) - value_at(exit, MAX_SCALE as int))
            * value_at(volume, MAX_SCALE as int) * value_at(cs, MAX_SCALE as int),
        value_at(gross_of(Side::Short, entry, exit, volume, cs), MAX_SCALE as int) == -value_at(
            gross_of(Side::Long, entry, exit, volume, cs),
            MAX_SCALE as int,
        ),
        dec_lt_spec(exit, entry) && dec_lt_spec(zero_v(), volume) && dec_lt_spec(zero_v(), cs) ==> dec_lt_spec(
            zero_v(),
            gross_of(Side::Short, entry, exit, volume, cs),
        ),
        dec_lt_spec(entry, exit) && dec_lt_spec(zero_v(), volume) && dec_lt_spec(zero_v(), cs) ==> dec_lt_spec(
            zero_v(),
            gross_of(Side::Long, entry, exit, volume, cs),
        ),
{
    let s = MAX_SCALE as int;
    let p = pow10(s as nat);
    lemma_pow10_pos(s as nat);
    lemma_move_value(exit, entry, volume, cs);
    lemma_move_value(entry, exit, volume, cs);
    let gl = gross_of(Side::Long, entry, exit, volume, cs);
    let gs = gross_of(Side::Short, entry, exit, volume, cs);
    let (vl, vs, ve, vx, vv, vc) = (
        value_at(gl, s),
        value_at(gs, s),
        value_at(entry, s),
        value_at(exit, s),
        value_at(volume, s),
        value_at(cs, s),
    );
    assert(vl * p * p == (vx - ve) * vv * vc);
    assert(vs * p * p == (ve - vx) * vv * vc);
    assert(vs == -vl) by (nonlinear_arith)
        requires
            vl * p * p == (vx - ve) * vv * vc,
            vs * p * p == (ve - vx) * vv * vc,
            p > 0,
    ;
    assert(value_at(zero_v(), s) == 0) by {
        assert(0 * pow10((s - 0) as nat) == 0);
    }
    lemma_order_at(exit, entry, s);
    lemma_order_at(zero_v(), volume, s);
    lemma_order_at(zero_v(), cs, s);
    lemma_order_at(zero_v(), gs, s);
    lemma_order_at(zero_v(), gl, s);
    assert(vx < ve && vv > 0 && vc > 0 ==> vs > 0) by (nonlinear_arith)
        requires
            vs * p * p == (ve - vx) * vv * vc,
            p > 0,
    ;
    assert(ve < vx && vv > 0 && vc > 0 ==> vl > 0) by (nonlinear_arith)
        requires
            vl * p * p == (vx - ve) * vv * vc,
            p > 0,
    ;
}

/// Conversion of a profit to the account currency: one for USD profits or a
/// non-positive price, else `1 / price`.
pub open spec fn rate_of(usd: bool, price: (int, int)) -> (int, int) {
    if usd || dec_le_spec(price, zero_v()) {
        one_v()
    } else {
        div_of(one_v(), price)
    }
}

pub open spec fn rate_ok(usd: bool, price: (int, int)) -> bool {
    usd || dec_le_spec(price, zero_v()) || div_ok(one_v(), price)
}

/// Net result: gross times rate, less the commission.
pub open spec fn pnl_of(
    side: Side,
    entry: (int, int),
    exit: (int, int),
    volume: (int, int),
    cs: (int, int),
    rate: (int, int),
    commission: (int, int),
) -> (int, int) {
    sub_of(mul_of(gross_of(side, entry, exit, volume, cs), rate), commission)
}

/// The net result of a trade is its gross result times the conversion
/// rate, less the commission (read at 28 decimal places, where the product
/// and the difference are exact); in the account's own currency it is the
/// gross result less the commission.
pub proof fn lemma_pnl_value(
    side: Side,
    entry: (int, int),
    exit: (int, int),
    volume: (int, int),
    cs: (int, int),
    usd: bool,
    price: (int, int),
    commission: (int, int),
)
    requires
        scale_ok(gross_of(side, entry, exit, volume, cs)),
        scale_ok(rate_of(usd, price)),
        product_is(
            mul_of(gross_of(side, entry, exit, volume, cs), rate_of(usd, price)),
            gross_of(side, entry, exit, volume, cs),
            rate_of(usd, price),
        ),
        shift_exact(mul_of(gross_of(side, entry, exit, volume, cs), rate_of(usd, price)), commission),
    ensures
        ({
            let g = gross_of(side, entry, exit, volume, cs);
            let rate = rate_of(usd, price);
            let net = pnl_of(side, entry, exit, volume, cs, rate, commission);
            let m = MAX_SCALE as int;
            &&& value_at(net, m) * pow10(m as nat) == value_at(g, m) * value_at(rate, m) - value_at(commission, m)
                * pow10(m as nat)
            &&& usd ==> value_at(net, m) == value_at(g, m) - value_at(commission, m)
        }),
{
    let m = MAX_SCALE as int;
    let p = pow10(m as nat);
    let g = gross_of(side, entry, exit, volume, cs);
    let rate = rate_of(usd, price);
    let gr = mul_of(g, rate);
    lemma_product_at(gr, g, rate, m);
    lemma_difference_value(sub_of(gr, commission), gr, commission);
    let (vn, vgr, vg, vr, vc) = (
        value_at(sub_of(gr, commission), m),
        value_at(gr, m),
        value_at(g, m),
        value_at(rate, m),
        value_at(commission, m),
    );
    assert(vn * p == vg * vr - vc * p) by (nonlinear_arith)
        requires
            vn == vgr - vc,
            vgr * p == vg * vr,
    ;
    if usd {
        assert(vr == p) by {
            assert(1 * pow10((m - 0) as nat) == p);
        }
        lemma_pow10_pos(m as nat);
        assert(vn == vg - vc) by (nonlinear_arith)
            requires
                vn * p == vg * vr - vc * p,
                vr == p,
                p > 0,
        ;
    }
}

pub open spec fn pnl_ok(
    side: Side,
    entry: (int, int),
    exit: (int, int),
    volume: (int, int),
    cs: (int, int),
    rate: (int, int),
    commission: (int, int),
) -> bool {
    &&& gross_ok(side, entry, exit, volume, cs)
    &&& mul_ok(gross_of(side, entry, exit, volume, cs), rate)
    &&& sub_ok(mul_of(gross_of(side, entry, exit, volume, cs), rate), commission)
}

/// Books `pnl` into the balance, raising the peak and deepening the maximum
/// drawdown where needed.
pub open spec fn settle(s: SimView, pnl: (int, int)) -> SimView {
    let b = add_of(s.balance, pnl);
    let peak = if dec_lt_spec(s.peak, b) {
        b
    } else {
        s.peak
    };
    let dd = sub_of(b, peak);
    SimView {
        balance: b,
        peak,
        max_drawdown: if dec_lt_spec(dd, s.max_drawdown) {
            dd
        } else {
            s.max_drawdown
        },
        ..s
    }
}

/// Settling a result adds it to the balance; the peak becomes the new
/// balance where that is higher, else stays; the maximum drawdown never
/// gets shallower and is at least as deep as the new balance's distance
/// below the peak (read at 28 decimal places, where that distance is exact).
pub proof fn lemma_settle(s: SimView, pnl: (int, int))
    ensures
        ({
            let r = settle(s, pnl);
            let b = add_of(s.balance, pnl);
            &&& r.balance == b
            &&& r.peak == b || r.peak == s.peak
            &&& dec_le_spec(b, r.peak)
            &&& dec_le_spec(s.peak, r.peak)
            &&& dec_le_spec(r.max_drawdown, s.max_drawdown)
            &&& scale_ok(b) && scale_ok(r.peak) && scale_ok(r.max_drawdown) && scale_ok(sub_of(b, r.peak))
                && dec_eq_spec(sub_of(b, r.peak), exact_difference(b, r.peak)) ==> value_at(
                r.max_drawdown,
                MAX_SCALE as int,
            ) <= value_at(b, MAX_SCALE as int) - value_at(r.peak, MAX_SCALE as int)
            &&& r.open == s.open && r.events == s.events && r.trades == s.trades
        }),
{
    let r = settle(s, pnl);
    let b = add_of(s.balance, pnl);
    lemma_le_refl(b);
    lemma_le_refl(s.peak);
    lemma_le_refl(s.max_drawdown);
    lemma_pow10_pos(b.1 as nat);
    lemma_pow10_pos(s.peak.1 as nat);
    lemma_pow10_pos(s.max_drawdown.1 as nat);
    if dec_lt_spec(s.peak, b) {
        assert(dec_le_spec(s.peak, b));
    } else {
        assert(dec_le_spec(b, s.peak)) by (nonlinear_arith)
            requires
                !(s.peak.0 * pow10(b.1 as nat) < b.0 * pow10(s.peak.1 as nat)),
        ;
    }
    let dd = sub_of(b, r.peak);
    if !dec_lt_spec(dd, s.max_drawdown) {
        assert(dec_le_spec(s.max_drawdown, dd)) by (nonlinear_arith)
            requires
                !(dd.0 * pow10(s.max_drawdown.1 as nat) < s.max_drawdown.0 * pow10(dd.1 as nat)),
        ;
    } else {
        assert(dec_le_spec(dd, s.max_drawdown));
    }
    let m = MAX_SCALE as int;
    if scale_ok(b) && scale_ok(r.peak) && scale_ok(r.max_drawdown) && scale_ok(dd) && dec_eq_spec(
        dd,
        exact_difference(b, r.peak),
    ) {
        lemma_difference_value(dd, b, r.peak);
        lemma_order_at(r.max_drawdown, dd, m);
        if r.max_drawdown != dd {
            assert(r.max_drawdown == s.max_drawdown);
            lemma_le_refl(dd);
        }
    }
}

pub open spec fn settle_ok(s: SimView, pnl: (int, int)) -> bool {
    let b = add_of(s.balance, pnl);
    let peak = if dec_lt_spec(s.peak, b) {
        b
    } else {
        s.peak
    };
    add_ok(s.balance, pnl) && sub_ok(b, peak)
}

/// Counts a winning (or break-even) trade.
pub open spec fn record_win(s: SimView, pnl: (int, int)) -> SimView {
    SimView { wins: s.wins + 1, sum_wins: add_of(s.sum_wins, pnl), cur_consec: 0, ..s }
}

/// Counts a losing trade and the streak of consecutive losses.
pub open spec fn record_loss(s: SimView, pnl: (int, int)) -> SimView {
    SimView {
        losses: s.losses + 1,
        sum_losses: add_of(s.sum_losses, abs_of(pnl)),
        cur_consec: s.cur_consec + 1,
        max_consec: if s.cur_consec + 1 > s.max_consec {
            s.cur_consec + 1
        } else {
            s.max_consec
        },
        ..s
    }
}

/// Closes the open trade `t` with `pnl`: settles the balance, counts the
/// trade as a loss or a win, adds it to the totals and logs it.
pub open spec fn close_trade(
    s: SimView,
    t: TradeView,
    kind: ExitKind,
    exit: (int, int),
    pnl: (int, int),
    friction: Option<(int, int)>,
    is_loss: bool,
) -> SimView {
    let s1 = settle(s, pnl);
    let s2 = if is_loss {
        record_loss(s1, pnl)
    } else {
        record_win(s1, pnl)
    };
    SimView {
        trades: s2.trades + 1,
        timeouts: if kind == ExitKind::Timeout {
            s2.timeouts + 1
        } else {
            s2.timeouts
        },
        total_pnl: add_of(s2.total_pnl, pnl),
        total_friction: match friction {
            Some(f) => add_of(s2.total_friction, f),
            None => s2.total_friction,
        },
        open: None,
        events: s2.events.push(
            EventView {
                kind,
                open_time: t.open_time,
                side: t.side,
                actual_entry: t.actual_entry,
                sl: t.sl,
                tp: t.tp,
                volume: t.volume,
                exit,
                friction,
                pnl,
                balance: s1.balance,
            },
        ),
        ..s2
    }
}

pub open spec fn close_trade_ok(s: SimView, pnl: (int, int), friction: Option<(int, int)>, is_loss: bool) -> bool {
    &&& settle_ok(s, pnl)
    &&& (is_loss ==> add_ok(s.sum_losses, abs_of(pnl)))
    &&& (!is_loss ==> add_ok(s.sum_wins, pnl))
    &&& add_ok(s.total_pnl, pnl)
    &&& (friction matches Some(f) ==> add_ok(s.total_friction, f))
}

// ── one candle with a position open ─────────────────────────────────────────

/// The timeout is on and the trade has been open `timeout_candles` bars.
pub open spec fn timeout_due(cfg: BacktestConfig, t: TradeView, i: int) -> bool {
    cfg.timeout_candles > 0 && i - t.open_idx >= cfg.timeout_candles
}

/// Close at the candle's close after the timeout.
pub open spec fn timeout_step(s: SimView, t: TradeView, c: Candle, cfg: BacktestConfig, cv: CostsView) -> SimView {
    let exit = exit_spec(t.side, c.close@, false, cv.spread, cv.slip);
    let comm = mul_of(cfg.commission@, t.volume);
    let pnl = pnl_of(t.side, t.actual_entry, exit, t.volume, cv.contract_size, rate_of(cv.usd, exit), comm);
    close_trade(s, t, ExitKind::Timeout, exit, pnl, None, !dec_le_spec(zero_v(), pnl))
}

pub open spec fn timeout_ok(s: SimView, t: TradeView, c: Candle, cfg: BacktestConfig, cv: CostsView) -> bool {
    let exit = exit_spec(t.side, c.close@, false, cv.spread, cv.slip);
    let comm = mul_of(cfg.commission@, t.volume);
    let pnl = pnl_of(t.side, t.actual_entry, exit, t.volume, cv.contract_size, rate_of(cv.usd, exit), comm);
    &&& exit_ok(t.side, c.close@, false, cv.spread, cv.slip)
    &&& mul_ok(cfg.commission@, t.volume)
    &&& rate_ok(cv.usd, exit)
    &&& pnl_ok(t.side, t.actual_entry, exit, t.volume, cv.contract_size, rate_of(cv.usd, exit), comm)
    &&& close_trade_ok(s, pnl, None, !dec_le_spec(zero_v(), pnl))
}

/// The candle's price least favourable to the position.
pub open spec fn worst_of(side: Side, c: Candle) -> (int, int) {
    match side {
        Side::Long => c.low@,
        Side::Short => c.high@,
    }
}

/// Open profit at the worst price of the candle, net of commission.
pub open spec fn unrealized_of(t: TradeView, c: Candle, cfg: BacktestConfig, cv: CostsView) -> (int, int) {
    let worst = worst_of(t.side, c);
    sub_of(
        mul_of(gross_of(t.side, t.actual_entry, worst, t.volume, cv.contract_size), rate_of(cv.usd, worst)),
        mul_of(cfg.commission@, t.volume),
    )
}

pub open spec fn unrealized_ok(s: SimView, t: TradeView, c: Candle, cfg: BacktestConfig, cv: CostsView) -> bool {
    let worst = worst_of(t.side, c);
    &&& rate_ok(cv.usd, worst)
    &&& gross_ok(t.side, t.actual_entry, worst, t.volume, cv.contract_size)
    &&& mul_ok(gross_of(t.side, t.actual_entry, worst, t.volume, cv.contract_size), rate_of(cv.usd, worst))
    &&& mul_ok(cfg.commission@, t.volume)
    &&& sub_ok(
        mul_of(gross_of(t.side, t.actual_entry, worst, t.volume, cv.contract_size), rate_of(cv.usd, worst)),
        mul_of(cfg.commission@, t.volume),
    )
    &&& add_ok(s.balance, unrealized_of(t, c, cfg, cv))
}

/// Equity at the candle's worst price is at or below the stop-out level.
pub open spec fn stop_out_hit(s: SimView, t: TradeView, c: Candle, cfg: BacktestConfig, cv: CostsView) -> bool {
    dec_le_spec(add_of(s.balance, unrealized_of(t, c, cfg, cv)), cv.stop_out_balance)
}

/// Forced close at the worst price (with stop slippage); the run ends.
pub open spec fn stop_out_step(s: SimView, t: TradeView, c: Candle, cfg: BacktestConfig, cv: CostsView) -> SimView {
    let worst = worst_of(t.side, c);
    let exit = exit_spec(t.side, worst, true, cv.spread, cv.slip);
    let comm = mul_of(cfg.commission@, t.volume);
    let pnl = pnl_of(t.side, t.actual_entry, exit, t.volume, cv.contract_size, rate_of(cv.usd, worst), comm);
    SimView { margin_called: true, ..close_trade(s, t, ExitKind::StopOut, exit, pnl, None, true) }
}

pub open spec fn stop_out_ok(s: SimView, t: TradeView, c: Candle, cfg: BacktestConfig, cv: CostsView) -> bool {
    let worst = worst_of(t.side, c);
    let exit = exit_spec(t.side, worst, true, cv.spread, cv.slip);
    let comm = mul_of(cfg.commission@, t.volume);
    let pnl = pnl_of(t.side, t.actual_entry, exit, t.volume, cv.contract_size, rate_of(cv.usd, worst), comm);
    &&& exit_ok(t.side, worst, true, cv.spread, cv.slip)
    &&& pnl_ok(t.side, t.actual_entry, exit, t.volume, cv.contract_size, rate_of(cv.usd, worst), comm)
    &&& close_trade_ok(s, pnl, None, true)
}

/// The candle reaches the stop.
pub open spec fn sl_hit(t: TradeView, c: Candle) -> bool {
    match t.side {
        Side::Long => dec_le_spec(c.low@, t.sl),
        Side::Short => dec_le_spec(t.sl, c.high@),
    }
}

/// The candle reaches the target.
pub open spec fn tp_hit(t: TradeView, c: Candle) -> bool {
    match t.side {
        Side::Long => dec_le_spec(t.tp, c.high@),
        Side::Short => dec_le_spec(c.low@, t.tp),
    }
}

/// Close at the stop (checked first when both are reached) or the target;
/// the friction is what spread, slippage and commission took from the
/// frictionless result.
pub open spec fn exit_step(s: SimView, t: TradeView, c: Candle, cfg: BacktestConfig, cv: CostsView) -> SimView {
    let is_sl = sl_hit(t, c);
    let lvl = if is_sl {
        t.sl
    } else {
        t.tp
    };
    let exit = exit_spec(t.side, lvl, is_sl, cv.spread, cv.slip);
    let comm = mul_of(cfg.commission@, t.volume);
    let pnl = pnl_of(t.side, t.actual_entry, exit, t.volume, cv.contract_size, rate_of(cv.usd, exit), comm);
    let frictionless = mul_of(
        gross_of(t.side, t.entry_level, lvl, t.volume, cv.contract_size),
        rate_of(cv.usd, lvl),
    );
    close_trade(
        s,
        t,
        if is_sl {
            ExitKind::StopLoss
        } else {
            ExitKind::TakeProfit
        },
        exit,
        pnl,
        Some(sub_of(frictionless, pnl)),
        is_sl,
    )
}

pub open spec fn exit_step_ok(s: SimView, t: TradeView, c: Candle, cfg: BacktestConfig, cv: CostsView) -> bool {
    let is_sl = sl_hit(t, c);
    let lvl = if is_sl {
        t.sl
    } else {
        t.tp
    };
    let exit = exit_spec(t.side, lvl, is_sl, cv.spread, cv.slip);
    let comm = mul_of(cfg.commission@, t.volume);
    let pnl = pnl_of(t.side, t.actual_entry, exit, t.volume, cv.contract_size, rate_of(cv.usd, exit), comm);
    let frictionless = mul_of(
        gross_of(t.side, t.entry_level, lvl, t.volume, cv.contract_size),
        rate_of(cv.usd, lvl),
    );
    &&& exit_ok(t.side, lvl, is_sl, cv.spread, cv.slip)
    &&& mul_ok(cfg.commission@, t.volume)
    &&& rate_ok(cv.usd, exit)
    &&& pnl_ok(t.side, t.actual_entry, exit, t.volume, cv.contract_size, rate_of(cv.usd, exit), comm)
    &&& rate_ok(cv.usd, lvl)
    &&& gross_ok(t.side, t.entry_level, lvl, t.volume, cv.contract_size)
    &&& mul_ok(gross_of(t.side, t.entry_level, lvl, t.volume, cv.contract_size), rate_of(cv.usd, lvl))
    &&& sub_ok(frictionless, pnl)
    &&& close_trade_ok(s, pnl, Some(sub_of(frictionless, pnl)), is_sl)
}

/// One candle while a position is open: timeout, then stop-out, then stop
/// loss or take profit.
pub open spec fn manage_step(s: SimView, t: TradeView, c: Candle, i: int, cfg: BacktestConfig, cv: CostsView) -> SimView {
    if timeout_due(cfg, t, i) {
        timeout_step(s, t, c, cfg, cv)
    } else if dec_lt_spec(zero_v(), cfg.stop_out_pct@) && stop_out_hit(s, t, c, cfg, cv) {
        stop_out_step(s, t, c, cfg, cv)
    } else if sl_hit(t, c) || tp_hit(t, c) {
        exit_step(s, t, c, cfg, cv)
    } else {
        s
    }
}

pub open spec fn manage_ok(s: SimView, t: TradeView, c: Candle, i: int, cfg: BacktestConfig, cv: CostsView) -> bool {
    if timeout_due(cfg, t, i) {
        timeout_ok(s, t, c, cfg, cv)
    } else {
        &&& (dec_lt_spec(zero_v(), cfg.stop_out_pct@) ==> unrealized_ok(s, t, c, cfg, cv))
        &&& (dec_lt_spec(zero_v(), cfg.stop_out_pct@) && stop_out_hit(s, t, c, cfg, cv) ==> stop_out_ok(
            s,
            t,
            c,
            cfg,
            cv,
        ))
        &&& (!(dec_lt_spec(zero_v(), cfg.stop_out_pct@) && stop_out_hit(s, t, c, cfg, cv)) && (sl_hit(t, c)
            || tp_hit(t, c)) ==> exit_step_ok(s, t, c, cfg, cv))
    }
}

/// The candle reaches a position's stop: its low at or below a long's stop,
/// its high at or above a short's.
pub open spec fn reaches_stop(side: Side, sl: (int, int), c: Candle) -> bool {
    match side {
        Side::Long => dec_le_spec(c.low@, sl),
        Side::Short => dec_le_spec(sl, c.high@),
    }
}

/// The candle reaches a position's target: its high at or above a long's
/// target, its low at or below a short's.
pub open spec fn reaches_target(side: Side, tp: (int, int), c: Candle) -> bool {
    match side {
        Side::Long => dec_le_spec(tp, c.high@),
        Side::Short => dec_le_spec(c.low@, tp),
    }
}

/// The state closed one trade more, logging an event of `kind` that exited
/// at `exit`.
pub open spec fn closed_with(s: SimView, r: SimView, kind: ExitKind, exit: (int, int)) -> bool {
    &&& r.open is None
    &&& r.trades == s.trades + 1
    &&& r.events.len() == s.events.len() + 1
    &&& r.events[s.events.len() as int].kind == kind
    &&& r.events[s.events.len() as int].exit == exit
}

/// What one candle does to an open position, in the order the rules are
/// checked.  After `timeout_candles` bars it closes at the candle's close,
/// a loss exactly when its result is negative.  Else, with a stop-out level,
/// where the equity at the candle's worst price (its low for a long, its
/// high for a short) is at or below that level it closes at that price with
/// stop slippage, as a loss, and the run is margin called.  Else it closes
/// at the stop, as a loss, where the candle reaches the stop, even when it
/// also reaches the target; else at the target, as a win, where the candle
/// reaches the target.  Else nothing changes.  Each close books its net
/// result at the exit price, converted at that price's rate (at the worst
/// price's for a stop-out), into the balance and the total.
pub proof fn lemma_manage_outcome(s: SimView, t: TradeView, c: Candle, i: int, cfg: BacktestConfig, cv: CostsView)
    ensures
        ({
            let r = manage_step(s, t, c, i, cfg, cv);
            let n = s.events.len() as int;
            let worst = match t.side {
                Side::Long => c.low@,
                Side::Short => c.high@,
            };
            let timeout = cfg.timeout_candles > 0 && i - t.open_idx >= cfg.timeout_candles;
            let stop_out = !timeout && dec_lt_spec(zero_v(), cfg.stop_out_pct@) && dec_le_spec(
                add_of(s.balance, unrealized_of(t, c, cfg, cv)),
                cv.stop_out_balance,
            );
            let rest = !timeout && !stop_out;
            &&& timeout ==> closed_with(s, r, ExitKind::Timeout, exit_spec(t.side, c.close@, false, cv.spread, cv.slip))
                && r.timeouts == s.timeouts + 1 && (r.losses == s.losses + 1 <==> dec_lt_spec(
                r.events[n].pnl,
                zero_v(),
            )) && (r.wins == s.wins + 1 <==> !dec_lt_spec(r.events[n].pnl, zero_v()))
            &&& stop_out ==> closed_with(s, r, ExitKind::StopOut, exit_spec(t.side, worst, true, cv.spread, cv.slip))
                && r.margin_called && r.losses == s.losses + 1 && r.wins == s.wins
            &&& rest && reaches_stop(t.side, t.sl, c) ==> closed_with(
                s,
                r,
                ExitKind::StopLoss,
                exit_spec(t.side, t.sl, true, cv.spread, cv.slip),
            ) && r.losses == s.losses + 1 && r.wins == s.wins
            &&& rest && !reaches_stop(t.side, t.sl, c) && reaches_target(t.side, t.tp, c) ==> closed_with(
                s,
                r,
                ExitKind::TakeProfit,
                exit_spec(t.side, t.tp, false, cv.spread, cv.slip),
            ) && r.wins == s.wins + 1 && r.losses == s.losses
            &&& rest && !reaches_stop(t.side, t.sl, c) && !reaches_target(t.side, t.tp, c) ==> r == s
            &&& (timeout || stop_out || reaches_stop(t.side, t.sl, c) || reaches_target(t.side, t.tp, c)) ==> {
                &&& r.events[n].pnl == pnl_of(
                    t.side,
                    t.actual_entry,
                    r.events[n].exit,
                    t.volume,
                    cv.contract_size,
                    rate_of(cv.usd, if stop_out { worst } else { r.events[n].exit }),
                    mul_of(cfg.commission@, t.volume),
                )
                &&& r.balance == add_of(s.balance, r.events[n].pnl)
                &&& r.total_pnl == add_of(s.total_pnl, r.events[n].pnl)
            }
        }),
{
    let r = manage_step(s, t, c, i, cfg, cv);
    let n = s.events.len() as int;
    if !timeout_due(cfg, t, i) && dec_lt_spec(zero_v(), cfg.stop_out_pct@) && stop_out_hit(s, t, c, cfg, cv) {
        assert(r.events[n].kind == ExitKind::StopOut);
    }
}

// ── one candle without a position ───────────────────────────────────────────

/// The candle lies outside the configured date window.
pub open spec fn date_skip(cfg: BacktestConfig, c: Candle) -> bool {
    ||| (cfg.date_from matches Some(d) && day_of(c.time as int) < d)
    ||| (cfg.date_to matches Some(d) && day_of(c.time as int) > d)
}

/// Drops the pending setup (a missed fill) once index `i` reaches its expiry.
pub open spec fn expire(s: SimView, i: int) -> SimView {
    if s.pending matches Some(f) && i >= f.expiry_idx {
        SimView { missed_fills: s.missed_fills + 1, pending: None, ..s }
    } else {
        s
    }
}

/// `is_touched` on plain values.
pub open spec fn touched_view(f: FvgView, c: Candle) -> bool {
    match f.side {
        Side::Long => dec_le_spec(c.low@, f.zone_high),
        Side::Short => dec_le_spec(f.zone_low, c.high@),
    }
}

/// The trend filter: with the EMA on, a long needs the close above the EMA
/// and a short below it (no EMA yet: no trade).
pub open spec fn ema_pass(cfg: BacktestConfig, ema: Seq<Option<(int, int)>>, i: int, f: FvgView, c: Candle) -> bool {
    if cfg.ema_period > 0 {
        match ema[i] {
            Some(e) => match f.side {
                Side::Long => dec_lt_spec(e, c.close@),
                Side::Short => dec_lt_spec(c.close@, e),
            },
            None => false,
        }
    } else {
        true
    }
}

/// Stop level: the impulse extreme pushed out by the buffer.
pub open spec fn sl_of(f: FvgView, buffer: (int, int)) -> (int, int) {
    match f.side {
        Side::Long => sub_of(f.impulse_sl, buffer),
        Side::Short => add_of(f.impulse_sl, buffer),
    }
}

/// Moving `x` up or down by `b` is exact both ways (all at scales
/// `rust_decimal` holds).
pub open spec fn shift_exact(x: (int, int), b: (int, int)) -> bool {
    &&& scale_ok(x) && scale_ok(b)
    &&& scale_ok(add_of(x, b)) && dec_eq_spec(add_of(x, b), exact_sum(x, b))
    &&& scale_ok(sub_of(x, b)) && dec_eq_spec(sub_of(x, b), exact_difference(x, b))
}

/// The stop lies beyond the impulse candle's extreme by exactly the buffer:
/// `impulse high + buffer` for a short, `impulse low - buffer` for a long
/// (read at 28 decimal places, where the sum and difference are exact).  So
/// with a non-negative buffer the stop is never inside the impulse candle.
pub proof fn lemma_stop_beyond_impulse(f: FvgView, buffer: (int, int))
    requires
        shift_exact(f.impulse_sl, buffer),
    ensures
        f.side == Side::Short ==> value_at(sl_of(f, buffer), MAX_SCALE as int) == value_at(
            f.impulse_sl,
            MAX_SCALE as int,
        ) + value_at(buffer, MAX_SCALE as int),
        f.side == Side::Long ==> value_at(sl_of(f, buffer), MAX_SCALE as int) == value_at(
            f.impulse_sl,
            MAX_SCALE as int,
        ) - value_at(buffer, MAX_SCALE as int),
        dec_le_spec(zero_v(), buffer) && f.side == Side::Short ==> dec_le_spec(f.impulse_sl, sl_of(f, buffer)),
        dec_le_spec(zero_v(), buffer) && f.side == Side::Long ==> dec_le_spec(sl_of(f, buffer), f.impulse_sl),
{
    let s = MAX_SCALE as int;
    let x = f.impulse_sl;
    lemma_order_at(add_of(x, buffer), exact_sum(x, buffer), s);
    lemma_exact_sum_at(x, buffer, s);
    lemma_difference_value(sub_of(x, buffer), x, buffer);
    assert(value_at(zero_v(), s) == 0) by {
        assert(0 * pow10((s - 0) as nat) == 0);
    }
    lemma_order_at(zero_v(), buffer, s);
    lemma_order_at(x, add_of(x, buffer), s);
    lemma_order_at(sub_of(x, buffer), x, s);
}

/// Distance from the entry to the stop.
pub open spec fn dist_of(f: FvgView, buffer: (int, int)) -> (int, int) {
    abs_of(sub_of(f.entry, sl_of(f, buffer)))
}

/// Target level: `min_rr` stop distances beyond the entry.
pub open spec fn tp_of(f: FvgView, dist: (int, int), rr: (int, int)) -> (int, int) {
    match f.side {
        Side::Long => add_of(f.entry, mul_of(dist, rr)),
        Side::Short => sub_of(f.entry, mul_of(dist, rr)),
    }
}

/// The target lies `rr` stop distances beyond the entry: `entry + dist *
/// rr` for a long, `entry - dist * rr` for a short (read at 28 decimal
/// places, where the product and the sum are exact).  So with a
/// non-negative distance and reward ratio the target is never on the stop's
/// side of the entry.
pub proof fn lemma_target_beyond_entry(f: FvgView, dist: (int, int), rr: (int, int))
    requires
        scale_ok(dist),
        scale_ok(rr),
        product_is(mul_of(dist, rr), dist, rr),
        shift_exact(f.entry, mul_of(dist, rr)),
    ensures
        f.side == Side::Long ==> value_at(tp_of(f, dist, rr), MAX_SCALE as int) * pow10(MAX_SCALE as nat)
            == value_at(f.entry, MAX_SCALE as int) * pow10(MAX_SCALE as nat) + value_at(dist, MAX_SCALE as int)
            * value_at(rr, MAX_SCALE as int),
        f.side == Side::Short ==> value_at(tp_of(f, dist, rr), MAX_SCALE as int) * pow10(MAX_SCALE as nat)
            == value_at(f.entry, MAX_SCALE as int) * pow10(MAX_SCALE as nat) - value_at(dist, MAX_SCALE as int)
            * value_at(rr, MAX_SCALE as int),
        dec_le_spec(zero_v(), dist) && dec_le_spec(zero_v(), rr) && f.side == Side::Long ==> dec_le_spec(
            f.entry,
            tp_of(f, dist, rr),
        ),
        dec_le_spec(zero_v(), dist) && dec_le_spec(zero_v(), rr) && f.side == Side::Short ==> dec_le_spec(
            tp_of(f, dist, rr),
            f.entry,
        ),
{
    let s = MAX_SCALE as int;
    let p = pow10(s as nat);
    lemma_pow10_pos(s as nat);
    let x = f.entry;
    let w = mul_of(dist, rr);
    lemma_product_at(w, dist, rr, s);
    lemma_order_at(add_of(x, w), exact_sum(x, w), s);
    lemma_exact_sum_at(x, w, s);
    lemma_difference_value(sub_of(x, w), x, w);
    assert(value_at(zero_v(), s) == 0) by {
        assert(0 * pow10((s - 0) as nat) == 0) by (nonlinear_arith);
    }
    lemma_order_at(zero_v(), dist, s);
    lemma_order_at(zero_v(), rr, s);
    lemma_order_at(x, add_of(x, w), s);
    lemma_order_at(sub_of(x, w), x, s);
    let (vx, vw, vd, vr) = (value_at(x, s), value_at(w, s), value_at(dist, s), value_at(rr, s));
    assert(vx * p + vw * p == vx * p + vd * vr) by (nonlinear_arith)
        requires
            vw * p == vd * vr,
    ;
    assert((vx + vw) * p == vx * p + vw * p) by (nonlinear_arith);
    assert((vx - vw) * p == vx * p - vw * p) by (nonlinear_arith);
    assert(vd >= 0 && vr >= 0 ==> vw >= 0) by (nonlinear_arith)
        requires
            vw * p == vd * vr,
            p > 0,
    ;
}

/// For a profit currency other than the account's and a positive close,
/// one lot is worth the contract size over the close: within one unit of
/// the last place where `rust_decimal`'s quotient is, and exactly (`value *
/// close == contract_size`, read at 28 decimal places) where it is exact.
pub proof fn lemma_lot_value(cv: CostsView, c: Candle)
    requires
        !cv.usd,
        dec_lt_spec(zero_v(), c.close@),
    ensures
        quotient_within_ulp(div_of(cv.contract_size, c.close@), cv.contract_size, c.close@)
            ==> quotient_within_ulp(value_per_lot_of(cv, c), cv.contract_size, c.close@),
        scale_ok(div_of(cv.contract_size, c.close@)) && scale_ok(cv.contract_size) && scale_ok(c.close@)
            && quotient_is(div_of(cv.contract_size, c.close@), cv.contract_size, c.close@) ==> value_at(
            value_per_lot_of(cv, c),
            MAX_SCALE as int,
        ) * value_at(c.close@, MAX_SCALE as int) == value_at(cv.contract_size, MAX_SCALE as int) * pow10(
            MAX_SCALE as nat,
        ),
{
    assert(!dec_eq_spec(c.close@, zero_v())) by {
        assert(pow10(0) == 1);
    }
    let q = div_of(cv.contract_size, c.close@);
    if scale_ok(q) && scale_ok(cv.contract_size) && scale_ok(c.close@) && quotient_is(q, cv.contract_size, c.close@) {
        lemma_quotient_at(q, cv.contract_size, c.close@, MAX_SCALE as int);
    }
}

/// A profit in a currency other than the account's is converted at one over
/// a positive price: within one unit of the last place where
/// `rust_decimal`'s quotient `1 / price` is, and exactly (`rate * price ==
/// 1`, read at 28 decimal places) where it is exact.  Profits in the
/// account's currency are converted at exactly one.
pub proof fn lemma_rate(usd: bool, price: (int, int))
    ensures
        usd ==> rate_of(usd, price) == one_v(),
        !usd && dec_lt_spec(zero_v(), price) && quotient_within_ulp(div_of(one_v(), price), one_v(), price)
            ==> quotient_within_ulp(rate_of(usd, price), one_v(), price),
        !usd && dec_lt_spec(zero_v(), price) && scale_ok(div_of(one_v(), price)) && scale_ok(price)
            && quotient_is(div_of(one_v(), price), one_v(), price) ==> value_at(rate_of(usd, price), MAX_SCALE as int)
            * value_at(price, MAX_SCALE as int) == pow10(MAX_SCALE as nat) * pow10(MAX_SCALE as nat),
{
    let s = MAX_SCALE as int;
    if !usd && dec_lt_spec(zero_v(), price) {
        assert(!dec_le_spec(price, zero_v())) by {
            assert(pow10(0) == 1);
        }
        let q = div_of(one_v(), price);
        if scale_ok(q) && scale_ok(price) && quotient_is(q, one_v(), price) {
            lemma_quotient_at(q, one_v(), price, s);
            assert(value_at(one_v(), s) == pow10(s as nat)) by {
                assert(1 * pow10((s - 0) as nat) == pow10(s as nat));
            }
        }
    }
}

/// The candle trades through the limit entry.
pub open spec fn fills(f: FvgView, c: Candle) -> bool {
    match f.side {
        Side::Long => dec_le_spec(c.low@, f.entry),
        Side::Short => dec_le_spec(f.entry, c.high@),
    }
}

/// Account-currency value of one lot per unit of price.
pub open spec fn value_per_lot_of(cv: CostsView, c: Candle) -> (int, int) {
    if cv.usd || dec_eq_spec(c.close@, zero_v()) {
        cv.contract_size
    } else {
        div_of(cv.contract_size, c.close@)
    }
}

/// A touched setup that passed the trend filter: reject a too-tight stop,
/// wait while the entry is not reached, stop out an exhausted account,
/// otherwise size and open the position.  A setup whose fill sizes to no
/// volume stays pending: a setup leaves only at its expiry, on the trend
/// filter, for a too-tight stop, or by filling.
pub open spec fn fill_step(
    s: SimView,
    f: FvgView,
    c: Candle,
    i: int,
    cfg: BacktestConfig,
    sym: SymbolSpec,
    cv: CostsView,
) -> SimView {
    let sl = sl_of(f, cfg.sl_buffer@);
    let dist = dist_of(f, cfg.sl_buffer@);
    if dec_lt_spec(dist, cv.min_sl) {
        SimView { pending: None, ..s }
    } else if !fills(f, c) {
        s
    } else if dec_le_spec(s.balance, cv.stop_out_balance) {
        SimView { margin_called: true, ..s }
    } else {
        match size_view(
            s.balance,
            cfg.risk_pct@,
            dist,
            value_per_lot_of(cv, c),
            sym.volume_step@,
            sym.volume_min@,
            sym.volume_max@,
        ) {
            None => s,
            Some(v) => SimView {
                open: Some(
                    TradeView {
                        open_time: c.time as int,
                        side: f.side,
                        entry_level: f.entry,
                        actual_entry: entry_spec(f.side, f.entry, cv.spread),
                        sl,
                        tp: tp_of(f, dist, cfg.min_rr@),
                        volume: v,
                        open_idx: i,
                    },
                ),
                pending: None,
                ..s
            },
        }
    }
}

pub open spec fn fill_ok(
    s: SimView,
    f: FvgView,
    c: Candle,
    cfg: BacktestConfig,
    sym: SymbolSpec,
    cv: CostsView,
) -> bool {
    let sl = sl_of(f, cfg.sl_buffer@);
    let dist = dist_of(f, cfg.sl_buffer@);
    &&& match f.side {
        Side::Long => sub_ok(f.impulse_sl, cfg.sl_buffer@),
        Side::Short => add_ok(f.impulse_sl, cfg.sl_buffer@),
    }
    &&& sub_ok(f.entry, sl)
    &&& (!dec_lt_spec(dist, cv.min_sl) ==> {
        &&& mul_ok(dist, cfg.min_rr@)
        &&& match f.side {
            Side::Long => add_ok(f.entry, mul_of(dist, cfg.min_rr@)),
            Side::Short => sub_ok(f.entry, mul_of(dist, cfg.min_rr@)),
        }
        &&& (fills(f, c) && !dec_le_spec(s.balance, cv.stop_out_balance) ==> {
            &&& (!(cv.usd || dec_eq_spec(c.close@, zero_v())) ==> div_ok(cv.contract_size, c.close@))
            &&& size_ok(s.balance, cfg.risk_pct@, dist, value_per_lot_of(cv, c), sym.volume_step@)
            &&& (size_view(
                s.balance,
                cfg.risk_pct@,
                dist,
                value_per_lot_of(cv, c),
                sym.volume_step@,
                sym.volume_min@,
                sym.volume_max@,
            ) is Some ==> entry_ok(f.side, f.entry, cv.spread))
        })
    })
}

/// One candle without a position: skip it outside the date window, expire a
/// stale setup, try to fill the pending setup, or look for a new one in the
/// last three candles.
pub open spec fn entry_step(
    s: SimView,
    cs: Seq<Candle>,
    i: int,
    cfg: BacktestConfig,
    sym: SymbolSpec,
    cv: CostsView,
    ema: Seq<Option<(int, int)>>,
) -> SimView {
    let c = cs[i];
    if date_skip(cfg, c) {
        s
    } else {
        let s1 = expire(s, i);
        match s1.pending {
            Some(f) => if touched_view(f, c) {
                if ema_pass(cfg, ema, i, f, c) {
                    fill_step(s1, f, c, i, cfg, sym, cv)
                } else {
                    SimView { pending: None, ..s1 }
                }
            } else {
                s1
            },
            None => SimView {
                pending: detect_view(
                    cs[i - 2],
                    cs[i - 1],
                    c,
                    cfg.body_pct_min@,
                    cfg.close_pct_min@,
                    cv.min_zone,
                    i,
                    cfg.fvg_expiry as int,
                ),
                ..s1
            },
        }
    }
}

/// What one candle does to a pending setup while no position is open.  A
/// candle outside the date window changes nothing.  At its expiry the setup
/// is dropped as a missed fill and the candle is scanned for a new one.
/// Otherwise, while the candle does not touch the gap (a long's zone high
/// at or above the low, a short's zone low at or below the high), nothing
/// changes; a touch with the trend filter against the setup (with the EMA
/// on: no EMA value yet, or the close not above it for a long, not below it
/// for a short) drops the setup; a touch with the filter passed tries the
/// fill.
pub proof fn lemma_pending_outcome(
    s: SimView,
    cs: Seq<Candle>,
    i: int,
    cfg: BacktestConfig,
    sym: SymbolSpec,
    cv: CostsView,
    ema: Seq<Option<(int, int)>>,
    f: FvgView,
)
    requires
        s.pending == Some(f),
    ensures
        ({
            let r = entry_step(s, cs, i, cfg, sym, cv, ema);
            let c = cs[i];
            let live = !date_skip(cfg, c) && i < f.expiry_idx;
            let touch = match f.side {
                Side::Long => dec_le_spec(c.low@, f.zone_high),
                Side::Short => dec_le_spec(f.zone_low, c.high@),
            };
            let trend = cfg.ema_period == 0 || (ema[i] matches Some(e) && match f.side {
                Side::Long => dec_lt_spec(e, c.close@),
                Side::Short => dec_lt_spec(c.close@, e),
            });
            &&& date_skip(cfg, c) ==> r == s
            &&& !date_skip(cfg, c) && i >= f.expiry_idx ==> r.missed_fills == s.missed_fills + 1 && r.open == s.open
                && r.pending == detect_view(
                cs[i - 2],
                cs[i - 1],
                c,
                cfg.body_pct_min@,
                cfg.close_pct_min@,
                cv.min_zone,
                i,
                cfg.fvg_expiry as int,
            )
            &&& live && !touch ==> r == s
            &&& live && touch && !trend ==> r == SimView { pending: None, ..s }
            &&& live && touch && trend ==> r == fill_step(s, f, c, i, cfg, sym, cv)
        }),
{
}

/// What a touch with the trend filter passed does.  A stop closer to the
/// entry than `min_sl` drops the setup.  While the candle does not reach
/// the entry (a long's entry below the low, a short's above the high)
/// nothing changes.  Reaching it with the balance at or below the stop-out
/// level margin-calls the run.  Otherwise, where the sizing gives a volume,
/// the position opens at this candle on the setup's side, at the entry
/// (filled at `actual_entry`), with the stop, the target and that volume,
/// and the setup is used up; where it gives none, nothing changes.
pub proof fn lemma_fill_outcome(s: SimView, f: FvgView, c: Candle, i: int, cfg: BacktestConfig, sym: SymbolSpec, cv: CostsView)
    ensures
        ({
            let r = fill_step(s, f, c, i, cfg, sym, cv);
            let dist = dist_of(f, cfg.sl_buffer@);
            let reach = match f.side {
                Side::Long => dec_le_spec(c.low@, f.entry),
                Side::Short => dec_le_spec(f.entry, c.high@),
            };
            let size = size_view(
                s.balance,
                cfg.risk_pct@,
                dist,
                value_per_lot_of(cv, c),
                sym.volume_step@,
                sym.volume_min@,
                sym.volume_max@,
            );
            let go = !dec_lt_spec(dist, cv.min_sl) && reach && !dec_le_spec(s.balance, cv.stop_out_balance);
            &&& dec_lt_spec(dist, cv.min_sl) ==> r == SimView { pending: None, ..s }
            &&& !dec_lt_spec(dist, cv.min_sl) && !reach ==> r == s
            &&& !dec_lt_spec(dist, cv.min_sl) && reach && dec_le_spec(s.balance, cv.stop_out_balance) ==> r
                == SimView { margin_called: true, ..s }
            &&& go && size is None ==> r == s
            &&& go ==> (size matches Some(v) ==> r.pending is None && r.open == Some(
                TradeView {
                    open_time: c.time as int,
                    side: f.side,
                    entry_level: f.entry,
                    actual_entry: entry_spec(f.side, f.entry, cv.spread),
                    sl: sl_of(f, cfg.sl_buffer@),
                    tp: tp_of(f, dist, cfg.min_rr@),
                    volume: v,
                    open_idx: i,
                },
            ) && r.balance == s.balance && r.events == s.events)
        }),
{
}

pub open spec fn entry_step_ok(
    s: SimView,
    cs: Seq<Candle>,
    i: int,
    cfg: BacktestConfig,
    sym: SymbolSpec,
    cv: CostsView,
    ema: Seq<Option<(int, int)>>,
) -> bool {
    let c = cs[i];
    let s1 = expire(s, i);
    !date_skip(cfg, c) ==> match s1.pending {
        Some(f) => touched_view(f, c) && ema_pass(cfg, ema, i, f, c) ==> fill_ok(s1, f, c, cfg, sym, cv),
        None => detect_ok(
            cs[i - 2],
            cs[i - 1],
            c,
            cfg.body_pct_min@,
            cfg.close_pct_min@,
            cv.min_zone,
            i,
            cfg.fvg_expiry as int,
        ),
    }
}

// ── the walk-forward run ─────────────────────────────────────────────────────

/// Processing of candle `i` (`2 <= i`).
pub open spec fn step(
    s: SimView,
    cs: Seq<Candle>,
    i: int,
    cfg: BacktestConfig,
    sym: SymbolSpec,
    cv: CostsView,
    ema: Seq<Option<(int, int)>>,
) -> SimView {
    match s.open {
        Some(t) => manage_step(s, t, cs[i], i, cfg, cv),
        None => entry_step(s, cs, i, cfg, sym, cv, ema),
    }
}

pub open spec fn step_ok(
    s: SimView,
    cs: Seq<Candle>,
    i: int,
    cfg: BacktestConfig,
    sym: SymbolSpec,
    cv: CostsView,
    ema: Seq<Option<(int, int)>>,
) -> bool {
    match s.open {
        Some(t) => manage_ok(s, t, cs[i], i, cfg, cv),
        None => entry_step_ok(s, cs, i, cfg, sym, cv, ema),
    }
}

/// The state before the first candle.
pub open spec fn initial_state(cfg: BacktestConfig) -> SimView {
    SimView {
        balance: cfg.balance@,
        peak: cfg.balance@,
        max_drawdown: zero_v(),
        open: None,
        pending: None,
        margin_called: false,
        trades: 0,
        wins: 0,
        losses: 0,
        timeouts: 0,
        missed_fills: 0,
        total_pnl: zero_v(),
        total_friction: zero_v(),
        sum_wins: zero_v(),
        sum_losses: zero_v(),
        max_consec: 0,
        cur_consec: 0,
        events: Seq::empty(),
    }
}

/// The state after candles `2 .. k` (the run stops at a margin call).
pub open spec fn run_upto(cs: Seq<Candle>, k: int, cfg: BacktestConfig, sym: SymbolSpec) -> SimView
    decreases k,
{
    if k <= 2 {
        initial_state(cfg)
    } else {
        let s = run_upto(cs, k - 1, cfg, sym);
        if s.margin_called {
            s
        } else {
            step(s, cs, k - 1, cfg, sym, costs_of(sym, cfg), ema_values(cs, cfg.ema_period as int))
        }
    }
}

pub open spec fn run_ok_upto(cs: Seq<Candle>, k: int, cfg: BacktestConfig, sym: SymbolSpec) -> bool
    decreases k,
{
    if k <= 2 {
        true
    } else {
        let s = run_upto(cs, k - 1, cfg, sym);
        &&& run_ok_upto(cs, k - 1, cfg, sym)
        &&& (!s.margin_called ==> step_ok(
            s,
            cs,
            k - 1,
            cfg,
            sym,
            costs_of(sym, cfg),
            ema_values(cs, cfg.ema_period as int),
        ))
    }
}

/// After the last candle a trade still open is closed at the last close.
pub open spec fn finish(s: SimView, cs: Seq<Candle>, cfg: BacktestConfig, cv: CostsView) -> SimView {
    match s.open {
        Some(t) => {
            let exit = exit_spec(t.side, cs.last().close@, false, cv.spread, cv.slip);
            let comm = mul_of(cfg.commission@, t.volume);
            let pnl = pnl_of(t.side, t.actual_entry, exit, t.volume, cv.contract_size, rate_of(cv.usd, exit), comm);
            let b = add_of(s.balance, pnl);
            SimView {
                balance: b,
                timeouts: s.timeouts + 1,
                trades: s.trades + 1,
                total_pnl: add_of(s.total_pnl, pnl),
                open: None,
                events: s.events.push(
                    EventView {
                        kind: ExitKind::EndOfData,
                        open_time: t.open_time,
                        side: t.side,
                        actual_entry: t.actual_entry,
                        sl: t.sl,
                        tp: t.tp,
                        volume: t.volume,
                        exit,
                        friction: None,
                        pnl,
                        balance: b,
                    },
                ),
                ..s
            }
        },
        None => s,
    }
}

/// A position still open when the data runs out is closed at the last
/// candle's close (no stop slippage), counted as a trade and a timeout but
/// neither as a win nor a loss, and its result is added to the balance and
/// the total; without an open position nothing changes.
pub proof fn lemma_finish_outcome(s: SimView, cs: Seq<Candle>, cfg: BacktestConfig, cv: CostsView)
    ensures
        s.open is None ==> finish(s, cs, cfg, cv) == s,
        s.open matches Some(t) ==> {
            let r = finish(s, cs, cfg, cv);
            let n = s.events.len() as int;
            &&& closed_with(s, r, ExitKind::EndOfData, exit_spec(t.side, cs.last().close@, false, cv.spread, cv.slip))
            &&& r.timeouts == s.timeouts + 1
            &&& r.wins == s.wins && r.losses == s.losses
            &&& r.balance == add_of(s.balance, r.events[n].pnl)
            &&& r.total_pnl == add_of(s.total_pnl, r.events[n].pnl)
            &&& r.events[n].pnl == pnl_of(
                t.side,
                t.actual_entry,
                r.events[n].exit,
                t.volume,
                cv.contract_size,
                rate_of(cv.usd, r.events[n].exit),
                mul_of(cfg.commission@, t.volume),
            )
        },
{
}

pub open spec fn finish_ok(s: SimView, cs: Seq<Candle>, cfg: BacktestConfig, cv: CostsView) -> bool {
    match s.open {
        Some(t) => {
            let exit = exit_spec(t.side, cs.last().close@, false, cv.spread, cv.slip);
            let comm = mul_of(cfg.commission@, t.volume);
            let pnl = pnl_of(t.side, t.actual_entry, exit, t.volume, cv.contract_size, rate_of(cv.usd, exit), comm);
            &&& exit_ok(t.side, cs.last().close@, false, cv.spread, cv.slip)
            &&& mul_ok(cfg.commission@, t.volume)
            &&& rate_ok(cv.usd, exit)
            &&& pnl_ok(t.side, t.actual_entry, exit, t.volume, cv.contract_size, rate_of(cv.usd, exit), comm)
            &&& add_ok(s.balance, pnl)
            &&& add_ok(s.total_pnl, pnl)
        },
        None => true,
    }
}

/// The final state of a backtest over `cs`.
pub open spec fn simulate_spec(cs: Seq<Candle>, cfg: BacktestConfig, sym: SymbolSpec) -> SimView {
    finish(run_upto(cs, cs.len() as int, cfg, sym), cs, cfg, costs_of(sym, cfg))
}

/// The whole backtest runs without overflow.
pub open spec fn simulate_ok(cs: Seq<Candle>, cfg: BacktestConfig, sym: SymbolSpec) -> bool {
    &&& costs_ok(sym, cfg)
    &&& ema_values_ok(cs, cfg.ema_period as int)
    &&& run_ok_upto(cs, cs.len() as int, cfg, sym)
    &&& finish_ok(run_upto(cs, cs.len() as int, cfg, sym), cs, cfg, costs_of(sym, cfg))
}

// ── counters ────────────────────────────────────────────────────────────────

/// The counters of a state: wins and losses split the trades, the loss
/// streaks never exceed the losses, and one event is logged per trade.
pub open spec fn counters_sound(s: SimView, bound: int) -> bool {
    &&& 0 <= s.trades <= bound
    &&& 0 <= s.wins
    &&& 0 <= s.losses
    &&& s.wins + s.losses == s.trades
    &&& 0 <= s.timeouts <= s.trades
    &&& 0 <= s.cur_consec <= s.max_consec <= s.losses
    &&& 0 <= s.missed_fills <= bound
    &&& s.events.len() == s.trades
    &&& (s.open matches Some(t) ==> 2 <= t.open_idx <= bound + 1)
}

proof fn lemma_step_counters(
    s: SimView,
    cs: Seq<Candle>,
    i: int,
    cfg: BacktestConfig,
    sym: SymbolSpec,
    cv: CostsView,
    ema: Seq<Option<(int, int)>>,
    bound: int,
)
    requires
        counters_sound(s, bound),
        i == bound + 2,
    ensures
        counters_sound(step(s, cs, i, cfg, sym, cv, ema), bound + 1),
{
}

/// Every state of the run keeps its counters sound: after `k` candles
/// (indices `2 .. k`) there are at most `k - 2` trades and missed fills.
pub proof fn lemma_run_counters(cs: Seq<Candle>, k: int, cfg: BacktestConfig, sym: SymbolSpec)
    requires
        2 <= k,
    ensures
        counters_sound(run_upto(cs, k, cfg, sym), k - 2),
    decreases k,
{
    if k > 2 {
        lemma_run_counters(cs, k - 1, cfg, sym);
        let s = run_upto(cs, k - 1, cfg, sym);
        if !s.margin_called {
            lemma_step_counters(
                s,
                cs,
                k - 1,
                cfg,
                sym,
                costs_of(sym, cfg),
                ema_values(cs, cfg.ema_period as int),
                k - 3,
            );
        }
    }
}

// ── executable state ────────────────────────────────────────────────────────

struct SimState {
    balance: Dec,
    peak: Dec,
    max_drawdown: Dec,
    open_trade: Option<OpenTrade>,
    pending: Option<PendingFvg>,
    margin_called: bool,
    trades: u32,
    wins: u32,
    losses: u32,
    timeouts: u32,
    missed_fills: u32,
    total_pnl: Dec,
    total_friction: Dec,
    sum_wins: Dec,
    sum_losses: Dec,
    max_consec: u32,
    cur_consec: u32,
    events: Vec<TradeEvent>,
}

spec fn events_view(es: Seq<TradeEvent>) -> Seq<EventView> {
    es.map_values(|e: TradeEvent| event_view(e))
}

spec fn sv(st: SimState) -> SimView {
    SimView {
        balance: st.balance@,
        peak: st.peak@,
        max_drawdown: st.max_drawdown@,
        open: opt_trade_view(st.open_trade),
        pending: opt_fvg_view(st.pending),
        margin_called: st.margin_called,
        trades: st.trades as int,
        wins: st.wins as int,
        losses: st.losses as int,
        timeouts: st.timeouts as int,
        missed_fills: st.missed_fills as int,
        total_pnl: st.total_pnl@,
        total_friction: st.total_friction@,
        sum_wins: st.sum_wins@,
        sum_losses: st.sum_losses@,
        max_consec: st.max_consec as int,
        cur_consec: st.cur_consec as int,
        events: events_view(st.events@),
    }
}

/// Room for one more trade and one more missed fill in the `u32` counters.
spec fn room(st: SimState) -> bool {
    &&& st.trades < u32::MAX
    &&& st.wins < u32::MAX
    &&& st.losses < u32::MAX
    &&& st.timeouts < u32::MAX
    &&& st.cur_consec < u32::MAX
    &&& st.max_consec < u32::MAX
    &&& st.missed_fills < u32::MAX
}

fn close_trade_exec(
    st: &mut SimState,
    t: OpenTrade,
    kind: ExitKind,
    exit: Dec,
    pnl: Dec,
    friction: Option<Dec>,
    is_loss: bool,
) -> (ok: bool)
    requires
        room(*old(st)),
    ensures
        ok == close_trade_ok(sv(*old(st)), pnl@, opt_view(friction), is_loss),
        ok ==> sv(*final(st)) == close_trade(
            sv(*old(st)),
            trade_view(t),
            kind,
            exit@,
            pnl@,
            opt_view(friction),
            is_loss,
        ),
{
    let b = match checked_add(st.balance, pnl) {
        Some(v) => v,
        None => return false,
    };
    let peak = if lt_dec(st.peak, b) {
        b
    } else {
        st.peak
    };
    let dd = match checked_sub(b, peak) {
        Some(v) => v,
        None => return false,
    };
    let (sum_wins, sum_losses) = if is_loss {
        match checked_add(st.sum_losses, pnl.abs()) {
            Some(v) => (st.sum_wins, v),
            None => return false,
        }
    } else {
        match checked_add(st.sum_wins, pnl) {
            Some(v) => (v, st.sum_losses),
            None => return false,
        }
    };
    let total_pnl = match checked_add(st.total_pnl, pnl) {
        Some(v) => v,
        None => return false,
    };
    let total_friction = match friction {
        Some(f) => match checked_add(st.total_friction, f) {
            Some(v) => v,
            None => return false,
        },
        None => st.total_friction,
    };
    let ghost old_events = st.events@;
    st.balance = b;
    st.peak = peak;
    if lt_dec(dd, st.max_drawdown) {
        st.max_drawdown = dd;
    }
    if is_loss {
        st.losses = st.losses + 1;
        st.cur_consec = st.cur_consec + 1;
        if st.cur_consec > st.max_consec {
            st.max_consec = st.cur_consec;
        }
    } else {
        st.wins = st.wins + 1;
        st.cur_consec = 0;
    }
    st.sum_wins = sum_wins;
    st.sum_losses = sum_losses;
    st.trades = st.trades + 1;
    if kind == ExitKind::Timeout {
        st.timeouts = st.timeouts + 1;
    }
    st.total_pnl = total_pnl;
    st.total_friction = total_friction;
    st.open_trade = None;
    let ev = TradeEvent {
        kind,
        open_time: t.open_time,
        side: t.side,
        actual_entry: t.actual_entry,
        sl: t.sl,
        tp: t.tp,
        volume: t.volume,
        exit,
        friction,
        pnl,
        balance: b,
    };
    st.events.push(ev);
    assert(events_view(st.events@) =~= events_view(old_events).push(event_view(ev)));
    true
}

struct Costs {
    spread: Dec,
    slip: Dec,
    pip: Dec,
    min_zone: Dec,
    min_sl: Dec,
    stop_out_balance: Dec,
    usd: bool,
    contract_size: Dec,
}

spec fn costs_view(c: Costs) -> CostsView {
    CostsView {
        spread: c.spread@,
        slip: c.slip@,
        pip: c.pip@,
        min_zone: c.min_zone@,
        min_sl: c.min_sl@,
        stop_out_balance: c.stop_out_balance@,
        usd: c.usd,
        contract_size: c.contract_size@,
    }
}

fn gross_exec(side: Side, entry: Dec, exit: Dec, volume: Dec, cs: Dec) -> (r: Option<Dec>)
    ensures
        r is Some <==> gross_ok(side, entry@, exit@, volume@, cs@),
        r is Some ==> r.unwrap()@ == gross_of(side, entry@, exit@, volume@, cs@),
{
    let d = match side {
        Side::Long => checked_sub(exit, entry),
        Side::Short => checked_sub(entry, exit),
    };
    let d = match d {
        Some(v) => v,
        None => return None,
    };
    let dv = match checked_mul(d, volume) {
        Some(v) => v,
        None => return None,
    };
    checked_mul(dv, cs)
}

fn rate_exec(usd: bool, price: Dec) -> (r: Option<Dec>)
    ensures
        r is Some <==> rate_ok(usd, price@),
        r is Some ==> r.unwrap()@ == rate_of(usd, price@),
{
    if usd || le_dec(price, Dec::zero()) {
        Some(Dec::one())
    } else {
        checked_div(Dec::one(), price)
    }
}

fn pnl_exec(side: Side, entry: Dec, exit: Dec, volume: Dec, cs: Dec, rate: Dec, commission: Dec) -> (r: Option<Dec>)
    ensures
        r is Some <==> pnl_ok(side, entry@, exit@, volume@, cs@, rate@, commission@),
        r is Some ==> r.unwrap()@ == pnl_of(side, entry@, exit@, volume@, cs@, rate@, commission@),
{
    let g = match gross_exec(side, entry, exit, volume, cs) {
        Some(v) => v,
        None => return None,
    };
    let gr = match checked_mul(g, rate) {
        Some(v) => v,
        None => return None,
    };
    checked_sub(gr, commission)
}

fn timeout_exec(st: &mut SimState, t: OpenTrade, c: &Candle, cfg: &BacktestConfig, cv: &Costs) -> (ok: bool)
    requires
        room(*old(st)),
    ensures
        ok == timeout_ok(sv(*old(st)), trade_view(t), *c, *cfg, costs_view(*cv)),
        ok ==> sv(*final(st)) == timeout_step(sv(*old(st)), trade_view(t), *c, *cfg, costs_view(*cv)),
{
    let exit = match crate::helpers::exit_core(t.side, c.close, false, cv.spread, cv.slip) {
        Some(v) => v,
        None => return false,
    };
    let comm = match checked_mul(cfg.commission, t.volume) {
        Some(v) => v,
        None => return false,
    };
    let rate = match rate_exec(cv.usd, exit) {
        Some(v) => v,
        None => return false,
    };
    let pnl = match pnl_exec(t.side, t.actual_entry, exit, t.volume, cv.contract_size, rate, comm) {
        Some(v) => v,
        None => return false,
    };
    let is_loss = !le_dec(Dec::zero(), pnl);
    close_trade_exec(st, t, ExitKind::Timeout, exit, pnl, None, is_loss)
}

fn stop_check_exec(st: &SimState, t: OpenTrade, c: &Candle, cfg: &BacktestConfig, cv: &Costs) -> (r: Option<(bool, Dec)>)
    ensures
        r is Some <==> unrealized_ok(sv(*st), trade_view(t), *c, *cfg, costs_view(*cv)),
        r is Some ==> r.unwrap().0 == stop_out_hit(sv(*st), trade_view(t), *c, *cfg, costs_view(*cv))
            && r.unwrap().1@ == rate_of(cv.usd, worst_of(t.side, *c)),
{
    let worst = match t.side {
        Side::Long => c.low,
        Side::Short => c.high,
    };
    let rate = match rate_exec(cv.usd, worst) {
        Some(v) => v,
        None => return None,
    };
    let g = match gross_exec(t.side, t.actual_entry, worst, t.volume, cv.contract_size) {
        Some(v) => v,
        None => return None,
    };
    let gr = match checked_mul(g, rate) {
        Some(v) => v,
        None => return None,
    };
    let comm = match checked_mul(cfg.commission, t.volume) {
        Some(v) => v,
        None => return None,
    };
    let unrealized = match checked_sub(gr, comm) {
        Some(v) => v,
        None => return None,
    };
    let equity = match checked_add(st.balance, unrealized) {
        Some(v) => v,
        None => return None,
    };
    Some((le_dec(equity, cv.stop_out_balance), rate))
}

fn stop_out_exec(st: &mut SimState, t: OpenTrade, c: &Candle, cfg: &BacktestConfig, cv: &Costs, rate: Dec) -> (ok: bool)
    requires
        room(*old(st)),
        rate@ == rate_of(cv.usd, worst_of(t.side, *c)),
        mul_ok(cfg.commission@, t.volume@),
    ensures
        ok == stop_out_ok(sv(*old(st)), trade_view(t), *c, *cfg, costs_view(*cv)),
        ok ==> sv(*final(st)) == stop_out_step(sv(*old(st)), trade_view(t), *c, *cfg, costs_view(*cv)),
{
    let worst = match t.side {
        Side::Long => c.low,
        Side::Short => c.high,
    };
    let exit = match crate::helpers::exit_core(t.side, worst, true, cv.spread, cv.slip) {
        Some(v) => v,
        None => return false,
    };
    let comm = match checked_mul(cfg.commission, t.volume) {
        Some(v) => v,
        None => return false,
    };
    let pnl = match pnl_exec(t.side, t.actual_entry, exit, t.volume, cv.contract_size, rate, comm) {
        Some(v) => v,
        None => return false,
    };
    let ok = close_trade_exec(st, t, ExitKind::StopOut, exit, pnl, None, true);
    if ok {
        st.margin_called = true;
    }
    ok
}

fn exit_exec(st: &mut SimState, t: OpenTrade, c: &Candle, cfg: &BacktestConfig, cv: &Costs) -> (ok: bool)
    requires
        room(*old(st)),
    ensures
        ok == exit_step_ok(sv(*old(st)), trade_view(t), *c, *cfg, costs_view(*cv)),
        ok ==> sv(*final(st)) == exit_step(sv(*old(st)), trade_view(t), *c, *cfg, costs_view(*cv)),
{
    let is_sl = match t.side {
        Side::Long => le_dec(c.low, t.sl),
        Side::Short => le_dec(t.sl, c.high),
    };
    let level = if is_sl {
        t.sl
    } else {
        t.tp
    };
    let exit = match crate::helpers::exit_core(t.side, level, is_sl, cv.spread, cv.slip) {
        Some(v) => v,
        None => return false,
    };
    let comm = match checked_mul(cfg.commission, t.volume) {
        Some(v) => v,
        None => return false,
    };
    let rate = match rate_exec(cv.usd, exit) {
        Some(v) => v,
        None => return false,
    };
    let pnl = match pnl_exec(t.side, t.actual_entry, exit, t.volume, cv.contract_size, rate, comm) {
        Some(v) => v,
        None => return false,
    };
    let fl_rate = match rate_exec(cv.usd, level) {
        Some(v) => v,
        None => return false,
    };
    let g = match gross_exec(t.side, t.entry_level, level, t.volume, cv.contract_size) {
        Some(v) => v,
        None => return false,
    };
    let frictionless = match checked_mul(g, fl_rate) {
        Some(v) => v,
        None => return false,
    };
    let friction = match checked_sub(frictionless, pnl) {
        Some(v) => v,
        None => return false,
    };
    let kind = if is_sl {
        ExitKind::StopLoss
    } else {
        ExitKind::TakeProfit
    };
    close_trade_exec(st, t, kind, exit, pnl, Some(friction), is_sl)
}

fn manage_exec(
    st: &mut SimState,
    t: OpenTrade,
    c: &Candle,
    i: usize,
    cfg: &BacktestConfig,
    cv: &Costs,
) -> (ok: bool)
    requires
        room(*old(st)),
        t.open_candle_idx <= i,
    ensures
        ok == manage_ok(sv(*old(st)), trade_view(t), *c, i as int, *cfg, costs_view(*cv)),
        ok ==> sv(*final(st)) == manage_step(sv(*old(st)), trade_view(t), *c, i as int, *cfg, costs_view(*cv)),
{
    if cfg.timeout_candles > 0 && i - t.open_candle_idx >= cfg.timeout_candles {
        return timeout_exec(st, t, c, cfg, cv);
    }
    if lt_dec(Dec::zero(), cfg.stop_out_pct) {
        match stop_check_exec(st, t, c, cfg, cv) {
            None => return false,
            Some((true, rate)) => return stop_out_exec(st, t, c, cfg, cv, rate),
            Some((false, _)) => {},
        }
    }
    let sl_hit = match t.side {
        Side::Long => le_dec(c.low, t.sl),
        Side::Short => le_dec(t.sl, c.high),
    };
    let tp_hit = match t.side {
        Side::Long => le_dec(t.tp, c.high),
        Side::Short => le_dec(c.low, t.tp),
    };
    if sl_hit || tp_hit {
        exit_exec(st, t, c, cfg, cv)
    } else {
        true
    }
}

fn day_of_exec(t: i64) -> (r: i64)
    ensures
        r == day_of(t as int),
{
    let q: i64 = if t >= 0 {
        t / SECONDS_PER_DAY
    } else {
        let p: i64 = (-(t + 1)) / SECONDS_PER_DAY;
        proof {
            let rem = (-(t + 1)) % 86400;
            vstd::arithmetic::div_mod::lemma_fundamental_div_mod(-(t + 1), 86400);
            vstd::arithmetic::div_mod::lemma_fundamental_div_mod_converse(
                t as int,
                86400,
                -(p + 1),
                86400 - rem - 1,
            );
        }
        -(p + 1)
    };
    q + UNIX_EPOCH_DAY_FROM_CE
}

proof fn lemma_size_view(
    r: Option<Dec>,
    balance: (int, int),
    risk_pct: (int, int),
    sl_distance: (int, int),
    value_per_lot: (int, int),
    vol_step: (int, int),
    min_vol: (int, int),
    max_vol: (int, int),
)
    requires
        size_spec(r, balance, risk_pct, sl_distance, value_per_lot, vol_step, min_vol, max_vol),
    ensures
        opt_view(r) == size_view(balance, risk_pct, sl_distance, value_per_lot, vol_step, min_vol, max_vol),
{
}

fn fill_exec(
    st: &mut SimState,
    f: PendingFvg,
    c: &Candle,
    i: usize,
    cfg: &BacktestConfig,
    sym: &SymbolSpec,
    cv: &Costs,
) -> (ok: bool)
    ensures
        ok == fill_ok(sv(*old(st)), fvg_view(f), *c, *cfg, *sym, costs_view(*cv)),
        ok ==> sv(*final(st)) == fill_step(sv(*old(st)), fvg_view(f), *c, i as int, *cfg, *sym, costs_view(*cv)),
{
    let sl = match f.side {
        Side::Long => checked_sub(f.impulse_sl, cfg.sl_buffer),
        Side::Short => checked_add(f.impulse_sl, cfg.sl_buffer),
    };
    let sl = match sl {
        Some(v) => v,
        None => return false,
    };
    let dist = match checked_sub(f.entry, sl) {
        Some(v) => v.abs(),
        None => return false,
    };
    if lt_dec(dist, cv.min_sl) {
        st.pending = None;
        return true;
    }
    let reward = match checked_mul(dist, cfg.min_rr) {
        Some(v) => v,
        None => return false,
    };
    let tp = match f.side {
        Side::Long => checked_add(f.entry, reward),
        Side::Short => checked_sub(f.entry, reward),
    };
    let tp = match tp {
        Some(v) => v,
        None => return false,
    };
    let reached = match f.side {
        Side::Long => le_dec(c.low, f.entry),
        Side::Short => le_dec(f.entry, c.high),
    };
    if !reached {
        return true;
    }
    if le_dec(st.balance, cv.stop_out_balance) {
        st.margin_called = true;
        return true;
    }
    let value_per_lot = if cv.usd || eq_dec(c.close, Dec::zero()) {
        cv.contract_size
    } else {
        match checked_div(cv.contract_size, c.close) {
            Some(v) => v,
            None => return false,
        }
    };
    let sized = crate::helpers::size_core(
        st.balance,
        cfg.risk_pct,
        dist,
        value_per_lot,
        sym.volume_step,
        sym.volume_min,
        sym.volume_max,
    );
    match sized {
        None => false,
        Some(None) => {
            proof {
                lemma_size_view(
                    None,
                    st.balance@,
                    cfg.risk_pct@,
                    dist@,
                    value_per_lot@,
                    sym.volume_step@,
                    sym.volume_min@,
                    sym.volume_max@,
                );
            }
            true
        },
        Some(Some(volume)) => {
            proof {
                lemma_size_view(
                    Some(volume),
                    st.balance@,
                    cfg.risk_pct@,
                    dist@,
                    value_per_lot@,
                    sym.volume_step@,
                    sym.volume_min@,
                    sym.volume_max@,
                );
            }
            let ae = match crate::helpers::entry_core(f.side, f.entry, cv.spread) {
                Some(v) => v,
                None => return false,
            };
            st.open_trade = Some(
                OpenTrade {
                    open_time: c.time,
                    side: f.side,
                    entry_level: f.entry,
                    actual_entry: ae,
                    sl,
                    tp,
                    volume,
                    open_candle_idx: i,
                },
            );
            st.pending = None;
            true
        },
    }
}

/// The EMA vector holds, per candle, the values of `ema_values`.
pub open spec fn ema_matches(ema: Seq<Option<Dec>>, cs: Seq<Candle>, period: int) -> bool {
    &&& ema.len() == cs.len()
    &&& ema_values(cs, period).len() == cs.len()
    &&& forall|j: int| 0 <= j < cs.len() ==> #[trigger] opt_view(ema[j]) == ema_values(cs, period)[j]
}

fn entry_exec(
    st: &mut SimState,
    candles: &[Candle],
    i: usize,
    cfg: &BacktestConfig,
    sym: &SymbolSpec,
    cv: &Costs,
    ema: &Vec<Option<Dec>>,
) -> (ok: bool)
    requires
        2 <= i < candles@.len(),
        room(*old(st)),
        ema_matches(ema@, candles@, cfg.ema_period as int),
    ensures
        ok == entry_step_ok(
            sv(*old(st)),
            candles@,
            i as int,
            *cfg,
            *sym,
            costs_view(*cv),
            ema_values(candles@, cfg.ema_period as int),
        ),
        ok ==> sv(*final(st)) == entry_step(
            sv(*old(st)),
            candles@,
            i as int,
            *cfg,
            *sym,
            costs_view(*cv),
            ema_values(candles@, cfg.ema_period as int),
        ),
{
    let c = candles[i];
    let day = day_of_exec(c.time);
    match cfg.date_from {
        Some(d) => if day < d {
            return true;
        },
        None => {},
    }
    match cfg.date_to {
        Some(d) => if day > d {
            return true;
        },
        None => {},
    }
    match st.pending {
        Some(f) => if i >= f.expiry_idx {
            st.missed_fills = st.missed_fills + 1;
            st.pending = None;
        },
        None => {},
    }
    match st.pending {
        Some(f) => {
            if f.is_touched(&c) {
                let ema_ok = if cfg.ema_period > 0 {
                    assert(opt_view(ema@[i as int]) == ema_values(candles@, cfg.ema_period as int)[i as int]);
                    match ema[i] {
                        Some(e) => match f.side {
                            Side::Long => lt_dec(e, c.close),
                            Side::Short => lt_dec(c.close, e),
                        },
                        None => false,
                    }
                } else {
                    true
                };
                if ema_ok {
                    fill_exec(st, f, &c, i, cfg, sym, cv)
                } else {
                    st.pending = None;
                    true
                }
            } else {
                true
            }
        },
        None => {
            let found = detect_core(
                &candles[i - 2],
                &candles[i - 1],
                &c,
                cfg.body_pct_min,
                cfg.close_pct_min,
                cv.min_zone,
                i,
                cfg.fvg_expiry,
            );
            match found {
                None => false,
                Some(r) => {
                    proof {
                        lemma_detect_view(
                            r,
                            candles@[i - 2],
                            candles@[i - 1],
                            c,
                            cfg.body_pct_min@,
                            cfg.close_pct_min@,
                            cv.min_zone@,
                            i as int,
                            cfg.fvg_expiry as int,
                        );
                    }
                    st.pending = r;
                    true
                },
            }
        },
    }
}

fn step_exec(
    st: &mut SimState,
    candles: &[Candle],
    i: usize,
    cfg: &BacktestConfig,
    sym: &SymbolSpec,
    cv: &Costs,
    ema: &Vec<Option<Dec>>,
) -> (ok: bool)
    requires
        2 <= i < candles@.len(),
        room(*old(st)),
        ema_matches(ema@, candles@, cfg.ema_period as int),
        old(st).open_trade matches Some(t) ==> t.open_candle_idx <= i,
    ensures
        ok == step_ok(
            sv(*old(st)),
            candles@,
            i as int,
            *cfg,
            *sym,
            costs_view(*cv),
            ema_values(candles@, cfg.ema_period as int),
        ),
        ok ==> sv(*final(st)) == step(
            sv(*old(st)),
            candles@,
            i as int,
            *cfg,
            *sym,
            costs_view(*cv),
            ema_values(candles@, cfg.ema_period as int),
        ),
{
    match st.open_trade {
        Some(t) => manage_exec(st, t, &candles[i], i, cfg, cv),
        None => entry_exec(st, candles, i, cfg, sym, cv, ema),
    }
}

fn costs_core(sym: &SymbolSpec, cfg: &BacktestConfig) -> (r: Option<Costs>)
    ensures
        r is Some <==> costs_ok(*sym, *cfg),
        r is Some ==> costs_view(r.unwrap()) == costs_of(*sym, *cfg),
{
    let spread = match cfg.spread_override {
        Some(d) => d,
        None => match checked_mul(Dec::from_i64(sym.spread), sym.point) {
            Some(v) => v,
            None => return None,
        },
    };
    let slip = match checked_mul(cfg.slippage_points, sym.point) {
        Some(v) => v,
        None => return None,
    };
    let pip = if sym.digits % 2 == 1 {
        match checked_mul(sym.point, Dec::from_u64(10)) {
            Some(v) => v,
            None => return None,
        }
    } else {
        sym.point
    };
    let min_zone = match checked_mul(cfg.min_fvg_pips, pip) {
        Some(v) => v,
        None => return None,
    };
    let min_sl = match checked_mul(cfg.min_sl_pips, pip) {
        Some(v) => v,
        None => return None,
    };
    let stop_out_balance = match checked_mul(cfg.balance, cfg.stop_out_pct) {
        Some(v) => v,
        None => return None,
    };
    Some(
        Costs {
            spread,
            slip,
            pip,
            min_zone,
            min_sl,
            stop_out_balance,
            usd: sym.profit_is_usd,
            contract_size: sym.contract_size,
        },
    )
}

fn closes_exec(candles: &[Candle]) -> (r: Vec<Dec>)
    ensures
        r@ == closes_of(candles@),
{
    let mut out: Vec<Dec> = Vec::new();
    let mut i: usize = 0;
    while i < candles.len()
        invariant
            i <= candles@.len(),
            out@ == closes_of(candles@).subrange(0, i as int),
        decreases candles@.len() - i,
    {
        out.push(candles[i].close);
        i = i + 1;
        assert(out@ =~= closes_of(candles@).subrange(0, i as int));
    }
    assert(out@ =~= closes_of(candles@));
    out
}

pub(crate) fn ema_exec(candles: &[Candle], period: usize) -> (r: Option<Vec<Option<Dec>>>)
    ensures
        r is Some <==> ema_values_ok(candles@, period as int),
        r is Some ==> ema_matches(r.unwrap()@, candles@, period as int),
{
    if period > 0 {
        let closes = closes_exec(candles);
        let r = crate::helpers::ema_core(&closes, period);
        match r {
            None => None,
            Some(v) => {
                assert(ema_matches(v@, candles@, period as int));
                Some(v)
            },
        }
    } else {
        Some(crate::helpers::none_series(candles.len()))
    }
}

proof fn lemma_run_ok_mono(cs: Seq<Candle>, k: int, m: int, cfg: BacktestConfig, sym: SymbolSpec)
    requires
        k <= m,
        run_ok_upto(cs, m, cfg, sym),
    ensures
        run_ok_upto(cs, k, cfg, sym),
    decreases m - k,
{
    if k < m && m > 2 {
        lemma_run_ok_mono(cs, k, m - 1, cfg, sym);
    }
}

/// Once the run has stopped on a margin call, later candles change nothing.
proof fn lemma_run_stopped(cs: Seq<Candle>, k: int, m: int, cfg: BacktestConfig, sym: SymbolSpec)
    requires
        2 <= k <= m,
        run_upto(cs, k, cfg, sym).margin_called,
    ensures
        run_upto(cs, m, cfg, sym) == run_upto(cs, k, cfg, sym),
        run_ok_upto(cs, m, cfg, sym) == run_ok_upto(cs, k, cfg, sym),
    decreases m - k,
{
    if k < m {
        lemma_run_stopped(cs, k, m - 1, cfg, sym);
    }
}

fn finish_exec(st: &mut SimState, candles: &[Candle], cfg: &BacktestConfig, cv: &Costs) -> (ok: bool)
    requires
        candles@.len() > 0,
        room(*old(st)),
    ensures
        ok == finish_ok(sv(*old(st)), candles@, *cfg, costs_view(*cv)),
        ok ==> sv(*final(st)) == finish(sv(*old(st)), candles@, *cfg, costs_view(*cv)),
{
    match st.open_trade {
        None => true,
        Some(t) => {
            let last = candles[candles.len() - 1].close;
            let exit = match crate::helpers::exit_core(t.side, last, false, cv.spread, cv.slip) {
                Some(v) => v,
                None => return false,
            };
            let comm = match checked_mul(cfg.commission, t.volume) {
                Some(v) => v,
                None => return false,
            };
            let rate = match rate_exec(cv.usd, exit) {
                Some(v) => v,
                None => return false,
            };
            let pnl = match pnl_exec(t.side, t.actual_entry, exit, t.volume, cv.contract_size, rate, comm) {
                Some(v) => v,
                None => return false,
            };
            let b = match checked_add(st.balance, pnl) {
                Some(v) => v,
                None => return false,
            };
            let total_pnl = match checked_add(st.total_pnl, pnl) {
                Some(v) => v,
                None => return false,
            };
            let ghost old_events = st.events@;
            st.balance = b;
            st.timeouts = st.timeouts + 1;
            st.trades = st.trades + 1;
            st.total_pnl = total_pnl;
            st.open_trade = None;
            let ev = TradeEvent {
                kind: ExitKind::EndOfData,
                open_time: t.open_time,
                side: t.side,
                actual_entry: t.actual_entry,
                sl: t.sl,
                tp: t.tp,
                volume: t.volume,
                exit,
                friction: None,
                pnl,
                balance: b,
            };
            st.events.push(ev);
            assert(events_view(st.events@) =~= events_view(old_events).push(event_view(ev)));
            true
        },
    }
}

/// The plain values of a report's state.
pub open spec fn report_state(r: BacktestReport) -> SimView {
    SimView {
        balance: r.balance@,
        peak: r.peak@,
        max_drawdown: r.max_drawdown@,
        open: opt_trade_view(r.open_trade),
        pending: opt_fvg_view(r.pending_fvg),
        margin_called: r.margin_called,
        trades: r.trades as int,
        wins: r.wins as int,
        losses: r.losses as int,
        timeouts: r.timeouts as int,
        missed_fills: r.missed_fills as int,
        total_pnl: r.total_pnl@,
        total_friction: r.total_friction@,
        sum_wins: r.sum_wins@,
        sum_losses: r.sum_losses@,
        max_consec: r.max_consec as int,
        cur_consec: r.cur_consec as int,
        events: r.events@.map_values(|e: TradeEvent| event_view(e)),
    }
}

/// What `simulate` returns.
pub open spec fn report_spec(r: BacktestReport, cs: Seq<Candle>, cfg: BacktestConfig, sym: SymbolSpec) -> bool {
    &&& r.total == cs.len()
    &&& r.spread_price@ == costs_of(sym, cfg).spread
    &&& r.slippage_price@ == costs_of(sym, cfg).slip
    &&& report_state(r) == simulate_spec(cs, cfg, sym)
}

fn simulate_core(candles: &[Candle], cfg: &BacktestConfig, sym: &SymbolSpec) -> (r: Option<BacktestReport>)
    requires
        candles@.len() <= u32::MAX,
    ensures
        r is Some <==> simulate_ok(candles@, *cfg, *sym),
        r is Some ==> report_spec(r.unwrap(), candles@, *cfg, *sym),
{
    let total = candles.len();
    let ghost cs = candles@;
    let cv = match costs_core(sym, cfg) {
        Some(v) => v,
        None => return None,
    };
    let ema = match ema_exec(candles, cfg.ema_period) {
        Some(v) => v,
        None => return None,
    };
    let mut st = SimState {
        balance: cfg.balance,
        peak: cfg.balance,
        max_drawdown: Dec::zero(),
        open_trade: None,
        pending: None,
        margin_called: false,
        trades: 0,
        wins: 0,
        losses: 0,
        timeouts: 0,
        missed_fills: 0,
        total_pnl: Dec::zero(),
        total_friction: Dec::zero(),
        sum_wins: Dec::zero(),
        sum_losses: Dec::zero(),
        max_consec: 0,
        cur_consec: 0,
        events: Vec::new(),
    };
    assert(events_view(st.events@) =~= Seq::<EventView>::empty());
    let mut i: usize = 2;
    if total < 2 {
        i = total;
    }
    assert(sv(st) == run_upto(cs, 2, *cfg, *sym));
    assert(run_upto(cs, i as int, *cfg, *sym) == run_upto(cs, 2, *cfg, *sym));
    while i < total
        invariant
            total == cs.len() <= u32::MAX,
            cs == candles@,
            costs_view(cv) == costs_of(*sym, *cfg),
            ema_matches(ema@, cs, cfg.ema_period as int),
            total >= 2 ==> 2 <= i <= total,
            total < 2 ==> i == total,
            sv(st) == run_upto(cs, if total >= 2 { i as int } else { 2 }, *cfg, *sym),
            run_ok_upto(cs, if total >= 2 { i as int } else { 2 }, *cfg, *sym),
        ensures
            total >= 2 ==> sv(st) == run_upto(cs, total as int, *cfg, *sym),
            total >= 2 ==> run_ok_upto(cs, total as int, *cfg, *sym),
            total < 2 ==> sv(st) == initial_state(*cfg),
        decreases total - i,
    {
        if st.margin_called {
            proof {
                lemma_run_stopped(cs, i as int, total as int, *cfg, *sym);
            }
            break;
        }
        proof {
            lemma_run_counters(cs, i as int, *cfg, *sym);
        }
        let ok = step_exec(&mut st, candles, i, cfg, sym, &cv, &ema);
        if !ok {
            proof {
                if run_ok_upto(cs, total as int, *cfg, *sym) {
                    lemma_run_ok_mono(cs, i + 1, total as int, *cfg, *sym);
                }
            }
            return None;
        }
        i = i + 1;
    }
    proof {
        if total >= 2 {
            lemma_run_counters(cs, total as int, *cfg, *sym);
        }
    }
    if total > 0 {
        if !finish_exec(&mut st, candles, cfg, &cv) {
            return None;
        }
    }
    Some(
        BacktestReport {
            total,
            spread_price: cv.spread,
            slippage_price: cv.slip,
            balance: st.balance,
            peak: st.peak,
            max_drawdown: st.max_drawdown,
            margin_called: st.margin_called,
            trades: st.trades,
            wins: st.wins,
            losses: st.losses,
            timeouts: st.timeouts,
            missed_fills: st.missed_fills,
            total_pnl: st.total_pnl,
            total_friction: st.total_friction,
            sum_wins: st.sum_wins,
            sum_losses: st.sum_losses,
            max_consec: st.max_consec,
            cur_consec: st.cur_consec,
            open_trade: st.open_trade,
            pending_fvg: st.pending,
            events: st.events,
        },
    )
}

/// Walk-forward backtest over `candles`: manages the open trade (timeout,
/// stop-out, stop loss, take profit), otherwise expires, fills or detects
/// momentum gap setups, and finally closes a trade still open at the last
/// close.  The report holds the final state and one event per closed trade.
pub fn simulate(candles: &[Candle], cfg: &BacktestConfig, sym: &SymbolSpec) -> (r: BacktestReport)
    requires
        candles@.len() <= u32::MAX,
        simulate_ok(candles@, *cfg, *sym),
    ensures
        report_spec(r, candles@, *cfg, *sym),
{
    simulate_core(candles, cfg, sym).unwrap()
}

/// `simulate` where no step overflows; `None` where `rust_decimal` would
/// overflow or divide by zero somewhere in the run.
pub fn try_simulate(candles: &[Candle], cfg: &BacktestConfig, sym: &SymbolSpec) -> (r: Option<BacktestReport>)
    requires
        candles@.len() <= u32::MAX,
    ensures
        r is Some <==> simulate_ok(candles@, *cfg, *sym),
        r is Some ==> report_spec(r.unwrap(), candles@, *cfg, *sym),
{
    match simulate_core(candles, cfg, sym) {
        None => None,
        Some(_) => Some(simulate(candles, cfg, sym)),
    }
}

/// At most one of a position and a pending setup exists at any time.
pub open spec fn exclusive(s: SimView) -> bool {
    s.open is Some ==> s.pending is None
}

proof fn lemma_step_exclusive(
    s: SimView,
    cs: Seq<Candle>,
    i: int,
    cfg: BacktestConfig,
    sym: SymbolSpec,
    cv: CostsView,
    ema: Seq<Option<(int, int)>>,
)
    requires
        exclusive(s),
    ensures
        exclusive(step(s, cs, i, cfg, sym, cv, ema)),
{
}

/// Every state of the run holds either a position or a pending setup, never
/// both.
pub proof fn lemma_run_exclusive(cs: Seq<Candle>, k: int, cfg: BacktestConfig, sym: SymbolSpec)
    ensures
        exclusive(run_upto(cs, k, cfg, sym)),
    decreases k,
{
    if k > 2 {
        lemma_run_exclusive(cs, k - 1, cfg, sym);
        let s = run_upto(cs, k - 1, cfg, sym);
        if !s.margin_called {
            lemma_step_exclusive(
                s,
                cs,
                k - 1,
                cfg,
                sym,
                costs_of(sym, cfg),
                ema_values(cs, cfg.ema_period as int),
            );
        }
    }
}

/// Once the run has stopped on a margin call, later candles change nothing.
pub proof fn lemma_margin_call_ends_run(cs: Seq<Candle>, k: int, m: int, cfg: BacktestConfig, sym: SymbolSpec)
    requires
        2 <= k <= m,
        run_upto(cs, k, cfg, sym).margin_called,
    ensures
        run_upto(cs, m, cfg, sym) == run_upto(cs, k, cfg, sym),
{
    lemma_run_stopped(cs, k, m, cfg, sym);
}

/// The final report: no position is left open; every trade is a win, a
/// loss or the single trade closed when the data ran out (so wins plus
/// losses is the trade count or one less); one event per trade; no more
/// trades than candles walked.
pub proof fn lemma_backtest_accounting(cs: Seq<Candle>, cfg: BacktestConfig, sym: SymbolSpec)
    ensures
        simulate_spec(cs, cfg, sym).open is None,
        simulate_spec(cs, cfg, sym).wins + simulate_spec(cs, cfg, sym).losses
            + (if run_upto(cs, cs.len() as int, cfg, sym).open is Some {
            1int
        } else {
            0int
        }) == simulate_spec(cs, cfg, sym).trades,
        simulate_spec(cs, cfg, sym).wins + simulate_spec(cs, cfg, sym).losses <= simulate_spec(cs, cfg, sym).trades
            <= simulate_spec(cs, cfg, sym).wins + simulate_spec(cs, cfg, sym).losses + 1,
        simulate_spec(cs, cfg, sym).events.len() == simulate_spec(cs, cfg, sym).trades,
        simulate_spec(cs, cfg, sym).timeouts <= simulate_spec(cs, cfg, sym).trades,
        simulate_spec(cs, cfg, sym).max_consec <= simulate_spec(cs, cfg, sym).losses,
        simulate_spec(cs, cfg, sym).trades <= if cs.len() >= 2 {
            cs.len() - 1
        } else {
            0
        },
{
    if cs.len() >= 2 {
        lemma_run_counters(cs, cs.len() as int, cfg, sym);
    }
}

/// What becomes of a pending setup on a candle without a position: a
/// candle that touches the zone without reaching the entry, or whose fill
/// sizes to no volume, leaves it pending, unchanged (when the trend filter
/// passes and the stop is wide enough); the setup is only dropped without a
/// trade at its expiry, by the trend filter, or for a stop closer than the
/// minimum.
pub proof fn lemma_pending_setup_fate(
    s: SimView,
    cs: Seq<Candle>,
    i: int,
    cfg: BacktestConfig,
    sym: SymbolSpec,
    ema: Seq<Option<(int, int)>>,
)
    requires
        s.open is None,
        s.pending is Some,
        0 <= i < cs.len(),
    ensures
        ({
            let f = s.pending.unwrap();
            let c = cs[i];
            let cv = costs_of(sym, cfg);
            let r = step(s, cs, i, cfg, sym, cv, ema);
            &&& (!date_skip(cfg, c) && i < f.expiry_idx && touched_view(f, c) && ema_pass(cfg, ema, i, f, c)
                && !dec_lt_spec(dist_of(f, cfg.sl_buffer@), cv.min_sl) && !fills(f, c) ==> r == s)
            &&& (!date_skip(cfg, c) && i < f.expiry_idx && touched_view(f, c) && ema_pass(cfg, ema, i, f, c)
                && !dec_lt_spec(dist_of(f, cfg.sl_buffer@), cv.min_sl) && fills(f, c)
                && !dec_le_spec(s.balance, cv.stop_out_balance) && size_view(
                s.balance,
                cfg.risk_pct@,
                dist_of(f, cfg.sl_buffer@),
                value_per_lot_of(cv, c),
                sym.volume_step@,
                sym.volume_min@,
                sym.volume_max@,
            ) is None ==> r == s)
            &&& (r.pending is None && r.open is None && !r.margin_called ==> {
                ||| i >= f.expiry_idx
                ||| !ema_pass(cfg, ema, i, f, c)
                ||| dec_lt_spec(dist_of(f, cfg.sl_buffer@), cv.min_sl)
            })
        }),
{
}

/// Balance and drawdown bookkeeping: the balance never exceeds the peak,
/// the peak never falls below the starting balance, and the maximum
/// drawdown is never positive.
pub open spec fn order_sound(s: SimView, initial: (int, int)) -> bool {
    &&& dec_le_spec(s.balance, s.peak)
    &&& dec_le_spec(initial, s.peak)
    &&& dec_le_spec(s.max_drawdown, zero_v())
}

proof fn lemma_settle_order(s: SimView, pnl: (int, int), initial: (int, int))
    requires
        order_sound(s, initial),
    ensures
        order_sound(settle(s, pnl), initial),
{
    let b = add_of(s.balance, pnl);
    let t = settle(s, pnl);
    lemma_le_refl(b);
    lemma_le_trans(initial, s.peak, b);
    lemma_le_trans(sub_of(b, t.peak), s.max_drawdown, zero_v());
}

proof fn lemma_step_order(
    s: SimView,
    cs: Seq<Candle>,
    i: int,
    cfg: BacktestConfig,
    sym: SymbolSpec,
    cv: CostsView,
    ema: Seq<Option<(int, int)>>,
    initial: (int, int),
)
    requires
        order_sound(s, initial),
    ensures
        order_sound(step(s, cs, i, cfg, sym, cv, ema), initial),
{
    assert forall|t: TradeView, kind: ExitKind, exit: (int, int), pnl: (int, int), fr: Option<(int, int)>, il: bool|
        #[trigger] order_sound(close_trade(s, t, kind, exit, pnl, fr, il), initial) by {
        lemma_settle_order(s, pnl, initial);
    }
    match s.open {
        Some(t) => {
            let c = cs[i];
            if timeout_due(cfg, t, i) {
                assert(order_sound(timeout_step(s, t, c, cfg, cv), initial));
            } else if dec_lt_spec(zero_v(), cfg.stop_out_pct@) && stop_out_hit(s, t, c, cfg, cv) {
                let worst = worst_of(t.side, c);
                let exit = exit_spec(t.side, worst, true, cv.spread, cv.slip);
                let comm = mul_of(cfg.commission@, t.volume);
                let pnl = pnl_of(t.side, t.actual_entry, exit, t.volume, cv.contract_size, rate_of(cv.usd, worst), comm);
                assert(order_sound(close_trade(s, t, ExitKind::StopOut, exit, pnl, None, true), initial));
                assert(order_sound(stop_out_step(s, t, c, cfg, cv), initial));
            } else if sl_hit(t, c) || tp_hit(t, c) {
                assert(order_sound(exit_step(s, t, c, cfg, cv), initial));
            }
        },
        None => {},
    }
}

/// Throughout the run the balance stays at or below its peak, the peak at
/// or above the starting balance, and the maximum drawdown at or below zero.
pub proof fn lemma_run_order(cs: Seq<Candle>, k: int, cfg: BacktestConfig, sym: SymbolSpec)
    ensures
        order_sound(run_upto(cs, k, cfg, sym), cfg.balance@),
    decreases k,
{
    if k <= 2 {
        lemma_le_refl(cfg.balance@);
        lemma_le_refl(zero_v());
    } else {
        lemma_run_order(cs, k - 1, cfg, sym);
        let s = run_upto(cs, k - 1, cfg, sym);
        if !s.margin_called {
            lemma_step_order(
                s,
                cs,
                k - 1,
                cfg,
                sym,
                costs_of(sym, cfg),
                ema_values(cs, cfg.ema_period as int),
                cfg.balance@,
            );
        }
    }
}

/// The reported peak is never below the starting balance and the reported
/// maximum drawdown is never positive.
pub proof fn lemma_backtest_drawdown(cs: Seq<Candle>, cfg: BacktestConfig, sym: SymbolSpec)
    ensures
        dec_le_spec(cfg.balance@, simulate_spec(cs, cfg, sym).peak),
        dec_le_spec(simulate_spec(cs, cfg, sym).max_drawdown, zero_v()),
{
    lemma_run_order(cs, cs.len() as int, cfg, sym);
}

/// Candle indices of the run: a pending setup was detected (at
/// `expiry_idx - fvg_expiry`) before candle `k`, and an open trade was
/// opened before it.
pub open spec fn fill_order(s: SimView, k: int, cfg: BacktestConfig) -> bool {
    &&& (s.pending matches Some(f) ==> f.expiry_idx - cfg.fvg_expiry < k)
    &&& (s.open matches Some(t) ==> t.open_idx < k)
}

proof fn lemma_step_fill_order(
    s: SimView,
    cs: Seq<Candle>,
    i: int,
    cfg: BacktestConfig,
    sym: SymbolSpec,
    cv: CostsView,
    ema: Seq<Option<(int, int)>>,
)
    requires
        fill_order(s, i, cfg),
        exclusive(s),
    ensures
        fill_order(step(s, cs, i, cfg, sym, cv, ema), i + 1, cfg),
        s.open is Some ==> step(s, cs, i, cfg, sym, cv, ema).open is None || step(s, cs, i, cfg, sym, cv, ema).open
            == s.open,
        s.open is None && step(s, cs, i, cfg, sym, cv, ema).open is Some ==> step(s, cs, i, cfg, sym, cv, ema).open.unwrap().open_idx
            == i && (s.pending matches Some(f) && f.expiry_idx - cfg.fvg_expiry < i),
{
}

proof fn lemma_run_fill_order(cs: Seq<Candle>, k: int, cfg: BacktestConfig, sym: SymbolSpec)
    ensures
        fill_order(run_upto(cs, k, cfg, sym), if k <= 2 {
            2
        } else {
            k
        }, cfg),
    decreases k,
{
    if k > 2 {
        lemma_run_fill_order(cs, k - 1, cfg, sym);
        lemma_run_exclusive(cs, k - 1, cfg, sym);
        let s = run_upto(cs, k - 1, cfg, sym);
        if !s.margin_called {
            lemma_step_fill_order(
                s,
                cs,
                k - 1,
                cfg,
                sym,
                costs_of(sym, cfg),
                ema_values(cs, cfg.ema_period as int),
            );
        }
    }
}

/// The order of trades in the run: at candle `k` a candle that manages an
/// open position opens no new one (a new trade fills only on a later candle
/// than the previous close), and a trade that opens at candle `k` fills
/// from the pending setup, which was detected on an earlier candle.
pub proof fn lemma_fills_follow_detection(cs: Seq<Candle>, k: int, cfg: BacktestConfig, sym: SymbolSpec)
    requires
        k >= 2,
    ensures
        ({
            let s = run_upto(cs, k, cfg, sym);
            let t = run_upto(cs, k + 1, cfg, sym);
            &&& (s.open is Some ==> t.open is None || t.open == s.open)
            &&& (s.open is None && t.open is Some ==> t.open.unwrap().open_idx == k
                && (s.pending matches Some(f) && f.expiry_idx - cfg.fvg_expiry < k))
        }),
{
    lemma_run_fill_order(cs, k, cfg, sym);
    lemma_run_exclusive(cs, k, cfg, sym);
    let s = run_upto(cs, k, cfg, sym);
    if !s.margin_called {
        lemma_step_fill_order(s, cs, k, cfg, sym, costs_of(sym, cfg), ema_values(cs, cfg.ema_period as int));
    }
}

/// The balance before trade `j` of a log: the starting balance for the
/// first trade, the balance the previous trade left otherwise.
pub open spec fn balance_before(es: Seq<EventView>, j: int, initial: (int, int)) -> (int, int) {
    if j == 0 {
        initial
    } else {
        es[j - 1].balance
    }
}

/// The results of the logged trades added up in order, starting from zero.
pub open spec fn pnl_sum(es: Seq<EventView>) -> (int, int)
    decreases es.len(),
{
    if es.len() == 0 {
        zero_v()
    } else {
        add_of(pnl_sum(es.drop_last()), es.last().pnl)
    }
}

/// The books of a state: each logged trade left the balance before it plus
/// its result; the balance is the last trade's (the starting balance before
/// any trade); the total result is the results added up in order.
pub open spec fn ledger_sound(s: SimView, initial: (int, int)) -> bool {
    &&& s.balance == (if s.events.len() == 0 {
        initial
    } else {
        s.events.last().balance
    })
    &&& forall|j: int|
        0 <= j < s.events.len() ==> #[trigger] s.events[j].balance == add_of(
            balance_before(s.events, j, initial),
            s.events[j].pnl,
        )
    &&& s.total_pnl == pnl_sum(s.events)
}

proof fn lemma_ledger_push(s: SimView, t: SimView, ev: EventView, initial: (int, int))
    requires
        ledger_sound(s, initial),
        t.events == s.events.push(ev),
        ev.balance == add_of(s.balance, ev.pnl),
        t.balance == ev.balance,
        t.total_pnl == add_of(s.total_pnl, ev.pnl),
    ensures
        ledger_sound(t, initial),
{
    assert(t.events.drop_last() =~= s.events);
    assert forall|j: int| 0 <= j < t.events.len() implies #[trigger] t.events[j].balance == add_of(
        balance_before(t.events, j, initial),
        t.events[j].pnl,
    ) by {
        if j < s.events.len() {
            assert(t.events[j] == s.events[j]);
            if j > 0 {
                assert(t.events[j - 1] == s.events[j - 1]);
            }
        } else {
            if j > 0 {
                assert(t.events[j - 1] == s.events.last());
            }
        }
    }
}

proof fn lemma_step_ledger(
    s: SimView,
    cs: Seq<Candle>,
    i: int,
    cfg: BacktestConfig,
    sym: SymbolSpec,
    cv: CostsView,
    ema: Seq<Option<(int, int)>>,
    initial: (int, int),
)
    requires
        ledger_sound(s, initial),
    ensures
        ledger_sound(step(s, cs, i, cfg, sym, cv, ema), initial),
{
    assert forall|t: TradeView, kind: ExitKind, exit: (int, int), pnl: (int, int), fr: Option<(int, int)>, il: bool|
        #[trigger] ledger_sound(close_trade(s, t, kind, exit, pnl, fr, il), initial) by {
        let r = close_trade(s, t, kind, exit, pnl, fr, il);
        lemma_ledger_push(s, r, r.events.last(), initial);
    }
    match s.open {
        Some(t) => {
            let c = cs[i];
            if timeout_due(cfg, t, i) {
                assert(ledger_sound(timeout_step(s, t, c, cfg, cv), initial));
            } else if dec_lt_spec(zero_v(), cfg.stop_out_pct@) && stop_out_hit(s, t, c, cfg, cv) {
                let worst = worst_of(t.side, c);
                let exit = exit_spec(t.side, worst, true, cv.spread, cv.slip);
                let comm = mul_of(cfg.commission@, t.volume);
                let pnl = pnl_of(t.side, t.actual_entry, exit, t.volume, cv.contract_size, rate_of(cv.usd, worst), comm);
                assert(ledger_sound(close_trade(s, t, ExitKind::StopOut, exit, pnl, None, true), initial));
                assert(ledger_sound(stop_out_step(s, t, c, cfg, cv), initial));
            } else if sl_hit(t, c) || tp_hit(t, c) {
                assert(ledger_sound(exit_step(s, t, c, cfg, cv), initial));
            }
        },
        None => {},
    }
}

proof fn lemma_run_ledger(cs: Seq<Candle>, k: int, cfg: BacktestConfig, sym: SymbolSpec)
    ensures
        ledger_sound(run_upto(cs, k, cfg, sym), cfg.balance@),
    decreases k,
{
    if k <= 2 {
        assert(initial_state(cfg).events.len() == 0);
    } else {
        lemma_run_ledger(cs, k - 1, cfg, sym);
        let s = run_upto(cs, k - 1, cfg, sym);
        if !s.margin_called {
            lemma_step_ledger(
                s,
                cs,
                k - 1,
                cfg,
                sym,
                costs_of(sym, cfg),
                ema_values(cs, cfg.ema_period as int),
                cfg.balance@,
            );
        }
    }
}

/// The books of a backtest: every logged trade (stop-loss, target,
/// timeout, stop-out, end of data) left the balance before it plus its
/// result; the final balance is the last trade's (the starting balance
/// without trades); the total result is the trades' results added up in
/// order from zero.  The additions are `rust_decimal`'s.
pub proof fn lemma_backtest_ledger(cs: Seq<Candle>, cfg: BacktestConfig, sym: SymbolSpec)
    ensures
        ledger_sound(simulate_spec(cs, cfg, sym), cfg.balance@),
{
    lemma_run_ledger(cs, cs.len() as int, cfg, sym);
    let s = run_upto(cs, cs.len() as int, cfg, sym);
    let f = simulate_spec(cs, cfg, sym);
    if s.open is Some {
        lemma_ledger_push(s, f, f.events.last(), cfg.balance@);
    }
}

/// Every addition of the books was exact: each trade's balance is exactly
/// the balance before it plus its result, and each running total exactly
/// the one before plus the next result (all values at scales
/// `rust_decimal` holds).
pub open spec fn books_exact(es: Seq<EventView>, initial: (int, int)) -> bool {
    &&& scale_ok(initial)
    &&& forall|j: int|
        0 <= j < es.len() ==> {
            &&& scale_ok(#[trigger] es[j].balance)
            &&& scale_ok(es[j].pnl)
            &&& scale_ok(pnl_sum(es.take(j + 1)))
            &&& dec_eq_spec(es[j].balance, exact_sum(balance_before(es, j, initial), es[j].pnl))
            &&& dec_eq_spec(pnl_sum(es.take(j + 1)), exact_sum(pnl_sum(es.take(j)), es[j].pnl))
        }
}

proof fn lemma_books_prefix(es: Seq<EventView>, initial: (int, int), k: int)
    requires
        books_exact(es, initial),
        0 <= k <= es.len(),
    ensures
        scale_ok(balance_before(es, k, initial)),
        scale_ok(pnl_sum(es.take(k))),
        value_at(balance_before(es, k, initial), MAX_SCALE as int) == value_at(initial, MAX_SCALE as int)
            + value_at(pnl_sum(es.take(k)), MAX_SCALE as int),
    decreases k,
{
    let s = MAX_SCALE as int;
    if k == 0 {
        assert(es.take(0) =~= Seq::<EventView>::empty());
        let p = pow10((s - 0) as nat);
        assert(0 * p == 0) by (nonlinear_arith);
        assert(value_at(zero_v(), s) == 0 * p);
    } else {
        lemma_books_prefix(es, initial, k - 1);
        let j = k - 1;
        let before = balance_before(es, j, initial);
        let run = pnl_sum(es.take(j));
        let e = es[j];
        assert(scale_ok(e.balance));
        assert(es.take(k).drop_last() =~= es.take(j));
        assert(es.take(k).last() == e);
        lemma_order_at(e.balance, exact_sum(before, e.pnl), s);
        lemma_exact_sum_at(before, e.pnl, s);
        lemma_order_at(pnl_sum(es.take(k)), exact_sum(run, e.pnl), s);
        lemma_exact_sum_at(run, e.pnl, s);
    }
}

/// Where every addition of the books was exact, the final balance is
/// exactly the starting balance plus the total result.
pub proof fn lemma_backtest_balance_exact(cs: Seq<Candle>, cfg: BacktestConfig, sym: SymbolSpec)
    requires
        books_exact(simulate_spec(cs, cfg, sym).events, cfg.balance@),
    ensures
        dec_eq_spec(simulate_spec(cs, cfg, sym).balance, exact_sum(cfg.balance@, simulate_spec(cs, cfg, sym).total_pnl)),
{
    let f = simulate_spec(cs, cfg, sym);
    let es = f.events;
    let s = MAX_SCALE as int;
    lemma_backtest_ledger(cs, cfg, sym);
    lemma_books_prefix(es, cfg.balance@, es.len() as int);
    assert(es.take(es.len() as int) =~= es);
    assert(f.balance == balance_before(es, es.len() as int, cfg.balance@));
    lemma_order_at(f.balance, exact_sum(cfg.balance@, f.total_pnl), s);
    lemma_exact_sum_at(cfg.balance@, f.total_pnl, s);
}

/// The closing statistics of a backtest.
#[derive(Clone, Copy, Debug)]
pub struct BacktestSummary {
    pub avg_win: Dec,
    pub avg_loss: Dec,
    pub expectancy: Dec,
    pub profit_factor: Dec,
    pub return_pct: Dec,
    /// The stop-out level in percent, reported when the run was margin
    /// called.
    pub stop_out_percent: Option<Dec>,
}

/// Mean of `sum` over `n` items, zero without items.
pub open spec fn mean_of(sum: (int, int), n: int) -> (int, int) {
    if n > 0 {
        div_of(sum, (n, 0))
    } else {
        zero_v()
    }
}

/// Gross wins over gross losses; `Decimal::MAX` without losses.
pub open spec fn profit_factor_of(sum_wins: (int, int), sum_losses: (int, int)) -> (int, int) {
    if dec_lt_spec(zero_v(), sum_losses) {
        div_of(sum_wins, sum_losses)
    } else {
        (crate::decimal::MAX_MANTISSA as int, 0)
    }
}

/// Return in percent: `(balance - initial) / initial * 100`.
pub open spec fn return_pct_of(balance: (int, int), initial: (int, int)) -> (int, int) {
    mul_of(div_of(sub_of(balance, initial), initial), (100, 0))
}

pub open spec fn summary_ok(r: BacktestReport, cfg: BacktestConfig) -> bool {
    &&& (r.wins > 0 ==> div_ok(r.sum_wins@, (r.wins as int, 0)))
    &&& (r.losses > 0 ==> div_ok(r.sum_losses@, (r.losses as int, 0)))
    &&& (r.trades > 0 ==> div_ok(r.total_pnl@, (r.trades as int, 0)))
    &&& (dec_lt_spec(zero_v(), r.sum_losses@) ==> div_ok(r.sum_wins@, r.sum_losses@))
    &&& sub_ok(r.balance@, cfg.balance@)
    &&& div_ok(sub_of(r.balance@, cfg.balance@), cfg.balance@)
    &&& mul_ok(div_of(sub_of(r.balance@, cfg.balance@), cfg.balance@), (100, 0))
    &&& (r.margin_called ==> mul_ok(cfg.stop_out_pct@, (100, 0)))
}

pub open spec fn summary_spec(out: BacktestSummary, r: BacktestReport, cfg: BacktestConfig) -> bool {
    &&& out.avg_win@ == mean_of(r.sum_wins@, r.wins as int)
    &&& out.avg_loss@ == mean_of(r.sum_losses@, r.losses as int)
    &&& out.expectancy@ == mean_of(r.total_pnl@, r.trades as int)
    &&& out.profit_factor@ == profit_factor_of(r.sum_wins@, r.sum_losses@)
    &&& out.return_pct@ == return_pct_of(r.balance@, cfg.balance@)
    &&& opt_view(out.stop_out_percent) == (if r.margin_called {
        Some(mul_of(cfg.stop_out_pct@, (100, 0)))
    } else {
        None
    })
}

/// A mean of `sum` over `n` items: zero without items, otherwise within
/// one unit of its last place of `sum / n`.
pub open spec fn mean_fits(mean: (int, int), sum: (int, int), n: int) -> bool {
    &&& n == 0 ==> mean == zero_v()
    &&& n > 0 ==> quotient_within_ulp(mean, sum, (n, 0))
}

/// The statistics are the means they name: the average win over the wins,
/// the average loss over the losses, the expectancy over all trades,
/// losses included; the profit factor is the gross wins over the gross
/// losses where there are losses (each within one unit of its last place).
pub open spec fn summary_fits(out: BacktestSummary, r: BacktestReport) -> bool {
    &&& mean_fits(out.avg_win@, r.sum_wins@, r.wins as int)
    &&& mean_fits(out.avg_loss@, r.sum_losses@, r.losses as int)
    &&& mean_fits(out.expectancy@, r.total_pnl@, r.trades as int)
    &&& dec_lt_spec(zero_v(), r.sum_losses@) ==> quotient_within_ulp(out.profit_factor@, r.sum_wins@, r.sum_losses@)
}

/// The expectancy is `total_pnl / trades`, losses included, and zero
/// without trades: where `rust_decimal`'s quotient `total_pnl / trades`
/// lies within one unit of its last place, so does the expectancy, and
/// where that quotient is exact, `expectancy * trades == total_pnl` (read at
/// 28 decimal places).
pub proof fn lemma_expectancy(out: BacktestSummary, r: BacktestReport, cfg: BacktestConfig)
    requires
        summary_spec(out, r, cfg),
    ensures
        r.trades == 0 ==> out.expectancy@ == zero_v(),
        r.trades > 0 && quotient_within_ulp(
            div_of(r.total_pnl@, (r.trades as int, 0)),
            r.total_pnl@,
            (r.trades as int, 0),
        ) ==> mean_fits(out.expectancy@, r.total_pnl@, r.trades as int),
        r.trades > 0 && scale_ok(r.total_pnl@) && scale_ok(div_of(r.total_pnl@, (r.trades as int, 0)))
            && quotient_is(div_of(r.total_pnl@, (r.trades as int, 0)), r.total_pnl@, (r.trades as int, 0))
            ==> value_at(out.expectancy@, MAX_SCALE as int) * r.trades == value_at(r.total_pnl@, MAX_SCALE as int),
{
    let s = MAX_SCALE as int;
    let t = r.trades as int;
    let q = div_of(r.total_pnl@, (t, 0));
    if t > 0 && scale_ok(r.total_pnl@) && scale_ok(q) && quotient_is(q, r.total_pnl@, (t, 0)) {
        let p = pow10(s as nat);
        lemma_pow10_pos(s as nat);
        lemma_quotient_at(q, r.total_pnl@, (t, 0), s);
        assert(value_at((t, 0), s) == t * p);
        let (vq, va) = (value_at(q, s), value_at(r.total_pnl@, s));
        assert(vq * t == va) by (nonlinear_arith)
            requires
                vq * (t * p) == va * p,
                p > 0,
        ;
    }
}

/// The return is the gain over the starting balance in percent: where the
/// gain, the ratio and the product are exact, `return_pct * initial ==
/// (balance - initial) * 100` (read at 28 decimal places).
pub proof fn lemma_return_pct(balance: (int, int), initial: (int, int))
    requires
        scale_ok(balance),
        scale_ok(initial),
        scale_ok(sub_of(balance, initial)),
        dec_eq_spec(sub_of(balance, initial), exact_difference(balance, initial)),
        scale_ok(div_of(sub_of(balance, initial), initial)),
        quotient_is(div_of(sub_of(balance, initial), initial), sub_of(balance, initial), initial),
        scale_ok(return_pct_of(balance, initial)),
        product_is(return_pct_of(balance, initial), div_of(sub_of(balance, initial), initial), (100, 0)),
    ensures
        value_at(return_pct_of(balance, initial), MAX_SCALE as int) * value_at(initial, MAX_SCALE as int) == (
        value_at(balance, MAX_SCALE as int) - value_at(initial, MAX_SCALE as int)) * 100 * pow10(MAX_SCALE as nat),
{
    let m = MAX_SCALE as int;
    let p = pow10(m as nat);
    lemma_pow10_pos(m as nat);
    let gain = sub_of(balance, initial);
    let ratio = div_of(gain, initial);
    let ret = return_pct_of(balance, initial);
    lemma_difference_value(gain, balance, initial);
    lemma_quotient_at(ratio, gain, initial, m);
    lemma_product_at(ret, ratio, (100, 0), m);
    assert(value_at((100, 0), m) == 100 * p);
    let (vret, vratio, vgain, vi) = (value_at(ret, m), value_at(ratio, m), value_at(gain, m), value_at(initial, m));
    assert(vret * vi == vgain * 100 * p) by (nonlinear_arith)
        requires
            vret * p == vratio * (100 * p),
            vratio * vi == vgain * p,
            p > 0,
    {
        assert(vret * p == vratio * 100 * p);
        assert(vret == vratio * 100);
        assert(vret * vi == vratio * vi * 100);
    }
}

fn mean_exec(sum: Dec, n: u32) -> (r: Option<Dec>)
    ensures
        r is Some <==> (n > 0 ==> div_ok(sum@, (n as int, 0))),
        r is Some ==> r.unwrap()@ == mean_of(sum@, n as int),
        r is Some && n > 0 ==> quotient_within_ulp(r.unwrap()@, sum@, (n as int, 0)),
        r is Some && n == 0 ==> r.unwrap()@ == zero_v(),
{
    if n > 0 {
        checked_div(sum, Dec::from_u64(n as u64))
    } else {
        Some(Dec::zero())
    }
}

fn summary_core(r: &BacktestReport, cfg: &BacktestConfig) -> (out: Option<BacktestSummary>)
    ensures
        out is Some <==> summary_ok(*r, *cfg),
        out is Some ==> summary_spec(out.unwrap(), *r, *cfg),
        out is Some ==> summary_fits(out.unwrap(), *r),
{
    let avg_win = match mean_exec(r.sum_wins, r.wins) {
        Some(v) => v,
        None => return None,
    };
    let avg_loss = match mean_exec(r.sum_losses, r.losses) {
        Some(v) => v,
        None => return None,
    };
    let expectancy = match mean_exec(r.total_pnl, r.trades) {
        Some(v) => v,
        None => return None,
    };
    let profit_factor = if lt_dec(Dec::zero(), r.sum_losses) {
        match checked_div(r.sum_wins, r.sum_losses) {
            Some(v) => v,
            None => return None,
        }
    } else {
        Dec::max_value()
    };
    let gain = match checked_sub(r.balance, cfg.balance) {
        Some(v) => v,
        None => return None,
    };
    let ratio = match checked_div(gain, cfg.balance) {
        Some(v) => v,
        None => return None,
    };
    let return_pct = match checked_mul(ratio, Dec::from_u64(100)) {
        Some(v) => v,
        None => return None,
    };
    let stop_out_percent = if r.margin_called {
        match checked_mul(cfg.stop_out_pct, Dec::from_u64(100)) {
            Some(v) => Some(v),
            None => return None,
        }
    } else {
        None
    };
    Some(BacktestSummary { avg_win, avg_loss, expectancy, profit_factor, return_pct, stop_out_percent })
}

/// Average win, average loss, expectancy, profit factor and return of a
/// backtest report.
pub fn summarize(r: &BacktestReport, cfg: &BacktestConfig) -> (out: BacktestSummary)
    requires
        summary_ok(*r, *cfg),
    ensures
        summary_spec(out, *r, *cfg),
        summary_fits(out, *r),
{
    summary_core(r, cfg).unwrap()
}

/// `summarize` where nothing overflows or divides by zero (a zero starting
/// balance divides by zero), `None` otherwise.
pub fn try_summarize(r: &BacktestReport, cfg: &BacktestConfig) -> (out: Option<BacktestSummary>)
    ensures
        out is Some <==> summary_ok(*r, *cfg),
        out is Some ==> summary_spec(out.unwrap(), *r, *cfg),
        out is Some ==> summary_fits(out.unwrap(), *r),
{
    match summary_core(r, cfg) {
        None => None,
        Some(_) => Some(summarize(r, cfg)),
    }
}

} // verus!
