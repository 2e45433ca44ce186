use ares::backtest::{simulate, summarize, try_simulate, BacktestConfig, ExitKind, SymbolSpec};
use ares::decimal::Dec;
use ares::domain::{Candle, Side, Timeframe};

fn d(s: &str) -> Dec {
    Dec::parse(s).unwrap()
}

fn bar(i: i64, o: &str, h: &str, l: &str, c: &str) -> Candle {
    Candle {
        time: 1_700_000_000 + i * 300,
        open: d(o),
        high: d(h),
        low: d(l),
        close: d(c),
        tick_volume: 10,
        spread: 0,
        real_volume: 0,
    }
}

fn config() -> BacktestConfig {
    BacktestConfig {
        timeframe: Timeframe::M5,
        candles: 100,
        balance: d("1000"),
        risk_pct: d("0.01"),
        body_pct_min: d("0.6"),
        close_pct_min: d("0.8"),
        fvg_expiry: 10,
        min_fvg_pips: d("1"),
        min_sl_pips: d("1"),
        sl_buffer: d("0"),
        min_rr: d("2"),
        timeout_candles: 0,
        commission: d("0"),
        slippage_points: d("0"),
        spread_override: Some(d("0")),
        ema_period: 0,
        date_from: None,
        date_to: None,
        stop_out_pct: d("0"),
        tf_str: "M5".to_string(),
    }
}

fn symbol() -> SymbolSpec {
    SymbolSpec {
        contract_size: d("100"),
        point: d("0.01"),
        digits: 2,
        spread: 0,
        volume_step: d("0.01"),
        volume_min: d("0.01"),
        volume_max: d("100"),
        profit_is_usd: true,
    }
}

/// A long setup at bar 2 (gap 101..103, entry 102, stop 100.4), filled at
/// bar 3, target 105.2 reached at bar 4.
fn winning_long() -> Vec<Candle> {
    vec![
        bar(0, "100", "101", "99", "100"),
        bar(1, "100.5", "106", "100.4", "105.9"),
        bar(2, "105.9", "107", "103", "106.5"),
        bar(3, "106", "106.5", "101.8", "102.5"),
        bar(4, "102.5", "105.5", "102", "105"),
        bar(5, "105", "105.1", "104.9", "105"),
    ]
}

#[test]
fn long_setup_fills_and_hits_target() {
    let cs = winning_long();
    let r = simulate(&cs, &config(), &symbol());
    assert_eq!(r.total, 6);
    assert_eq!(r.trades, 1);
    assert_eq!(r.wins, 1);
    assert_eq!(r.losses, 0);
    assert_eq!(r.timeouts, 0);
    assert_eq!(r.events.len(), 1);
    let e = r.events[0];
    assert_eq!(e.kind, ExitKind::TakeProfit);
    assert_eq!(e.side, Side::Long);
    assert_eq!(e.actual_entry, d("102"));
    assert_eq!(e.sl, d("100.4"));
    assert_eq!(e.tp, d("105.2"));
    assert_eq!(e.volume, d("0.06"));
    assert_eq!(e.exit, d("105.2"));
    // (105.2 - 102) * 0.06 lots * 100
    assert_eq!(e.pnl, d("19.2"));
    assert_eq!(r.balance, d("1019.2"));
    assert_eq!(r.total_pnl, d("19.2"));
    assert_eq!(r.peak, d("1019.2"));
    assert_eq!(r.max_drawdown, d("0"));
    assert!(!r.margin_called);
    assert!(r.open_trade.is_none());
}

#[test]
fn balance_is_initial_plus_trade_results() {
    let cs = winning_long();
    let r = simulate(&cs, &config(), &symbol());
    assert_eq!(r.events.len(), 1);
    assert_eq!(r.events[0].pnl, r.total_pnl);
    assert_eq!(r.events[0].balance, r.balance);
    assert_eq!(r.balance, d("1019.2"));
}

#[test]
fn stop_loss_hit_is_a_loss() {
    let mut cs = winning_long();
    // bar 4 falls through the stop instead
    cs[4] = bar(4, "102.5", "103", "100", "100.5");
    let r = simulate(&cs, &config(), &symbol());
    assert_eq!(r.trades, 1);
    assert_eq!(r.losses, 1);
    assert_eq!(r.wins, 0);
    let e = r.events[0];
    assert_eq!(e.kind, ExitKind::StopLoss);
    assert_eq!(e.exit, d("100.4"));
    // (100.4 - 102) * 0.06 * 100
    assert_eq!(e.pnl, d("-9.6"));
    assert_eq!(r.balance, d("990.4"));
    assert_eq!(r.max_drawdown, d("-9.6"));
    assert_eq!(r.max_consec, 1);
}

#[test]
fn open_trade_closed_at_end_of_data() {
    let cs = winning_long()[..4].to_vec();
    let r = simulate(&cs, &config(), &symbol());
    assert_eq!(r.trades, 1);
    assert_eq!(r.timeouts, 1);
    let e = r.events[0];
    assert_eq!(e.kind, ExitKind::EndOfData);
    assert_eq!(e.exit, d("102.5"));
    // (102.5 - 102) * 0.06 * 100
    assert_eq!(e.pnl, d("3"));
    assert_eq!(r.balance, d("1003"));
}

#[test]
fn unfilled_setup_expires() {
    let mut cfg = config();
    cfg.fvg_expiry = 2;
    let cs = vec![
        bar(0, "100", "101", "99", "100"),
        bar(1, "100.5", "106", "100.4", "105.9"),
        bar(2, "105.9", "107", "103", "106.5"),
        bar(3, "106.5", "107.5", "106", "107"),
        bar(4, "107", "108", "106.8", "107.5"),
        bar(5, "107.5", "108", "107.2", "107.8"),
    ];
    let r = simulate(&cs, &cfg, &symbol());
    assert_eq!(r.trades, 0);
    assert_eq!(r.missed_fills, 1);
    assert_eq!(r.balance, d("1000"));
}

#[test]
fn trend_filter_blocks_counter_trend_setup() {
    let mut cfg = config();
    cfg.ema_period = 3;
    // the fill bar closes below the EMA of the closes: no trade for a long
    let mut cs = winning_long();
    cs[3] = bar(3, "106", "106.5", "101.8", "101.9");
    let r = simulate(&cs, &cfg, &symbol());
    assert_eq!(r.trades, 0);
    assert!(r.pending_fvg.is_none());
}

#[test]
fn date_window_skips_setups() {
    let mut cfg = config();
    // all bars lie on 2023-11-14; allow only later days
    cfg.date_from = Some(738_839 + 1);
    let r = simulate(&winning_long(), &cfg, &symbol());
    assert_eq!(r.trades, 0);
    assert!(r.pending_fvg.is_none());
}

#[test]
fn summary_of_a_winning_run() {
    let cfg = config();
    let r = simulate(&winning_long(), &cfg, &symbol());
    let s = summarize(&r, &cfg);
    assert_eq!(s.avg_win, d("19.2"));
    assert_eq!(s.avg_loss, d("0"));
    assert_eq!(s.expectancy, d("19.2"));
    assert_eq!(s.profit_factor, Dec::max_value());
    // 19.2 / 1000 * 100
    assert_eq!(s.return_pct, d("1.92"));
    assert!(s.stop_out_percent.is_none());
}

#[test]
fn try_simulate_runs_small_inputs() {
    let r = try_simulate(&winning_long(), &config(), &symbol()).unwrap();
    assert_eq!(r.balance, d("1019.2"));
    let r = try_simulate(&winning_long()[..2].to_vec(), &config(), &symbol()).unwrap();
    assert_eq!(r.trades, 0);
    assert_eq!(r.total, 2);
}

#[test]
fn setup_that_sizes_to_nothing_stays_pending() {
    let mut cfg = config();
    // 100 * 0.01 / (1.6 * 100) = 0.00625 lots: below the 0.01 minimum
    cfg.balance = d("100");
    let r = simulate(&winning_long(), &cfg, &symbol());
    assert_eq!(r.trades, 0);
    assert_eq!(r.missed_fills, 0);
    let f = r.pending_fvg.expect("the setup is still pending");
    assert_eq!(f.entry, d("102"));
    assert_eq!(f.expiry_idx, 12);
}

#[test]
fn books_of_two_trades() {
    // a winner then, after a new setup, a loser
    let mut cs = winning_long();
    cs.push(bar(6, "105", "105.2", "104.9", "105"));
    cs.push(bar(7, "105", "110.5", "104.95", "110.4"));
    cs.push(bar(8, "110.4", "111", "107", "110.8"));
    cs.push(bar(9, "110.8", "110.9", "105.5", "106"));
    cs.push(bar(10, "106", "106.2", "103", "103.5"));
    let r = simulate(&cs, &config(), &symbol());
    let mut balance = d("1000");
    let mut total = d("0");
    for e in &r.events {
        balance = Dec::parse(&format!("{}", rust_sum(balance, e.pnl))).unwrap();
        assert_eq!(e.balance, balance);
        total = Dec::parse(&format!("{}", rust_sum(total, e.pnl))).unwrap();
    }
    assert_eq!(r.balance, balance);
    assert_eq!(r.total_pnl, total);
    assert!(r.trades >= 2);
    assert!(r.wins + r.losses <= r.trades && r.trades <= r.wins + r.losses + 1);
}

fn rust_sum(a: Dec, b: Dec) -> rust_decimal::Decimal {
    rust_decimal::Decimal::from_i128_with_scale(a.mantissa(), a.scale())
        + rust_decimal::Decimal::from_i128_with_scale(b.mantissa(), b.scale())
}

#[test]
fn trades_fill_after_detection_and_after_the_previous_close() {
    let mut cs = winning_long();
    cs.push(bar(6, "105", "105.2", "104.9", "105"));
    cs.push(bar(7, "105", "110.5", "104.95", "110.4"));
    cs.push(bar(8, "110.4", "111", "107", "110.8"));
    cs.push(bar(9, "110.8", "110.9", "105.5", "106"));
    cs.push(bar(10, "106", "106.2", "103", "103.5"));
    let r = simulate(&cs, &config(), &symbol());
    // the first setup is detected at bar 2 and fills at bar 3; it closes at bar 4
    assert_eq!(r.events[0].open_time, cs[3].time);
    if r.events.len() > 1 {
        assert!(r.events[1].open_time > cs[4].time);
    }
    // the books add up: 1000 plus the results
    let mut total = rust_decimal::Decimal::ZERO;
    for e in &r.events {
        total += rust_decimal::Decimal::from_i128_with_scale(e.pnl.mantissa(), e.pnl.scale());
    }
    let start = rust_decimal::Decimal::from(1000);
    let end = rust_decimal::Decimal::from_i128_with_scale(r.balance.mantissa(), r.balance.scale());
    assert_eq!(end, start + total);
}
