use ares::backtest::SymbolSpec;
use ares::decimal::Dec;
use ares::domain::{Candle, Deal, Side, Timeframe};
use ares::live::{
    expiry_instant, expiry_minutes, find_own_position, live_levels, order_accepted, order_comment,
    order_still_pending, pending_action, pending_record, plan_setup, pnl_summary, record_found_position,
    record_modified_position, record_opened_position, setup_order, side_name, side_of_pos_type, size_setup, tick_phase, LiveConfig,
    OrderRef, PendingAction, Position, TickPhase, MAGIC,
};
use ares::mt5::{TradeRequest, ACTION_PENDING, ACTION_REMOVE, ORDER_BUY_LIMIT, ORDER_SELL_LIMIT};
use ares::sse::SsePosition;

fn d(s: &str) -> Dec {
    Dec::parse(s).unwrap()
}

fn bar(i: i64, o: &str, h: &str, l: &str, c: &str) -> Candle {
    Candle { time: 1_700_000_000 + i * 300, open: d(o), high: d(h), low: d(l), close: d(c), tick_volume: 1, spread: 0, real_volume: 0 }
}

fn config() -> LiveConfig {
    LiveConfig {
        symbol: "XAUUSDm".to_string(),
        timeframe: Timeframe::M5,
        risk_pct: d("0.01"),
        body_pct_min: d("0.6"),
        close_pct_min: d("0.8"),
        fvg_expiry_candles: 10,
        min_fvg_pips: d("1"),
        min_sl_pips: d("1"),
        sl_buffer: d("0"),
        min_rr: d("2"),
        slippage_points: d("5"),
        spread_override: None,
        ema_period: 0,
        poll_secs: 30,
        mt5_base_url: "http://localhost:8000".to_string(),
        telegram: None,
    }
}

fn symbol() -> SymbolSpec {
    SymbolSpec {
        contract_size: d("100"),
        point: d("0.01"),
        digits: 2,
        spread: 20,
        volume_step: d("0.01"),
        volume_min: d("0.01"),
        volume_max: d("100"),
        profit_is_usd: true,
    }
}

/// A long gap on the last three closed candles (bars 2, 3, 4); bar 5 is
/// still forming.
fn candles() -> Vec<Candle> {
    vec![
        bar(0, "100", "100.5", "99.5", "100"),
        bar(1, "100", "100.5", "99.5", "100"),
        bar(2, "100", "101", "99", "100"),
        bar(3, "100.5", "106", "100.4", "105.9"),
        bar(4, "105.9", "107", "103", "106.5"),
        bar(5, "106.5", "106.6", "106", "106"),
    ]
}

#[test]
fn levels_of_a_two_digit_symbol() {
    let l = live_levels(&symbol(), &config()).unwrap();
    assert_eq!(l.pip, d("0.01"));
    assert_eq!(l.min_sl, d("0.01"));
    assert_eq!(l.min_zone, d("0.01"));
    assert_eq!(l.slip, d("0.05"));
    assert_eq!(l.spread, d("0.2"));
}

#[test]
fn levels_of_an_odd_digit_symbol() {
    let mut s = symbol();
    s.digits = 5;
    s.point = d("0.00001");
    let mut c = config();
    c.spread_override = Some(d("0.0002"));
    c.min_sl_pips = d("5");
    let l = live_levels(&s, &c).unwrap();
    assert_eq!(l.pip, d("0.0001"));
    assert_eq!(l.min_sl, d("0.0005"));
    assert_eq!(l.spread, d("0.0002"));
}

#[test]
fn plan_of_a_long_gap() {
    let c = config();
    let l = live_levels(&symbol(), &c).unwrap();
    let s = plan_setup(&candles(), &c, &l).unwrap().unwrap();
    assert_eq!(s.side, Side::Long);
    assert_eq!(s.entry, d("102"));
    assert_eq!(s.sl, d("100.4"));
    assert_eq!(s.sl_dist, d("1.6"));
    assert_eq!(s.tp, d("105.2"));
}

#[test]
fn plan_needs_five_candles() {
    let c = config();
    let l = live_levels(&symbol(), &c).unwrap();
    let cs = candles()[2..].to_vec();
    assert_eq!(cs.len(), 4);
    assert!(plan_setup(&cs, &c, &l).unwrap().is_none());
}

#[test]
fn plan_refuses_a_tight_stop() {
    let mut c = config();
    c.min_sl_pips = d("200"); // 2.00 > 1.6
    let l = live_levels(&symbol(), &c).unwrap();
    assert!(plan_setup(&candles(), &c, &l).unwrap().is_none());
}

#[test]
fn plan_with_trend_filter() {
    let mut c = config();
    let l = live_levels(&symbol(), &c).unwrap();
    // EMA(3) at the last closed candle is 104.725 < close 106.5
    c.ema_period = 3;
    assert!(plan_setup(&candles(), &c, &l).unwrap().is_some());
    // EMA(6) has no value yet at index 4: no trade
    c.ema_period = 6;
    assert!(plan_setup(&candles(), &c, &l).unwrap().is_none());
    // more candles than fetched: the filter does not apply
    c.ema_period = 7;
    assert!(plan_setup(&candles(), &c, &l).unwrap().is_some());
}

#[test]
fn plan_with_stop_buffer() {
    let mut c = config();
    c.sl_buffer = d("0.4");
    let l = live_levels(&symbol(), &c).unwrap();
    let s = plan_setup(&candles(), &c, &l).unwrap().unwrap();
    assert_eq!(s.sl, d("100.0"));
    assert_eq!(s.sl_dist, d("2.0"));
    assert_eq!(s.tp, d("106.0"));
}

#[test]
fn sizing_a_setup() {
    let c = config();
    let l = live_levels(&symbol(), &c).unwrap();
    let s = plan_setup(&candles(), &c, &l).unwrap().unwrap();
    let v = size_setup(&s, d("106.5"), d("1000"), c.risk_pct, &symbol()).unwrap();
    assert_eq!(v, Some(d("0.06")));
    // a non-USD symbol values a lot at contract size / close: 100 / 100 = 1
    let mut sym = symbol();
    sym.profit_is_usd = false;
    let v = size_setup(&s, d("100"), d("1000"), c.risk_pct, &sym).unwrap();
    // 10 / (1.6 * 1) = 6.25 -> 6.25
    assert_eq!(v, Some(d("6.25")));
}

#[test]
fn the_order_of_a_setup() {
    let c = config();
    let l = live_levels(&symbol(), &c).unwrap();
    let s = plan_setup(&candles(), &c, &l).unwrap().unwrap();
    let req = setup_order(&s, "XAUUSDm".to_string(), d("0.06"), "ares-1114-2220".to_string());
    assert_eq!(req.action, ACTION_PENDING);
    assert_eq!(req.order_type, Some(ORDER_BUY_LIMIT));
    assert_eq!(req.price, Some(d("102")));
    assert_eq!(req.sl, Some(d("100.4")));
    assert_eq!(req.tp, Some(d("105.2")));
    assert_eq!(req.volume, Some(d("0.06")));
    assert_eq!(req.magic, Some(MAGIC));
    assert_eq!(req.comment.as_deref(), Some("ares-1114-2220"));
    assert_eq!(req.order, None);
}

#[test]
fn limit_and_cancel_requests() {
    let r = TradeRequest::limit(Side::Short, "EURUSD".to_string(), d("0.1"), d("1.1"), d("1.2"), d("1.0"), 5, "c".to_string());
    assert_eq!(r.action, 5);
    assert_eq!(r.order_type, Some(ORDER_SELL_LIMIT));
    assert_eq!(r.magic, Some(5));
    let r = TradeRequest::cancel("EURUSD".to_string(), 42);
    assert_eq!(r.action, ACTION_REMOVE);
    assert_eq!(r.action, 8);
    assert_eq!(r.order, Some(42));
    assert_eq!(r.volume, Some(d("0.01")));
    assert_eq!(r.order_type, Some(0));
    assert_eq!(r.price, Some(d("0")));
    assert!(r.sl.is_none() && r.tp.is_none() && r.magic.is_none() && r.comment.is_none());
}

#[test]
fn order_comments() {
    // 2023-11-14 22:13:20 UTC
    assert_eq!(order_comment(1_700_000_000).unwrap(), "ares-1114-2213");
    assert_eq!(order_comment(0).unwrap(), "ares-0101-0000");
}

#[test]
fn expiry_of_an_order() {
    assert_eq!(expiry_minutes(Timeframe::M5, 10), Some(50));
    assert_eq!(expiry_minutes(Timeframe::H1, 3), Some(180));
    assert_eq!(expiry_instant(1_000, Timeframe::M5, 10), Some(1_000 + 3_000));
    assert_eq!(expiry_instant(i64::MAX, Timeframe::M5, 10), None);
    assert_eq!(expiry_minutes(Timeframe::Mn1, 1usize << 62), None);
}

#[test]
fn pending_decisions() {
    assert_eq!(pending_action(true, 100, 200), PendingAction::Wait);
    assert_eq!(pending_action(true, 200, 200), PendingAction::CancelExpired);
    assert_eq!(pending_action(true, 300, 200), PendingAction::CancelExpired);
    assert_eq!(pending_action(false, 100, 200), PendingAction::CancelledElsewhere);
}

#[test]
fn acceptance_code() {
    assert!(order_accepted(10009));
    assert!(!order_accepted(10004));
}

fn pos(symbol: &str, magic: u64, ticket: u64) -> Position {
    Position { ticket, symbol: symbol.to_string(), magic, side: Side::Short, volume: d("0.1"), price_open: d("2000"), sl: d("2010"), tp: d("1980") }
}

#[test]
fn own_positions_found() {
    let ps = vec![pos("XAUUSDm", 1, 1), pos("XAGUSDm", MAGIC, 2), pos("XAUUSDm", MAGIC, 3), pos("XAUUSDm", MAGIC, 4)];
    assert_eq!(find_own_position(&ps, "XAUUSDm"), Some(2));
    assert_eq!(find_own_position(&ps, "BTCUSDm"), None);
    assert_eq!(find_own_position(&vec![], "XAUUSDm"), None);
}

#[test]
fn pending_order_lookup() {
    let os = vec![
        OrderRef { ticket: 5, symbol: "XAUUSDm".to_string(), magic: 1 },
        OrderRef { ticket: 6, symbol: "XAUUSDm".to_string(), magic: MAGIC },
    ];
    assert!(order_still_pending(&os, 6));
    assert!(!order_still_pending(&os, 5));
    assert!(!order_still_pending(&os, 7));
}

#[test]
fn records_keep_the_message() {
    let c = config();
    let l = live_levels(&symbol(), &c).unwrap();
    let s = plan_setup(&candles(), &c, &l).unwrap().unwrap();
    let p = pending_record(77, 4000, Some(555), &s, d("0.06"));
    assert_eq!(p.ticket, 77);
    assert_eq!(p.entry, d("102"));
    let found = record_found_position(&pos("XAUUSDm", MAGIC, 78), &Some(p.clone()));
    assert_eq!(found.ticket, 78);
    assert_eq!(found.tg_message_id, Some(555));
    assert_eq!(found.side, Side::Short);
    let sse = SsePosition {
        ticket: 79, symbol: "XAUUSDm".to_string(), pos_type: 0, volume: d("0.06"), price_open: d("102.01"),
        price_current: None, sl: d("100.4"), tp: d("105.2"), profit: d("0"), magic: MAGIC,
    };
    let opened = record_opened_position(&sse, &Some(p));
    assert_eq!(opened.side, Side::Long);
    assert_eq!(opened.entry, d("102.01"));
    assert_eq!(opened.tg_message_id, Some(555));
    assert_eq!(record_opened_position(&sse, &None).tg_message_id, None);
}

#[test]
fn side_names() {
    assert_eq!(side_name(Side::Long), "Long");
    assert_eq!(side_name(Side::Short), "Short");
    assert_eq!(side_of_pos_type(0), Side::Long);
    assert_eq!(side_of_pos_type(1), Side::Short);
}

fn deal(entry: u8, magic: u64, profit: &str, commission: &str, swap: &str) -> Deal {
    Deal {
        ticket: 1, time: 0, entry, magic, volume: d("0.1"), price: d("2000"), profit: d(profit),
        commission: d(commission), swap: d(swap), symbol: "XAUUSDm".to_string(), comment: String::new(),
    }
}

#[test]
fn profit_summary() {
    let deals = vec![
        deal(0, MAGIC, "0", "-0.7", "0"),
        deal(1, MAGIC, "12.5", "-0.7", "0"),
        deal(1, MAGIC, "-8", "-0.7", "-0.1"),
        deal(1, 99, "100", "0", "0"),
        deal(1, MAGIC, "0", "0", "0"),
    ];
    let s = pnl_summary(&deals).unwrap();
    assert_eq!(s.total, 3);
    assert_eq!(s.wins, 1);
    assert_eq!(s.losses, 2);
    // 11.8 - 8.8 + 0
    assert_eq!(s.profit, d("3.0"));
    let empty = pnl_summary(&vec![]).unwrap();
    assert_eq!((empty.total, empty.wins, empty.losses), (0, 0, 0));
    assert_eq!(empty.profit, d("0"));
}

/// A short gap: bars 2 (pre), 3 (impulse down) and 4 (post); bar 5 forms.
fn short_candles() -> Vec<Candle> {
    vec![
        bar(0, "100", "100.5", "99.5", "100"),
        bar(1, "100", "100.5", "99.5", "100"),
        bar(2, "106", "107", "105", "106"),
        bar(3, "105.5", "105.6", "100", "100.1"),
        bar(4, "100.1", "103", "99", "99.5"),
        bar(5, "99.5", "99.6", "99", "99.2"),
    ]
}

#[test]
fn plan_of_a_short_gap() {
    let mut c = config();
    c.ema_period = 3;
    let l = live_levels(&symbol(), &c).unwrap();
    let s = plan_setup(&short_candles(), &c, &l).unwrap().unwrap();
    assert_eq!(s.side, Side::Short);
    assert_eq!(s.entry, d("104"));
    assert_eq!(s.sl, d("105.6"));
    assert_eq!(s.sl_dist, d("1.6"));
    assert_eq!(s.tp, d("100.8"));
    let req = setup_order(&s, "XAUUSDm".to_string(), d("0.06"), "c".to_string());
    assert_eq!(req.order_type, Some(ORDER_SELL_LIMIT));
}

#[test]
fn levels_overflow_reported() {
    let mut c = config();
    c.min_sl_pips = Dec::max_value();
    let mut s = symbol();
    s.point = Dec::max_value();
    assert!(live_levels(&s, &c).is_none());
}

#[test]
fn profit_summary_overflow_reported() {
    let big = Dec::max_value();
    let mut a = deal(1, MAGIC, "0", "0", "0");
    a.profit = big;
    let mut b = deal(1, MAGIC, "0", "0", "0");
    b.profit = big;
    assert!(pnl_summary(&vec![a, b]).is_none());
}

#[test]
fn poll_phases() {
    let ps = vec![pos("XAUUSDm", 1, 1), pos("XAUUSDm", MAGIC, 2)];
    assert_eq!(tick_phase(&ps, "XAUUSDm", true), TickPhase::PositionOpen(1));
    assert_eq!(tick_phase(&ps, "XAUUSDm", false), TickPhase::PositionOpen(1));
    assert_eq!(tick_phase(&ps, "XAGUSDm", true), TickPhase::ManagePending);
    assert_eq!(tick_phase(&ps, "XAGUSDm", false), TickPhase::LookForSetup);
}

#[test]
fn modified_record_takes_new_levels() {
    let rec = record_found_position(&pos("XAUUSDm", MAGIC, 9), &None);
    let sse = SsePosition {
        ticket: 9, symbol: "XAUUSDm".to_string(), pos_type: 1, volume: d("0.5"), price_open: d("1"),
        price_current: None, sl: d("2005"), tp: d("1990"), profit: d("0"), magic: MAGIC,
    };
    let m = record_modified_position(&rec, &sse);
    assert_eq!(m.sl, d("2005"));
    assert_eq!(m.tp, d("1990"));
    assert_eq!(m.entry, d("2000"));
    assert_eq!(m.volume, d("0.1"));
    assert_eq!(m.ticket, 9);
}

#[test]
fn trend_filter_with_too_few_candles_uses_a_zero_level() {
    let mut c = config();
    c.ema_period = 7; // more than the six candles fetched
    let l = live_levels(&symbol(), &c).unwrap();
    // a long with a positive close passes
    assert!(plan_setup(&candles(), &c, &l).unwrap().is_some());
    // a short with a positive close is blocked
    assert!(plan_setup(&short_candles(), &c, &l).unwrap().is_none());
    // with the filter off (period 0) the short passes
    c.ema_period = 0;
    assert!(plan_setup(&short_candles(), &c, &l).unwrap().is_some());
}
