use ares::decimal::Dec;
use ares::domain::{Candle, Side};
use ares::helpers::{
    actual_entry, actual_exit, fmt_pnl, fmt_price, rolling_atr, rolling_ema, size_position,
    try_actual_entry, try_actual_exit, try_rolling_atr, try_rolling_ema, try_size_position, volume_from_steps,
};

fn d(s: &str) -> Dec {
    Dec::parse(s).unwrap()
}

fn bar(h: &str, l: &str, c: &str) -> Candle {
    Candle { time: 0, open: d(c), high: d(h), low: d(l), close: d(c), tick_volume: 0, spread: 0, real_volume: 0 }
}

#[test]
fn ema_seeded_with_mean() {
    let prices = vec![d("1"), d("2"), d("3"), d("4"), d("5")];
    let e = rolling_ema(&prices, 3);
    assert_eq!(e.len(), 5);
    assert!(e[0].is_none());
    assert!(e[1].is_none());
    assert_eq!(e[2], Some(d("2")));
    // k = 2 / 4 = 0.5
    assert_eq!(e[3], Some(d("3")));
    assert_eq!(e[4], Some(d("4")));
}

#[test]
fn ema_too_few_prices() {
    let prices = vec![d("1"), d("2")];
    let e = rolling_ema(&prices, 3);
    assert_eq!(e, vec![None, None]);
    assert_eq!(try_rolling_ema(&prices, 3), Some(vec![None, None]));
}

#[test]
fn atr_wilder_smoothing() {
    let cs = vec![bar("11", "9", "10"), bar("12", "10", "11"), bar("14", "11", "13"), bar("13", "12", "12.5")];
    // true ranges: 2, 2, 3, 1
    let a = rolling_atr(&cs, 2);
    // nothing below index `period`; the seed (mean 2) is not reported
    assert!(a[0].is_none());
    assert!(a[1].is_none());
    // 3 * 0.5 + 2 * 0.5
    assert_eq!(a[2], Some(d("2.5")));
    // 1 * 0.5 + 2.5 * 0.5
    assert_eq!(a[3], Some(d("1.75")));
}

#[test]
fn atr_uses_gaps_from_previous_close() {
    let cs = vec![bar("11", "9", "10"), bar("16", "15", "15.5")];
    // second true range: max(1, |16 - 10|, |15 - 10|) = 6
    let a = rolling_atr(&cs, 1);
    assert_eq!(a[0], None);
    assert_eq!(a[1], Some(d("6")));
}

#[test]
fn size_rounds_down_to_step() {
    // 1000 * 0.01 / (1.6 * 100) = 0.0625 -> 0.06
    let v = size_position(d("1000"), d("0.01"), d("1.6"), d("100"), d("0.01"), d("0.01"), d("100"));
    assert_eq!(v, Some(d("0.06")));
}

#[test]
fn size_below_minimum_refused() {
    let v = size_position(d("100"), d("0.01"), d("1.6"), d("100"), d("0.01"), d("0.01"), d("100"));
    // 0.00625 -> 0.00 < 0.01
    assert_eq!(v, None);
}

#[test]
fn size_capped_at_maximum() {
    let v = size_position(d("1000000"), d("0.01"), d("1"), d("1"), d("0.01"), d("0.01"), d("50"));
    assert_eq!(v, Some(d("50")));
}

#[test]
fn size_zero_distance_refused() {
    let v = size_position(d("1000"), d("0.01"), d("0"), d("100"), d("0.01"), d("0.01"), d("100"));
    assert_eq!(v, None);
    assert_eq!(try_size_position(d("1000"), d("0.01"), d("0"), d("100"), d("0.01"), d("0.01"), d("100")), Some(None));
}

#[test]
fn size_overflow_reported() {
    let big = Dec::max_value();
    let r = try_size_position(big, big, d("1"), d("1"), d("0.01"), d("0.01"), d("100"));
    assert_eq!(r, None);
}

#[test]
fn entry_prices() {
    assert_eq!(actual_entry(Side::Long, d("1.1000"), d("0.0002")), d("1.1002"));
    assert_eq!(actual_entry(Side::Short, d("1.1000"), d("0.0002")), d("1.1000"));
}

#[test]
fn exit_prices() {
    let (sp, sl) = (d("0.0002"), d("0.0001"));
    assert_eq!(actual_exit(Side::Long, d("1.2"), false, sp, sl), d("1.2"));
    assert_eq!(actual_exit(Side::Long, d("1.2"), true, sp, sl), d("1.1999"));
    assert_eq!(actual_exit(Side::Short, d("1.2"), false, sp, sl), d("1.2002"));
    assert_eq!(actual_exit(Side::Short, d("1.2"), true, sp, sl), d("1.2003"));
}

#[test]
fn price_formatting() {
    assert_eq!(fmt_price(d("1.1"), 5), "1.10000");
    assert_eq!(fmt_price(d("2345.6"), 2), "2345.60");
    assert_eq!(fmt_price(d("-0.5"), 1), "-0.5");
}

#[test]
fn pnl_formatting() {
    assert_eq!(fmt_pnl(d("19.2")), "+19.20");
    assert_eq!(fmt_pnl(d("0")), "+0.00");
    assert_eq!(fmt_pnl(d("-9.6")), "-9.60");
}

#[test]
fn checked_variants() {
    assert_eq!(try_actual_entry(Side::Long, d("1.1"), d("0.1")), Some(d("1.2")));
    assert_eq!(try_actual_entry(Side::Long, Dec::max_value(), Dec::max_value()), None);
    assert_eq!(try_actual_entry(Side::Short, Dec::max_value(), Dec::max_value()), Some(Dec::max_value()));
    assert_eq!(try_actual_exit(Side::Short, d("1.1"), true, d("0.1"), d("0.05")), Some(d("1.25")));
    assert_eq!(try_actual_exit(Side::Short, Dec::max_value(), false, Dec::max_value(), d("0")), None);
    let cs = vec![bar("11", "9", "10"), bar("12", "10", "11")];
    assert_eq!(try_rolling_atr(&cs, 3), Some(vec![None, None]));
    assert_eq!(try_rolling_atr(&cs, 2).unwrap(), vec![None, None]);
    assert_eq!(try_rolling_atr(&cs, 1).unwrap(), vec![None, Some(d("2"))]);
}

#[test]
fn volume_from_step_counts() {
    let (step, min, max) = (d("0.01"), d("0.01"), d("100"));
    assert_eq!(volume_from_steps(d("6.25"), step, min, max), Some(Some(d("0.06"))));
    assert_eq!(volume_from_steps(d("0.625"), step, min, max), Some(None));
    assert_eq!(volume_from_steps(d("20000"), step, min, max), Some(Some(d("100"))));
}

#[test]
fn exit_costs_never_favour_the_trader() {
    let (sp, sl) = (d("0.0002"), d("0.0001"));
    for level in [d("1.1"), d("0"), d("2345.67")] {
        for is_sl in [false, true] {
            assert!(actual_exit(Side::Long, level, is_sl, sp, sl).num_lt(&level)
                || actual_exit(Side::Long, level, is_sl, sp, sl) == level);
            assert!(level.num_lt(&actual_exit(Side::Short, level, is_sl, sp, sl)));
        }
    }
}

#[test]
fn sized_position_risks_at_most_the_risk_share() {
    // 0.06 lots * 1.6 * 100 = 9.6 <= 1000 * 0.01 = 10
    let v = size_position(d("1000"), d("0.01"), d("1.6"), d("100"), d("0.01"), d("0.01"), d("100")).unwrap();
    assert_eq!(v, d("0.06"));
    let risk = 0.06 * 1.6 * 100.0;
    assert!(risk <= 10.0);
}
