use ares::config::{
    env_date, env_dec, env_spread_override, env_str, env_u32, env_u64, env_usize, live_flag, parse_symbols,
};
use ares::decimal::Dec;
use ares::domain::Timeframe;

fn d(s: &str) -> Dec {
    Dec::parse(s).unwrap()
}

#[test]
fn str_setting_uses_default_when_empty() {
    assert_eq!(env_str("", "M5"), "M5");
    assert_eq!(env_str("H1", "M5"), "H1");
}

#[test]
fn usize_setting() {
    assert_eq!(env_usize("FVG_EXPIRY_CANDLES", "", "10").unwrap(), 10);
    assert_eq!(env_usize("FVG_EXPIRY_CANDLES", "25", "10").unwrap(), 25);
    assert_eq!(env_usize("FVG_EXPIRY_CANDLES", "+7", "10").unwrap(), 7);
    assert_eq!(env_usize("EMA_PERIOD", "0", "20").unwrap(), 0);
}

#[test]
fn usize_setting_refused() {
    let e = env_usize("EMA_PERIOD", "twenty", "20").unwrap_err();
    assert_eq!(e.key, "EMA_PERIOD");
    assert_eq!(e.text, "twenty");
    assert!(env_usize("EMA_PERIOD", "-1", "20").is_err());
    assert!(env_usize("EMA_PERIOD", " 5", "20").is_err());
    assert!(env_usize("EMA_PERIOD", "+", "20").is_err());
    assert!(env_usize("EMA_PERIOD", "18446744073709551616", "20").is_err());
}

#[test]
fn u32_setting_bounds() {
    assert_eq!(env_u32("BACKTEST_CANDLES", "", "50000").unwrap(), 50000);
    assert_eq!(env_u32("BACKTEST_CANDLES", "4294967295", "50000").unwrap(), u32::MAX);
    let e = env_u32("BACKTEST_CANDLES", "4294967296", "50000").unwrap_err();
    assert_eq!(e.key, "BACKTEST_CANDLES");
    assert_eq!(e.text, "4294967296");
}

#[test]
fn u64_setting_bounds() {
    assert_eq!(env_u64("LIVE_POLL_SECS", "", "30").unwrap(), 30);
    assert_eq!(env_u64("LIVE_POLL_SECS", "18446744073709551615", "30").unwrap(), u64::MAX);
    assert!(env_u64("LIVE_POLL_SECS", "18446744073709551616", "30").is_err());
    assert!(env_u64("LIVE_POLL_SECS", "1.5", "30").is_err());
}

#[test]
fn decimal_setting() {
    assert_eq!(env_dec("RISK_PCT", "", "0.01").unwrap(), d("0.01"));
    assert_eq!(env_dec("RISK_PCT", "0.02", "0.01").unwrap(), d("0.02"));
    let e = env_dec("RISK_PCT", "two", "0.01").unwrap_err();
    assert_eq!(e.key, "RISK_PCT");
    assert_eq!(e.text, "two");
}

#[test]
fn date_setting() {
    assert_eq!(env_date("DATE_FROM", "").unwrap(), None);
    // 1970-01-01 is day 719163 counted from 0001-01-01 as day 1
    assert_eq!(env_date("DATE_FROM", "1970-01-01").unwrap(), Some(719_163));
    assert_eq!(env_date("DATE_TO", "2024-03-01").unwrap(), Some(738_946));
    let e = env_date("DATE_TO", "2024-02-30").unwrap_err();
    assert_eq!(e.key, "DATE_TO");
    assert_eq!(e.text, "2024-02-30");
}

#[test]
fn spread_override_setting() {
    assert_eq!(env_spread_override("").unwrap(), None);
    assert_eq!(env_spread_override("0").unwrap(), None);
    assert_eq!(env_spread_override("0.25").unwrap(), Some(d("0.25")));
    // any zero means none: the live spread is used
    assert_eq!(env_spread_override("0.0").unwrap(), None);
    assert_eq!(env_spread_override("0.00").unwrap(), None);
    assert_eq!(env_spread_override("-0").unwrap(), None);
    let e = env_spread_override("wide").unwrap_err();
    assert_eq!(e.key, "SPREAD_OVERRIDE");
}

#[test]
fn live_switch() {
    assert!(live_flag("true"));
    assert!(live_flag("1"));
    assert!(!live_flag("TRUE"));
    assert!(!live_flag(""));
    assert!(!live_flag("yes"));
}

#[test]
fn symbol_list() {
    assert_eq!(parse_symbols("XAUUSDm,XAGUSDm,BTCUSDm"), vec!["XAUUSDm", "XAGUSDm", "BTCUSDm"]);
    assert_eq!(parse_symbols(" XAUUSDm , USOILm ,, "), vec!["XAUUSDm", "USOILm"]);
    assert_eq!(parse_symbols(""), Vec::<String>::new());
    assert_eq!(parse_symbols(",\t,"), Vec::<String>::new());
    assert_eq!(parse_symbols("EURUSD"), vec!["EURUSD"]);
}

#[test]
fn timeframe_names() {
    assert_eq!(Timeframe::from_name("M5"), Some(Timeframe::M5));
    assert_eq!(Timeframe::from_name("H4"), Some(Timeframe::H4));
    assert_eq!(Timeframe::from_name("MN1"), Some(Timeframe::Mn1));
    assert_eq!(Timeframe::from_name("m5"), None);
    assert_eq!(Timeframe::from_name(""), None);
    assert_eq!(Timeframe::D1.name(), "D1");
    for tf in [Timeframe::M1, Timeframe::M30, Timeframe::H12, Timeframe::W1, Timeframe::Mn1] {
        assert_eq!(Timeframe::from_name(tf.name()), Some(tf));
    }
}

#[test]
fn symbol_entries_have_no_commas_or_padding() {
    for s in parse_symbols(" a ,b\t, ,c d ,") {
        assert!(!s.is_empty());
        assert!(!s.contains(','));
        assert_eq!(s.trim(), s);
    }
    assert_eq!(parse_symbols(" a ,b\t, ,c d ,"), vec!["a", "b", "c d"]);
}
