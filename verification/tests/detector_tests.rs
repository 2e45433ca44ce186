use ares::decimal::Dec;
use ares::detector::{detect, momentum_from_ratios, momentum_side, try_detect, try_momentum_side, PendingFvg};
use ares::domain::{Candle, Side};

fn d(s: &str) -> Dec {
    Dec::parse(s).unwrap()
}

fn candle(o: &str, h: &str, l: &str, c: &str) -> Candle {
    Candle {
        time: 0,
        open: d(o),
        high: d(h),
        low: d(l),
        close: d(c),
        tick_volume: 100,
        spread: 2,
        real_volume: 0,
    }
}

#[test]
fn momentum_bullish_detected() {
    // body = 0.0080 / range = 0.0090 = 89%; close at top
    let c = candle("1.1000", "1.1095", "1.1005", "1.1080");
    let side = momentum_side(&c, d("0.6"), d("0.8"));
    assert_eq!(side, Some(Side::Long));
}

#[test]
fn momentum_bearish_detected() {
    let c = candle("1.1080", "1.1085", "1.0995", "1.1005");
    let side = momentum_side(&c, d("0.6"), d("0.8"));
    assert_eq!(side, Some(Side::Short));
}

#[test]
fn small_body_rejected() {
    // doji — body is tiny
    let c = candle("1.1040", "1.1090", "1.1000", "1.1045");
    let side = momentum_side(&c, d("0.6"), d("0.8"));
    assert_eq!(side, None);
}

#[test]
fn bullish_fvg_detected() {
    let pre = candle("1.1000", "1.1020", "1.0990", "1.1010");
    let impulse = candle("1.1010", "1.1110", "1.1005", "1.1100"); // big bull
    let post = candle("1.1090", "1.1130", "1.1070", "1.1120"); // low > pre.high

    let min_zone = d("0.0001"); // 1 pip min — zone is 50 pips, passes
    let fvg = detect(&pre, &impulse, &post, d("0.6"), d("0.8"), min_zone, 10, 5);
    assert!(fvg.is_some());
    let fvg = fvg.unwrap();
    assert_eq!(fvg.side, Side::Long);
    assert_eq!(fvg.zone_low, d("1.1020")); // pre.high
    assert_eq!(fvg.zone_high, d("1.1070")); // post.low
}

#[test]
fn no_gap_returns_none() {
    // post.low <= pre.high — no gap
    let pre = candle("1.1000", "1.1060", "1.0990", "1.1050");
    let impulse = candle("1.1050", "1.1110", "1.1040", "1.1100");
    let post = candle("1.1090", "1.1130", "1.1055", "1.1120"); // post.low=1.1055 < pre.high=1.1060

    let min_zone = d("0.0001");
    let fvg = detect(&pre, &impulse, &post, d("0.6"), d("0.8"), min_zone, 10, 5);
    assert!(fvg.is_none());
}

#[test]
fn bullish_fvg_entry_stop_and_expiry() {
    let pre = candle("1.1000", "1.1020", "1.0990", "1.1010");
    let impulse = candle("1.1010", "1.1110", "1.1005", "1.1100");
    let post = candle("1.1090", "1.1130", "1.1070", "1.1120");
    let fvg = detect(&pre, &impulse, &post, d("0.6"), d("0.8"), d("0.0001"), 10, 5).unwrap();
    assert_eq!(fvg.entry, d("1.1045")); // midpoint of 1.1020 and 1.1070
    assert_eq!(fvg.impulse_sl, d("1.1005")); // impulse low
    assert_eq!(fvg.expiry_idx, 15);
}

#[test]
fn bearish_fvg_detected() {
    let pre = candle("1.1100", "1.1110", "1.1080", "1.1090");
    let impulse = candle("1.1090", "1.1095", "1.0990", "1.1000"); // big bear
    let post = candle("1.1010", "1.1030", "1.0980", "1.0990"); // high < pre.low
    let fvg = detect(&pre, &impulse, &post, d("0.6"), d("0.8"), d("0.0001"), 3, 2).unwrap();
    assert_eq!(fvg.side, Side::Short);
    assert_eq!(fvg.zone_low, d("1.1030"));
    assert_eq!(fvg.zone_high, d("1.1080"));
    assert_eq!(fvg.entry, d("1.1055"));
    assert_eq!(fvg.impulse_sl, d("1.1095")); // impulse high
    assert_eq!(fvg.expiry_idx, 5);
}

#[test]
fn narrow_gap_rejected() {
    let pre = candle("1.1000", "1.1020", "1.0990", "1.1010");
    let impulse = candle("1.1010", "1.1110", "1.1005", "1.1100");
    let post = candle("1.1090", "1.1130", "1.1070", "1.1120");
    // the gap is 0.0050 wide; ask for 0.0051
    let fvg = detect(&pre, &impulse, &post, d("0.6"), d("0.8"), d("0.0051"), 10, 5);
    assert!(fvg.is_none());
    // exactly as wide as required passes
    let fvg = detect(&pre, &impulse, &post, d("0.6"), d("0.8"), d("0.0050"), 10, 5);
    assert!(fvg.is_some());
}

#[test]
fn zero_range_candle_is_not_momentum() {
    let c = candle("1.1000", "1.1000", "1.1000", "1.1000");
    assert_eq!(momentum_side(&c, d("0.6"), d("0.8")), None);
    assert_eq!(try_momentum_side(&c, d("0.6"), d("0.8")), Some(None));
}

#[test]
fn close_not_at_extreme_rejected() {
    // body 0.0060 of range 0.0100 = 60%, close at 70% of the range
    let c = candle("1.1010", "1.1100", "1.1000", "1.1070");
    assert_eq!(momentum_side(&c, d("0.6"), d("0.8")), None);
    assert_eq!(momentum_side(&c, d("0.6"), d("0.7")), Some(Side::Long));
}

#[test]
fn touched_zone() {
    let f = PendingFvg {
        side: Side::Long,
        zone_high: d("1.1070"),
        zone_low: d("1.1020"),
        entry: d("1.1045"),
        impulse_sl: d("1.1005"),
        expiry_idx: 15,
    };
    assert!(f.is_touched(&candle("1.1100", "1.1110", "1.1070", "1.1090")));
    assert!(!f.is_touched(&candle("1.1100", "1.1110", "1.1071", "1.1090")));
    let s = PendingFvg { side: Side::Short, ..f };
    assert!(s.is_touched(&candle("1.1000", "1.1020", "1.0990", "1.1010")));
    assert!(!s.is_touched(&candle("1.1000", "1.1019", "1.0990", "1.1010")));
}

#[test]
fn try_detect_reports_result() {
    let pre = candle("1.1000", "1.1020", "1.0990", "1.1010");
    let impulse = candle("1.1010", "1.1110", "1.1005", "1.1100");
    let post = candle("1.1090", "1.1130", "1.1070", "1.1120");
    let r = try_detect(&pre, &impulse, &post, d("0.6"), d("0.8"), d("0.0001"), 10, 5);
    assert_eq!(r.unwrap().unwrap().entry, d("1.1045"));
    // the expiry index would overflow usize
    let r = try_detect(&pre, &impulse, &post, d("0.6"), d("0.8"), d("0.0001"), usize::MAX, 5);
    assert!(r.is_none());
}

#[test]
fn classification_from_given_ratios() {
    // the bullish candle of `momentum_bullish_detected`: body 0.0080 over
    // range 0.0090, close 0.0075 above the low
    let r = momentum_from_ratios(d("1.1000"), d("1.1080"), d("0.8888888888888888888888888889"),
        d("0.8333333333333333333333333333"), d("0.6"), d("0.8"));
    assert_eq!(r, Some(Some(Side::Long)));
    // the bearish candle of `momentum_bearish_detected`
    let r = momentum_from_ratios(d("1.1080"), d("1.1005"), d("0.8333333333333333333333333333"),
        d("0.1111111111111111111111111111"), d("0.6"), d("0.8"));
    assert_eq!(r, Some(Some(Side::Short)));
    // the doji of `small_body_rejected`: body 0.0005 over 0.0090
    let r = momentum_from_ratios(d("1.1040"), d("1.1045"), d("0.0555555555555555555555555556"),
        d("0.5"), d("0.6"), d("0.8"));
    assert_eq!(r, Some(None));
    // a bullish body that closes too low
    let r = momentum_from_ratios(d("1"), d("2"), d("0.7"), d("0.79"), d("0.6"), d("0.8"));
    assert_eq!(r, Some(None));
}

#[test]
fn mirrored_ratios_flip_the_side() {
    // the bullish candle mirrored: prices negated, close position 1 - 0.8333...
    let r = momentum_from_ratios(d("-1.1000"), d("-1.1080"), d("0.8888888888888888888888888889"),
        d("0.1666666666666666666666666667"), d("0.6"), d("0.8"));
    assert_eq!(r, Some(Some(Side::Short)));
    // the bearish candle mirrored
    let r = momentum_from_ratios(d("-1.1080"), d("-1.1005"), d("0.8333333333333333333333333333"),
        d("0.8888888888888888888888888889"), d("0.6"), d("0.8"));
    assert_eq!(r, Some(Some(Side::Long)));
}

#[test]
fn mirrored_candles_flip_the_side() {
    let c = candle("1.1000", "1.1095", "1.1005", "1.1080");
    let m = candle("-1.1000", "-1.1005", "-1.1095", "-1.1080");
    assert_eq!(momentum_side(&c, d("0.6"), d("0.8")), Some(Side::Long));
    assert_eq!(momentum_side(&m, d("0.6"), d("0.8")), Some(Side::Short));
    let doji = candle("1.1040", "1.1090", "1.1000", "1.1045");
    let mirror = candle("-1.1040", "-1.1000", "-1.1090", "-1.1045");
    assert_eq!(momentum_side(&mirror, d("0.6"), d("0.8")), None);
    assert_eq!(momentum_side(&doji, d("0.6"), d("0.8")), None);
}
