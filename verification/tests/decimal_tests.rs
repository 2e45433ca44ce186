use ares::decimal::Dec;

fn d(s: &str) -> Dec {
    Dec::parse(s).unwrap()
}

#[test]
fn parsing_keeps_scale() {
    let x = d("1.1000");
    assert_eq!(x.mantissa(), 11000);
    assert_eq!(x.scale(), 4);
    assert_eq!(d("-0.25").mantissa(), -25);
    assert!(Dec::parse("abc").is_none());
    assert!(Dec::parse("").is_none());
}

#[test]
fn equality_is_numeric() {
    assert_eq!(d("1.10"), d("1.1"));
    assert!(d("1.10").num_eq(&d("1.100")));
    assert_ne!(d("1.10"), d("1.11"));
    assert!(d("1.09").num_lt(&d("1.1")));
    assert!(!d("1.1").num_lt(&d("1.10")));
}

#[test]
fn constructors() {
    assert_eq!(Dec::zero(), d("0"));
    assert_eq!(Dec::one(), d("1"));
    assert_eq!(Dec::from_u64(42), d("42"));
    assert_eq!(Dec::from_i64(-7), d("-7"));
    assert_eq!(Dec::from_parts(12345, 2), Some(d("123.45")));
    assert_eq!(Dec::from_parts(1, 29), None);
    assert_eq!(Dec::max_value(), d("79228162514264337593543950335"));
}

#[test]
fn sign_operations() {
    assert_eq!(d("-1.5").abs(), d("1.5"));
    assert_eq!(d("1.5").abs(), d("1.5"));
    assert_eq!(d("1.5").neg(), d("-1.5"));
    assert_eq!(d("-2").neg(), d("2"));
}

#[test]
fn profit_currency() {
    assert!(ares::mt5::profit_is_usd("USD"));
    assert!(ares::mt5::profit_is_usd("usd"));
    assert!(ares::mt5::profit_is_usd("uSd"));
    assert!(!ares::mt5::profit_is_usd("EUR"));
    assert!(!ares::mt5::profit_is_usd("USDT"));
    assert!(!ares::mt5::profit_is_usd(""));
}
