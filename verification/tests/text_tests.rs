use ares::sse::{closed_at_target, sse_action, sse_line, SseAction, SsePosition, SseReader};
use ares::text::{str_eq, trim};
use ares::decimal::Dec;

fn d(s: &str) -> Dec {
    Dec::parse(s).unwrap()
}

#[test]
fn trimming() {
    assert_eq!(trim("  abc \t\r\n"), "abc");
    assert_eq!(trim("\u{3000}x y\u{a0}"), "x y");
    assert_eq!(trim("   "), "");
    assert_eq!(trim(""), "");
    assert_eq!(trim("a"), "a");
}

#[test]
fn text_equality() {
    assert!(str_eq("abc", "abc"));
    assert!(!str_eq("abc", "abd"));
    assert!(!str_eq("ab", "abc"));
    assert!(str_eq("", ""));
}

#[test]
fn reader_delivers_events() {
    let mut r = SseReader::new();
    let ev = r.feed("event: position_opened\r\ndata: {\"ticket\": 1}\r\n\n");
    assert_eq!(ev, vec![("position_opened".to_string(), "{\"ticket\": 1}".to_string())]);
    // a data line without an event type delivers nothing
    assert!(r.feed("data: {}\n").is_empty());
    // an incomplete line waits for the rest
    assert!(r.feed("event: position_cl").is_empty());
    let ev = r.feed("osed\ndata: x\n");
    assert_eq!(ev, vec![("position_closed".to_string(), "x".to_string())]);
}

#[test]
fn chunking_does_not_matter() {
    let body = "event: position_opened\ndata: a\n\nevent: position_closed\r\ndata: b \n: ping\n";
    let mut whole = SseReader::new();
    let all = whole.feed(body);
    assert_eq!(all.len(), 2);
    for cut in 0..body.len() {
        if !body.is_char_boundary(cut) {
            continue;
        }
        let mut r = SseReader::new();
        let mut got = r.feed(&body[..cut]);
        got.extend(r.feed(&body[cut..]));
        assert_eq!(got, all);
    }
}

#[test]
fn event_then_data_is_delivered() {
    let mut event = String::new();
    assert_eq!(sse_line(&mut event, "event: position_closed"), None);
    assert_eq!(event, "position_closed");
    assert_eq!(sse_line(&mut event, "data: {\"ticket\": 1} "), Some("{\"ticket\": 1}".to_string()));
    assert_eq!(event, "");
}

#[test]
fn data_without_event_is_ignored() {
    let mut event = String::new();
    assert_eq!(sse_line(&mut event, "data: {}"), None);
    assert_eq!(event, "");
    assert_eq!(sse_line(&mut event, ": keep-alive"), None);
}

#[test]
fn empty_line_clears_the_event() {
    let mut event = String::new();
    sse_line(&mut event, "event:position_opened");
    assert_eq!(event, "position_opened");
    assert_eq!(sse_line(&mut event, ""), None);
    assert_eq!(event, "");
    assert_eq!(sse_line(&mut event, "data: {}"), None);
}

fn position(symbol: &str, magic: u64) -> SsePosition {
    SsePosition {
        ticket: 7,
        symbol: symbol.to_string(),
        pos_type: 0,
        volume: d("0.1"),
        price_open: d("2000"),
        price_current: Some(d("2010")),
        sl: d("1990"),
        tp: d("2020"),
        profit: d("10"),
        magic,
    }
}

#[test]
fn events_are_routed() {
    let p = position("XAUUSDm", 19730);
    assert_eq!(sse_action("position_opened", &p, "XAUUSDm"), SseAction::Opened);
    assert_eq!(sse_action("position_closed", &p, "XAUUSDm"), SseAction::Closed);
    assert_eq!(sse_action("order_placed", &p, "XAUUSDm"), SseAction::Ignore);
    assert_eq!(sse_action("position_opened", &p, "XAGUSDm"), SseAction::Ignore);
    assert_eq!(sse_action("position_opened", &position("XAUUSDm", 1), "XAUUSDm"), SseAction::Ignore);
}

#[test]
fn close_labels() {
    assert!(closed_at_target(d("10")));
    assert!(closed_at_target(d("0")));
    assert!(!closed_at_target(d("-0.01")));
}

#[test]
fn modified_events_are_routed() {
    let p = position("XAUUSDm", 19730);
    assert_eq!(sse_action("position_modified", &p, "XAUUSDm"), SseAction::Modified);
    assert_eq!(sse_action("position_modified", &position("XAUUSDm", 2), "XAUUSDm"), SseAction::Ignore);
}
