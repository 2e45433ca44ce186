//! Messages exchanged with the MetaTrader 5 bridge.  Prices and volumes are
//! decimals here; the bridge's JSON carries them as floating-point numbers,
//! which the caller converts.

use crate::decimal::{zero_v, Dec};
use crate::domain::Side;
use vstd::prelude::*;

verus! {

/// `TRADE_ACTION_PENDING`: place a pending order.
pub const ACTION_PENDING: u32 = 5u32;

/// `TRADE_ACTION_REMOVE`: delete a pending order.
pub const ACTION_REMOVE: u32 = 8u32;

/// `ORDER_TYPE_BUY_LIMIT`.
pub const ORDER_BUY_LIMIT: u32 = 2u32;

/// `ORDER_TYPE_SELL_LIMIT`.
pub const ORDER_SELL_LIMIT: u32 = 3u32;

/// State of the bridge and of its terminal connection.
#[derive(Clone, Debug)]
pub struct HealthStatus {
    pub status: String,
    pub mt5_connected: bool,
    pub mt5_version: String,
    pub api_version: String,
}

/// A trade request as the bridge takes it.  `order` is the ticket of the
/// order to remove (`TRADE_ACTION_REMOVE` only); `deviation` is the allowed
/// price deviation in points.
#[derive(Clone, Debug)]
pub struct TradeRequest {
    pub action: u32,
    pub symbol: String,
    pub volume: Option<Dec>,
    pub order_type: Option<u32>,
    pub price: Option<Dec>,
    pub sl: Option<Dec>,
    pub tp: Option<Dec>,
    pub magic: Option<u64>,
    pub comment: Option<String>,
    pub order: Option<u64>,
    pub deviation: Option<u32>,
}

/// The limit order type for a side: buy limit for a long, sell limit for a
/// short.
pub open spec fn limit_type_of(side: Side) -> u32 {
    match side {
        Side::Long => ORDER_BUY_LIMIT,
        Side::Short => ORDER_SELL_LIMIT,
    }
}

/// Whether an optional string holds the given text.
pub open spec fn opt_text_is(o: Option<String>, t: Seq<char>) -> bool {
    o matches Some(s) && s@ == t
}

impl TradeRequest {
    /// A pending limit order: buy limit for a long, sell limit for a short,
    /// at `price` with the given stop, target, magic number and comment.
    pub fn limit(
        side: Side,
        symbol: String,
        volume: Dec,
        price: Dec,
        sl: Dec,
        tp: Dec,
        magic: u64,
        comment: String,
    ) -> (r: TradeRequest)
        ensures
            r.action == ACTION_PENDING,
            r.symbol@ == symbol@,
            r.volume == Some(volume),
            r.order_type == Some(limit_type_of(side)),
            r.price == Some(price),
            r.sl == Some(sl),
            r.tp == Some(tp),
            r.magic == Some(magic),
            opt_text_is(r.comment, comment@),
            r.order is None,
            r.deviation is None,
    {
        let order_type = match side {
            Side::Long => ORDER_BUY_LIMIT,
            Side::Short => ORDER_SELL_LIMIT,
        };
        TradeRequest {
            action: ACTION_PENDING,
            symbol,
            volume: Some(volume),
            order_type: Some(order_type),
            price: Some(price),
            sl: Some(sl),
            tp: Some(tp),
            magic: Some(magic),
            comment: Some(comment),
            order: None,
            deviation: None,
        }
    }

    /// Removal of the pending order `ticket`.  The bridge wants a volume, a
    /// type and a price even though the terminal ignores them for removals:
    /// 0.01 lot, type 0 and price 0.
    pub fn cancel(symbol: String, ticket: u64) -> (r: TradeRequest)
        ensures
            r.action == ACTION_REMOVE,
            r.symbol@ == symbol@,
            r.volume matches Some(v) && v@ == (1int, 2int),
            r.order_type == Some(0u32),
            r.price matches Some(p) && p@ == zero_v(),
            r.sl is None,
            r.tp is None,
            r.magic is None,
            r.comment is None,
            r.order == Some(ticket),
            r.deviation is None,
    {
        let min_lot = Dec::from_parts(1, 2).unwrap();
        TradeRequest {
            action: ACTION_REMOVE,
            symbol,
            volume: Some(min_lot),
            order_type: Some(0),
            price: Some(Dec::zero()),
            sl: None,
            tp: None,
            magic: None,
            comment: None,
            order: Some(ticket),
            deviation: None,
        }
    }
}

/// A pending (unfilled) limit order in the terminal.
#[derive(Clone, Debug)]
pub struct PendingOrder {
    pub ticket: u64,
    pub symbol: String,
    pub order_type: u32,
    pub volume_initial: Dec,
    pub price_open: Dec,
    pub sl: Dec,
    pub tp: Dec,
    pub magic: u64,
    pub comment: String,
}

/// The terminal's check of a request against the account.
#[derive(Clone, Debug)]
pub struct OrderCheckResult {
    pub retcode: u32,
    pub balance: Dec,
    pub equity: Dec,
    pub profit: Dec,
    pub margin: Dec,
    pub margin_free: Dec,
    pub margin_level: Dec,
    pub comment: String,
}

/// The terminal's answer to a trade request: its return code, the ticket
/// of the order it placed, and its comment.
#[derive(Clone, Debug)]
pub struct TradeResult {
    pub retcode: u32,
    pub order: u64,
    pub comment: String,
}


/// The code of a character with ASCII capitals taken to lower case.
pub open spec fn lower_code(c: char) -> int {
    if 'A' <= c <= 'Z' {
        c as int + 32
    } else {
        c as int
    }
}

/// Whether two texts are equal ignoring ASCII case
/// (`str::eq_ignore_ascii_case`).
pub open spec fn eq_ignore_ascii_case(a: Seq<char>, b: Seq<char>) -> bool {
    a.len() == b.len() && forall|i: int| 0 <= i < a.len() ==> lower_code(#[trigger] a[i]) == lower_code(b[i])
}

fn lower_code_exec(c: char) -> (r: u32)
    ensures
        r == lower_code(c),
{
    let x = c as u32;
    if 65 <= x && x <= 90 {
        x + 32
    } else {
        x
    }
}

/// Whether a symbol books its profit in US dollars: its profit currency
/// reads `USD` in any ASCII case.
pub fn profit_is_usd(currency: &str) -> (r: bool)
    ensures
        r == eq_ignore_ascii_case(currency@, "USD"@),
{
    let usd = "USD";
    proof {
        reveal_strlit("USD");
    }
    let n = currency.unicode_len();
    if n != usd.unicode_len() {
        return false;
    }
    let mut i: usize = 0;
    while i < n
        invariant
            i <= n == currency@.len() == usd@.len(),
            usd@ == "USD"@,
            forall|j: int| 0 <= j < i ==> lower_code(#[trigger] currency@[j]) == lower_code(usd@[j]),
        decreases n - i,
    {
        if lower_code_exec(currency.get_char(i)) != lower_code_exec(usd.get_char(i)) {
            return false;
        }
        i = i + 1;
    }
    true
}

} // verus!
