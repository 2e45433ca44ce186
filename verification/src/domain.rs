//! Market data shared by the backtest and the live loop.

use crate::decimal::Dec;
use crate::text::str_eq;
use vstd::prelude::*;

verus! {

/// Direction of a trade.
#[derive(Clone, Copy, Debug, PartialEq, Eq, Structural)]
pub enum Side {
    Long,
    Short,
}

/// Candle period.
#[derive(Clone, Copy, Debug, PartialEq, Eq, Structural)]
pub enum Timeframe {
    M1,
    M2,
    M3,
    M4,
    M5,
    M6,
    M10,
    M12,
    M15,
    M20,
    M30,
    H1,
    H2,
    H3,
    H4,
    H6,
    H8,
    H12,
    D1,
    W1,
    Mn1,
}

/// One OHLC bar; `time` is its opening instant in seconds since the Unix
/// epoch (UTC).
#[derive(Clone, Copy, Debug)]
pub struct Candle {
    pub time: i64,
    pub open: Dec,
    pub high: Dec,
    pub low: Dec,
    pub close: Dec,
    pub tick_volume: u64,
    pub spread: i32,
    pub real_volume: u64,
}

/// A deal of the trading history.  `entry` is 0 for a deal that opens a
/// position and 1 for one that closes it; `time` is in seconds since the Unix
/// epoch.
#[derive(Clone, Debug)]
pub struct Deal {
    pub ticket: u64,
    pub time: i64,
    pub entry: u8,
    pub magic: u64,
    pub volume: Dec,
    pub price: Dec,
    pub profit: Dec,
    pub commission: Dec,
    pub swap: Dec,
    pub symbol: String,
    pub comment: String,
}

/// Minutes in one candle of the given period (a month counts as 30 days).
pub open spec fn minutes_of(tf: Timeframe) -> int {
    match tf {
        Timeframe::M1 => 1,
        Timeframe::M2 => 2,
        Timeframe::M3 => 3,
        Timeframe::M4 => 4,
        Timeframe::M5 => 5,
        Timeframe::M6 => 6,
        Timeframe::M10 => 10,
        Timeframe::M12 => 12,
        Timeframe::M15 => 15,
        Timeframe::M20 => 20,
        Timeframe::M30 => 30,
        Timeframe::H1 => 60,
        Timeframe::H2 => 120,
        Timeframe::H3 => 180,
        Timeframe::H4 => 240,
        Timeframe::H6 => 360,
        Timeframe::H8 => 480,
        Timeframe::H12 => 720,
        Timeframe::D1 => 1440,
        Timeframe::W1 => 10080,
        Timeframe::Mn1 => 43200,
    }
}

/// Minutes in one candle of the given period.
pub fn timeframe_minutes(tf: Timeframe) -> (r: i64)
    ensures
        r == minutes_of(tf),
        1 <= r <= 43200,
{
    match tf {
        Timeframe::M1 => 1,
        Timeframe::M2 => 2,
        Timeframe::M3 => 3,
        Timeframe::M4 => 4,
        Timeframe::M5 => 5,
        Timeframe::M6 => 6,
        Timeframe::M10 => 10,
        Timeframe::M12 => 12,
        Timeframe::M15 => 15,
        Timeframe::M20 => 20,
        Timeframe::M30 => 30,
        Timeframe::H1 => 60,
        Timeframe::H2 => 120,
        Timeframe::H3 => 180,
        Timeframe::H4 => 240,
        Timeframe::H6 => 360,
        Timeframe::H8 => 480,
        Timeframe::H12 => 720,
        Timeframe::D1 => 1440,
        Timeframe::W1 => 10080,
        Timeframe::Mn1 => 43200,
    }
}


/// The MetaTrader name of a candle period (`M5`, `H1`, `MN1`, ...).
pub open spec fn name_of(tf: Timeframe) -> Seq<char> {
    match tf {
        Timeframe::M1 => "M1"@,
        Timeframe::M2 => "M2"@,
        Timeframe::M3 => "M3"@,
        Timeframe::M4 => "M4"@,
        Timeframe::M5 => "M5"@,
        Timeframe::M6 => "M6"@,
        Timeframe::M10 => "M10"@,
        Timeframe::M12 => "M12"@,
        Timeframe::M15 => "M15"@,
        Timeframe::M20 => "M20"@,
        Timeframe::M30 => "M30"@,
        Timeframe::H1 => "H1"@,
        Timeframe::H2 => "H2"@,
        Timeframe::H3 => "H3"@,
        Timeframe::H4 => "H4"@,
        Timeframe::H6 => "H6"@,
        Timeframe::H8 => "H8"@,
        Timeframe::H12 => "H12"@,
        Timeframe::D1 => "D1"@,
        Timeframe::W1 => "W1"@,
        Timeframe::Mn1 => "MN1"@,
    }
}

impl Timeframe {
    /// The MetaTrader name of the period.
    pub fn name(&self) -> (r: &'static str)
        ensures
            r@ == name_of(*self),
    {
        match self {
        Timeframe::M1 => "M1",
        Timeframe::M2 => "M2",
        Timeframe::M3 => "M3",
        Timeframe::M4 => "M4",
        Timeframe::M5 => "M5",
        Timeframe::M6 => "M6",
        Timeframe::M10 => "M10",
        Timeframe::M12 => "M12",
        Timeframe::M15 => "M15",
        Timeframe::M20 => "M20",
        Timeframe::M30 => "M30",
        Timeframe::H1 => "H1",
        Timeframe::H2 => "H2",
        Timeframe::H3 => "H3",
        Timeframe::H4 => "H4",
        Timeframe::H6 => "H6",
        Timeframe::H8 => "H8",
        Timeframe::H12 => "H12",
        Timeframe::D1 => "D1",
        Timeframe::W1 => "W1",
        Timeframe::Mn1 => "MN1",
        }
    }

    /// The period a MetaTrader name stands for (`M5`, `H1`, `MN1`, ...);
    /// `None` for any other text.
    pub fn from_name(s: &str) -> (r: Option<Timeframe>)
        ensures
            r matches Some(tf) ==> name_of(tf) == s@,
            r is None ==> forall|tf: Timeframe| name_of(tf) != s@,
    {
        if str_eq(s, "M1") {
            return Some(Timeframe::M1);
        }
        if str_eq(s, "M2") {
            return Some(Timeframe::M2);
        }
        if str_eq(s, "M3") {
            return Some(Timeframe::M3);
        }
        if str_eq(s, "M4") {
            return Some(Timeframe::M4);
        }
        if str_eq(s, "M5") {
            return Some(Timeframe::M5);
        }
        if str_eq(s, "M6") {
            return Some(Timeframe::M6);
        }
        if str_eq(s, "M10") {
            return Some(Timeframe::M10);
        }
        if str_eq(s, "M12") {
            return Some(Timeframe::M12);
        }
        if str_eq(s, "M15") {
            return Some(Timeframe::M15);
        }
        if str_eq(s, "M20") {
            return Some(Timeframe::M20);
        }
        if str_eq(s, "M30") {
            return Some(Timeframe::M30);
        }
        if str_eq(s, "H1") {
            return Some(Timeframe::H1);
        }
        if str_eq(s, "H2") {
            return Some(Timeframe::H2);
        }
        if str_eq(s, "H3") {
            return Some(Timeframe::H3);
        }
        if str_eq(s, "H4") {
            return Some(Timeframe::H4);
        }
        if str_eq(s, "H6") {
            return Some(Timeframe::H6);
        }
        if str_eq(s, "H8") {
            return Some(Timeframe::H8);
        }
        if str_eq(s, "H12") {
            return Some(Timeframe::H12);
        }
        if str_eq(s, "D1") {
            return Some(Timeframe::D1);
        }
        if str_eq(s, "W1") {
            return Some(Timeframe::W1);
        }
        if str_eq(s, "MN1") {
            return Some(Timeframe::Mn1);
        }
        None
    }
}


/// A number that tells the names apart: their length and first three
/// characters.
spec fn name_key(s: Seq<char>) -> int {
    s.len() * 1000000 + (s[0] as int) * 10000 + (s[1] as int) * 100 + if s.len() > 2 {
        s[2] as int
    } else {
        0
    }
}

spec fn key_of(tf: Timeframe) -> int {
    match tf {
        Timeframe::M1 => 2774900,
        Timeframe::M2 => 2775000,
        Timeframe::M3 => 2775100,
        Timeframe::M4 => 2775200,
        Timeframe::M5 => 2775300,
        Timeframe::M6 => 2775400,
        Timeframe::M10 => 3774948,
        Timeframe::M12 => 3774950,
        Timeframe::M15 => 3774953,
        Timeframe::M20 => 3775048,
        Timeframe::M30 => 3775148,
        Timeframe::H1 => 2724900,
        Timeframe::H2 => 2725000,
        Timeframe::H3 => 2725100,
        Timeframe::H4 => 2725200,
        Timeframe::H6 => 2725400,
        Timeframe::H8 => 2725600,
        Timeframe::H12 => 3724950,
        Timeframe::D1 => 2684900,
        Timeframe::W1 => 2874900,
        Timeframe::Mn1 => 3777849,
    }
}

proof fn lemma_name_key(tf: Timeframe)
    ensures
        name_key(name_of(tf)) == key_of(tf),
{
    reveal_strlit("M1");
    reveal_strlit("M2");
    reveal_strlit("M3");
    reveal_strlit("M4");
    reveal_strlit("M5");
    reveal_strlit("M6");
    reveal_strlit("M10");
    reveal_strlit("M12");
    reveal_strlit("M15");
    reveal_strlit("M20");
    reveal_strlit("M30");
    reveal_strlit("H1");
    reveal_strlit("H2");
    reveal_strlit("H3");
    reveal_strlit("H4");
    reveal_strlit("H6");
    reveal_strlit("H8");
    reveal_strlit("H12");
    reveal_strlit("D1");
    reveal_strlit("W1");
    reveal_strlit("MN1");
}

/// Each period has its own name, so `from_name` gives back the period of
/// any name that `name` writes.
pub proof fn lemma_timeframe_names_distinct(a: Timeframe, b: Timeframe)
    ensures
        name_of(a) == name_of(b) ==> a == b,
{
    lemma_name_key(a);
    lemma_name_key(b);
}

} // verus!
