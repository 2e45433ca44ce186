//! Settings from the environment.  Reading a variable is left to the caller;
//! each function here takes the text the variable held (an unset variable
//! reads as nothing), applies the default and turns the text into a value,
//! naming the offending key when the text is refused.

use crate::decimal::{dec_eq_spec, dec_parse_result, eq_dec, parse_dec, zero_v, Dec};
use crate::text::{is_ws, str_eq, trim, trim_end, trim_start, trim_ws};
use vstd::prelude::*;

verus! {

/// A setting whose text could not be read as a value of its kind.
#[derive(Clone, Debug)]
pub struct ConfigError {
    /// The variable at fault.
    pub key: String,
    /// The text it held (after the default was applied).
    pub text: String,
}

/// The text of a setting: the variable's text, or the default where the
/// variable is unset or empty.
pub open spec fn setting_text(raw: Seq<char>, default: Seq<char>) -> Seq<char> {
    if raw.len() == 0 {
        default
    } else {
        raw
    }
}

/// The text of a setting, the default where the variable is empty.
pub fn env_str(raw: &str, default: &str) -> (r: String)
    ensures
        r@ == setting_text(raw@, default@),
{
    if raw.is_empty() {
        String::from_str(default)
    } else {
        String::from_str(raw)
    }
}

/// An ASCII decimal digit.
pub open spec fn is_digit(c: char) -> bool {
    '0' <= c <= '9'
}

/// The number written by a string of decimal digits.
pub open spec fn digits_value(s: Seq<char>) -> int
    decreases s.len(),
{
    if s.len() == 0 {
        0
    } else {
        digits_value(s.drop_last()) * 10 + (s.last() as int - '0' as int)
    }
}

/// The digits of an unsigned integer text: the text without one leading `+`.
pub open spec fn uint_digits(s: Seq<char>) -> Seq<char> {
    if s.len() > 0 && s[0] == '+' {
        s.subrange(1, s.len() as int)
    } else {
        s
    }
}

/// Whether a text is an unsigned integer as `str::parse` reads one: an
/// optional `+` followed by one or more ASCII digits and nothing else.
pub open spec fn uint_text_ok(s: Seq<char>) -> bool {
    let d = uint_digits(s);
    d.len() > 0 && forall|i: int| 0 <= i < d.len() ==> is_digit(#[trigger] d[i])
}

/// The number an unsigned integer text writes.
pub open spec fn uint_value(s: Seq<char>) -> int {
    digits_value(uint_digits(s))
}

/// A string of digits writes a non-negative number, and a prefix of it a
/// number no larger.
proof fn lemma_digits_prefix(s: Seq<char>, j: int)
    requires
        0 <= j <= s.len(),
        forall|i: int| 0 <= i < s.len() ==> is_digit(#[trigger] s[i]),
    ensures
        0 <= digits_value(s.subrange(0, j)) <= digits_value(s),
    decreases s.len(),
{
    if j < s.len() {
        lemma_digits_prefix(s.drop_last(), j);
        assert(s.drop_last().subrange(0, j) =~= s.subrange(0, j));
        assert(is_digit(s[s.len() - 1]));
    } else {
        assert(s.subrange(0, j) =~= s);
        if s.len() > 0 {
            lemma_digits_prefix(s.drop_last(), j - 1);
            assert(s.drop_last().subrange(0, j - 1) =~= s.drop_last());
            assert(is_digit(s[s.len() - 1]));
        }
    }
}

/// Reads an unsigned integer no larger than `max`; `None` where the text is
/// not an unsigned integer or writes a larger number.
fn parse_uint(s: &str, max: u64) -> (r: Option<u64>)
    requires
        max >= 9,
    ensures
        r is Some <==> uint_text_ok(s@) && uint_value(s@) <= max,
        r matches Some(v) ==> v == uint_value(s@),
{
    let n = s.unicode_len();
    let start: usize = if n > 0 && s.get_char(0) == '+' {
        1
    } else {
        0
    };
    let ghost d = uint_digits(s@);
    assert(d =~= s@.subrange(start as int, n as int));
    if start == n {
        return None;
    }
    let mut acc: u64 = 0;
    let mut i: usize = start;
    while i < n
        invariant
            start <= i <= n == s@.len(),
            d == s@.subrange(start as int, n as int),
            d == uint_digits(s@),
            forall|k: int| 0 <= k < i - start ==> is_digit(#[trigger] d[k]),
            acc == digits_value(d.subrange(0, i - start)),
            acc <= max,
            max >= 9,
        decreases n - i,
    {
        let c = s.get_char(i);
        assert(d[i - start] == c);
        if !('0' <= c && c <= '9') {
            assert(!is_digit(d[i - start]));
            return None;
        }
        let v: u64 = (c as u32 - '0' as u32) as u64;
        assert(d.subrange(0, i + 1 - start).drop_last() =~= d.subrange(0, i - start));
        assert(d.subrange(0, i + 1 - start).last() == c);
        if acc > (max - v) / 10 {
            proof {
                if uint_text_ok(s@) {
                    lemma_digits_prefix(d, i + 1 - start);
                }
            }
            return None;
        }
        acc = acc * 10 + v;
        i = i + 1;
    }
    assert(d.subrange(0, n - start) =~= d);
    Some(acc)
}

/// An integer setting (`usize`), read with its default; the error names the
/// key.
pub fn env_usize(key: &str, raw: &str, default: &str) -> (r: Result<usize, ConfigError>)
    ensures
        ({
            let t = setting_text(raw@, default@);
            match r {
                Ok(v) => uint_text_ok(t) && uint_value(t) <= usize::MAX && v == uint_value(t),
                Err(e) => !(uint_text_ok(t) && uint_value(t) <= usize::MAX) && e.key@ == key@
                    && e.text@ == t,
            }
        }),
{
    let text = env_str(raw, default);
    match parse_uint(text.as_str(), usize::MAX as u64) {
        Some(v) => Ok(v as usize),
        None => Err(ConfigError { key: String::from_str(key), text }),
    }
}

/// An integer setting (`u32`), read with its default; the error names the
/// key.
pub fn env_u32(key: &str, raw: &str, default: &str) -> (r: Result<u32, ConfigError>)
    ensures
        ({
            let t = setting_text(raw@, default@);
            match r {
                Ok(v) => uint_text_ok(t) && uint_value(t) <= u32::MAX && v == uint_value(t),
                Err(e) => !(uint_text_ok(t) && uint_value(t) <= u32::MAX) && e.key@ == key@
                    && e.text@ == t,
            }
        }),
{
    let text = env_str(raw, default);
    match parse_uint(text.as_str(), u32::MAX as u64) {
        Some(v) => Ok(v as u32),
        None => Err(ConfigError { key: String::from_str(key), text }),
    }
}

/// An integer setting (`u64`), read with its default; the error names the
/// key.
pub fn env_u64(key: &str, raw: &str, default: &str) -> (r: Result<u64, ConfigError>)
    ensures
        ({
            let t = setting_text(raw@, default@);
            match r {
                Ok(v) => uint_text_ok(t) && uint_value(t) <= u64::MAX && v == uint_value(t),
                Err(e) => !(uint_text_ok(t) && uint_value(t) <= u64::MAX) && e.key@ == key@
                    && e.text@ == t,
            }
        }),
{
    let text = env_str(raw, default);
    match parse_uint(text.as_str(), u64::MAX) {
        Some(v) => Ok(v),
        None => Err(ConfigError { key: String::from_str(key), text }),
    }
}


/// A decimal setting, read with its default as `str::parse::<Decimal>` reads
/// it; the error names the key.
pub fn env_dec(key: &str, raw: &str, default: &str) -> (r: Result<Dec, ConfigError>)
    ensures
        ({
            let t = setting_text(raw@, default@);
            match r {
                Ok(v) => dec_parse_result(t) == Some(v@),
                Err(e) => dec_parse_result(t) is None && e.key@ == key@ && e.text@ == t,
            }
        }),
{
    let text = env_str(raw, default);
    match parse_dec(text.as_str()) {
        Some(v) => Ok(v),
        None => Err(ConfigError { key: String::from_str(key), text }),
    }
}

/// The day number (as `Datelike::num_days_from_ce` counts days) of the date
/// that `str::parse::<chrono::NaiveDate>` reads from a text; `None` where
/// the text is refused.
pub uninterp spec fn date_parse_result(s: Seq<char>) -> Option<int>;

/// `str::parse::<chrono::NaiveDate>`, the date given by its day number
/// (`num_days_from_ce`).  Which texts it takes, and the day they name, are
/// left to the name.
#[verifier::external_body]
fn parse_date(s: &str) -> (r: Option<i32>)
    ensures
        match r {
            Some(d) => date_parse_result(s@) == Some(d as int),
            None => date_parse_result(s@) is None,
        },
{
    match s.parse::<chrono::NaiveDate>() {
        Ok(d) => Some(chrono::Datelike::num_days_from_ce(&d)),
        Err(_) => None,
    }
}

/// An optional date setting (`YYYY-MM-DD`), as a day number counted as
/// `num_days_from_ce` counts; an unset or empty variable gives `None`.
pub fn env_date(key: &str, raw: &str) -> (r: Result<Option<i64>, ConfigError>)
    ensures
        raw@.len() == 0 ==> r == Ok::<Option<i64>, ConfigError>(None),
        raw@.len() > 0 ==> match r {
            Ok(Some(d)) => date_parse_result(raw@) == Some(d as int),
            Ok(None) => false,
            Err(e) => date_parse_result(raw@) is None && e.key@ == key@ && e.text@ == raw@,
        },
{
    if raw.is_empty() {
        return Ok(None);
    }
    match parse_date(raw) {
        Some(d) => Ok(Some(d as i64)),
        None => Err(ConfigError { key: String::from_str(key), text: String::from_str(raw) }),
    }
}

/// The spread override in price units.  An unset or empty variable, or
/// any value equal to zero (`0`, `0.0`, ...), means none: the live spread is
/// used.  Any other text must be a decimal (the error names
/// `SPREAD_OVERRIDE`).
pub fn env_spread_override(raw: &str) -> (r: Result<Option<Dec>, ConfigError>)
    ensures
        raw@.len() == 0 ==> r == Ok::<Option<Dec>, ConfigError>(None),
        raw@.len() > 0 ==> match r {
            Ok(Some(v)) => dec_parse_result(raw@) == Some(v@) && !dec_eq_spec(v@, zero_v()),
            Ok(None) => dec_parse_result(raw@) matches Some(v) && dec_eq_spec(v, zero_v()),
            Err(e) => dec_parse_result(raw@) is None && e.key@ == "SPREAD_OVERRIDE"@ && e.text@ == raw@,
        },
{
    if raw.is_empty() {
        return Ok(None);
    }
    match parse_dec(raw) {
        Some(v) => if eq_dec(v, Dec::zero()) {
            Ok(None)
        } else {
            Ok(Some(v))
        },
        None => Err(
            ConfigError { key: String::from_str("SPREAD_OVERRIDE"), text: String::from_str(raw) },
        ),
    }
}

/// The live switch: on where the variable reads `true` or `1`.
pub fn live_flag(raw: &str) -> (r: bool)
    ensures
        r == (raw@ == "true"@ || raw@ == "1"@),
{
    str_eq(raw, "true") || str_eq(raw, "1")
}


/// The pieces of a text between commas (one piece more than commas).
pub open spec fn comma_pieces(s: Seq<char>) -> Seq<Seq<char>>
    decreases s.len(),
{
    if s.len() == 0 {
        seq![Seq::<char>::empty()]
    } else {
        let prev = comma_pieces(s.drop_last());
        if s.last() == ',' {
            prev.push(Seq::<char>::empty())
        } else {
            prev.update(prev.len() - 1, prev.last().push(s.last()))
        }
    }
}

/// The non-empty texts of a list, in order.
pub open spec fn non_empty(ps: Seq<Seq<char>>) -> Seq<Seq<char>>
    decreases ps.len(),
{
    if ps.len() == 0 {
        Seq::<Seq<char>>::empty()
    } else if ps.last().len() > 0 {
        non_empty(ps.drop_last()).push(ps.last())
    } else {
        non_empty(ps.drop_last())
    }
}

/// The symbols of a comma-separated list: each piece trimmed of
/// whitespace, empty ones dropped.
pub open spec fn symbol_list(s: Seq<char>) -> Seq<Seq<char>> {
    non_empty(comma_pieces(s).map_values(|p: Seq<char>| trim_ws(p)))
}

/// The texts of a list of strings.
pub open spec fn texts(v: Seq<String>) -> Seq<Seq<char>> {
    v.map_values(|x: String| x@)
}

/// Appends a trimmed piece when it is not empty.
fn push_trimmed(out: &mut Vec<String>, piece: &str)
    ensures
        texts(final(out)@) == if trim_ws(piece@).len() > 0 {
            texts(old(out)@).push(trim_ws(piece@))
        } else {
            texts(old(out)@)
        },
{
    let t = trim(piece);
    if !t.is_empty() {
        out.push(String::from_str(t));
        assert(texts(out@) =~= texts(old(out)@).push(trim_ws(piece@)));
    }
}

/// The symbols of a `SYMBOLS` list such as `XAUUSDm, XAGUSDm`: split at
/// commas, trimmed, empty entries dropped.
pub fn parse_symbols(list: &str) -> (r: Vec<String>)
    ensures
        texts(r@) == symbol_list(list@),
{
    let n = list.unicode_len();
    let mut out: Vec<String> = Vec::new();
    let mut start: usize = 0;
    let mut i: usize = 0;
    let ghost mut done: Seq<Seq<char>> = Seq::empty();
    assert(list@.subrange(0, 0) =~= Seq::<char>::empty());
    assert(done.push(list@.subrange(0, 0)) =~= seq![Seq::<char>::empty()]);
    while i < n
        invariant
            start <= i <= n == list@.len(),
            comma_pieces(list@.subrange(0, i as int)) == done.push(list@.subrange(start as int, i as int)),
            texts(out@) == non_empty(done.map_values(|p: Seq<char>| trim_ws(p))),
        decreases n - i,
    {
        let c = list.get_char(i);
        let ghost pre = list@.subrange(0, i as int);
        let ghost cur = list@.subrange(start as int, i as int);
        assert(list@.subrange(0, i + 1).drop_last() =~= pre);
        assert(list@.subrange(0, i + 1).last() == c);
        if c == ',' {
            let piece = list.substring_char(start, i);
            push_trimmed(&mut out, piece);
            proof {
                let m = done.push(cur).map_values(|p: Seq<char>| trim_ws(p));
                assert(m.drop_last() =~= done.map_values(|p: Seq<char>| trim_ws(p)));
                done = done.push(cur);
                assert(list@.subrange(i + 1, i + 1) =~= Seq::<char>::empty());
            }
            start = i + 1;
        } else {
            assert(cur.push(c) =~= list@.subrange(start as int, i + 1));
            assert(done.push(cur).update(done.len() as int, cur.push(c)) =~= done.push(cur.push(c)));
        }
        i = i + 1;
    }
    let piece = list.substring_char(start, n);
    push_trimmed(&mut out, piece);
    proof {
        assert(list@.subrange(0, n as int) =~= list@);
        let m = done.push(piece@).map_values(|p: Seq<char>| trim_ws(p));
        assert(m.drop_last() =~= done.map_values(|p: Seq<char>| trim_ws(p)));
    }
    out
}


/// Whether a text holds no comma.
pub open spec fn comma_free(p: Seq<char>) -> bool {
    forall|k: int| 0 <= k < p.len() ==> p[k] != ','
}

proof fn lemma_pieces_comma_free(s: Seq<char>)
    ensures
        comma_pieces(s).len() >= 1,
        forall|j: int| 0 <= j < comma_pieces(s).len() ==> comma_free(#[trigger] comma_pieces(s)[j]),
    decreases s.len(),
{
    if s.len() > 0 {
        lemma_pieces_comma_free(s.drop_last());
        let prev = comma_pieces(s.drop_last());
        if s.last() != ',' {
            let last = prev.last().push(s.last());
            assert(comma_free(prev[prev.len() - 1]));
            assert(comma_free(last));
        }
    }
}

proof fn lemma_trim_start_shape(p: Seq<char>)
    ensures
        exists|a: int| 0 <= a <= p.len() && trim_start(p) == p.subrange(a, p.len() as int),
        trim_start(p).len() == 0 || !is_ws(trim_start(p)[0]),
    decreases p.len(),
{
    if p.len() > 0 && is_ws(p[0]) {
        lemma_trim_start_shape(p.drop_first());
        let a = choose|a: int| 0 <= a <= p.drop_first().len() && trim_start(p.drop_first()) == p.drop_first().subrange(a, p.drop_first().len() as int);
        assert(p.drop_first().subrange(a, p.drop_first().len() as int) =~= p.subrange(a + 1, p.len() as int));
    } else {
        assert(p.subrange(0, p.len() as int) =~= p);
    }
}

proof fn lemma_trim_end_shape(q: Seq<char>)
    ensures
        exists|b: int| 0 <= b <= q.len() && trim_end(q) == q.subrange(0, b),
        trim_end(q).len() == 0 || !is_ws(trim_end(q).last()),
        trim_end(q).len() > 0 ==> trim_end(q)[0] == q[0],
    decreases q.len(),
{
    if q.len() > 0 && is_ws(q.last()) {
        lemma_trim_end_shape(q.drop_last());
        let b = choose|b: int| 0 <= b <= q.drop_last().len() && trim_end(q.drop_last()) == q.drop_last().subrange(0, b);
        assert(q.drop_last().subrange(0, b) =~= q.subrange(0, b));
    } else {
        assert(q.subrange(0, q.len() as int) =~= q);
    }
}

/// A trimmed text is a part of the text and neither begins nor ends with
/// whitespace.
proof fn lemma_trim_shape(p: Seq<char>)
    ensures
        exists|a: int, b: int| 0 <= a <= b <= p.len() && trim_ws(p) == p.subrange(a, b),
        trim_ws(p).len() > 0 ==> !is_ws(trim_ws(p)[0]) && !is_ws(trim_ws(p).last()),
{
    lemma_trim_start_shape(p);
    let t = trim_start(p);
    let a = choose|a: int| 0 <= a <= p.len() && t == p.subrange(a, p.len() as int);
    lemma_trim_end_shape(t);
    let b = choose|b: int| 0 <= b <= t.len() && trim_end(t) == t.subrange(0, b);
    assert(t.subrange(0, b) =~= p.subrange(a, a + b));
}

proof fn lemma_non_empty_from(ps: Seq<Seq<char>>)
    ensures
        forall|i: int| 0 <= i < non_empty(ps).len() ==> #[trigger] non_empty(ps)[i].len() > 0
            && exists|j: int| 0 <= j < ps.len() && ps[j] == non_empty(ps)[i],
    decreases ps.len(),
{
    if ps.len() > 0 {
        lemma_non_empty_from(ps.drop_last());
        let prev = non_empty(ps.drop_last());
        assert forall|i: int| 0 <= i < non_empty(ps).len() implies #[trigger] non_empty(ps)[i].len() > 0
            && exists|j: int| 0 <= j < ps.len() && ps[j] == non_empty(ps)[i] by {
            if i < prev.len() {
                let j = choose|j: int| 0 <= j < ps.drop_last().len() && ps.drop_last()[j] == prev[i];
                assert(ps[j] == non_empty(ps)[i]);
            } else {
                assert(ps[ps.len() - 1] == non_empty(ps)[i]);
            }
        }
    }
}

/// Each symbol that `parse_symbols` lists is non-empty, holds no comma, and
/// neither begins nor ends with whitespace.
pub proof fn lemma_symbol_entries(s: Seq<char>)
    ensures
        forall|i: int| 0 <= i < symbol_list(s).len() ==> {
            let e = #[trigger] symbol_list(s)[i];
            &&& e.len() > 0
            &&& comma_free(e)
            &&& !is_ws(e[0])
            &&& !is_ws(e.last())
        },
{
    let pieces = comma_pieces(s);
    let trimmed = pieces.map_values(|p: Seq<char>| trim_ws(p));
    lemma_pieces_comma_free(s);
    lemma_non_empty_from(trimmed);
    assert(trimmed =~= comma_pieces(s).map_values(|p: Seq<char>| trim_ws(p)));
    assert(symbol_list(s) == non_empty(trimmed));
    assert forall|i: int| 0 <= i < symbol_list(s).len() implies {
        let e = #[trigger] symbol_list(s)[i];
        &&& e.len() > 0
        &&& comma_free(e)
        &&& !is_ws(e[0])
        &&& !is_ws(e.last())
    } by {
        let e = symbol_list(s)[i];
        assert(non_empty(trimmed)[i].len() > 0);
        let j = choose|j: int| 0 <= j < trimmed.len() && trimmed[j] == e;
        assert(trimmed.len() == pieces.len());
        let p = pieces[j];
        assert(comma_free(comma_pieces(s)[j]));
        assert(trimmed[j] == trim_ws(p));
        lemma_trim_shape(p);
        let (a, b) = choose|a: int, b: int| 0 <= a <= b <= p.len() && trim_ws(p) == p.subrange(a, b);
        assert forall|k: int| 0 <= k < e.len() implies e[k] != ',' by {
            assert(e[k] == p[a + k]);
        }
    }
}

} // verus!
