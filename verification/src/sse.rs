//! The position event stream of the bridge (server-sent events): reading
//! the received text line by line, `event:` / `data:` lines into events,
//! and deciding what an event about a position calls for.

use crate::decimal::{dec_le_spec, le_dec, zero_v, Dec};
use crate::live::MAGIC;
use crate::text::{str_eq, trim, trim_ws};
use vstd::prelude::*;

verus! {

/// A text without its trailing carriage returns (`trim_end_matches('\r')`).
pub open spec fn trim_cr(s: Seq<char>) -> Seq<char>
    decreases s.len(),
{
    if s.len() > 0 && s.last() == '\r' {
        trim_cr(s.drop_last())
    } else {
        s
    }
}

/// Whether `s` begins with `prefix`.
pub open spec fn starts_with(s: Seq<char>, prefix: Seq<char>) -> bool {
    prefix.len() <= s.len() && s.subrange(0, prefix.len() as int) == prefix
}

fn starts_with_exec(s: &str, prefix: &str) -> (r: bool)
    ensures
        r == starts_with(s@, prefix@),
{
    let m = prefix.unicode_len();
    if m > s.unicode_len() {
        return false;
    }
    str_eq(s.substring_char(0, m), prefix)
}

/// How one line changes the pending event type, and the data it delivers:
/// `event:` sets the type; `data:` under a type delivers its text and clears
/// the type; an empty line clears it; any other line changes nothing.
/// Types and data are trimmed of whitespace.
pub open spec fn sse_step(event: Seq<char>, line: Seq<char>) -> (Seq<char>, Option<Seq<char>>) {
    if starts_with(line, "event:"@) {
        (trim_ws(line.subrange(6, line.len() as int)), None)
    } else if starts_with(line, "data:"@) && event.len() > 0 {
        (Seq::<char>::empty(), Some(trim_ws(line.subrange(5, line.len() as int))))
    } else if line.len() == 0 {
        (Seq::<char>::empty(), None)
    } else {
        (event, None)
    }
}

/// Reads one line of the stream (`sse_step`): updates the pending event
/// type and returns the data of a complete event, to be handled under the
/// type pending before the line.
pub fn sse_line(event: &mut String, line: &str) -> (r: Option<String>)
    ensures
        final(event)@ == sse_step(old(event)@, line@).0,
        match r {
            Some(d) => sse_step(old(event)@, line@).1 == Some(d@),
            None => sse_step(old(event)@, line@).1 is None,
        },
{
    proof {
        reveal_strlit("event:");
        reveal_strlit("data:");
    }
    let n = line.unicode_len();
    if starts_with_exec(line, "event:") {
        *event = String::from_str(trim(line.substring_char(6, n)));
        None
    } else if starts_with_exec(line, "data:") && !event.as_str().is_empty() {
        *event = String::new();
        Some(String::from_str(trim(line.substring_char(5, n))))
    } else if n == 0 {
        *event = String::new();
        None
    } else {
        None
    }
}

/// An open or closed position as the stream reports it.  `pos_type` is 0
/// for a buy and 1 for a sell.
#[derive(Clone, Debug)]
pub struct SsePosition {
    pub ticket: u64,
    pub symbol: String,
    pub pos_type: u32,
    pub volume: Dec,
    pub price_open: Dec,
    pub price_current: Option<Dec>,
    pub sl: Dec,
    pub tp: Dec,
    pub profit: Dec,
    pub magic: u64,
}

/// What a stream event calls for.
#[derive(Clone, Copy, Debug, PartialEq, Eq, Structural)]
pub enum SseAction {
    /// Not about the bot's position on this symbol, or of another type.
    Ignore,
    /// The pending order filled: record the position and announce it.
    Opened,
    /// The position's stop or target changed: record and announce them.
    Modified,
    /// The position closed: announce the result and the day's summary.
    Closed,
}

/// The decision on an event: only positions of the bot (its magic number)
/// on the watched symbol count, and only the types `position_opened`,
/// `position_modified` and `position_closed`.
pub open spec fn sse_action_of(event: Seq<char>, magic: u64, pos_symbol: Seq<char>, symbol: Seq<char>) -> SseAction {
    if magic != MAGIC || pos_symbol != symbol {
        SseAction::Ignore
    } else if event == "position_opened"@ {
        SseAction::Opened
    } else if event == "position_modified"@ {
        SseAction::Modified
    } else if event == "position_closed"@ {
        SseAction::Closed
    } else {
        SseAction::Ignore
    }
}

/// What the event `event_type` about `pos` calls for on `symbol`.
pub fn sse_action(event_type: &str, pos: &SsePosition, symbol: &str) -> (r: SseAction)
    ensures
        r == sse_action_of(event_type@, pos.magic, pos.symbol@, symbol@),
{
    if pos.magic != MAGIC || !str_eq(pos.symbol.as_str(), symbol) {
        SseAction::Ignore
    } else if str_eq(event_type, "position_opened") {
        SseAction::Opened
    } else if str_eq(event_type, "position_modified") {
        SseAction::Modified
    } else if str_eq(event_type, "position_closed") {
        SseAction::Closed
    } else {
        SseAction::Ignore
    }
}

/// Whether a closed position is announced as a target hit: a profit of at
/// least zero (a loss is announced as a stop hit).
pub fn closed_at_target(profit: Dec) -> (r: bool)
    ensures
        r == dec_le_spec(zero_v(), profit@),
{
    le_dec(Dec::zero(), profit)
}


/// The state of a stream reader: the incomplete line received so far, the
/// pending event type, and the events delivered, as `(type, data)`.
pub struct ScanView {
    pub cur: Seq<char>,
    pub event: Seq<char>,
    pub out: Seq<(Seq<char>, Seq<char>)>,
}

/// Reads one received character: a line feed ends the current line, which
/// (without its trailing carriage returns) goes through `sse_step`; a
/// delivered data text is logged under the event type pending before the
/// line.  Any other character extends the current line.
pub open spec fn scan_char(st: ScanView, c: char) -> ScanView {
    if c == '\n' {
        let (event, data) = sse_step(st.event, trim_cr(st.cur));
        ScanView {
            cur: Seq::<char>::empty(),
            event,
            out: match data {
                Some(d) => st.out.push((st.event, d)),
                None => st.out,
            },
        }
    } else {
        ScanView { cur: st.cur.push(c), ..st }
    }
}

/// Reads received text character by character.
pub open spec fn scan(st: ScanView, text: Seq<char>) -> ScanView
    decreases text.len(),
{
    if text.len() == 0 {
        st
    } else {
        scan_char(scan(st, text.drop_last()), text.last())
    }
}

proof fn lemma_scan_append(st: ScanView, a: Seq<char>, b: Seq<char>)
    ensures
        scan(st, a + b) == scan(scan(st, a), b),
    decreases b.len(),
{
    if b.len() == 0 {
        assert(a + b =~= a);
    } else {
        lemma_scan_append(st, a, b.drop_last());
        assert((a + b).drop_last() =~= a + b.drop_last());
        assert((a + b).last() == b.last());
    }
}

proof fn lemma_scan_out(st: ScanView, text: Seq<char>)
    ensures
        scan(st, text).out == st.out + scan(ScanView { out: Seq::empty(), ..st }, text).out,
        scan(st, text).cur == scan(ScanView { out: Seq::empty(), ..st }, text).cur,
        scan(st, text).event == scan(ScanView { out: Seq::empty(), ..st }, text).event,
    decreases text.len(),
{
    if text.len() == 0 {
        assert(st.out + Seq::<(Seq<char>, Seq<char>)>::empty() =~= st.out);
    } else {
        lemma_scan_out(st, text.drop_last());
        let p = scan(st, text.drop_last());
        let q = scan(ScanView { out: Seq::empty(), ..st }, text.drop_last());
        if text.last() == '\n' {
            let (event, data) = sse_step(p.event, trim_cr(p.cur));
            if let Some(d) = data {
                assert(p.out.push((p.event, d)) =~= st.out + q.out.push((q.event, d)));
            }
        }
    }
}

/// The chunks of a body put back together.
pub open spec fn concat_all(chunks: Seq<Seq<char>>) -> Seq<char>
    decreases chunks.len(),
{
    if chunks.len() == 0 {
        Seq::<char>::empty()
    } else {
        concat_all(chunks.drop_last()) + chunks.last()
    }
}

/// Reading chunks one after the other, each by a call that starts with no
/// delivered events (as `SseReader::feed` does): the state the last call
/// leaves, with all the calls' events in order.
pub open spec fn feed_all(st: ScanView, chunks: Seq<Seq<char>>) -> ScanView
    decreases chunks.len(),
{
    if chunks.len() == 0 {
        st
    } else {
        let p = feed_all(st, chunks.drop_last());
        let q = scan(ScanView { cur: p.cur, event: p.event, out: Seq::empty() }, chunks.last());
        ScanView { cur: q.cur, event: q.event, out: p.out + q.out }
    }
}

/// However the stream's body is cut into any number of chunks, reading
/// them one after the other delivers the same events in the same order,
/// and ends in the same state, as reading the whole body at once.
pub proof fn lemma_any_chunking(st: ScanView, chunks: Seq<Seq<char>>)
    ensures
        feed_all(st, chunks) == scan(st, concat_all(chunks)),
    decreases chunks.len(),
{
    if chunks.len() > 0 {
        lemma_any_chunking(st, chunks.drop_last());
        let p = feed_all(st, chunks.drop_last());
        lemma_scan_append(st, concat_all(chunks.drop_last()), chunks.last());
        lemma_scan_out(p, chunks.last());
        assert(ScanView { out: Seq::empty(), ..p } == ScanView { cur: p.cur, event: p.event, out: Seq::<(Seq<char>, Seq<char>)>::empty() });
        let w = scan(p, chunks.last());
        let f = feed_all(st, chunks);
        assert(f.out =~= w.out);
    }
}

/// A text without its trailing carriage returns.
fn strip_cr(s: &str) -> (r: &str)
    ensures
        r@ == trim_cr(s@),
{
    let mut e: usize = s.unicode_len();
    assert(s@.subrange(0, e as int) =~= s@);
    while e > 0 && s.get_char(e - 1) == '\r'
        invariant
            e <= s@.len(),
            trim_cr(s@) == trim_cr(s@.subrange(0, e as int)),
        decreases e,
    {
        assert(s@.subrange(0, e as int).drop_last() =~= s@.subrange(0, e - 1));
        e = e - 1;
    }
    s.substring_char(0, e)
}

/// A reader of the position event stream.
pub struct SseReader {
    buf: String,
    event: String,
}

/// The events as plain texts.
pub open spec fn events_view(v: Seq<(String, String)>) -> Seq<(Seq<char>, Seq<char>)> {
    v.map_values(|p: (String, String)| (p.0@, p.1@))
}

impl SseReader {
    /// The current line received so far.
    pub closed spec fn cur(&self) -> Seq<char> {
        self.buf@
    }

    /// The pending event type.
    pub closed spec fn pending(&self) -> Seq<char> {
        self.event@
    }

    /// A reader before the first chunk.
    pub fn new() -> (r: SseReader)
        ensures
            r.cur() == Seq::<char>::empty(),
            r.pending() == Seq::<char>::empty(),
    {
        SseReader { buf: String::new(), event: String::new() }
    }

    /// Reads a received chunk (`scan`) and returns the events it completes,
    /// as `(type, data)`, in order.
    pub fn feed(&mut self, chunk: &str) -> (r: Vec<(String, String)>)
        ensures
            ({
                let st = scan(ScanView { cur: old(self).cur(), event: old(self).pending(), out: Seq::empty() }, chunk@);
                &&& final(self).cur() == st.cur
                &&& final(self).pending() == st.event
                &&& events_view(r@) == st.out
            }),
    {
        let ghost start = ScanView { cur: self.buf@, event: self.event@, out: Seq::empty() };
        let n = chunk.unicode_len();
        let mut out: Vec<(String, String)> = Vec::new();
        let mut from: usize = 0;
        let mut i: usize = 0;
        assert(chunk@.subrange(0, 0) =~= Seq::<char>::empty());
        assert(self.buf@ + chunk@.subrange(0, 0) =~= self.buf@);
        assert(events_view(out@) =~= Seq::<(Seq<char>, Seq<char>)>::empty());
        while i < n
            invariant
                from <= i <= n == chunk@.len(),
                scan(start, chunk@.subrange(0, i as int)) == (ScanView {
                    cur: self.buf@ + chunk@.subrange(from as int, i as int),
                    event: self.event@,
                    out: events_view(out@),
                }),
            decreases n - i,
        {
            let c = chunk.get_char(i);
            let ghost before = scan(start, chunk@.subrange(0, i as int));
            assert(chunk@.subrange(0, i + 1).drop_last() =~= chunk@.subrange(0, i as int));
            assert(chunk@.subrange(0, i + 1).last() == c);
            if c == '\n' {
                let piece = chunk.substring_char(from, i);
                let line_text = self.buf.clone().concat(piece);
                let line = strip_cr(line_text.as_str());
                let old_event = self.event.clone();
                let delivered = sse_line(&mut self.event, line);
                match delivered {
                    Some(d) => {
                        out.push((old_event, d));
                        assert(events_view(out@) =~= before.out.push((before.event, d@)));
                    },
                    None => {},
                }
                self.buf = String::new();
                from = i + 1;
                assert(chunk@.subrange(from as int, i + 1) =~= Seq::<char>::empty());
                assert(self.buf@ + chunk@.subrange(from as int, i + 1) =~= Seq::<char>::empty());
            } else {
                assert(self.buf@ + chunk@.subrange(from as int, i + 1) =~= (self.buf@ + chunk@.subrange(
                    from as int,
                    i as int,
                )).push(c));
            }
            i = i + 1;
        }
        let rest = chunk.substring_char(from, n);
        self.buf.append(rest);
        assert(chunk@.subrange(0, n as int) =~= chunk@);
        out
    }
}

} // verus!
