//! Silence detection: parsing the analyzer's diagnostic stream.
//!
//! The external loudness analyzer writes line-oriented events to its
//! diagnostic channel: `silence_start: <seconds>` when a silent span opens
//! and `silence_end: <seconds> | silence_duration: <seconds>` when it
//! closes. [`detect`] pairs those events in a single forward pass into a
//! chronological sequence of silence intervals, and rejects the whole
//! stream on the first malformed event.

use vstd::prelude::*;
use vstd::string::StringSliceAdditionalSpecFns;

use crate::numbers::spec_parse_ms;
use crate::numbers::parse_ms;
use crate::timeline::TimeRange;
use crate::timeline::chronological;

verus! {

pub const NEWLINE: u8 = 10;

pub const CARRIAGE_RETURN: u8 = 13;

pub const TAB: u8 = 9;

pub const SPACE: u8 = 32;

/// Why the analyzer stream was rejected.
#[derive(Clone, Copy, Debug, PartialEq, Eq, Structural)]
pub enum DetectionError {
    /// A `silence_start` event arrived while another start was pending.
    OverlappingStart,
    /// A `silence_end` event arrived with no start pending.
    EndWithoutStart,
    /// The stream ended with a start still pending.
    UnterminatedStart,
    /// A timestamp could not be read as decimal seconds.
    BadTimestamp,
    /// An event timestamp moved backwards, or an interval was empty.
    NonChronological,
}

/// The bytes of the marker that opens a silent span.
pub open spec fn start_marker() -> Seq<u8> {
    "silence_start:".spec_bytes()
}

/// The bytes of the marker that closes a silent span.
pub open spec fn end_marker() -> Seq<u8> {
    "silence_end:".spec_bytes()
}

/// `pat` occurs in `s` at position `i`.
pub open spec fn is_match_at(s: Seq<u8>, pat: Seq<u8>, i: int) -> bool {
    0 <= i && i + pat.len() <= s.len() && s.subrange(i, i + pat.len()) == pat
}

/// Position of the first occurrence of `pat` in `s`, if any.
pub open spec fn first_match(s: Seq<u8>, pat: Seq<u8>) -> Option<int>
    decreases s.len(),
{
    if s.len() < pat.len() {
        None
    } else if s.subrange(0, pat.len() as int) == pat {
        Some(0)
    } else if s.len() == 0 {
        // cannot happen: an empty pattern is a prefix of an empty text
        None
    } else {
        match first_match(s.drop_first(), pat) {
            None => None,
            Some(i) => Some(i + 1),
        }
    }
}

/// `first_match` finds the first occurrence, or there is none.
pub proof fn lemma_first_match(s: Seq<u8>, pat: Seq<u8>)
    ensures
        match first_match(s, pat) {
            Some(i) => is_match_at(s, pat, i) && forall|j: int|
                0 <= j < i ==> !is_match_at(s, pat, j),
            None => forall|j: int| !is_match_at(s, pat, j),
        },
    decreases s.len(),
{
    if s.len() < pat.len() {
    } else if s.subrange(0, pat.len() as int) == pat {
    } else if s.len() == 0 {
    } else {
        lemma_first_match(s.drop_first(), pat);
        assert forall|j: int| 1 <= j implies (is_match_at(s, pat, j) == is_match_at(
            s.drop_first(),
            pat,
            j - 1,
        )) by {
            assert(s.drop_first().len() == s.len() - 1);
            if j + pat.len() <= s.len() {
                assert(s.drop_first().subrange(j - 1, j - 1 + pat.len()) =~= s.subrange(
                    j,
                    j + pat.len(),
                ));
            }
        }
    }
}

/// Whitespace: a numeric token runs up to the next space, tab, carriage
/// return or newline, and leading whitespace before it is skipped.
pub open spec fn is_ws_byte(b: u8) -> bool {
    b == SPACE || b == TAB || b == CARRIAGE_RETURN || b == NEWLINE
}

/// Every byte of `s` is whitespace.
pub open spec fn all_ws(s: Seq<u8>) -> bool {
    forall|j: int| 0 <= j < s.len() ==> is_ws_byte(#[trigger] s[j])
}

/// `s` without its leading whitespace.
pub open spec fn skip_ws(s: Seq<u8>) -> Seq<u8>
    decreases s.len(),
{
    if s.len() > 0 && is_ws_byte(s[0]) {
        skip_ws(s.drop_first())
    } else {
        s
    }
}

/// The longest whitespace-free prefix of `s`.
pub open spec fn take_token(s: Seq<u8>) -> Seq<u8>
    decreases s.len(),
{
    if s.len() == 0 || is_ws_byte(s[0]) {
        Seq::<u8>::empty()
    } else {
        seq![s[0]] + take_token(s.drop_first())
    }
}

/// The timestamp text that follows position `from` in `line`: leading
/// whitespace skipped, then everything up to the next whitespace.
pub open spec fn token_at(line: Seq<u8>, from: int) -> Seq<u8> {
    take_token(skip_ws(line.skip(from)))
}

/// How one line of analyzer output reads.
#[derive(Clone, Copy, Debug, PartialEq, Eq)]
pub enum LineEvent {
    /// A `silence_start` line, with its timestamp in milliseconds if it
    /// parsed.
    Start(Option<u64>),
    /// A `silence_end` line, with its timestamp in milliseconds if it
    /// parsed.
    End(Option<u64>),
    /// Any other line.
    Plain,
}

/// Classify one line: a start-marker line, else an end-marker line, else
/// plain. The timestamp is the token after the first marker occurrence.
pub open spec fn classify_line(line: Seq<u8>) -> LineEvent {
    match first_match(line, start_marker()) {
        Some(i) => LineEvent::Start(spec_parse_ms(token_at(line, i + start_marker().len()))),
        None => match first_match(line, end_marker()) {
            Some(i) => LineEvent::End(spec_parse_ms(token_at(line, i + end_marker().len()))),
            None => LineEvent::Plain,
        },
    }
}

/// `s` split at newlines. The text after the last newline is a line too.
pub open spec fn lines_of(s: Seq<u8>) -> Seq<Seq<u8>>
    decreases s.len(),
{
    match crate::numbers::find_byte(s, NEWLINE) {
        None => seq![s],
        Some(i) => if 0 <= i < s.len() {
            seq![s.take(i)] + lines_of(s.skip(i + 1))
        } else {
            // cannot happen: a found position is in bounds
            seq![s]
        },
    }
}

/// Single forward pass over the classified lines, with at most one pending
/// start. `pending` is the open start timestamp, `acc` the intervals
/// emitted so far.
pub open spec fn pair_events(
    ls: Seq<Seq<u8>>,
    pending: Option<u64>,
    acc: Seq<TimeRange>,
) -> Result<Seq<TimeRange>, DetectionError>
    decreases ls.len(),
{
    if ls.len() == 0 {
        match pending {
            None => Ok(acc),
            Some(_) => Err(DetectionError::UnterminatedStart),
        }
    } else {
        match classify_line(ls[0]) {
            LineEvent::Start(None) => Err(DetectionError::BadTimestamp),
            LineEvent::Start(Some(t)) => match pending {
                Some(_) => Err(DetectionError::OverlappingStart),
                None => if acc.len() > 0 && t < acc.last().end_ms {
                    Err(DetectionError::NonChronological)
                } else {
                    pair_events(ls.drop_first(), Some(t), acc)
                },
            },
            LineEvent::End(None) => Err(DetectionError::BadTimestamp),
            LineEvent::End(Some(t)) => match pending {
                None => Err(DetectionError::EndWithoutStart),
                Some(st) => if t <= st {
                    Err(DetectionError::NonChronological)
                } else {
                    pair_events(
                        ls.drop_first(),
                        None,
                        acc.push(TimeRange { start_ms: st, end_ms: t }),
                    )
                },
            },
            LineEvent::Plain => pair_events(ls.drop_first(), pending, acc),
        }
    }
}

/// What [`detect`] returns on the analyzer stream `s`.
pub open spec fn spec_detect(s: Seq<u8>) -> Result<Seq<TimeRange>, DetectionError> {
    pair_events(lines_of(s), None, Seq::<TimeRange>::empty())
}

/// The pairing pass only ever emits a chronological interval sequence.
proof fn lemma_pair_events_chronological(
    ls: Seq<Seq<u8>>,
    pending: Option<u64>,
    acc: Seq<TimeRange>,
)
    requires
        chronological(acc),
        pending matches Some(t) ==> acc.len() == 0 || acc.last().end_ms <= t,
    ensures
        pair_events(ls, pending, acc) matches Ok(r) ==> chronological(r),
    decreases ls.len(),
{
    if ls.len() > 0 {
        match classify_line(ls[0]) {
            LineEvent::Start(Some(t)) => {
                if pending is None && !(acc.len() > 0 && t < acc.last().end_ms) {
                    lemma_pair_events_chronological(ls.drop_first(), Some(t), acc);
                }
            },
            LineEvent::End(Some(t)) => {
                match pending {
                    Some(st) => {
                        if t > st {
                            let acc2 = acc.push(TimeRange { start_ms: st, end_ms: t });
                            assert(chronological(acc2)) by {
                                assert(forall|i: int|
                                    0 <= i < acc.len() ==> acc2[i] == #[trigger] acc[i]);
                                assert(acc2.last() == (TimeRange { start_ms: st, end_ms: t }));
                            }
                            lemma_pair_events_chronological(ls.drop_first(), None, acc2);
                        }
                    },
                    None => {},
                }
            },
            LineEvent::Plain => {
                lemma_pair_events_chronological(ls.drop_first(), pending, acc);
            },
            _ => {},
        }
    }
}

/// On any analyzer stream it accepts, detection yields intervals in
/// chronological order, every one with a positive length.
pub proof fn lemma_detect_chronological(s: Seq<u8>)
    ensures
        spec_detect(s) matches Ok(r) ==> chronological(r),
{
    lemma_pair_events_chronological(lines_of(s), None, Seq::<TimeRange>::empty());
}

/// Well-formed event lines: starts and ends alternate, every start is
/// matched by a later end, every timestamp parses, intervals have
/// positive length, and no start precedes the previous end. `pending` is
/// the open start, `last_end` the last closed end (zero before the
/// first).
pub open spec fn well_formed_events(ls: Seq<Seq<u8>>, pending: Option<u64>, last_end: u64) -> bool
    decreases ls.len(),
{
    if ls.len() == 0 {
        pending is None
    } else {
        match classify_line(ls[0]) {
            LineEvent::Start(ot) => pending is None && (ot matches Some(t) && last_end <= t
                && well_formed_events(ls.drop_first(), Some(t), last_end)),
            LineEvent::End(ot) => (pending matches Some(st) && (ot matches Some(t) && st < t
                && well_formed_events(ls.drop_first(), None, t))),
            LineEvent::Plain => well_formed_events(ls.drop_first(), pending, last_end),
        }
    }
}

/// A well-formed analyzer stream: its lines pair up from a clean start.
pub open spec fn well_formed_stream(s: Seq<u8>) -> bool {
    well_formed_events(lines_of(s), None, 0)
}

proof fn lemma_pair_events_accepts(ls: Seq<Seq<u8>>, pending: Option<u64>, acc: Seq<TimeRange>)
    requires
        well_formed_events(
            ls,
            pending,
            if acc.len() == 0 {
                0u64
            } else {
                acc.last().end_ms
            },
        ),
    ensures
        pair_events(ls, pending, acc) is Ok,
    decreases ls.len(),
{
    if ls.len() > 0 {
        match classify_line(ls[0]) {
            LineEvent::Start(ot) => {
                let t = ot->Some_0;
                lemma_pair_events_accepts(ls.drop_first(), Some(t), acc);
            },
            LineEvent::End(ot) => {
                let t = ot->Some_0;
                let st = pending->Some_0;
                let acc2 = acc.push(TimeRange { start_ms: st, end_ms: t });
                assert(acc2.last().end_ms == t);
                lemma_pair_events_accepts(ls.drop_first(), None, acc2);
            },
            LineEvent::Plain => {
                lemma_pair_events_accepts(ls.drop_first(), pending, acc);
            },
        }
    }
}

/// Completeness of detection: every well-formed analyzer stream is
/// accepted — no well-formed input is ever rejected with a
/// [`DetectionError`].
pub proof fn lemma_well_formed_accepted(s: Seq<u8>)
    requires
        well_formed_stream(s),
    ensures
        spec_detect(s) is Ok,
{
    lemma_pair_events_accepts(lines_of(s), None, Seq::<TimeRange>::empty());
}

/// Position of the first occurrence of `pat` in `s`, scanning naively.
fn find_pattern(s: &[u8], pat: &[u8]) -> (r: Option<usize>)
    ensures
        match r {
            Some(i) => first_match(s@, pat@) == Some(i as int),
            None => first_match(s@, pat@) is None,
        },
{
    let n = s.len();
    let m = pat.len();
    if m > n {
        proof {
            lemma_first_match(s@, pat@);
            if let Some(k) = first_match(s@, pat@) {
                assert(is_match_at(s@, pat@, k));
            }
        }
        return None;
    }
    let mut i: usize = 0;
    while i <= n - m
        invariant
            n == s@.len(),
            m == pat@.len(),
            m <= n,
            0 <= i <= n - m + 1,
            forall|j: int| 0 <= j < i ==> !is_match_at(s@, pat@, j),
        decreases n - m + 1 - i,
    {
        let mut k: usize = 0;
        while k < m && s[i + k] == pat[k]
            invariant
                n == s@.len(),
                m == pat@.len(),
                m <= n,
                0 <= i <= n - m,
                0 <= k <= m,
                forall|t: int| 0 <= t < k ==> s@[i + t] == pat@[t],
            decreases m - k,
        {
            k = k + 1;
        }
        if k == m {
            proof {
                assert(s@.subrange(i as int, i + m) =~= pat@);
                assert(is_match_at(s@, pat@, i as int));
                lemma_first_match(s@, pat@);
                match first_match(s@, pat@) {
                    None => {
                        assert(!is_match_at(s@, pat@, i as int));
                    },
                    Some(f) => {
                        if f > i {
                            assert(!is_match_at(s@, pat@, i as int));
                        }
                    },
                }
            }
            return Some(i);
        }
        proof {
            assert(s@[i + k] != pat@[k as int]);
            assert(s@.subrange(i as int, i + m)[k as int] == s@[i + k]);
            assert(!is_match_at(s@, pat@, i as int));
        }
        i = i + 1;
    }
    proof {
        lemma_first_match(s@, pat@);
        if let Some(f) = first_match(s@, pat@) {
            assert(is_match_at(s@, pat@, f));
        }
    }
    None
}

/// `skip_ws` drops exactly the leading run of whitespace.
proof fn lemma_skip_ws_at(s: Seq<u8>, m: int)
    requires
        0 <= m <= s.len(),
        forall|j: int| 0 <= j < m ==> is_ws_byte(#[trigger] s[j]),
        m == s.len() || !is_ws_byte(s[m]),
    ensures
        skip_ws(s) == s.skip(m),
    decreases m,
{
    if m == 0 {
        assert(s.skip(0) =~= s);
    } else {
        assert(is_ws_byte(s[0]));
        assert forall|j: int| 0 <= j < m - 1 implies is_ws_byte(#[trigger] s.drop_first()[j]) by {
            assert(is_ws_byte(s[j + 1]));
        }
        lemma_skip_ws_at(s.drop_first(), m - 1);
        assert(s.drop_first().skip(m - 1) =~= s.skip(m));
    }
}

/// `take_token` takes exactly the whitespace-free prefix.
proof fn lemma_take_token_at(s: Seq<u8>, m: int)
    requires
        0 <= m <= s.len(),
        forall|j: int| 0 <= j < m ==> !is_ws_byte(#[trigger] s[j]),
        m == s.len() || is_ws_byte(s[m]),
    ensures
        take_token(s) == s.take(m),
    decreases m,
{
    if m == 0 {
        assert(s.take(0) =~= Seq::<u8>::empty());
    } else {
        assert(!is_ws_byte(s[0]));
        assert forall|j: int| 0 <= j < m - 1 implies !is_ws_byte(
            #[trigger] s.drop_first()[j],
        ) by {
            assert(!is_ws_byte(s[j + 1]));
        }
        lemma_take_token_at(s.drop_first(), m - 1);
        assert(seq![s[0]] + s.drop_first().take(m - 1) =~= s.take(m));
    }
}

/// Whether the byte at `i` is whitespace.
pub(crate) fn ws_byte_at(s: &[u8], i: usize) -> (r: bool)
    requires
        i < s@.len(),
    ensures
        r == is_ws_byte(s@[i as int]),
{
    let b = s[i];
    b == SPACE || b == TAB || b == CARRIAGE_RETURN || b == NEWLINE
}

/// Bounds of the timestamp token that follows `from` in `line`. Nothing
/// but whitespace stands between `from` and the token, which the second
/// bound ends exactly.
pub fn token_bounds(line: &[u8], from: usize) -> (r: (usize, usize))
    requires
        from <= line@.len(),
    ensures
        from <= r.0 <= r.1 <= line@.len(),
        line@.subrange(r.0 as int, r.1 as int) == token_at(line@, from as int),
        skip_ws(line@.skip(from as int)) == line@.skip(r.0 as int),
{
    let n = line.len();
    let mut j: usize = from;
    while j < n && ws_byte_at(line, j)
        invariant
            n == line@.len(),
            from <= j <= n,
            forall|t: int| from <= t < j ==> is_ws_byte(#[trigger] line@[t]),
        decreases n - j,
    {
        j = j + 1;
    }
    let mut k: usize = j;
    while k < n && !ws_byte_at(line, k)
        invariant
            n == line@.len(),
            j <= k <= n,
            forall|t: int| j <= t < k ==> !is_ws_byte(#[trigger] line@[t]),
        decreases n - k,
    {
        k = k + 1;
    }
    proof {
        let rest = line@.skip(from as int);
        assert forall|t: int| 0 <= t < j - from implies is_ws_byte(#[trigger] rest[t]) by {
            assert(is_ws_byte(line@[from + t]));
        }
        if j < n {
            assert(rest[j - from] == line@[j as int]);
        }
        lemma_skip_ws_at(rest, j - from);
        let tok = line@.skip(j as int);
        assert(rest.skip(j - from) =~= tok);
        assert forall|t: int| 0 <= t < k - j implies !is_ws_byte(#[trigger] tok[t]) by {
            assert(!is_ws_byte(line@[j + t]));
        }
        if k < n {
            assert(tok[k - j] == line@[k as int]);
        }
        lemma_take_token_at(tok, k - j);
        assert(tok.take(k - j) =~= line@.subrange(j as int, k as int));
    }
    (j, k)
}

/// The byte form of the start marker.
fn start_marker_bytes() -> (r: &'static [u8])
    ensures
        r@ == start_marker(),
{
    "silence_start:".as_bytes()
}

/// The byte form of the end marker.
fn end_marker_bytes() -> (r: &'static [u8])
    ensures
        r@ == end_marker(),
{
    "silence_end:".as_bytes()
}

/// Classify one line of analyzer output.
fn classify(line: &[u8]) -> (r: LineEvent)
    ensures
        r == classify_line(line@),
{
    let line_len = line.len();
    let sm = start_marker_bytes();
    match find_pattern(line, sm) {
        Some(i) => {
            proof {
                lemma_first_match(line@, start_marker());
                assert(is_match_at(line@, start_marker(), i as int));
                assert(i + sm@.len() <= line_len);
            }
            let (a, b) = token_bounds(line, i + sm.len());
            LineEvent::Start(parse_ms(&line[a..b]))
        },
        None => {
            let em = end_marker_bytes();
            match find_pattern(line, em) {
                Some(i) => {
                    proof {
                        lemma_first_match(line@, end_marker());
                        assert(is_match_at(line@, end_marker(), i as int));
                        assert(i + em@.len() <= line_len);
                    }
                    let (a, b) = token_bounds(line, i + em.len());
                    LineEvent::End(parse_ms(&line[a..b]))
                },
                None => LineEvent::Plain,
            }
        },
    }
}

/// Parse the analyzer's diagnostic stream into silence intervals.
///
/// A single forward pass pairs each `silence_start` with the next
/// `silence_end`. The result is chronological: every interval has
/// `start_ms < end_ms` and no interval begins before the previous one
/// ends. Any malformed event — a second start while one is pending, an
/// end with no start pending, a start left open at the end of input, an
/// unreadable timestamp, or a timestamp that moves backwards — rejects
/// the whole stream with the matching [`DetectionError`].
pub fn detect(text: &[u8]) -> (r: Result<Vec<TimeRange>, DetectionError>)
    ensures
        match r {
            Ok(v) => spec_detect(text@) == Ok::<Seq<TimeRange>, DetectionError>(v@)
                && chronological(v@),
            Err(e) => spec_detect(text@) == Err::<Seq<TimeRange>, DetectionError>(e),
        },
{
    let n = text.len();
    let mut pos: usize = 0;
    let mut pending: Option<u64> = None;
    let mut out: Vec<TimeRange> = Vec::new();
    let mut done = false;
    proof {
        assert(text@.skip(0) =~= text@);
    }
    while !done
        invariant
            n == text@.len(),
            0 <= pos <= n,
            chronological(out@),
            pending matches Some(t) ==> out@.len() == 0 || out@.last().end_ms <= t,
            !done ==> pair_events(lines_of(text@.skip(pos as int)), pending, out@)
                == spec_detect(text@),
            done ==> pair_events(
                Seq::<Seq<u8>>::empty(),
                pending,
                out@,
            ) == spec_detect(text@),
        decreases n - pos + (if done { 0int } else { 1int }),
    {
        // find the next newline at or after pos
        let mut e: usize = pos;
        while e < n && text[e] != NEWLINE
            invariant
                n == text@.len(),
                pos <= e <= n,
                forall|t: int| pos <= t < e ==> text@[t] != NEWLINE,
            decreases n - e,
        {
            e = e + 1;
        }
        let ghost rest = text@.skip(pos as int);
        proof {
            crate::numbers::lemma_find_byte(rest, NEWLINE);
            assert forall|t: int| 0 <= t < e - pos implies rest[t] != NEWLINE by {
                assert(text@[pos + t] != NEWLINE);
            }
            if e < n {
                assert(rest[e - pos] == text@[e as int]);
                // first newline of rest is at e - pos
                match crate::numbers::find_byte(rest, NEWLINE) {
                    None => {
                        assert(rest[e - pos] != NEWLINE);
                    },
                    Some(f) => {
                        if f < e - pos {
                            assert(rest[f] != NEWLINE);
                        } else if f > e - pos {
                            assert(rest[e - pos] != NEWLINE);
                        }
                    },
                }
                assert(crate::numbers::find_byte(rest, NEWLINE) == Some(e - pos));
            } else {
                if let Some(f) = crate::numbers::find_byte(rest, NEWLINE) {
                    assert(rest[f] != NEWLINE);
                }
                assert(crate::numbers::find_byte(rest, NEWLINE) is None);
            }
        }
        let line = &text[pos..e];
        let ghost ls = lines_of(rest);
        proof {
            if e < n {
                assert(rest.take(e - pos) =~= line@);
                assert(rest.skip(e - pos + 1) =~= text@.skip(e + 1));
                assert(ls == seq![line@] + lines_of(text@.skip(e + 1)));
                assert(ls[0] == line@);
                assert(ls.drop_first() =~= lines_of(text@.skip(e + 1)));
            } else {
                assert(rest =~= line@);
                assert(ls == seq![line@]);
                assert(ls[0] == line@);
                assert(ls.drop_first() =~= Seq::<Seq<u8>>::empty());
            }
        }
        // process the line as pair_events does
        match classify(line) {
            LineEvent::Start(opt) => {
                let t = match opt {
                    Some(t) => t,
                    None => {
                        return Err(DetectionError::BadTimestamp);
                    },
                };
                if pending.is_some() {
                    return Err(DetectionError::OverlappingStart);
                }
                if out.len() > 0 && t < out[out.len() - 1].end_ms {
                    return Err(DetectionError::NonChronological);
                }
                pending = Some(t);
            },
            LineEvent::End(opt) => {
                let t = match opt {
                    Some(t) => t,
                    None => {
                        return Err(DetectionError::BadTimestamp);
                    },
                };
                let st = match pending {
                    Some(st) => st,
                    None => {
                        return Err(DetectionError::EndWithoutStart);
                    },
                };
                if t <= st {
                    return Err(DetectionError::NonChronological);
                }
                let iv = TimeRange { start_ms: st, end_ms: t };
                proof {
                    let acc2 = out@.push(iv);
                    assert(chronological(acc2)) by {
                        assert(forall|i: int|
                            0 <= i < out@.len() ==> acc2[i] == #[trigger] out@[i]);
                        assert(acc2.last() == iv);
                    }
                }
                out.push(iv);
                pending = None;
            },
            LineEvent::Plain => {},
        }
        if e < n {
            pos = e + 1;
        } else {
            pos = n;
            done = true;
        }
    }
    if pending.is_some() {
        return Err(DetectionError::UnterminatedStart);
    }
    Ok(out)
}

} // verus!
