//! Time ranges on a media timeline, in integer milliseconds.

use vstd::prelude::*;

verus! {

/// A half-open span `[start_ms, end_ms)` on the media timeline.
///
/// Well-formed ranges satisfy `start_ms <= end_ms`; ranges with
/// `start_ms == end_ms` are degenerate and are rejected by consumers that
/// need a positive duration.
#[derive(Clone, Copy, Debug, PartialEq, Eq, Structural)]
pub struct TimeRange {
    pub start_ms: u64,
    pub end_ms: u64,
}

impl TimeRange {
    /// `start_ms <= end_ms`.
    pub open spec fn wf(self) -> bool {
        self.start_ms <= self.end_ms
    }

    /// Length of the range in milliseconds.
    pub open spec fn spec_duration_ms(self) -> int {
        self.end_ms - self.start_ms
    }

    pub fn new(start_ms: u64, end_ms: u64) -> (r: Self)
        requires
            start_ms <= end_ms,
        ensures
            r == (TimeRange { start_ms, end_ms }),
    {
        TimeRange { start_ms, end_ms }
    }

    /// Duration in milliseconds.
    pub fn duration_ms(&self) -> (d: u64)
        requires
            self.wf(),
        ensures
            d == self.spec_duration_ms(),
    {
        self.end_ms - self.start_ms
    }
}

/// True when `t` lies inside `r`.
pub open spec fn range_covers(r: TimeRange, t: int) -> bool {
    r.start_ms <= t < r.end_ms
}

/// True when some range of `rs` contains `t`.
pub open spec fn ranges_cover(rs: Seq<TimeRange>, t: int) -> bool {
    exists|i: int| 0 <= i < rs.len() && range_covers(rs[i], t)
}

/// Every range is well formed with a positive duration, and consecutive
/// ranges neither touch out of order nor overlap: each range ends no later
/// than the next begins.
pub open spec fn chronological(rs: Seq<TimeRange>) -> bool {
    &&& forall|i: int| 0 <= i < rs.len() ==> (#[trigger] rs[i]).start_ms < rs[i].end_ms
    &&& forall|i: int| 0 <= i < rs.len() - 1 ==> (#[trigger] rs[i]).end_ms <= rs[i + 1].start_ms
}

/// Every range ends by `duration_ms`.
pub open spec fn within(rs: Seq<TimeRange>, duration_ms: u64) -> bool {
    forall|i: int| 0 <= i < rs.len() ==> (#[trigger] rs[i]).end_ms <= duration_ms
}

/// Two ranges share at least one instant.
pub open spec fn overlap(a: TimeRange, b: TimeRange) -> bool {
    a.start_ms < b.end_ms && b.start_ms < a.end_ms
}

/// Coverage distributes over concatenation.
pub proof fn lemma_cover_concat(a: Seq<TimeRange>, b: Seq<TimeRange>, t: int)
    ensures
        ranges_cover(a + b, t) <==> (ranges_cover(a, t) || ranges_cover(b, t)),
{
    if ranges_cover(a, t) {
        let i = choose|i: int| 0 <= i < a.len() && range_covers(a[i], t);
        assert((a + b)[i] == a[i]);
        assert(ranges_cover(a + b, t));
    }
    if ranges_cover(b, t) {
        let i = choose|i: int| 0 <= i < b.len() && range_covers(b[i], t);
        assert((a + b)[a.len() + i] == b[i]);
        assert(ranges_cover(a + b, t));
    }
    if ranges_cover(a + b, t) {
        let i = choose|i: int| 0 <= i < (a + b).len() && range_covers((a + b)[i], t);
        if i < a.len() {
            assert((a + b)[i] == a[i]);
            assert(ranges_cover(a, t));
        } else {
            assert((a + b)[i] == b[i - a.len()]);
            assert(ranges_cover(b, t));
        }
    }
}

/// In a chronological sequence, an earlier range ends before a later one begins.
pub proof fn lemma_chronological_ordered(rs: Seq<TimeRange>, i: int, j: int)
    requires
        chronological(rs),
        0 <= i < j < rs.len(),
    ensures
        rs[i].end_ms <= rs[j].start_ms,
    decreases j - i,
{
    if i + 1 < j {
        lemma_chronological_ordered(rs, i, j - 1);
        assert(rs[j - 1].start_ms < rs[j - 1].end_ms);
        assert(rs[j - 1].end_ms <= rs[j].start_ms);
    }
}

/// In a chronological sequence, ranges with distinct indices never overlap.
pub proof fn lemma_chronological_disjoint(rs: Seq<TimeRange>, i: int, j: int)
    requires
        chronological(rs),
        0 <= i < j < rs.len(),
    ensures
        !overlap(rs[i], rs[j]),
{
    lemma_chronological_ordered(rs, i, j);
}

} // verus!
