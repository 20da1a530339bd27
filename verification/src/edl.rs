//! Building a canonical edit decision list.
//!
//! An edit decision list (EDL) is the validated, start-sorted,
//! non-overlapping sequence of time ranges to keep in the rendered output.
//! It is built either from user-supplied keep ranges checked against the
//! media duration, or as the complement of a chronological silence-interval
//! sequence.

use vstd::prelude::*;
use vstd::multiset::Multiset;
use vstd::seq_lib::group_to_multiset_ensures;

use crate::timeline::TimeRange;
use crate::timeline::chronological;
use crate::timeline::lemma_chronological_disjoint;
use crate::timeline::lemma_cover_concat;
use crate::timeline::overlap;
use crate::timeline::range_covers;
use crate::timeline::ranges_cover;
use crate::timeline::within;

verus! {

/// Why an edit intent was rejected.
#[derive(Clone, Copy, Debug, PartialEq, Eq, Structural)]
pub enum PlanningError {
    /// A keep range is empty, inverted, or ends past the media duration.
    OutOfBounds,
    /// Two keep ranges share an instant.
    Overlap,
}

/// The canonical edit decision list: start-sorted, non-overlapping keep
/// ranges bounded by the media duration. A segment's stable index is its
/// position.
#[derive(Clone, Debug)]
pub struct EditDecisionList {
    pub segments: Vec<TimeRange>,
    pub duration_ms: u64,
}

impl EditDecisionList {
    /// Segments are chronological (positive length, sorted, disjoint) and
    /// end by the media duration.
    pub open spec fn wf(self) -> bool {
        chronological(self.segments@) && within(self.segments@, self.duration_ms)
    }

    pub fn len(&self) -> (n: usize)
        ensures
            n == self.segments@.len(),
    {
        self.segments.len()
    }
}

/// A keep range is non-empty and ends by the media duration.
pub open spec fn seg_valid(r: TimeRange, duration_ms: u64) -> bool {
    r.start_ms < r.end_ms && r.end_ms <= duration_ms
}

pub open spec fn all_valid(rs: Seq<TimeRange>, duration_ms: u64) -> bool {
    forall|i: int| 0 <= i < rs.len() ==> seg_valid(#[trigger] rs[i], duration_ms)
}

/// Some two ranges of `rs` share an instant.
pub open spec fn has_overlap(rs: Seq<TimeRange>) -> bool {
    exists|i: int, j: int| 0 <= i < j < rs.len() && overlap(rs[i], rs[j])
}

pub open spec fn sorted_by_start(rs: Seq<TimeRange>) -> bool {
    forall|i: int, j: int| 0 <= i <= j < rs.len() ==> rs[i].start_ms <= rs[j].start_ms
}

/// Validity of every range survives reordering.
proof fn lemma_all_valid_permutation(s: Seq<TimeRange>, t: Seq<TimeRange>, duration_ms: u64)
    requires
        s.to_multiset() == t.to_multiset(),
        all_valid(s, duration_ms),
    ensures
        all_valid(t, duration_ms),
{
    broadcast use group_to_multiset_ensures;

    assert forall|i: int| 0 <= i < t.len() implies seg_valid(#[trigger] t[i], duration_ms) by {
        assert(t.contains(t[i]));
        assert(t.to_multiset().count(t[i]) > 0);
        assert(s.contains(t[i]));
        let j = choose|j: int| 0 <= j < s.len() && s[j] == t[i];
        assert(seg_valid(s[j], duration_ms));
    }
}

/// An overlapping pair survives reordering.
proof fn lemma_has_overlap_permutation(s: Seq<TimeRange>, t: Seq<TimeRange>)
    requires
        s.to_multiset() == t.to_multiset(),
        has_overlap(s),
    ensures
        has_overlap(t),
{
    broadcast use group_to_multiset_ensures;

    let (i0, j0): (int, int) = choose|i0: int, j0: int|
        0 <= i0 < j0 < s.len() && overlap(s[i0], s[j0]);
    let a = s[i0];
    let b = s[j0];
    assert(s.contains(a));
    assert(s.to_multiset().count(a) > 0);
    assert(t.to_multiset().count(a) > 0);
    assert(t.contains(a));
    let k = choose|k: int| 0 <= k < t.len() && t[k] == a;
    let s2 = s.remove(i0);
    let t2 = t.remove(k);
    assert(s2.to_multiset() == t2.to_multiset()) by {
        assert(s2.to_multiset() =~= s.to_multiset().remove(a));
        assert(t2.to_multiset() =~= t.to_multiset().remove(a));
    }
    s.remove_ensures(i0);
    assert(s2[j0 - 1] == b);
    assert(s2.contains(b));
    assert(s2.to_multiset().count(b) > 0);
    assert(t2.to_multiset().count(b) > 0);
    assert(t2.contains(b));
    let k2 = choose|k2: int| 0 <= k2 < t2.len() && t2[k2] == b;
    t.remove_ensures(k);
    // map k2 back to an index of t distinct from k
    let kb: int = if k2 < k {
        k2
    } else {
        k2 + 1
    };
    assert(t[kb] == b);
    assert(kb != k);
    assert(overlap(a, b));
    if k < kb {
        assert(overlap(t[k], t[kb]));
    } else {
        assert(overlap(t[kb], t[k]));
    }
}

/// A consecutive violation in the sorted order is an overlap in the input.
proof fn lemma_consecutive_overlap(
    sorted: Seq<TimeRange>,
    keeps: Seq<TimeRange>,
    duration_ms: u64,
    i: int,
)
    requires
        sorted.to_multiset() == keeps.to_multiset(),
        sorted_by_start(sorted),
        all_valid(sorted, duration_ms),
        0 <= i < sorted.len() - 1,
        sorted[i].end_ms > sorted[i + 1].start_ms,
    ensures
        has_overlap(keeps),
{
    assert(overlap(sorted[i], sorted[i + 1])) by {
        assert(seg_valid(sorted[i], duration_ms));
        assert(seg_valid(sorted[i + 1], duration_ms));
        assert(sorted[i].start_ms <= sorted[i + 1].start_ms);
    }
    assert(has_overlap(sorted));
    lemma_has_overlap_permutation(sorted, keeps);
}

/// Sorted, valid and free of consecutive violations means chronological,
/// and then the input held no overlap at all.
proof fn lemma_sorted_chronological(
    sorted: Seq<TimeRange>,
    keeps: Seq<TimeRange>,
    duration_ms: u64,
)
    requires
        sorted.to_multiset() == keeps.to_multiset(),
        sorted_by_start(sorted),
        all_valid(sorted, duration_ms),
        forall|j: int| 0 <= j < sorted.len() - 1 ==> (#[trigger] sorted[j]).end_ms <= sorted[j
            + 1].start_ms,
    ensures
        chronological(sorted),
        within(sorted, duration_ms),
        !has_overlap(keeps),
{
    assert(chronological(sorted)) by {
        assert(forall|j: int|
            0 <= j < sorted.len() ==> (#[trigger] sorted[j]).start_ms < sorted[j].end_ms);
    }
    if has_overlap(keeps) {
        lemma_has_overlap_permutation(keeps, sorted);
        let (a, b): (int, int) = choose|a: int, b: int|
            0 <= a < b < sorted.len() && overlap(sorted[a], sorted[b]);
        lemma_chronological_disjoint(sorted, a, b);
    }
}

/// Sort ranges by start time: same contents, ascending starts.
fn sort_by_start_time(rs: &Vec<TimeRange>) -> (r: Vec<TimeRange>)
    ensures
        r@.to_multiset() == rs@.to_multiset(),
        sorted_by_start(r@),
        r@.len() == rs@.len(),
{
    broadcast use group_to_multiset_ensures;
    broadcast use vstd::seq_lib::to_multiset_insert;

    let n = rs.len();
    let mut out: Vec<TimeRange> = Vec::new();
    let mut i: usize = 0;
    proof {
        assert(rs@.take(0) =~= Seq::<TimeRange>::empty());
        assert(Seq::<TimeRange>::empty().to_multiset() =~= Multiset::<TimeRange>::empty());
    }
    while i < n
        invariant
            n == rs@.len(),
            0 <= i <= n,
            out@.len() == i,
            out@.to_multiset() == rs@.take(i as int).to_multiset(),
            sorted_by_start(out@),
        decreases n - i,
    {
        broadcast use group_to_multiset_ensures;
        broadcast use vstd::seq_lib::to_multiset_insert;

        let x = rs[i];
        let mut p: usize = 0;
        while p < out.len() && out[p].start_ms <= x.start_ms
            invariant
                0 <= p <= out@.len(),
                forall|q: int| 0 <= q < p ==> (#[trigger] out@[q]).start_ms <= x.start_ms,
            decreases out@.len() - p,
        {
            p = p + 1;
        }
        let ghost old_out = out@;
        out.insert(p, x);
        proof {
            old_out.insert_ensures(p as int, x);
            assert(sorted_by_start(out@)) by {
                assert forall|q: int, r: int|
                    0 <= q <= r < out@.len() implies out@[q].start_ms <= out@[r].start_ms by {
                    if q < p && r < p {
                    } else if q == p && r == p {
                    } else if q < p && r == p {
                        assert(out@[q] == old_out[q]);
                        assert(out@[r] == x);
                    } else if q < p && r > p {
                        assert(out@[q] == old_out[q]);
                        assert(out@[r] == old_out[r - 1]);
                    } else if q == p && r > p {
                        assert(out@[r] == old_out[r - 1]);
                        assert(old_out[r - 1].start_ms > x.start_ms);
                    } else {
                        assert(out@[q] == old_out[q - 1]);
                        assert(out@[r] == old_out[r - 1]);
                    }
                }
            }
            assert(rs@.take(i + 1).drop_last() =~= rs@.take(i as int));
            assert(rs@.take(i + 1) =~= rs@.take(i as int).push(x));
            assert(out@.to_multiset() =~= rs@.take(i + 1).to_multiset());
        }
        i = i + 1;
    }
    proof {
        assert(rs@.take(n as int) =~= rs@);
    }
    out
}

/// Build the canonical EDL from user keep ranges.
///
/// Every range must be non-empty and end by `duration_ms`, else
/// `OutOfBounds`; no two ranges may share an instant, else `Overlap`.
/// Valid ranges come back sorted by start, each segment's index its
/// position. An empty intent keeps the whole file: one segment
/// `[0, duration_ms)` (none at all when the duration is zero).
#[verifier::rlimit(60)]
pub fn from_keep_ranges(keeps: &Vec<TimeRange>, duration_ms: u64) -> (r: Result<
    EditDecisionList,
    PlanningError,
>)
    ensures
        match r {
            Ok(edl) => {
                &&& edl.duration_ms == duration_ms
                &&& edl.wf()
                &&& all_valid(keeps@, duration_ms) || keeps@.len() == 0
                &&& !has_overlap(keeps@)
                &&& keeps@.len() == 0 ==> edl.segments@ == if duration_ms > 0 {
                    seq![TimeRange { start_ms: 0, end_ms: duration_ms }]
                } else {
                    Seq::<TimeRange>::empty()
                }
                &&& keeps@.len() > 0 ==> edl.segments@.to_multiset() == keeps@.to_multiset()
                    && edl.segments@.len() == keeps@.len()
            },
            Err(PlanningError::OutOfBounds) => !all_valid(keeps@, duration_ms),
            Err(PlanningError::Overlap) => all_valid(keeps@, duration_ms) && has_overlap(keeps@),
        },
{
    let n = keeps.len();
    let mut i: usize = 0;
    while i < n
        invariant
            n == keeps@.len(),
            0 <= i <= n,
            forall|j: int| 0 <= j < i ==> seg_valid(#[trigger] keeps@[j], duration_ms),
        decreases n - i,
    {
        let k = keeps[i];
        if !(k.start_ms < k.end_ms && k.end_ms <= duration_ms) {
            assert(!seg_valid(keeps@[i as int], duration_ms));
            return Err(PlanningError::OutOfBounds);
        }
        i = i + 1;
    }
    if n == 0 {
        let mut segments: Vec<TimeRange> = Vec::new();
        if duration_ms > 0 {
            segments.push(TimeRange { start_ms: 0, end_ms: duration_ms });
        }
        proof {
            if duration_ms > 0 {
                assert(segments@ =~= seq![TimeRange { start_ms: 0, end_ms: duration_ms }]);
            }
        }
        return Ok(EditDecisionList { segments, duration_ms });
    }
    let sorted = sort_by_start_time(keeps);
    proof {
        lemma_all_valid_permutation(keeps@, sorted@, duration_ms);
    }
    let mut i: usize = 0;
    while i + 1 < n
        invariant
            n == sorted@.len() == keeps@.len(),
            0 < n,
            0 <= i < n,
            sorted@.to_multiset() == keeps@.to_multiset(),
            sorted_by_start(sorted@),
            all_valid(sorted@, duration_ms),
            all_valid(keeps@, duration_ms),
            forall|j: int| 0 <= j < i ==> (#[trigger] sorted@[j]).end_ms <= sorted@[j + 1].start_ms,
        decreases n - i,
    {
        if sorted[i].end_ms > sorted[i + 1].start_ms {
            proof {
                lemma_consecutive_overlap(sorted@, keeps@, duration_ms, i as int);
            }
            return Err(PlanningError::Overlap);
        }
        i = i + 1;
    }
    proof {
        lemma_sorted_chronological(sorted@, keeps@, duration_ms);
    }
    Ok(EditDecisionList { segments: sorted, duration_ms })
}

/// `x`, capped at the media duration `d`.
pub open spec fn clamp_ms(x: u64, d: u64) -> u64 {
    if x <= d {
        x
    } else {
        d
    }
}

/// The complement of the silence intervals inside `[0, duration_ms)`,
/// walked left to right with a cursor: the gap before each silence (if
/// non-empty), and the gap after the last one. Each silence is first
/// intersected with `[0, duration_ms)`.
pub open spec fn gaps_from(sil: Seq<TimeRange>, cursor: u64, duration_ms: u64) -> Seq<TimeRange>
    decreases sil.len(),
{
    if sil.len() == 0 {
        if cursor < duration_ms {
            seq![TimeRange { start_ms: cursor, end_ms: duration_ms }]
        } else {
            Seq::<TimeRange>::empty()
        }
    } else {
        let cs = clamp_ms(sil[0].start_ms, duration_ms);
        let ce = clamp_ms(sil[0].end_ms, duration_ms);
        let head: Seq<TimeRange> = if cursor < cs {
            seq![TimeRange { start_ms: cursor, end_ms: cs }]
        } else {
            Seq::<TimeRange>::empty()
        };
        let cursor2: u64 = if ce > cursor {
            ce
        } else {
            cursor
        };
        head + gaps_from(sil.drop_first(), cursor2, duration_ms)
    }
}

/// The tail of a chronological sequence is chronological, and the cursor
/// stays below the next clamped silence start.
#[verifier::rlimit(60)]
proof fn lemma_gaps_step(sil: Seq<TimeRange>, cursor: u64, duration_ms: u64)
    requires
        chronological(sil),
        sil.len() > 0,
        cursor <= duration_ms,
        cursor <= clamp_ms(sil[0].start_ms, duration_ms),
    ensures
        chronological(sil.drop_first()),
        ({
            let ce = clamp_ms(sil[0].end_ms, duration_ms);
            let cursor2: u64 = if ce > cursor {
                ce
            } else {
                cursor
            };
            cursor2 <= duration_ms && (sil.drop_first().len() > 0 ==> cursor2 <= clamp_ms(
                sil.drop_first()[0].start_ms,
                duration_ms,
            ))
        }),
{
    let rest = sil.drop_first();
    assert(forall|j: int| 0 <= j < rest.len() ==> #[trigger] rest[j] == sil[j + 1]);
    assert(chronological(rest));
    if rest.len() > 0 {
        assert(sil[0].end_ms <= sil[1].start_ms);
        assert(rest[0] == sil[1]);
    }
}

/// The gaps are chronological, bounded by the duration, and never begin
/// before the cursor.
#[verifier::rlimit(80)]
pub proof fn lemma_gaps_wf(sil: Seq<TimeRange>, cursor: u64, duration_ms: u64)
    requires
        chronological(sil),
        cursor <= duration_ms,
        sil.len() > 0 ==> cursor <= clamp_ms(sil[0].start_ms, duration_ms),
    ensures
        chronological(gaps_from(sil, cursor, duration_ms)),
        within(gaps_from(sil, cursor, duration_ms), duration_ms),
        forall|i: int| 0 <= i < gaps_from(sil, cursor, duration_ms).len() ==> (#[trigger] gaps_from(
            sil,
            cursor,
            duration_ms,
        )[i]).start_ms >= cursor,
    decreases sil.len(),
{
    let g = gaps_from(sil, cursor, duration_ms);
    if sil.len() == 0 {
    } else {
        let cs = clamp_ms(sil[0].start_ms, duration_ms);
        let ce = clamp_ms(sil[0].end_ms, duration_ms);
        let head: Seq<TimeRange> = if cursor < cs {
            seq![TimeRange { start_ms: cursor, end_ms: cs }]
        } else {
            Seq::<TimeRange>::empty()
        };
        let cursor2: u64 = if ce > cursor {
            ce
        } else {
            cursor
        };
        lemma_gaps_step(sil, cursor, duration_ms);
        lemma_gaps_wf(sil.drop_first(), cursor2, duration_ms);
        let rest = gaps_from(sil.drop_first(), cursor2, duration_ms);
        assert(g == head + rest);
        assert(cs <= ce);
        assert forall|i: int| 0 <= i < g.len() implies (#[trigger] g[i]).start_ms >= cursor by {
            if i < head.len() {
                assert(g[i] == head[i]);
            } else {
                assert(g[i] == rest[i - head.len()]);
            }
        }
        assert forall|i: int| 0 <= i < g.len() implies (#[trigger] g[i]).start_ms < g[i].end_ms
            && g[i].end_ms <= duration_ms by {
            if i < head.len() {
                assert(g[i] == head[i]);
            } else {
                assert(g[i] == rest[i - head.len()]);
            }
        }
        assert forall|i: int| 0 <= i < g.len() - 1 implies (#[trigger] g[i]).end_ms <= g[i
            + 1].start_ms by {
            if head.len() == 1 && i == 0 {
                assert(g[0] == head[0]);
                assert(g[1] == rest[0]);
            } else if i >= head.len() {
                assert(g[i] == rest[i - head.len()]);
                assert(g[i + 1] == rest[i + 1 - head.len()]);
            }
        }
        assert(chronological(g));
        assert(within(g, duration_ms));
    }
}

/// At each instant `t` of the timeline, the gaps cover `t` exactly when
/// the silences do not.
proof fn lemma_gaps_cover(sil: Seq<TimeRange>, cursor: u64, duration_ms: u64, t: int)
    requires
        chronological(sil),
        cursor <= duration_ms,
        sil.len() > 0 ==> cursor <= clamp_ms(sil[0].start_ms, duration_ms),
        cursor <= t < duration_ms,
    ensures
        ranges_cover(gaps_from(sil, cursor, duration_ms), t) <==> !ranges_cover(sil, t),
    decreases sil.len(),
{
    let g = gaps_from(sil, cursor, duration_ms);
    if sil.len() == 0 {
        assert(range_covers(g[0], t));
        assert(ranges_cover(g, t));
    } else {
        let cs = clamp_ms(sil[0].start_ms, duration_ms);
        let ce = clamp_ms(sil[0].end_ms, duration_ms);
        let head: Seq<TimeRange> = if cursor < cs {
            seq![TimeRange { start_ms: cursor, end_ms: cs }]
        } else {
            Seq::<TimeRange>::empty()
        };
        let cursor2: u64 = if ce > cursor {
            ce
        } else {
            cursor
        };
        let rest = gaps_from(sil.drop_first(), cursor2, duration_ms);
        lemma_gaps_step(sil, cursor, duration_ms);
        lemma_cover_concat(head, rest, t);
        // the silences decompose the same way
        assert(forall|j: int|
            0 <= j < sil.drop_first().len() ==> #[trigger] sil.drop_first()[j] == sil[j + 1]);
        assert(ranges_cover(sil, t) <==> (range_covers(sil[0], t) || ranges_cover(
            sil.drop_first(),
            t,
        ))) by {
            if ranges_cover(sil, t) {
                let j = choose|j: int| 0 <= j < sil.len() && range_covers(sil[j], t);
                if j > 0 {
                    assert(range_covers(sil.drop_first()[j - 1], t));
                }
            }
            if ranges_cover(sil.drop_first(), t) {
                let j = choose|j: int|
                    0 <= j < sil.drop_first().len() && range_covers(sil.drop_first()[j], t);
                assert(range_covers(sil[j + 1], t));
            }
        }
        lemma_gaps_wf(sil.drop_first(), cursor2, duration_ms);
        if t < cs {
            // inside the head gap: kept, not silent
            assert(range_covers(head[0], t));
            assert(!range_covers(sil[0], t));
            assert forall|j: int| 0 <= j < sil.drop_first().len() implies !range_covers(
                #[trigger] sil.drop_first()[j],
                t,
            ) by {
                crate::timeline::lemma_chronological_ordered(sil, 0, j + 1);
            }
            assert(!ranges_cover(sil.drop_first(), t));
        } else if t < ce {
            // inside the clamped silence: silent, not kept
            assert(range_covers(sil[0], t));
            assert(!ranges_cover(head, t));
            assert(!ranges_cover(rest, t));
        } else {
            // past this silence: decided by the tail on both sides
            lemma_gaps_cover(sil.drop_first(), cursor2, duration_ms, t);
            assert(!ranges_cover(head, t));
            assert(!range_covers(sil[0], t));
        }
    }
}

/// Complement law of silence removal: the keep segments and the silence
/// intervals tile `[0, duration_ms)` exactly — at every instant of the
/// timeline exactly one of the two families covers it, and the keep
/// segments themselves are chronological, so nothing is covered twice.
pub proof fn lemma_silence_complement(sil: Seq<TimeRange>, duration_ms: u64)
    requires
        chronological(sil),
    ensures
        forall|t: int|
            0 <= t < duration_ms ==> (ranges_cover(
                #[trigger] gaps_from(sil, 0, duration_ms),
                t,
            ) <==> !ranges_cover(sil, t)),
        chronological(gaps_from(sil, 0, duration_ms)),
        within(gaps_from(sil, 0, duration_ms), duration_ms),
{
    assert forall|t: int|
        0 <= t < duration_ms implies (ranges_cover(
        #[trigger] gaps_from(sil, 0, duration_ms),
        t,
    ) <==> !ranges_cover(sil, t)) by {
        lemma_gaps_cover(sil, 0, duration_ms, t);
    }
    lemma_gaps_wf(sil, 0, duration_ms);
}

/// Build the silence-removal EDL: the complement of the detected silence
/// intervals against the full duration.
///
/// The input must be chronological, as [`crate::detect::detect`] returns
/// it. The gaps between consecutive silences (and before the first, after
/// the last) become the keep segments, each intersected with
/// `[0, duration_ms)`; empty gaps are dropped.
pub fn from_silence_ranges(silences: &Vec<TimeRange>, duration_ms: u64) -> (r: EditDecisionList)
    requires
        chronological(silences@),
    ensures
        r.duration_ms == duration_ms,
        r.segments@ == gaps_from(silences@, 0, duration_ms),
        r.wf(),
{
    let n = silences.len();
    let mut segs: Vec<TimeRange> = Vec::new();
    let mut cursor: u64 = 0;
    let mut i: usize = 0;
    proof {
        assert(silences@.skip(0) =~= silences@);
        assert(segs@ + gaps_from(silences@, 0, duration_ms) =~= gaps_from(
            silences@,
            0,
            duration_ms,
        ));
    }
    while i < n
        invariant
            n == silences@.len(),
            0 <= i <= n,
            chronological(silences@),
            cursor <= duration_ms,
            i < n ==> cursor <= clamp_ms(silences@[i as int].start_ms, duration_ms),
            chronological(silences@.skip(i as int)),
            segs@ + gaps_from(silences@.skip(i as int), cursor, duration_ms) == gaps_from(
                silences@,
                0,
                duration_ms,
            ),
        decreases n - i,
    {
        let s = silences[i];
        let cs = if s.start_ms <= duration_ms {
            s.start_ms
        } else {
            duration_ms
        };
        let ce = if s.end_ms <= duration_ms {
            s.end_ms
        } else {
            duration_ms
        };
        let ghost tail = silences@.skip(i as int);
        let ghost old_segs = segs@;
        let ghost old_cursor = cursor;
        if cursor < cs {
            segs.push(TimeRange { start_ms: cursor, end_ms: cs });
        }
        if ce > cursor {
            cursor = ce;
        }
        proof {
            lemma_gaps_step(tail, old_cursor, duration_ms);
            assert(tail[0] == silences@[i as int]);
            assert(tail.drop_first() =~= silences@.skip(i + 1));
            let head: Seq<TimeRange> = if old_cursor < cs {
                seq![TimeRange { start_ms: old_cursor, end_ms: cs }]
            } else {
                Seq::<TimeRange>::empty()
            };
            assert(gaps_from(tail, old_cursor, duration_ms) == head + gaps_from(
                silences@.skip(i + 1),
                cursor,
                duration_ms,
            ));
            assert(segs@ =~= old_segs + head);
            assert(segs@ + gaps_from(silences@.skip(i + 1), cursor, duration_ms) =~= old_segs + (
            head + gaps_from(silences@.skip(i + 1), cursor, duration_ms)));
        }
        i = i + 1;
    }
    if cursor < duration_ms {
        segs.push(TimeRange { start_ms: cursor, end_ms: duration_ms });
    }
    proof {
        assert(silences@.skip(n as int) =~= Seq::<TimeRange>::empty());
        assert(segs@ =~= gaps_from(silences@, 0, duration_ms));
        lemma_gaps_wf(silences@, 0, duration_ms);
    }
    EditDecisionList { segments: segs, duration_ms }
}

} // verus!
