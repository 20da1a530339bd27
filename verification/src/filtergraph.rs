//! Compiling an edit decision list into a transcoder filter plan.
//!
//! A single keep segment spanning the whole file needs no re-encode: the
//! plan is a stream copy. Anything else becomes a labeled trim/concat
//! filter graph: one video trim stage `v<i>` and one audio trim stage
//! `a<i>` per segment, in EDL order, feeding a final concat node that
//! produces the `outv`/`outa` output streams.

use vstd::prelude::*;

use crate::edl::EditDecisionList;
use crate::numbers::dec_chars;
use crate::numbers::fmt_ms;
use crate::numbers::fmt_u64;
use crate::numbers::ms_chars;
use crate::timeline::TimeRange;

verus! {

/// Why an EDL could not be compiled.
#[derive(Clone, Copy, Debug, PartialEq, Eq, Structural)]
pub enum CompileError {
    /// The EDL has a shape the single-input compiler cannot express
    /// (no segments at all).
    UnsupportedPlan,
}

/// One stage of the concat graph: a kept range with its stream labels.
#[derive(Clone, Debug)]
pub struct ConcatSegment {
    pub video_label: String,
    pub audio_label: String,
    pub range: TimeRange,
}

/// The compiled plan handed to the dispatcher.
#[derive(Clone, Debug)]
pub enum FilterPlan {
    /// Stream-copy remux: the EDL keeps the whole file.
    Copy,
    /// Trim/concat graph over the listed segments, in EDL order.
    Concat(Vec<ConcatSegment>),
}

/// The label of segment `i`'s video stream: `v<i>`.
pub open spec fn video_label_chars(i: nat) -> Seq<char> {
    "v"@ + dec_chars(i)
}

/// The label of segment `i`'s audio stream: `a<i>`.
pub open spec fn audio_label_chars(i: nat) -> Seq<char> {
    "a"@ + dec_chars(i)
}

/// The EDL keeps exactly the whole file in one piece.
pub open spec fn is_identity(edl: EditDecisionList) -> bool {
    edl.segments@.len() == 1 && edl.segments@[0] == (TimeRange {
        start_ms: 0,
        end_ms: edl.duration_ms,
    })
}

/// The video trim stage for segment `i`.
pub open spec fn video_stage_chars(i: nat, r: TimeRange) -> Seq<char> {
    "[0:v]trim=start="@ + ms_chars(r.start_ms as nat) + ":end="@ + ms_chars(r.end_ms as nat)
        + ",setpts=PTS-STARTPTS["@ + video_label_chars(i) + "];"@
}

/// The audio trim stage for segment `i`.
pub open spec fn audio_stage_chars(i: nat, r: TimeRange) -> Seq<char> {
    "[0:a]atrim=start="@ + ms_chars(r.start_ms as nat) + ":end="@ + ms_chars(r.end_ms as nat)
        + ",asetpts=PTS-STARTPTS["@ + audio_label_chars(i) + "];"@
}

/// All trim stages, in EDL order.
pub open spec fn stages_chars(rs: Seq<TimeRange>) -> Seq<char>
    decreases rs.len(),
{
    if rs.len() == 0 {
        Seq::<char>::empty()
    } else {
        stages_chars(rs.drop_last()) + video_stage_chars((rs.len() - 1) as nat, rs.last())
            + audio_stage_chars((rs.len() - 1) as nat, rs.last())
    }
}

/// The concat node's inputs: `[v0][a0][v1][a1]...`, in label order.
pub open spec fn concat_inputs_chars(n: nat) -> Seq<char>
    decreases n,
{
    if n == 0 {
        Seq::<char>::empty()
    } else {
        concat_inputs_chars((n - 1) as nat) + "["@ + video_label_chars((n - 1) as nat) + "]["@
            + audio_label_chars((n - 1) as nat) + "]"@
    }
}

/// The whole filter expression: every trim stage, then one concat node
/// that references all labels in order and emits `outv`/`outa`.
pub open spec fn filter_expr_chars(rs: Seq<TimeRange>) -> Seq<char> {
    stages_chars(rs) + concat_inputs_chars(rs.len()) + "concat=n="@ + dec_chars(rs.len())
        + ":v=1:a=1[outv][outa]"@
}

/// Round trip of silence removal with nothing detected: on a medium of
/// positive duration, the EDL derived from an empty silence sequence is
/// the identity edit, so [`compile`] turns it into a stream copy.
/// (On a zero-length medium the derived EDL has no segment and compiles
/// to `UnsupportedPlan` instead.)
pub proof fn lemma_zero_silences_copy(edl: EditDecisionList)
    requires
        edl.duration_ms > 0,
        edl.segments@ == crate::edl::gaps_from(
            Seq::<TimeRange>::empty(),
            0,
            edl.duration_ms,
        ),
    ensures
        is_identity(edl),
{
    assert(edl.segments@ =~= seq![TimeRange { start_ms: 0, end_ms: edl.duration_ms }]);
}

/// The label `v<i>`.
fn video_label(i: usize) -> (r: String)
    ensures
        r@ == video_label_chars(i as nat),
{
    let mut s = String::from_str("v");
    s.append(fmt_u64(i as u64).as_str());
    s
}

/// The label `a<i>`.
fn audio_label(i: usize) -> (r: String)
    ensures
        r@ == audio_label_chars(i as nat),
{
    let mut s = String::from_str("a");
    s.append(fmt_u64(i as u64).as_str());
    s
}

/// Compile an EDL into a filter plan.
///
/// One segment spanning `[0, duration)` compiles to `Copy`; one or more
/// segments compile to `Concat` with exactly one video and one audio
/// label per segment, numbered by EDL position; an EDL with no segment
/// is `UnsupportedPlan`.
pub fn compile(edl: &EditDecisionList) -> (r: Result<FilterPlan, CompileError>)
    ensures
        edl.segments@.len() == 0 <==> r == Err::<FilterPlan, CompileError>(
            CompileError::UnsupportedPlan,
        ),
        is_identity(*edl) ==> r matches Ok(FilterPlan::Copy),
        r matches Ok(FilterPlan::Copy) ==> is_identity(*edl),
        edl.segments@.len() > 0 && !is_identity(*edl) ==> (r matches Ok(p) && p matches
            FilterPlan::Concat(segs) && segs@.len() == edl.segments@.len() && (forall|i: int|
            0 <= i < segs@.len() ==> (#[trigger] segs@[i]).range == edl.segments@[i]
                && segs@[i].video_label@ == video_label_chars(i as nat) && segs@[i].audio_label@
                == audio_label_chars(i as nat))),
{
    let n = edl.segments.len();
    if n == 0 {
        return Err(CompileError::UnsupportedPlan);
    }
    if n == 1 {
        let s = edl.segments[0];
        if s.start_ms == 0 && s.end_ms == edl.duration_ms {
            return Ok(FilterPlan::Copy);
        }
    }
    let mut segs: Vec<ConcatSegment> = Vec::new();
    let mut i: usize = 0;
    while i < n
        invariant
            n == edl.segments@.len(),
            0 <= i <= n,
            segs@.len() == i,
            forall|j: int| 0 <= j < i ==> (#[trigger] segs@[j]).range == edl.segments@[j]
                && segs@[j].video_label@ == video_label_chars(j as nat) && segs@[j].audio_label@
                == audio_label_chars(j as nat),
        decreases n - i,
    {
        segs.push(
            ConcatSegment {
                video_label: video_label(i),
                audio_label: audio_label(i),
                range: edl.segments[i],
            },
        );
        i = i + 1;
    }
    Ok(FilterPlan::Concat(segs))
}

/// Append segment `i`'s video trim stage.
fn push_video_stage(out: &mut String, i: usize, s: TimeRange)
    ensures
        final(out)@ == old(out)@ + video_stage_chars(i as nat, s),
{
    out.append("[0:v]trim=start=");
    out.append(fmt_ms(s.start_ms).as_str());
    out.append(":end=");
    out.append(fmt_ms(s.end_ms).as_str());
    out.append(",setpts=PTS-STARTPTS[");
    out.append(video_label(i).as_str());
    out.append("];");
    proof {
        assert(out@ =~= old(out)@ + video_stage_chars(i as nat, s));
    }
}

/// Append segment `i`'s audio trim stage.
fn push_audio_stage(out: &mut String, i: usize, s: TimeRange)
    ensures
        final(out)@ == old(out)@ + audio_stage_chars(i as nat, s),
{
    out.append("[0:a]atrim=start=");
    out.append(fmt_ms(s.start_ms).as_str());
    out.append(":end=");
    out.append(fmt_ms(s.end_ms).as_str());
    out.append(",asetpts=PTS-STARTPTS[");
    out.append(audio_label(i).as_str());
    out.append("];");
    proof {
        assert(out@ =~= old(out)@ + audio_stage_chars(i as nat, s));
    }
}

/// Build the transcoder filter expression for the EDL's segments.
pub fn filter_expression(edl: &EditDecisionList) -> (r: String)
    ensures
        r@ == filter_expr_chars(edl.segments@),
{
    let n = edl.segments.len();
    let mut out = String::new();
    let mut i: usize = 0;
    proof {
        assert(edl.segments@.take(0) =~= Seq::<TimeRange>::empty());
    }
    while i < n
        invariant
            n == edl.segments@.len(),
            0 <= i <= n,
            out@ == stages_chars(edl.segments@.take(i as int)),
        decreases n - i,
    {
        let s = edl.segments[i];
        push_video_stage(&mut out, i, s);
        push_audio_stage(&mut out, i, s);
        proof {
            let pre = edl.segments@.take(i + 1);
            assert(pre.drop_last() =~= edl.segments@.take(i as int));
            assert(pre.last() == edl.segments@[i as int]);
            assert(out@ =~= stages_chars(pre));
        }
        i = i + 1;
    }
    proof {
        assert(edl.segments@.take(n as int) =~= edl.segments@);
    }
    let mut i: usize = 0;
    while i < n
        invariant
            n == edl.segments@.len(),
            0 <= i <= n,
            out@ == stages_chars(edl.segments@) + concat_inputs_chars(i as nat),
        decreases n - i,
    {
        out.append("[");
        out.append(video_label(i).as_str());
        out.append("][");
        out.append(audio_label(i).as_str());
        out.append("]");
        proof {
            assert(out@ =~= stages_chars(edl.segments@) + concat_inputs_chars((i + 1) as nat));
        }
        i = i + 1;
    }
    out.append("concat=n=");
    out.append(fmt_u64(n as u64).as_str());
    out.append(":v=1:a=1[outv][outa]");
    proof {
        assert(out@ =~= filter_expr_chars(edl.segments@));
    }
    out
}

} // verus!
