//! The render-job dispatcher: probe, detect, plan, compile, invoke.
//!
//! The dispatcher itself runs no process. It is a state machine: each step
//! takes the job, its state and the outcome of the last external run, and
//! returns the next state with the next action — either another command to
//! run or the finished, typed result. The caller performs the commands and
//! feeds the outcomes back in.

use vstd::prelude::*;

use crate::detect::DetectionError;
use crate::detect::all_ws;
use crate::detect::detect;
use crate::detect::skip_ws;
use crate::detect::spec_detect;
use crate::detect::token_at;
use crate::edl::EditDecisionList;
use crate::edl::PlanningError;
use crate::edl::all_valid;
use crate::edl::from_keep_ranges;
use crate::edl::from_silence_ranges;
use crate::edl::gaps_from;
use crate::edl::has_overlap;
use crate::filtergraph::CompileError;
use crate::filtergraph::filter_expr_chars;
use crate::filtergraph::filter_expression;
use crate::filtergraph::is_identity;
use crate::numbers::fmt_i32;
use crate::numbers::fmt_ms;
use crate::numbers::int_chars;
use crate::numbers::ms_chars;
use crate::numbers::parse_ms;
use crate::numbers::spec_parse_ms;
use crate::timeline::TimeRange;
use crate::timeline::chronological;

verus! {

/// A requested output quality, a closed set; unknown names alias to
/// `Medium` at the boundary.
#[derive(Clone, Copy, Debug, PartialEq, Eq, Structural)]
pub enum QualityPreset {
    High,
    Medium,
    Low,
}

/// The preset a user-supplied name selects: unrecognized names mean
/// `Medium`.
pub open spec fn spec_preset_of(name: Seq<char>) -> QualityPreset {
    if name == "high"@ {
        QualityPreset::High
    } else if name == "low"@ {
        QualityPreset::Low
    } else {
        QualityPreset::Medium
    }
}

/// The constant-rate-factor value each preset maps to.
pub open spec fn spec_crf(q: QualityPreset) -> u64 {
    match q {
        QualityPreset::High => 18,
        QualityPreset::Medium => 23,
        QualityPreset::Low => 28,
    }
}

impl QualityPreset {
    /// Select a preset by name; any unrecognized name falls back to
    /// `Medium`.
    pub fn of_name(name: &str) -> (r: QualityPreset)
        ensures
            r == spec_preset_of(name@),
    {
        let n = String::from_str(name);
        if n == String::from_str("high") {
            QualityPreset::High
        } else if n == String::from_str("low") {
            QualityPreset::Low
        } else {
            QualityPreset::Medium
        }
    }

    /// The constant-rate-factor value of this preset.
    pub fn crf(self) -> (r: u64)
        ensures
            r == spec_crf(self),
    {
        match self {
            QualityPreset::High => 18,
            QualityPreset::Medium => 23,
            QualityPreset::Low => 28,
        }
    }
}

/// One command for the caller to run, as a program name and a plain
/// argument vector — no intermediate shell, so no quoting is needed.
#[derive(Clone, Debug)]
pub struct CommandSpec {
    pub program: String,
    pub args: Vec<String>,
}

/// What running one external command came to.
#[derive(Clone, Debug)]
pub enum ProcessOutcome {
    /// The process could not be started; the launcher's message.
    LaunchFailed(String),
    /// The process ran to completion with this exit code and captured
    /// output streams.
    Exited { code: i32, stdout: Vec<u8>, stderr: Vec<u8> },
}

/// The probe stage failed.
#[derive(Clone, Debug, PartialEq, Eq)]
pub enum ProbeError {
    /// The probe tool could not start; the launcher's message.
    Launch(String),
    /// The probe tool exited non-zero; its captured diagnostics.
    Failed(Vec<u8>),
    /// The probe tool's output was not a duration.
    UnparsableDuration,
}

/// The external process could not be started.
#[derive(Clone, Debug, PartialEq, Eq)]
pub struct LaunchError {
    pub message: String,
}

/// The external process started but exited non-zero.
#[derive(Clone, Debug, PartialEq, Eq)]
pub struct RenderError {
    pub diagnostics: Vec<u8>,
}

/// Everything a render job can fail with, kept apart by stage.
#[derive(Clone, Debug, PartialEq, Eq)]
pub enum JobError {
    Probe(ProbeError),
    Detection(DetectionError),
    Planning(PlanningError),
    Compile(CompileError),
    Launch(LaunchError),
    Render(RenderError),
}

/// The edit a job performs.
#[derive(Clone, Debug)]
pub enum OperationKind {
    /// Keep `[start_ms, end_ms)` by stream copy.
    Trim { start_ms: u64, end_ms: u64 },
    /// Keep exactly these ranges, validated against the probed duration.
    RemoveSegments { keeps: Vec<TimeRange> },
    /// Detect silences below the threshold and keep their complement.
    SilenceRemoval { threshold_db: i32, min_silence_ms: u64 },
    /// Extract the audio track as PCM.
    ExtractAudio,
    /// Re-encode at a quality preset.
    Export { quality: QualityPreset },
}

/// One user-initiated render: paths and the requested operation.
#[derive(Clone, Debug)]
pub struct RenderJob {
    pub input_path: String,
    pub output_path: String,
    pub operation: OperationKind,
}

/// Where a job stands between external runs.
#[derive(Clone, Copy, Debug, PartialEq, Eq, Structural)]
pub enum JobState {
    /// The probe command is running.
    AwaitingProbe,
    /// The analyzer is running against this probed duration.
    AwaitingAnalysis { duration_ms: u64 },
    /// The final transcoder invocation is running.
    AwaitingRender,
    /// The job is over; the last action carried its result.
    Finished,
}

/// What the caller must do next.
#[derive(Debug)]
pub enum Action {
    /// Run this command and feed the outcome back.
    Run(CommandSpec),
    /// The job is over with this result.
    Finish(Result<(), JobError>),
}

/// The views of an argument vector.
pub open spec fn arg_views(args: Seq<String>) -> Seq<Seq<char>> {
    Seq::new(args.len(), |i: int| args[i]@)
}

/// `a` runs `program` with exactly `args`.
pub open spec fn runs(a: Action, program: Seq<char>, args: Seq<Seq<char>>) -> bool {
    &&& a matches Action::Run(cmd)
    &&& (a matches Action::Run(cmd) ==> cmd.program@ == program && arg_views(cmd.args@) == args)
}

pub(crate) fn push_arg(args: &mut Vec<String>, s: &str)
    ensures
        arg_views(final(args)@) == arg_views(old(args)@).push(s@),
{
    args.push(String::from_str(s));
    proof {
        assert(arg_views(args@) =~= arg_views(old(args)@).push(s@));
    }
}

pub(crate) fn push_arg_string(args: &mut Vec<String>, s: String)
    ensures
        arg_views(final(args)@) == arg_views(old(args)@).push(s@),
{
    let ghost v = s@;
    args.push(s);
    proof {
        assert(arg_views(args@) =~= arg_views(old(args)@).push(v));
    }
}

/// Arguments asking the probe tool for the container duration alone,
/// in bare seconds on its standard output.
pub open spec fn probe_arg_views(input: Seq<char>) -> Seq<Seq<char>> {
    seq![
        "-v"@,
        "error"@,
        "-show_entries"@,
        "format=duration"@,
        "-of"@,
        "default=noprint_wrappers=1:nokey=1"@,
        input,
    ]
}

pub fn probe_args(input_path: &str) -> (r: Vec<String>)
    ensures
        arg_views(r@) == probe_arg_views(input_path@),
{
    let mut args: Vec<String> = Vec::new();
    push_arg(&mut args, "-v");
    push_arg(&mut args, "error");
    push_arg(&mut args, "-show_entries");
    push_arg(&mut args, "format=duration");
    push_arg(&mut args, "-of");
    push_arg(&mut args, "default=noprint_wrappers=1:nokey=1");
    push_arg(&mut args, input_path);
    proof {
        assert(arg_views(args@) =~= probe_arg_views(input_path@));
    }
    args
}

/// The duration the probe printed: its standard output must hold one
/// token, read as decimal seconds, with nothing but whitespace around
/// it — anything else is unparsable.
pub open spec fn spec_probe_duration(stdout: Seq<u8>) -> Option<u64> {
    let tok = token_at(stdout, 0);
    if all_ws(skip_ws(stdout.skip(0)).skip(tok.len() as int)) {
        spec_parse_ms(tok)
    } else {
        None
    }
}

/// Turn the probe run's outcome into a duration or a [`ProbeError`]:
/// a launch failure carries the launcher's message, a non-zero exit the
/// captured diagnostics, and an unreadable duration is its own error.
pub fn parse_probe_outcome(outcome: &ProcessOutcome) -> (r: Result<u64, ProbeError>)
    ensures
        match outcome {
            ProcessOutcome::LaunchFailed(m) => r matches Err(ProbeError::Launch(m2)) && m2@ == m@,
            ProcessOutcome::Exited { code, stdout, stderr } => {
                if code != 0 {
                    r matches Err(ProbeError::Failed(d)) && d@ == stderr@
                } else {
                    match spec_probe_duration(stdout@) {
                        Some(ms) => r == Ok::<u64, ProbeError>(ms),
                        None => r == Err::<u64, ProbeError>(ProbeError::UnparsableDuration),
                    }
                }
            },
        },
{
    match outcome {
        ProcessOutcome::LaunchFailed(m) => Err(ProbeError::Launch(m.clone())),
        ProcessOutcome::Exited { code, stdout, stderr } => {
            if *code != 0 {
                return Err(ProbeError::Failed(stderr.clone()));
            }
            let out = stdout.as_slice();
            let n = out.len();
            let (a, b) = crate::detect::token_bounds(out, 0);
            proof {
                assert(out@.skip(0) =~= out@);
                assert(out@.skip(a as int).skip(b - a) =~= out@.skip(b as int));
            }
            let mut k: usize = b;
            while k < n && crate::detect::ws_byte_at(out, k)
                invariant
                    n == out@.len(),
                    b <= k <= n,
                    forall|t: int| b <= t < k ==> crate::detect::is_ws_byte(#[trigger] out@[t]),
                decreases n - k,
            {
                k = k + 1;
            }
            if k < n {
                proof {
                    assert(!crate::detect::is_ws_byte(out@.skip(b as int)[k - b]));
                }
                return Err(ProbeError::UnparsableDuration);
            }
            proof {
                assert forall|t: int| 0 <= t < out@.skip(b as int).len() implies
                    crate::detect::is_ws_byte(#[trigger] out@.skip(b as int)[t]) by {
                    assert(crate::detect::is_ws_byte(out@[b + t]));
                }
            }
            match parse_ms(&out[a..b]) {
                Some(ms) => Ok(ms),
                None => Err(ProbeError::UnparsableDuration),
            }
        },
    }
}

/// Arguments for the analyzer invocation: a silence-detection filter at
/// `threshold_db` decibels and `min_silence_ms` minimum length, output
/// discarded, events on the diagnostic stream.
pub open spec fn analyze_arg_views(
    input: Seq<char>,
    threshold_db: i32,
    min_silence_ms: u64,
) -> Seq<Seq<char>> {
    seq![
        "-i"@,
        input,
        "-af"@,
        "silencedetect=noise="@ + int_chars(threshold_db as int) + "dB:d="@ + ms_chars(
            min_silence_ms as nat,
        ),
        "-f"@,
        "null"@,
        "-"@,
    ]
}

pub fn analyze_args(input_path: &str, threshold_db: i32, min_silence_ms: u64) -> (r: Vec<String>)
    ensures
        arg_views(r@) == analyze_arg_views(input_path@, threshold_db, min_silence_ms),
{
    let mut filter = String::from_str("silencedetect=noise=");
    filter.append(fmt_i32(threshold_db).as_str());
    filter.append("dB:d=");
    filter.append(fmt_ms(min_silence_ms).as_str());
    let mut args: Vec<String> = Vec::new();
    push_arg(&mut args, "-i");
    push_arg(&mut args, input_path);
    push_arg(&mut args, "-af");
    push_arg_string(&mut args, filter);
    push_arg(&mut args, "-f");
    push_arg(&mut args, "null");
    push_arg(&mut args, "-");
    proof {
        assert(arg_views(args@) =~= analyze_arg_views(input_path@, threshold_db, min_silence_ms));
    }
    args
}

/// Arguments for a whole-file stream copy.
pub open spec fn copy_arg_views(input: Seq<char>, output: Seq<char>) -> Seq<Seq<char>> {
    seq!["-i"@, input, "-c"@, "copy"@, output, "-y"@]
}

pub fn copy_args(input_path: &str, output_path: &str) -> (r: Vec<String>)
    ensures
        arg_views(r@) == copy_arg_views(input_path@, output_path@),
{
    let mut args: Vec<String> = Vec::new();
    push_arg(&mut args, "-i");
    push_arg(&mut args, input_path);
    push_arg(&mut args, "-c");
    push_arg(&mut args, "copy");
    push_arg(&mut args, output_path);
    push_arg(&mut args, "-y");
    proof {
        assert(arg_views(args@) =~= copy_arg_views(input_path@, output_path@));
    }
    args
}

/// Arguments for a stream-copy trim of `[start_ms, end_ms)`.
pub open spec fn trim_arg_views(
    input: Seq<char>,
    start_ms: u64,
    end_ms: u64,
    output: Seq<char>,
) -> Seq<Seq<char>> {
    seq![
        "-i"@,
        input,
        "-ss"@,
        ms_chars(start_ms as nat),
        "-to"@,
        ms_chars(end_ms as nat),
        "-c"@,
        "copy"@,
        output,
        "-y"@,
    ]
}

pub fn trim_args(input_path: &str, start_ms: u64, end_ms: u64, output_path: &str) -> (r: Vec<
    String,
>)
    ensures
        arg_views(r@) == trim_arg_views(input_path@, start_ms, end_ms, output_path@),
{
    let mut args: Vec<String> = Vec::new();
    push_arg(&mut args, "-i");
    push_arg(&mut args, input_path);
    push_arg(&mut args, "-ss");
    push_arg_string(&mut args, fmt_ms(start_ms));
    push_arg(&mut args, "-to");
    push_arg_string(&mut args, fmt_ms(end_ms));
    push_arg(&mut args, "-c");
    push_arg(&mut args, "copy");
    push_arg(&mut args, output_path);
    push_arg(&mut args, "-y");
    proof {
        assert(arg_views(args@) =~= trim_arg_views(input_path@, start_ms, end_ms, output_path@));
    }
    args
}

/// Arguments rendering a trim/concat filter graph over the kept ranges.
pub open spec fn concat_arg_views(
    input: Seq<char>,
    segments: Seq<TimeRange>,
    output: Seq<char>,
) -> Seq<Seq<char>> {
    seq![
        "-i"@,
        input,
        "-filter_complex"@,
        filter_expr_chars(segments),
        "-map"@,
        "[outv]"@,
        "-map"@,
        "[outa]"@,
        output,
        "-y"@,
    ]
}

pub fn concat_args(input_path: &str, edl: &EditDecisionList, output_path: &str) -> (r: Vec<String>)
    ensures
        arg_views(r@) == concat_arg_views(input_path@, edl.segments@, output_path@),
{
    let mut args: Vec<String> = Vec::new();
    push_arg(&mut args, "-i");
    push_arg(&mut args, input_path);
    push_arg(&mut args, "-filter_complex");
    push_arg_string(&mut args, filter_expression(edl));
    push_arg(&mut args, "-map");
    push_arg(&mut args, "[outv]");
    push_arg(&mut args, "-map");
    push_arg(&mut args, "[outa]");
    push_arg(&mut args, output_path);
    push_arg(&mut args, "-y");
    proof {
        assert(arg_views(args@) =~= concat_arg_views(input_path@, edl.segments@, output_path@));
    }
    args
}

/// Arguments extracting the audio track as 16-bit PCM.
pub open spec fn extract_audio_arg_views(input: Seq<char>, output: Seq<char>) -> Seq<Seq<char>> {
    seq!["-i"@, input, "-vn"@, "-acodec"@, "pcm_s16le"@, output, "-y"@]
}

pub fn extract_audio_args(input_path: &str, output_path: &str) -> (r: Vec<String>)
    ensures
        arg_views(r@) == extract_audio_arg_views(input_path@, output_path@),
{
    let mut args: Vec<String> = Vec::new();
    push_arg(&mut args, "-i");
    push_arg(&mut args, input_path);
    push_arg(&mut args, "-vn");
    push_arg(&mut args, "-acodec");
    push_arg(&mut args, "pcm_s16le");
    push_arg(&mut args, output_path);
    push_arg(&mut args, "-y");
    proof {
        assert(arg_views(args@) =~= extract_audio_arg_views(input_path@, output_path@));
    }
    args
}

/// Arguments for a quality re-encode at the preset's constant rate
/// factor.
pub open spec fn export_arg_views(
    input: Seq<char>,
    quality: QualityPreset,
    output: Seq<char>,
) -> Seq<Seq<char>> {
    seq![
        "-i"@,
        input,
        "-c:v"@,
        "libx264"@,
        "-crf"@,
        crate::numbers::dec_chars(spec_crf(quality) as nat),
        "-preset"@,
        "medium"@,
        output,
        "-y"@,
    ]
}

pub fn export_args(input_path: &str, quality: QualityPreset, output_path: &str) -> (r: Vec<String>)
    ensures
        arg_views(r@) == export_arg_views(input_path@, quality, output_path@),
{
    let mut args: Vec<String> = Vec::new();
    push_arg(&mut args, "-i");
    push_arg(&mut args, input_path);
    push_arg(&mut args, "-c:v");
    push_arg(&mut args, "libx264");
    push_arg(&mut args, "-crf");
    push_arg_string(&mut args, crate::numbers::fmt_u64(quality.crf()));
    push_arg(&mut args, "-preset");
    push_arg(&mut args, "medium");
    push_arg(&mut args, output_path);
    push_arg(&mut args, "-y");
    proof {
        assert(arg_views(args@) =~= export_arg_views(input_path@, quality, output_path@));
    }
    args
}

/// The command that renders a compiled plan: a stream copy for the
/// identity EDL, a filter-graph invocation otherwise, and the compile
/// error when the EDL has no segment.
fn plan_render_command(input_path: &str, output_path: &str, edl: &EditDecisionList) -> (r: (
    JobState,
    Action,
))
    ensures
        edl.segments@.len() == 0 ==> r.0 is Finished && (r.1 matches Action::Finish(res) && res
            == Err::<(), JobError>(JobError::Compile(CompileError::UnsupportedPlan))),
        is_identity(*edl) ==> r.0 is AwaitingRender && runs(
            r.1,
            "ffmpeg"@,
            copy_arg_views(input_path@, output_path@),
        ),
        edl.segments@.len() > 0 && !is_identity(*edl) ==> r.0 is AwaitingRender && runs(
            r.1,
            "ffmpeg"@,
            concat_arg_views(input_path@, edl.segments@, output_path@),
        ),
{
    match crate::filtergraph::compile(edl) {
        Err(e) => (JobState::Finished, Action::Finish(Err(JobError::Compile(e)))),
        Ok(crate::filtergraph::FilterPlan::Copy) => (
            JobState::AwaitingRender,
            Action::Run(
                CommandSpec {
                    program: String::from_str("ffmpeg"),
                    args: copy_args(input_path, output_path),
                },
            ),
        ),
        Ok(crate::filtergraph::FilterPlan::Concat(_)) => (
            JobState::AwaitingRender,
            Action::Run(
                CommandSpec {
                    program: String::from_str("ffmpeg"),
                    args: concat_args(input_path, edl, output_path),
                },
            ),
        ),
    }
}

/// Begin a job: operations that need the media duration first run the
/// probe; the others go straight to their single transcoder invocation.
pub fn start_job(job: &RenderJob) -> (r: (JobState, Action))
    ensures
        match job.operation {
            OperationKind::Trim { start_ms, end_ms } => r.0 is AwaitingRender && runs(
                r.1,
                "ffmpeg"@,
                trim_arg_views(job.input_path@, start_ms, end_ms, job.output_path@),
            ),
            OperationKind::RemoveSegments { .. } => r.0 is AwaitingProbe && runs(
                r.1,
                "ffprobe"@,
                probe_arg_views(job.input_path@),
            ),
            OperationKind::SilenceRemoval { .. } => r.0 is AwaitingProbe && runs(
                r.1,
                "ffprobe"@,
                probe_arg_views(job.input_path@),
            ),
            OperationKind::ExtractAudio => r.0 is AwaitingRender && runs(
                r.1,
                "ffmpeg"@,
                extract_audio_arg_views(job.input_path@, job.output_path@),
            ),
            OperationKind::Export { quality } => r.0 is AwaitingRender && runs(
                r.1,
                "ffmpeg"@,
                export_arg_views(job.input_path@, quality, job.output_path@),
            ),
        },
{
    match &job.operation {
        OperationKind::Trim { start_ms, end_ms } => (
            JobState::AwaitingRender,
            Action::Run(
                CommandSpec {
                    program: String::from_str("ffmpeg"),
                    args: trim_args(
                        job.input_path.as_str(),
                        *start_ms,
                        *end_ms,
                        job.output_path.as_str(),
                    ),
                },
            ),
        ),
        OperationKind::RemoveSegments { .. } => (
            JobState::AwaitingProbe,
            Action::Run(
                CommandSpec {
                    program: String::from_str("ffprobe"),
                    args: probe_args(job.input_path.as_str()),
                },
            ),
        ),
        OperationKind::SilenceRemoval { .. } => (
            JobState::AwaitingProbe,
            Action::Run(
                CommandSpec {
                    program: String::from_str("ffprobe"),
                    args: probe_args(job.input_path.as_str()),
                },
            ),
        ),
        OperationKind::ExtractAudio => (
            JobState::AwaitingRender,
            Action::Run(
                CommandSpec {
                    program: String::from_str("ffmpeg"),
                    args: extract_audio_args(job.input_path.as_str(), job.output_path.as_str()),
                },
            ),
        ),
        OperationKind::Export { quality } => (
            JobState::AwaitingRender,
            Action::Run(
                CommandSpec {
                    program: String::from_str("ffmpeg"),
                    args: export_args(job.input_path.as_str(), *quality, job.output_path.as_str()),
                },
            ),
        ),
    }
}

/// The step finished the job with exactly this result.
pub open spec fn finishes_with(r: (JobState, Action), res: Result<(), JobError>) -> bool {
    r.0 is Finished && (r.1 matches Action::Finish(res2) && res2 == res)
}

/// The step finished with a probe launch failure carrying this message.
pub open spec fn finishes_probe_launch(r: (JobState, Action), m: Seq<char>) -> bool {
    r.0 is Finished && (r.1 matches Action::Finish(Err(JobError::Probe(ProbeError::Launch(m2))))
        && m2@ == m)
}

/// The step finished with a failed probe carrying these diagnostics.
pub open spec fn finishes_probe_diag(r: (JobState, Action), d: Seq<u8>) -> bool {
    r.0 is Finished && (r.1 matches Action::Finish(Err(JobError::Probe(ProbeError::Failed(d2))))
        && d2@ == d)
}

/// The step finished with a launch failure carrying this message.
pub open spec fn finishes_launch_err(r: (JobState, Action), m: Seq<char>) -> bool {
    r.0 is Finished && (r.1 matches Action::Finish(Err(JobError::Launch(e))) && e.message@ == m)
}

/// The step finished with a render failure carrying these diagnostics.
pub open spec fn finishes_render_err(r: (JobState, Action), d: Seq<u8>) -> bool {
    r.0 is Finished && (r.1 matches Action::Finish(Err(JobError::Render(e))) && e.diagnostics@
        == d)
}

/// The step runs the command that renders an EDL with these segments:
/// a stream copy when they keep the whole file, the filter graph
/// otherwise, and the compile error when there is no segment.
pub open spec fn renders_segments(
    job: RenderJob,
    segs: Seq<TimeRange>,
    dur: u64,
    r: (JobState, Action),
) -> bool {
    if segs.len() == 0 {
        finishes_with(r, Err(JobError::Compile(CompileError::UnsupportedPlan)))
    } else if segs.len() == 1 && segs[0] == (TimeRange { start_ms: 0, end_ms: dur }) {
        r.0 is AwaitingRender && runs(r.1, "ffmpeg"@, copy_arg_views(job.input_path@, job.output_path@))
    } else {
        r.0 is AwaitingRender && runs(
            r.1,
            "ffmpeg"@,
            concat_arg_views(job.input_path@, segs, job.output_path@),
        )
    }
}

/// What a probed duration leads a segment-removal job to: the planning
/// errors exactly when the intent is invalid, else the render command of
/// the canonical EDL of the intent — some chronological arrangement of
/// exactly the kept ranges.
pub open spec fn keeps_plan_spec(
    job: RenderJob,
    keeps: Seq<TimeRange>,
    dur: u64,
    r: (JobState, Action),
) -> bool {
    if !all_valid(keeps, dur) {
        finishes_with(r, Err(JobError::Planning(PlanningError::OutOfBounds)))
    } else if has_overlap(keeps) {
        finishes_with(r, Err(JobError::Planning(PlanningError::Overlap)))
    } else if keeps.len() == 0 {
        renders_segments(
            job,
            if dur > 0 {
                seq![TimeRange { start_ms: 0, end_ms: dur }]
            } else {
                Seq::<TimeRange>::empty()
            },
            dur,
            r,
        )
    } else {
        exists|segs: Seq<TimeRange>|
            {
                &&& #[trigger] segs.to_multiset() == keeps.to_multiset()
                &&& chronological(segs)
                &&& renders_segments(job, segs, dur, r)
            }
    }
}

/// What a successful probe leads each operation to.
pub open spec fn probe_success_spec(job: RenderJob, dur: u64, r: (JobState, Action)) -> bool {
    match job.operation {
        OperationKind::SilenceRemoval { threshold_db, min_silence_ms } => r.0 == (
        JobState::AwaitingAnalysis { duration_ms: dur }) && runs(
            r.1,
            "ffmpeg"@,
            analyze_arg_views(job.input_path@, threshold_db, min_silence_ms),
        ),
        OperationKind::RemoveSegments { keeps } => keeps_plan_spec(job, keeps@, dur, r),
        // operations that never needed the probe go to their own command
        OperationKind::Trim { start_ms, end_ms } => r.0 is AwaitingRender && runs(
            r.1,
            "ffmpeg"@,
            trim_arg_views(job.input_path@, start_ms, end_ms, job.output_path@),
        ),
        OperationKind::ExtractAudio => r.0 is AwaitingRender && runs(
            r.1,
            "ffmpeg"@,
            extract_audio_arg_views(job.input_path@, job.output_path@),
        ),
        OperationKind::Export { quality } => r.0 is AwaitingRender && runs(
            r.1,
            "ffmpeg"@,
            export_arg_views(job.input_path@, quality, job.output_path@),
        ),
    }
}

/// How a step in `AwaitingProbe` handles the probe's outcome.
pub open spec fn probe_step_spec(
    job: RenderJob,
    outcome: ProcessOutcome,
    r: (JobState, Action),
) -> bool {
    match outcome {
        ProcessOutcome::LaunchFailed(m) => finishes_probe_launch(r, m@),
        ProcessOutcome::Exited { code, stdout, stderr } => if code != 0 {
            finishes_probe_diag(r, stderr@)
        } else {
            match spec_probe_duration(stdout@) {
                None => finishes_with(
                    r,
                    Err(JobError::Probe(ProbeError::UnparsableDuration)),
                ),
                Some(dur) => probe_success_spec(job, dur, r),
            }
        },
    }
}

/// How a step in `AwaitingAnalysis` handles the analyzer's outcome.
pub open spec fn analysis_step_spec(
    job: RenderJob,
    duration_ms: u64,
    outcome: ProcessOutcome,
    r: (JobState, Action),
) -> bool {
    match outcome {
        ProcessOutcome::LaunchFailed(m) => finishes_launch_err(r, m@),
        ProcessOutcome::Exited { code, stdout, stderr } => if code != 0 {
            finishes_render_err(r, stderr@)
        } else {
            match spec_detect(stderr@) {
                Err(e) => finishes_with(r, Err(JobError::Detection(e))),
                Ok(sil) => renders_segments(job, gaps_from(sil, 0, duration_ms), duration_ms, r),
            }
        },
    }
}

/// How a step in `AwaitingRender` turns the transcoder's outcome into the
/// job's result.
pub open spec fn render_step_spec(outcome: ProcessOutcome, r: (JobState, Action)) -> bool {
    match outcome {
        ProcessOutcome::LaunchFailed(m) => finishes_launch_err(r, m@),
        ProcessOutcome::Exited { code, stdout, stderr } => if code != 0 {
            finishes_render_err(r, stderr@)
        } else {
            finishes_with(r, Ok(()))
        },
    }
}

/// Advance a job by one external outcome.
///
/// In `AwaitingProbe` the outcome is the probe's: a failure finishes the
/// job with the matching [`ProbeError`]; a duration leads the operation to
/// its next command (the analyzer for silence removal, the planned
/// transcoder invocation for segment removal, the operation's own
/// invocation otherwise). In `AwaitingAnalysis` the analyzer's diagnostic
/// stream is parsed and the silence-removal plan is compiled and run. In
/// `AwaitingRender` the transcoder's exit decides the job's result. A
/// finished job stays finished; stepping one again reports a bare `Ok`,
/// never the result it finished with — that result travelled with the
/// `Finish` action that ended the job, and the caller must not step a
/// job past it.
#[verifier::rlimit(60)]
pub fn step_job(job: &RenderJob, state: JobState, outcome: &ProcessOutcome) -> (r: (
    JobState,
    Action,
))
    ensures
        state is AwaitingProbe ==> probe_step_spec(*job, *outcome, r),
        state matches JobState::AwaitingAnalysis { duration_ms } ==> analysis_step_spec(
            *job,
            duration_ms,
            *outcome,
            r,
        ),
        state is AwaitingRender ==> render_step_spec(*outcome, r),
        state is Finished ==> finishes_with(r, Ok(())),
{
    match state {
        JobState::AwaitingProbe => {
            let dur = match parse_probe_outcome(outcome) {
                Err(e) => {
                    return (JobState::Finished, Action::Finish(Err(JobError::Probe(e))));
                },
                Ok(dur) => dur,
            };
            match &job.operation {
                OperationKind::SilenceRemoval { threshold_db, min_silence_ms } => (
                    JobState::AwaitingAnalysis { duration_ms: dur },
                    Action::Run(
                        CommandSpec {
                            program: String::from_str("ffmpeg"),
                            args: analyze_args(
                                job.input_path.as_str(),
                                *threshold_db,
                                *min_silence_ms,
                            ),
                        },
                    ),
                ),
                OperationKind::RemoveSegments { keeps } => {
                    let edl = match from_keep_ranges(keeps, dur) {
                        Err(e) => {
                            return (
                                JobState::Finished,
                                Action::Finish(Err(JobError::Planning(e))),
                            );
                        },
                        Ok(edl) => edl,
                    };
                    let r = plan_render_command(
                        job.input_path.as_str(),
                        job.output_path.as_str(),
                        &edl,
                    );
                    proof {
                        if keeps@.len() > 0 {
                            assert(edl.segments@.to_multiset() == keeps@.to_multiset()
                                && chronological(edl.segments@));
                        }
                        if keeps@.len() == 0 && dur > 0 {
                            assert(is_identity(edl));
                        }
                    }
                    r
                },
                _ => {
                    // operations that never probe: run their own command
                    let (s2, a2) = start_job(job);
                    (s2, a2)
                },
            }
        },
        JobState::AwaitingAnalysis { duration_ms } => {
            match outcome {
                ProcessOutcome::LaunchFailed(m) => (
                    JobState::Finished,
                    Action::Finish(Err(JobError::Launch(LaunchError { message: m.clone() }))),
                ),
                ProcessOutcome::Exited { code, stdout, stderr } => {
                    if *code != 0 {
                        return (
                            JobState::Finished,
                            Action::Finish(
                                Err(
                                    JobError::Render(
                                        RenderError { diagnostics: stderr.clone() },
                                    ),
                                ),
                            ),
                        );
                    }
                    let silences = match detect(stderr.as_slice()) {
                        Err(e) => {
                            return (
                                JobState::Finished,
                                Action::Finish(Err(JobError::Detection(e))),
                            );
                        },
                        Ok(silences) => silences,
                    };
                    let edl = from_silence_ranges(&silences, duration_ms);
                    plan_render_command(job.input_path.as_str(), job.output_path.as_str(), &edl)
                },
            }
        },
        JobState::AwaitingRender => {
            match interpret_render_outcome(outcome) {
                Err(e) => (JobState::Finished, Action::Finish(Err(e))),
                Ok(()) => (JobState::Finished, Action::Finish(Ok(()))),
            }
        },
        JobState::Finished => (JobState::Finished, Action::Finish(Ok(()))),
    }
}

/// Turn the transcoder run's outcome into the job's result: launch
/// failures and non-zero exits are kept apart, and the diagnostics
/// travel with the error.
pub fn interpret_render_outcome(outcome: &ProcessOutcome) -> (r: Result<(), JobError>)
    ensures
        match outcome {
            ProcessOutcome::LaunchFailed(m) => r matches Err(JobError::Launch(e)) && e.message@
                == m@,
            ProcessOutcome::Exited { code, stdout, stderr } => {
                if code != 0 {
                    r matches Err(JobError::Render(e)) && e.diagnostics@ == stderr@
                } else {
                    r is Ok
                }
            },
        },
{
    match outcome {
        ProcessOutcome::LaunchFailed(m) => Err(
            JobError::Launch(LaunchError { message: m.clone() }),
        ),
        ProcessOutcome::Exited { code, stdout, stderr } => {
            if *code != 0 {
                Err(JobError::Render(RenderError { diagnostics: stderr.clone() }))
            } else {
                Ok(())
            }
        },
    }
}

} // verus!
