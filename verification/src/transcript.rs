//! Transcription support: preparing audio for the speech engine and
//! reading its JSON transcript.
//!
//! The engine is an external tool. It takes a mono 16 kHz PCM file —
//! staged at a per-job scratch name so concurrent jobs never collide — and
//! writes a JSON document with top-level `text`, `language`, `duration`
//! and a `segments` array of `{id, start, end, text}`. Reading that
//! document tolerates missing fields with the documented defaults: empty
//! text, language `en`, zero times. The JSON itself is parsed by an
//! outside library behind trusted wrappers; everything assembled from the
//! extracted fields is verified.

use vstd::prelude::*;
use vstd::utf8::encode_utf8;

use crate::dispatch::ProcessOutcome;
use crate::dispatch::arg_views;
use crate::dispatch::push_arg;
use crate::dispatch::push_arg_string;
use crate::numbers::dec_chars;
use crate::numbers::fmt_u64;
use crate::numbers::spec_parse_ms;
use crate::numbers::parse_ms;

verus! {

/// The transcription stage failed.
#[derive(Clone, Debug, PartialEq, Eq)]
pub enum TranscriptionError {
    /// The engine could not start; the launcher's message.
    EngineLaunch(String),
    /// The engine exited non-zero; its captured diagnostics.
    EngineFailed(Vec<u8>),
    /// The engine's output was not the transcript schema.
    SchemaMismatch,
}

/// One transcribed span.
#[derive(Clone, Debug, PartialEq, Eq)]
pub struct TranscriptionSegment {
    pub id: i64,
    pub start_ms: u64,
    pub end_ms: u64,
    pub text: String,
}

/// A whole transcript.
#[derive(Clone, Debug, PartialEq, Eq)]
pub struct TranscriptionResult {
    pub text: String,
    pub segments: Vec<TranscriptionSegment>,
    pub language: String,
    pub duration_ms: u64,
}

/// One size of the speech engine's model catalog.
#[derive(Clone, Debug, PartialEq, Eq)]
pub struct WhisperModel {
    pub name: String,
    pub size: String,
    pub vram: String,
    pub description: String,
}

// --- the document, named ---
//
// What the JSON library reads out of the engine's text depends on that
// text alone, so each aspect of the document gets a name, and the two
// trusted wrappers below tie their results to those names. Everything
// past the wrappers is verified against them.

/// Whether the text parses as a JSON document.
pub uninterp spec fn json_document(s: Seq<char>) -> bool;

/// The document's top-level `text` member, when it is a string.
pub uninterp spec fn doc_text(s: Seq<char>) -> Option<Seq<char>>;

/// The document's top-level `language` member, when it is a string.
pub uninterp spec fn doc_language(s: Seq<char>) -> Option<Seq<char>>;

/// The decimal text of the document's top-level `duration` member, when
/// it is a number.
pub uninterp spec fn doc_duration_text(s: Seq<char>) -> Option<Seq<char>>;

/// The number of elements of the document's `segments` array (zero when
/// it is absent or not an array).
pub uninterp spec fn doc_segment_count(s: Seq<char>) -> nat;

/// The `id` member of element `i` of the segments array, when it is an
/// integer that fits `i64`.
pub uninterp spec fn doc_segment_id(s: Seq<char>, i: int) -> Option<int>;

/// The decimal text of the `start` member of element `i` of the
/// segments array, when it is a number.
pub uninterp spec fn doc_segment_start_text(s: Seq<char>, i: int) -> Option<Seq<char>>;

/// The decimal text of the `end` member of element `i` of the segments
/// array, when it is a number.
pub uninterp spec fn doc_segment_end_text(s: Seq<char>, i: int) -> Option<Seq<char>>;

/// The `text` member of element `i` of the segments array, when it is a
/// string.
pub uninterp spec fn doc_segment_text(s: Seq<char>, i: int) -> Option<Seq<char>>;

/// The view of an optional string.
pub open spec fn opt_view(o: Option<String>) -> Option<Seq<char>> {
    match o {
        Some(s) => Some(s@),
        None => None,
    }
}

/// What the JSON library reads from the document's top level.
pub struct TranscriptTopFields {
    pub text: Option<String>,
    pub language: Option<String>,
    pub duration_text: Option<String>,
    pub segment_count: usize,
}

/// What the JSON library reads from one element of the segments array.
pub struct TranscriptSegmentFields {
    pub id: Option<i64>,
    pub start_text: Option<String>,
    pub end_text: Option<String>,
    pub text: Option<String>,
}

/// Relies on serde_json::from_str and Value's get/as_str/as_number/
/// as_array, with Number's Display for the duration's decimal text: the
/// text parses exactly when it is a JSON document, and the top-level
/// members are functions of the text alone, named above.
#[verifier::external_body]
fn json_top_fields(text: &str) -> (r: Option<TranscriptTopFields>)
    ensures
        r is Some <==> json_document(text@),
        r matches Some(f) ==> opt_view(f.text) == doc_text(text@),
        r matches Some(f) ==> opt_view(f.language) == doc_language(text@),
        r matches Some(f) ==> opt_view(f.duration_text) == doc_duration_text(text@),
        r matches Some(f) ==> f.segment_count == doc_segment_count(text@),
{
    let v: serde_json::Value = serde_json::from_str(text).ok()?;
    Some(TranscriptTopFields {
        text: v.get("text").and_then(|x| x.as_str()).map(|s| s.to_owned()),
        language: v.get("language").and_then(|x| x.as_str()).map(|s| s.to_owned()),
        duration_text: v.get("duration").and_then(|x| x.as_number()).map(|n| n.to_string()),
        segment_count: v.get("segments").and_then(|x| x.as_array()).map_or(0, |a| a.len()),
    })
}

/// Relies on serde_json::from_str and Value's get/as_array/as_i64/
/// as_str/as_number, with Number's Display for the decimal texts: the
/// members of element `i` of the document's segments array, functions of
/// the text and the index alone, named above; there is an element
/// exactly when `i` is under the array's length.
#[verifier::external_body]
fn json_segment_fields(text: &str, i: usize) -> (r: Option<TranscriptSegmentFields>)
    ensures
        r is Some <==> (json_document(text@) && (i as nat) < doc_segment_count(text@)),
        r matches Some(f) ==> (match f.id {
            Some(v) => doc_segment_id(text@, i as int) == Some(v as int),
            None => doc_segment_id(text@, i as int) is None,
        }),
        r matches Some(f) ==> opt_view(f.start_text) == doc_segment_start_text(text@, i as int),
        r matches Some(f) ==> opt_view(f.end_text) == doc_segment_end_text(text@, i as int),
        r matches Some(f) ==> opt_view(f.text) == doc_segment_text(text@, i as int),
{
    let v: serde_json::Value = serde_json::from_str(text).ok()?;
    let seg = v.get("segments")?.as_array()?.get(i)?;
    Some(TranscriptSegmentFields {
        id: seg.get("id").and_then(|x| x.as_i64()),
        start_text: seg.get("start").and_then(|x| x.as_number()).map(|n| n.to_string()),
        end_text: seg.get("end").and_then(|x| x.as_number()).map(|n| n.to_string()),
        text: seg.get("text").and_then(|x| x.as_str()).map(|s| s.to_owned()),
    })
}

// --- verified assembly of the transcript ---

pub open spec fn is_ws_char(c: char) -> bool {
    c == ' ' || c == '\t' || c == '\n' || c == '\r'
}

/// `s` without leading whitespace.
pub open spec fn trim_start_chars(s: Seq<char>) -> Seq<char>
    decreases s.len(),
{
    if s.len() > 0 && is_ws_char(s[0]) {
        trim_start_chars(s.drop_first())
    } else {
        s
    }
}

/// `s` without trailing whitespace.
pub open spec fn trim_end_chars(s: Seq<char>) -> Seq<char>
    decreases s.len(),
{
    if s.len() > 0 && is_ws_char(s.last()) {
        trim_end_chars(s.drop_last())
    } else {
        s
    }
}

/// `s` without leading and trailing whitespace.
pub open spec fn trimmed_chars(s: Seq<char>) -> Seq<char> {
    trim_end_chars(trim_start_chars(s))
}

proof fn lemma_trim_start_at(s: Seq<char>, m: int)
    requires
        0 <= m <= s.len(),
        forall|j: int| 0 <= j < m ==> is_ws_char(#[trigger] s[j]),
        m == s.len() || !is_ws_char(s[m]),
    ensures
        trim_start_chars(s) == s.skip(m),
    decreases m,
{
    if m == 0 {
        assert(s.skip(0) =~= s);
    } else {
        assert(is_ws_char(s[0]));
        assert forall|j: int| 0 <= j < m - 1 implies is_ws_char(#[trigger] s.drop_first()[j]) by {
            assert(is_ws_char(s[j + 1]));
        }
        lemma_trim_start_at(s.drop_first(), m - 1);
        assert(s.drop_first().skip(m - 1) =~= s.skip(m));
    }
}

proof fn lemma_trim_end_at(s: Seq<char>, m: int)
    requires
        0 <= m <= s.len(),
        forall|j: int| m <= j < s.len() ==> is_ws_char(#[trigger] s[j]),
        m == 0 || !is_ws_char(s[m - 1]),
    ensures
        trim_end_chars(s) == s.take(m),
    decreases s.len() - m,
{
    if m == s.len() {
        if s.len() > 0 {
            assert(!is_ws_char(s.last()));
        }
        assert(s.take(m) =~= s);
    } else {
        assert(is_ws_char(s.last()));
        assert forall|j: int| m <= j < s.len() - 1 implies is_ws_char(
            #[trigger] s.drop_last()[j],
        ) by {
            assert(is_ws_char(s[j]));
        }
        lemma_trim_end_at(s.drop_last(), m);
        assert(s.drop_last().take(m) =~= s.take(m));
    }
}

/// Whether the character at `i` is whitespace.
fn ws_at(s: &str, i: usize) -> (r: bool)
    requires
        i < s@.len(),
    ensures
        r == is_ws_char(s@[i as int]),
{
    let c = s.get_char(i);
    c == ' ' || c == '\t' || c == '\n' || c == '\r'
}

/// The text without leading and trailing whitespace.
pub fn trim_text(s: &str) -> (r: String)
    ensures
        r@ == trimmed_chars(s@),
{
    let n = s.unicode_len();
    let mut i: usize = 0;
    while i < n && ws_at(s, i)
        invariant
            n == s@.len(),
            0 <= i <= n,
            forall|j: int| 0 <= j < i ==> is_ws_char(#[trigger] s@[j]),
        decreases n - i,
    {
        i = i + 1;
    }
    if i == n {
        proof {
            lemma_trim_start_at(s@, n as int);
            assert(s@.skip(n as int) =~= Seq::<char>::empty());
            lemma_trim_end_at(Seq::<char>::empty(), 0);
            assert(Seq::<char>::empty().take(0) =~= Seq::<char>::empty());
        }
        return String::new();
    }
    let mut j: usize = n;
    while j > i && ws_at(s, j - 1)
        invariant
            n == s@.len(),
            0 <= i < n,
            i <= j <= n,
            !is_ws_char(s@[i as int]),
            forall|t: int| j <= t < n ==> is_ws_char(#[trigger] s@[t]),
        decreases j,
    {
        j = j - 1;
    }
    proof {
        lemma_trim_start_at(s@, i as int);
        let rest = s@.skip(i as int);
        assert forall|t: int| j - i <= t < rest.len() implies is_ws_char(#[trigger] rest[t]) by {
            assert(is_ws_char(s@[i + t]));
        }
        assert(j > i);
        assert(rest[j - i - 1] == s@[(j - 1) as int]);
        lemma_trim_end_at(rest, j - i);
        assert(rest.take(j - i) =~= s@.subrange(i as int, j as int));
    }
    String::from_str(s.substring_char(i, j))
}

/// Milliseconds read from a JSON number's decimal text; anything
/// unreadable (absent field, non-number, exponent form, negative) counts
/// as zero.
pub open spec fn ms_of_chars(text: Option<Seq<char>>) -> u64 {
    match text {
        None => 0,
        Some(t) => match spec_parse_ms(encode_utf8(t)) {
            Some(v) => v,
            None => 0,
        },
    }
}

/// The text of an optional document member, trimmed, empty when absent.
pub open spec fn trimmed_or_empty(text: Option<Seq<char>>) -> Seq<char> {
    match text {
        Some(t) => trimmed_chars(t),
        None => Seq::<char>::empty(),
    }
}

/// An optional language member, `en` when absent.
pub open spec fn language_or_default(language: Option<Seq<char>>) -> Seq<char> {
    match language {
        Some(l) => l,
        None => "en"@,
    }
}

/// An optional id member, zero when absent.
pub open spec fn id_or_zero(id: Option<int>) -> int {
    match id {
        Some(v) => v,
        None => 0,
    }
}

/// `seg` is exactly what the documented defaults make of element `i` of
/// the document's segments array.
pub open spec fn seg_fields_match(s: Seq<char>, i: int, seg: TranscriptionSegment) -> bool {
    &&& seg.id as int == id_or_zero(doc_segment_id(s, i))
    &&& seg.start_ms == ms_of_chars(doc_segment_start_text(s, i))
    &&& seg.end_ms == ms_of_chars(doc_segment_end_text(s, i))
    &&& seg.text@ == trimmed_or_empty(doc_segment_text(s, i))
}

/// `t` is exactly the transcript the document `s` describes: its trimmed
/// top-level text, its language (`en` when absent), its duration, and
/// one segment per element of the document's segments array, in order.
pub open spec fn transcript_matches(s: Seq<char>, t: TranscriptionResult) -> bool {
    &&& t.text@ == trimmed_or_empty(doc_text(s))
    &&& t.language@ == language_or_default(doc_language(s))
    &&& t.duration_ms == ms_of_chars(doc_duration_text(s))
    &&& t.segments@.len() == doc_segment_count(s)
    &&& forall|i: int|
        0 <= i < t.segments@.len() ==> seg_fields_match(s, i, #[trigger] t.segments@[i])
}

/// Milliseconds of an optional duration text, with the zero default.
pub fn ms_or_zero(text: &Option<String>) -> (r: u64)
    ensures
        r == ms_of_chars(opt_view(*text)),
{
    match text {
        None => 0,
        Some(t) => {
            match parse_ms(t.as_str().as_bytes()) {
                Some(v) => v,
                None => 0,
            }
        },
    }
}

/// One transcript segment from its extracted fields, with the documented
/// defaults: zero id and times, empty text; the text is trimmed.
pub fn segment_of_fields(
    id: Option<i64>,
    start_text: Option<String>,
    end_text: Option<String>,
    text: Option<String>,
) -> (r: TranscriptionSegment)
    ensures
        r.id == (match id {
            Some(v) => v,
            None => 0,
        }),
        r.start_ms == ms_of_chars(opt_view(start_text)),
        r.end_ms == ms_of_chars(opt_view(end_text)),
        r.text@ == trimmed_or_empty(opt_view(text)),
{
    let idv = match id {
        Some(v) => v,
        None => 0,
    };
    let textv = match &text {
        Some(t) => trim_text(t.as_str()),
        None => String::new(),
    };
    TranscriptionSegment {
        id: idv,
        start_ms: ms_or_zero(&start_text),
        end_ms: ms_or_zero(&end_text),
        text: textv,
    }
}

/// A whole transcript from its extracted top-level fields, with the
/// documented defaults: empty text, language `en`, zero duration.
pub fn transcript_of_fields(
    text: Option<String>,
    language: Option<String>,
    duration_text: Option<String>,
    segments: Vec<TranscriptionSegment>,
) -> (r: TranscriptionResult)
    ensures
        r.text@ == trimmed_or_empty(opt_view(text)),
        r.language@ == language_or_default(opt_view(language)),
        r.duration_ms == ms_of_chars(opt_view(duration_text)),
        r.segments == segments,
{
    let textv = match &text {
        Some(t) => trim_text(t.as_str()),
        None => String::new(),
    };
    let languagev = match language {
        Some(l) => l,
        None => String::from_str("en"),
    };
    TranscriptionResult {
        text: textv,
        segments,
        language: languagev,
        duration_ms: ms_or_zero(&duration_text),
    }
}

/// Read the engine's JSON transcript.
///
/// Succeeds exactly on text that is a JSON document; anything else is a
/// `SchemaMismatch`. Inside a document every member is optional, and the
/// result is exactly the transcript the document describes: trimmed
/// texts, `en` and zero for absent members, and one segment per element
/// of the document's segments array, in order.
pub fn parse_transcript(json_text: &str) -> (r: Result<TranscriptionResult, TranscriptionError>)
    ensures
        r is Ok <==> json_document(json_text@),
        r is Err ==> r == Err::<TranscriptionResult, TranscriptionError>(
            TranscriptionError::SchemaMismatch,
        ),
        r matches Ok(t) ==> transcript_matches(json_text@, t),
{
    let top = match json_top_fields(json_text) {
        None => {
            return Err(TranscriptionError::SchemaMismatch);
        },
        Some(top) => top,
    };
    let k = top.segment_count;
    let mut segments: Vec<TranscriptionSegment> = Vec::new();
    let mut i: usize = 0;
    while i < k
        invariant
            json_document(json_text@),
            k == doc_segment_count(json_text@),
            0 <= i <= k,
            segments@.len() == i,
            forall|j: int|
                0 <= j < i ==> seg_fields_match(json_text@, j, #[trigger] segments@[j]),
        decreases k - i,
    {
        let f = match json_segment_fields(json_text, i) {
            Some(f) => f,
            None => {
                // cannot happen: the index is under the array's length
                proof {
                    assert(false);
                }
                return Err(TranscriptionError::SchemaMismatch);
            },
        };
        segments.push(segment_of_fields(f.id, f.start_text, f.end_text, f.text));
        i = i + 1;
    }
    Ok(transcript_of_fields(top.text, top.language, top.duration_text, segments))
}

/// Turn the engine run's outcome into a transcript or the matching
/// error: a launch failure or a non-zero exit carries its message or
/// diagnostics; on a clean exit the engine's output must be a JSON
/// document, read exactly as [`parse_transcript`] states, else the job
/// fails with a `SchemaMismatch` — never a partial result.
pub fn interpret_engine_outcome(outcome: &ProcessOutcome, json_text: &str) -> (r: Result<
    TranscriptionResult,
    TranscriptionError,
>)
    ensures
        match outcome {
            ProcessOutcome::LaunchFailed(m) => r matches Err(TranscriptionError::EngineLaunch(m2))
                && m2@ == m@,
            ProcessOutcome::Exited { code, stdout, stderr } => {
                if code != 0 {
                    r matches Err(TranscriptionError::EngineFailed(d)) && d@ == stderr@
                } else {
                    &&& r is Ok <==> json_document(json_text@)
                    &&& r matches Ok(t) ==> transcript_matches(json_text@, t)
                    &&& r is Err ==> r == Err::<TranscriptionResult, TranscriptionError>(
                        TranscriptionError::SchemaMismatch,
                    )
                }
            },
        },
{
    match outcome {
        ProcessOutcome::LaunchFailed(m) => Err(TranscriptionError::EngineLaunch(m.clone())),
        ProcessOutcome::Exited { code, stdout, stderr } => {
            if *code != 0 {
                Err(TranscriptionError::EngineFailed(stderr.clone()))
            } else {
                parse_transcript(json_text)
            }
        },
    }
}

/// The per-job scratch file name for the staged PCM audio. Distinct job
/// identifiers give distinct names, so concurrent jobs never share a
/// scratch file.
pub fn scratch_wav_name(job_id: u64) -> (r: String)
    ensures
        r@ == "clipflow_audio_"@ + dec_chars(job_id as nat) + ".wav"@,
{
    let mut s = String::from_str("clipflow_audio_");
    s.append(fmt_u64(job_id).as_str());
    s.append(".wav");
    proof {
        assert(s@ =~= "clipflow_audio_"@ + dec_chars(job_id as nat) + ".wav"@);
    }
    s
}

/// Arguments staging the input's audio for the engine: mono, 16 kHz,
/// 16-bit PCM, written to the job's scratch path.
pub open spec fn stage_audio_arg_views(input: Seq<char>, scratch: Seq<char>) -> Seq<Seq<char>> {
    seq![
        "-i"@,
        input,
        "-vn"@,
        "-acodec"@,
        "pcm_s16le"@,
        "-ar"@,
        "16000"@,
        "-ac"@,
        "1"@,
        scratch,
        "-y"@,
    ]
}

pub fn stage_audio_args(input_path: &str, scratch_path: &str) -> (r: Vec<String>)
    ensures
        arg_views(r@) == stage_audio_arg_views(input_path@, scratch_path@),
{
    let mut args: Vec<String> = Vec::new();
    push_arg(&mut args, "-i");
    push_arg(&mut args, input_path);
    push_arg(&mut args, "-vn");
    push_arg(&mut args, "-acodec");
    push_arg(&mut args, "pcm_s16le");
    push_arg(&mut args, "-ar");
    push_arg(&mut args, "16000");
    push_arg(&mut args, "-ac");
    push_arg(&mut args, "1");
    push_arg(&mut args, scratch_path);
    push_arg(&mut args, "-y");
    proof {
        assert(arg_views(args@) =~= stage_audio_arg_views(input_path@, scratch_path@));
    }
    args
}

/// Arguments asking the engine for a JSON transcript of the staged audio.
pub open spec fn engine_arg_views(
    audio: Seq<char>,
    model: Seq<char>,
    output_dir: Seq<char>,
) -> Seq<Seq<char>> {
    seq![
        audio,
        "--model"@,
        model,
        "--output_format"@,
        "json"@,
        "--output_dir"@,
        output_dir,
        "--language"@,
        "English"@,
    ]
}

pub fn engine_args(audio_path: &str, model: &str, output_dir: &str) -> (r: Vec<String>)
    ensures
        arg_views(r@) == engine_arg_views(audio_path@, model@, output_dir@),
{
    let mut args: Vec<String> = Vec::new();
    push_arg(&mut args, audio_path);
    push_arg(&mut args, "--model");
    push_arg(&mut args, model);
    push_arg(&mut args, "--output_format");
    push_arg(&mut args, "json");
    push_arg(&mut args, "--output_dir");
    push_arg(&mut args, output_dir);
    push_arg(&mut args, "--language");
    push_arg(&mut args, "English");
    proof {
        assert(arg_views(args@) =~= engine_arg_views(audio_path@, model@, output_dir@));
    }
    args
}

/// One catalog entry.
fn model_entry(name: &str, size: &str, vram: &str, description: &str) -> (r: WhisperModel)
    ensures
        r.name@ == name@,
        r.size@ == size@,
        r.vram@ == vram@,
        r.description@ == description@,
{
    WhisperModel {
        name: String::from_str(name),
        size: String::from_str(size),
        vram: String::from_str(vram),
        description: String::from_str(description),
    }
}

/// The speech engine's model catalog, smallest first.
pub fn get_available_whisper_models() -> (r: Vec<WhisperModel>)
    ensures
        r@.len() == 5,
        r@[0].name@ == "tiny"@ && r@[0].size@ == "39 MB"@ && r@[0].vram@ == "~1 GB"@
            && r@[0].description@ == "Fastest, lowest quality"@,
        r@[1].name@ == "base"@ && r@[1].size@ == "74 MB"@ && r@[1].vram@ == "~1 GB"@
            && r@[1].description@ == "Good balance of speed/quality"@,
        r@[2].name@ == "small"@ && r@[2].size@ == "244 MB"@ && r@[2].vram@ == "~2 GB"@
            && r@[2].description@ == "Better accuracy"@,
        r@[3].name@ == "medium"@ && r@[3].size@ == "769 MB"@ && r@[3].vram@ == "~5 GB"@
            && r@[3].description@ == "High accuracy, slower"@,
        r@[4].name@ == "large"@ && r@[4].size@ == "1550 MB"@ && r@[4].vram@ == "~10 GB"@
            && r@[4].description@ == "Highest accuracy, slowest"@,
{
    let mut models: Vec<WhisperModel> = Vec::new();
    models.push(model_entry("tiny", "39 MB", "~1 GB", "Fastest, lowest quality"));
    models.push(model_entry("base", "74 MB", "~1 GB", "Good balance of speed/quality"));
    models.push(model_entry("small", "244 MB", "~2 GB", "Better accuracy"));
    models.push(model_entry("medium", "769 MB", "~5 GB", "High accuracy, slower"));
    models.push(model_entry("large", "1550 MB", "~10 GB", "Highest accuracy, slowest"));
    models
}

} // verus!
