//! The OpenAI Whisper output shape and its mapping into the
//! service-agnostic transcription form. The confidence field is derived
//! from the average log-probability by the caller (it takes transcendental
//! arithmetic this library does not do) and arrives here as a plain value.

use vstd::prelude::*;
use crate::text::{spec_trim, trim_str};
use super::common::{AbstractTranscription, AbstractTranscriptionSegment};

verus! {

/// The JSON document the OpenAI Whisper tool writes, with its float fields
/// carried in thousandths.
#[derive(Debug, Clone)]
pub struct OpenAIWhisperOutput {
    pub text: String,
    pub segments: Vec<OpenAIWhisperSegment>,
    pub language: Option<String>,
}

/// One OpenAI Whisper segment, float fields in thousandths and times in
/// milliseconds.
#[derive(Debug, Clone)]
pub struct OpenAIWhisperSegment {
    pub id: i32,
    pub seek: Option<u64>,
    pub start_ms: u64,
    pub end_ms: u64,
    pub text: String,
    pub tokens: Option<Vec<i32>>,
    pub temperature_milli: Option<i32>,
    pub avg_logprob_milli: Option<i64>,
    pub compression_ratio_milli: Option<u32>,
    pub no_speech_prob_milli: Option<u32>,
    /// Confidence in thousandths, derived from `avg_logprob` by the caller.
    pub confidence_milli: Option<u32>,
}

/// Maps OpenAI Whisper output into the service-agnostic form.
pub struct OpenAIWhisperMapper;

impl OpenAIWhisperMapper {
    /// Converts OpenAI Whisper output: texts are trimmed, the language
    /// falls back to "unknown", and the duration is the last segment's
    /// end.
    pub fn to_abstract_transcription(whisper_output: &OpenAIWhisperOutput) -> (r: AbstractTranscription)
        requires
            whisper_output.segments@.len() < 0x8000_0000,
        ensures
            r.text@ == whisper_output.text@,
            (match whisper_output.language {
                Some(l) => r.language@ == l@,
                None => r.language@ == "unknown"@,
            }),
            r.segments@.len() == whisper_output.segments@.len(),
            forall|i: int|
                0 <= i < r.segments@.len() ==> {
                    let src = whisper_output.segments@[i];
                    let dst = #[trigger] r.segments@[i];
                    &&& dst.id == src.id
                    &&& dst.start_time_ms == src.start_ms
                    &&& dst.end_time_ms == src.end_ms
                    &&& dst.text@ == spec_trim(src.text@)
                    &&& dst.confidence_milli == src.confidence_milli
                },
            r.duration_ms == if whisper_output.segments@.len() > 0 {
                Some(whisper_output.segments@.last().end_ms)
            } else {
                None::<u64>
            },
    {
        let n = whisper_output.segments.len();
        let mut segments: Vec<AbstractTranscriptionSegment> = Vec::new();
        let mut i: usize = 0;
        while i < n
            invariant
                0 <= i <= n == whisper_output.segments@.len(),
                n < 0x8000_0000,
                segments@.len() == i,
                forall|k: int|
                    0 <= k < i ==> {
                        let src = whisper_output.segments@[k];
                        let dst = #[trigger] segments@[k];
                        &&& dst.id == src.id
                        &&& dst.start_time_ms == src.start_ms
                        &&& dst.end_time_ms == src.end_ms
                        &&& dst.text@ == spec_trim(src.text@)
                        &&& dst.confidence_milli == src.confidence_milli
                    },
            decreases n - i,
        {
            let seg = &whisper_output.segments[i];
            let language = match &whisper_output.language {
                Some(l) => Some(l.clone()),
                None => None,
            };
            segments.push(AbstractTranscriptionSegment {
                id: seg.id,
                start_time_ms: seg.start_ms,
                end_time_ms: seg.end_ms,
                text: trim_str(seg.text.as_str()),
                confidence_milli: seg.confidence_milli,
                language,
            });
            i = i + 1;
        }
        let duration_ms = if n > 0 {
            Some(whisper_output.segments[n - 1].end_ms)
        } else {
            None
        };
        let language = match &whisper_output.language {
            Some(l) => l.clone(),
            None => unknown_language(),
        };
        AbstractTranscription {
            text: whisper_output.text.clone(),
            segments,
            language,
            duration_ms,
            model_info: Some(model_name()),
        }
    }
}

fn unknown_language() -> (r: String)
    ensures
        r@ == "unknown"@,
{
    let mut s = String::new();
    s.append("unknown");
    assert(s@ =~= "unknown"@);
    s
}

fn model_name() -> (r: String)
    ensures
        r@ == "OpenAI Whisper"@,
{
    let mut s = String::new();
    s.append("OpenAI Whisper");
    assert(s@ =~= "OpenAI Whisper"@);
    s
}

} // verus!
