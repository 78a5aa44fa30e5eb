//! The whisper.cpp output shape and its mapping into the service-agnostic
//! transcription form. Running the binary and reading its files is the
//! caller's business.

use vstd::prelude::*;
use crate::quality::{Transcription, TranscriptionSegment};
use crate::text::{spec_trim, trim_str};
use super::common::{AbstractTranscription, AbstractTranscriptionSegment};

verus! {

/// The JSON document whisper.cpp writes.
#[derive(Debug, Clone)]
pub struct WhisperCppOutput {
    pub result: WhisperCppResult,
    pub transcription: Vec<WhisperCppSegment>,
}

/// Metadata of a whisper.cpp run.
#[derive(Debug, Clone)]
pub struct WhisperCppResult {
    pub language: String,
}

/// One whisper.cpp segment.
#[derive(Debug, Clone)]
pub struct WhisperCppSegment {
    pub timestamps: WhisperCppTimestamps,
    pub offsets: WhisperCppOffsets,
    pub text: String,
}

/// Rendered timestamps of a whisper.cpp segment.
#[derive(Debug, Clone)]
pub struct WhisperCppTimestamps {
    pub from: String,
    pub to: String,
}

/// Millisecond offsets of a whisper.cpp segment.
#[derive(Debug, Clone)]
pub struct WhisperCppOffsets {
    pub from: u64,
    pub to: u64,
}

/// The trimmed texts of the whisper.cpp segments joined with single
/// spaces.
pub open spec fn spec_joined_texts(segs: Seq<WhisperCppSegment>) -> Seq<char>
    decreases segs.len(),
{
    if segs.len() == 0 {
        Seq::empty()
    } else if segs.len() == 1 {
        spec_trim(segs.last().text@)
    } else {
        spec_joined_texts(segs.drop_last()) + " "@ + spec_trim(segs.last().text@)
    }
}

/// Maps whisper.cpp output into the service-agnostic form.
pub struct WhisperCppMapper;

impl WhisperCppMapper {
    /// Converts whisper.cpp output: segment ids are positions, offsets are
    /// taken as milliseconds, texts are trimmed, the full text is the
    /// space-joined trimmed segment texts, and the duration is the last
    /// segment's end.
    pub fn to_abstract_transcription(whisper_output: &WhisperCppOutput) -> (r: AbstractTranscription)
        requires
            whisper_output.transcription@.len() < 0x8000_0000,
        ensures
            r.language@ == whisper_output.result.language@,
            r.text@ == spec_joined_texts(whisper_output.transcription@),
            r.segments@.len() == whisper_output.transcription@.len(),
            forall|i: int|
                0 <= i < r.segments@.len() ==> {
                    let src = whisper_output.transcription@[i];
                    let dst = #[trigger] r.segments@[i];
                    &&& dst.id == i
                    &&& dst.start_time_ms == src.offsets.from
                    &&& dst.end_time_ms == src.offsets.to
                    &&& dst.text@ == spec_trim(src.text@)
                    &&& dst.confidence_milli is None
                    &&& dst.language matches Some(l) && l@ == whisper_output.result.language@
                },
            r.duration_ms == if r.segments@.len() > 0 {
                Some(whisper_output.transcription@.last().offsets.to)
            } else {
                None::<u64>
            },
    {
        let n = whisper_output.transcription.len();
        let mut segments: Vec<AbstractTranscriptionSegment> = Vec::new();
        let mut full_text = String::new();
        let mut i: usize = 0;
        proof {
            assert(whisper_output.transcription@.take(0) =~= Seq::<WhisperCppSegment>::empty());
            assert(full_text@ =~= spec_joined_texts(whisper_output.transcription@.take(0)));
        }
        while i < n
            invariant
                0 <= i <= n == whisper_output.transcription@.len(),
                n < 0x8000_0000,
                segments@.len() == i,
                full_text@ == spec_joined_texts(whisper_output.transcription@.take(i as int)),
                forall|k: int|
                    0 <= k < i ==> {
                        let src = whisper_output.transcription@[k];
                        let dst = #[trigger] segments@[k];
                        &&& dst.id == k
                        &&& dst.start_time_ms == src.offsets.from
                        &&& dst.end_time_ms == src.offsets.to
                        &&& dst.text@ == spec_trim(src.text@)
                        &&& dst.confidence_milli is None
                        &&& dst.language matches Some(l) && l@ == whisper_output.result.language@
                    },
            decreases n - i,
        {
            let seg = &whisper_output.transcription[i];
            let trimmed = trim_str(seg.text.as_str());
            if i > 0 {
                full_text.append(" ");
            }
            full_text.append(trimmed.as_str());
            segments.push(AbstractTranscriptionSegment {
                id: i as i32,
                start_time_ms: seg.offsets.from,
                end_time_ms: seg.offsets.to,
                text: trimmed,
                confidence_milli: None,
                language: Some(whisper_output.result.language.clone()),
            });
            i = i + 1;
            proof {
                let pre = whisper_output.transcription@.take(i as int);
                assert(pre.drop_last() =~= whisper_output.transcription@.take(i - 1));
                assert(pre.last() == whisper_output.transcription@[i - 1]);
                assert(full_text@ =~= spec_joined_texts(pre));
            }
        }
        proof {
            assert(whisper_output.transcription@.take(n as int) =~= whisper_output.transcription@);
        }
        let duration_ms = if n > 0 {
            Some(whisper_output.transcription[n - 1].offsets.to)
        } else {
            None
        };
        AbstractTranscription {
            text: full_text,
            segments,
            language: whisper_output.result.language.clone(),
            duration_ms,
            model_info: Some(model_name()),
        }
    }

    /// Converts the service-agnostic form into the transcript the quality
    /// logic works on; fields the service does not report take neutral
    /// defaults (compression ratio 1.0, no-speech probability the inverse
    /// of the confidence or 0.5).
    pub fn to_legacy_transcription(abstract_result: AbstractTranscription) -> (r: Transcription)
        ensures
            r.text@ == abstract_result.text@,
            r.language@ == abstract_result.language@,
            r.segments@.len() == abstract_result.segments@.len(),
            forall|i: int|
                0 <= i < r.segments@.len() ==> {
                    let src = abstract_result.segments@[i];
                    let dst = #[trigger] r.segments@[i];
                    &&& dst.id == src.id
                    &&& dst.start_ms == src.start_time_ms
                    &&& dst.end_ms == src.end_time_ms
                    &&& dst.text == src.text
                    &&& dst.tokens@.len() == 0
                    &&& dst.temperature_milli == 0
                    &&& dst.avg_logprob_milli == spec_confidence_or(src.confidence_milli, 0) as i64
                    &&& dst.compression_ratio_milli == 1000
                    &&& dst.no_speech_prob_milli == spec_inverse_confidence(src.confidence_milli)
                },
    {
        let n = abstract_result.segments.len();
        let mut segments: Vec<TranscriptionSegment> = Vec::new();
        let mut i: usize = 0;
        while i < n
            invariant
                0 <= i <= n == abstract_result.segments@.len(),
                segments@.len() == i,
                forall|k: int|
                    0 <= k < i ==> {
                        let src = abstract_result.segments@[k];
                        let dst = #[trigger] segments@[k];
                        &&& dst.id == src.id
                        &&& dst.start_ms == src.start_time_ms
                        &&& dst.end_ms == src.end_time_ms
                        &&& dst.text == src.text
                        &&& dst.tokens@.len() == 0
                        &&& dst.temperature_milli == 0
                        &&& dst.avg_logprob_milli == spec_confidence_or(src.confidence_milli, 0) as i64
                        &&& dst.compression_ratio_milli == 1000
                        &&& dst.no_speech_prob_milli == spec_inverse_confidence(src.confidence_milli)
                    },
            decreases n - i,
        {
            let seg = &abstract_result.segments[i];
            let confidence: u32 = match seg.confidence_milli {
                Some(c) => c,
                None => 0,
            };
            let inv_base: u32 = match seg.confidence_milli {
                Some(c) => c,
                None => 500,
            };
            let no_speech: u32 = if inv_base > 1000 { 0 } else { 1000 - inv_base };
            segments.push(TranscriptionSegment {
                id: seg.id,
                start_ms: seg.start_time_ms,
                end_ms: seg.end_time_ms,
                text: seg.text.clone(),
                tokens: Vec::new(),
                temperature_milli: 0,
                avg_logprob_milli: confidence as i64,
                compression_ratio_milli: 1000,
                no_speech_prob_milli: no_speech,
            });
            i = i + 1;
        }
        Transcription {
            text: abstract_result.text.clone(),
            segments,
            language: abstract_result.language.clone(),
        }
    }
}

/// The reported confidence in thousandths, or the default where the
/// service reports none.
pub open spec fn spec_confidence_or(c: Option<u32>, default: u32) -> u32 {
    match c {
        Some(v) => v,
        None => default,
    }
}

/// The no-speech probability derived from a confidence: its inverse in
/// thousandths, clamped at zero, with 0.5 where no confidence was
/// reported.
pub open spec fn spec_inverse_confidence(c: Option<u32>) -> u32 {
    let base = spec_confidence_or(c, 500);
    if base > 1000 { 0u32 } else { (1000 - base) as u32 }
}

fn model_name() -> (r: String)
    ensures
        r@ == "Whisper.cpp"@,
{
    let mut s = String::new();
    s.append("Whisper.cpp");
    assert(s@ =~= "Whisper.cpp"@);
    s
}

} // verus!
