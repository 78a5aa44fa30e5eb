//! The per-segment application step every strategy shares: a successful
//! unit translation replaces the segment's text, a failed one leaves the
//! original text in place, and nothing else about the transcript changes.

use vstd::prelude::*;
use crate::quality::{Transcription, TranscriptionSegment};
use crate::text::chars_vec;

verus! {

/// Folds one unit's outcome into the transcript: `Some` replaces segment
/// `idx`'s text with the translation, `None` (a failed or rejected unit)
/// keeps the original; every other field and segment is untouched, so one
/// bad unit can never damage the rest of the transcript.
pub fn apply_segment_translation(
    transcription: &mut Transcription,
    idx: usize,
    outcome: Option<String>,
)
    requires
        idx < old(transcription).segments@.len(),
    ensures
        final(transcription).text == old(transcription).text,
        final(transcription).language == old(transcription).language,
        final(transcription).segments@.len() == old(transcription).segments@.len(),
        forall|i: int|
            0 <= i < final(transcription).segments@.len() && i != idx
                ==> #[trigger] final(transcription).segments@[i] == old(
                transcription,
            ).segments@[i],
        ({
            let dst = final(transcription).segments@[idx as int];
            let src = old(transcription).segments@[idx as int];
            &&& dst.id == src.id
            &&& dst.start_ms == src.start_ms
            &&& dst.end_ms == src.end_ms
            &&& dst.tokens@ == src.tokens@
            &&& dst.temperature_milli == src.temperature_milli
            &&& dst.avg_logprob_milli == src.avg_logprob_milli
            &&& dst.compression_ratio_milli == src.compression_ratio_milli
            &&& dst.no_speech_prob_milli == src.no_speech_prob_milli
            &&& match outcome {
                Some(t) => dst.text == t,
                None => dst.text == src.text,
            }
        }),
{
    match outcome {
        Some(translation) => {
            let src = &transcription.segments[idx];
            let replacement = TranscriptionSegment {
                id: src.id,
                start_ms: src.start_ms,
                end_ms: src.end_ms,
                text: translation,
                tokens: copy_tokens_simple(&src.tokens),
                temperature_milli: src.temperature_milli,
                avg_logprob_milli: src.avg_logprob_milli,
                compression_ratio_milli: src.compression_ratio_milli,
                no_speech_prob_milli: src.no_speech_prob_milli,
            };
            transcription.segments.set(idx, replacement);
        },
        None => {},
    }
}

fn copy_tokens_simple(tokens: &Vec<i32>) -> (r: Vec<i32>)
    ensures
        r@ == tokens@,
{
    let mut out: Vec<i32> = Vec::new();
    let mut i: usize = 0;
    while i < tokens.len()
        invariant
            0 <= i <= tokens@.len(),
            out@ == tokens@.take(i as int),
        decreases tokens@.len() - i,
    {
        out.push(tokens[i]);
        assert(out@ =~= tokens@.take(i + 1 as int));
        i = i + 1;
    }
    assert(tokens@.take(tokens@.len() as int) =~= tokens@);
    out
}

/// The cache key a simple (context-free) unit translation uses: the
/// segment text, the target language, an empty context, and the model.
pub fn simple_translation_cache_key(segment_text: &str, target_language: &str, model: &str) -> (r:
    String)
    ensures
        r@ == crate::cache::spec_cache_key(
            crate::translate::common::spec_translation_key_parts(
                segment_text@,
                target_language@,
                Seq::empty(),
                model@,
            ),
        ),
{
    let empty = String::new();
    let r = crate::translate::common::generate_cache_key(
        segment_text,
        target_language,
        empty.as_str(),
        model,
    );
    proof {
        assert(empty@ =~= Seq::<char>::empty());
    }
    r
}

} // verus!
