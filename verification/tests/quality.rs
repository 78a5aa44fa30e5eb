use shuro::quality::{
    HallucinationPeriod, QualityValidator, Transcription, TranscriptionQuality,
    TranscriptionSegment,
};
use shuro::error::ShuroError;

fn seg(
    id: i32,
    start_ms: u64,
    end_ms: u64,
    text: &str,
    compression_ratio_milli: u32,
    no_speech_prob_milli: u32,
) -> TranscriptionSegment {
    TranscriptionSegment {
        id,
        start_ms,
        end_ms,
        text: text.to_string(),
        tokens: Vec::new(),
        temperature_milli: 0,
        avg_logprob_milli: 0,
        compression_ratio_milli,
        no_speech_prob_milli,
    }
}

fn transcript(segments: Vec<TranscriptionSegment>) -> Transcription {
    Transcription { text: String::new(), segments, language: "en".to_string() }
}

#[test]
fn score_formula_exact() {
    let q = TranscriptionQuality {
        tokens_max_segment: 12,
        repetitive_segments_milli: 250,
        hallucination_periods: vec![HallucinationPeriod {
            start_ms: 0,
            end_ms: 1000,
            confidence_milli: 900,
        }],
    };
    // 10 * 12 + 250 + 500 * 1
    assert_eq!(q.score(), 870);
}

#[test]
fn score_monotone_in_each_factor() {
    let base = TranscriptionQuality {
        tokens_max_segment: 5,
        repetitive_segments_milli: 100,
        hallucination_periods: vec![],
    };
    let more_tokens = TranscriptionQuality { tokens_max_segment: 6, ..base.clone() };
    let more_repetition = TranscriptionQuality { repetitive_segments_milli: 200, ..base.clone() };
    let more_hallucinations = TranscriptionQuality {
        hallucination_periods: vec![HallucinationPeriod {
            start_ms: 0,
            end_ms: 1,
            confidence_milli: 1,
        }],
        ..base.clone()
    };
    assert!(more_tokens.score() >= base.score());
    assert!(more_repetition.score() >= base.score());
    assert!(more_hallucinations.score() >= base.score());
}

#[test]
fn no_marker_means_no_hallucination() {
    // No segment has no_speech_prob > 0.8 or compression_ratio > 3.0.
    let t = transcript(vec![
        seg(0, 0, 1000, "one", 1400, 800),
        seg(1, 1000, 2000, "two", 3000, 100),
        seg(2, 2000, 3000, "three", 1000, 0),
    ]);
    let q = t.quality();
    assert!(!q.has_hallucinations());
    assert!(q.hallucination_periods.is_empty());
}

#[test]
fn silence_flag_needs_low_compression() {
    // High no-speech probability alone is not enough: compression must be
    // under 1.5.
    let flagged = transcript(vec![seg(0, 0, 1000, "x", 1499, 801)]);
    assert!(flagged.quality().has_hallucinations());
    let not_flagged = transcript(vec![seg(0, 0, 1000, "x", 1500, 801)]);
    assert!(!not_flagged.quality().has_hallucinations());
}

#[test]
fn repetition_flag_confidence() {
    let t = transcript(vec![seg(0, 500, 1500, "x", 3200, 0)]);
    let periods = t.detect_hallucinations();
    assert_eq!(periods.len(), 1);
    assert_eq!(periods[0].start_ms, 500);
    assert_eq!(periods[0].end_ms, 1500);
    // (3200 - 3000) / 10
    assert_eq!(periods[0].confidence_milli, 20);
}

#[test]
fn one_segment_can_carry_both_flags() {
    // Impossible for one segment (the silence flag needs compression under
    // 1.5, the repetition flag needs it over 3.0), so two segments.
    let t = transcript(vec![
        seg(0, 0, 1000, "a", 1000, 900),
        seg(1, 1000, 2000, "b", 3100, 0),
    ]);
    assert_eq!(t.detect_hallucinations().len(), 2);
}

#[test]
fn repetitive_ratio_counts_duplicates() {
    // "Hello" and " hello " normalize alike: 3 copies of one text and 1
    // other over 4 segments puts 2 duplicates over 4, so 500 thousandths.
    let t = transcript(vec![
        seg(0, 0, 1, "Hello", 1000, 0),
        seg(1, 1, 2, " hello ", 1000, 0),
        seg(2, 2, 3, "HELLO", 1000, 0),
        seg(3, 3, 4, "bye", 1000, 0),
    ]);
    let q = t.quality();
    assert_eq!(q.repetitive_segments_milli, 500);
}

#[test]
fn empty_texts_do_not_count_as_repetition() {
    let t = transcript(vec![
        seg(0, 0, 1, "  ", 1000, 0),
        seg(1, 1, 2, "", 1000, 0),
        seg(2, 2, 3, "a", 1000, 0),
    ]);
    assert_eq!(t.quality().repetitive_segments_milli, 0);
}

#[test]
fn empty_transcript_quality() {
    let t = transcript(vec![]);
    let q = t.quality();
    assert_eq!(q.tokens_max_segment, 0);
    assert_eq!(q.repetitive_segments_milli, 0);
    assert!(!q.has_hallucinations());
    assert_eq!(q.score(), 0);
}

#[test]
fn max_token_count_over_segments() {
    let mut a = seg(0, 0, 1, "a", 1000, 0);
    a.tokens = vec![1, 2, 3];
    let mut b = seg(1, 1, 2, "b", 1000, 0);
    b.tokens = vec![4];
    let t = transcript(vec![a, b]);
    assert_eq!(t.quality().tokens_max_segment, 3);
}

#[test]
fn validate_rejects_hallucination_whatever_the_thresholds() {
    let validator = QualityValidator::new(u64::MAX, u64::MAX, u64::MAX);
    let t = transcript(vec![seg(0, 0, 1000, "x", 3100, 0)]);
    match validator.validate_transcription(&t) {
        Err(ShuroError::Hallucination) => {},
        other => panic!("expected a hallucination rejection, got {:?}", other.is_ok()),
    }
}

#[test]
fn validate_rejects_repetition_over_threshold() {
    let validator = QualityValidator::new(400, 1000, 100_000);
    let t = transcript(vec![
        seg(0, 0, 1, "same", 1000, 0),
        seg(1, 1, 2, "same", 1000, 0),
    ]);
    match validator.validate_transcription(&t) {
        Err(ShuroError::Quality(_)) => {},
        other => panic!("expected a quality rejection, got {:?}", other.is_ok()),
    }
}

#[test]
fn validate_rejects_long_segments() {
    let validator = QualityValidator::new(1000, 2, 100_000);
    let mut a = seg(0, 0, 1, "a", 1000, 0);
    a.tokens = vec![1, 2, 3];
    let t = transcript(vec![a]);
    match validator.validate_transcription(&t) {
        Err(ShuroError::Quality(_)) => {},
        other => panic!("expected a quality rejection, got {:?}", other.is_ok()),
    }
}

#[test]
fn validate_rejects_low_aggregate_score() {
    // Score is 10 * 3 = 30; threshold 29 rejects.
    let validator = QualityValidator::new(1000, 50, 29);
    let mut a = seg(0, 0, 1, "a", 1000, 0);
    a.tokens = vec![1, 2, 3];
    let t = transcript(vec![a]);
    match validator.validate_transcription(&t) {
        Err(ShuroError::Quality(_)) => {},
        other => panic!("expected a quality rejection, got {:?}", other.is_ok()),
    }
}

#[test]
fn clean_three_segment_transcript_validates() {
    // Three clean segments, repetitive share zero, threshold 0.7.
    let validator = QualityValidator::new(800, 50, 700);
    let t = transcript(vec![
        seg(0, 0, 1000, "first thought", 1000, 0),
        seg(1, 1000, 2000, "second thought", 1000, 0),
        seg(2, 2000, 3000, "third thought", 1000, 0),
    ]);
    assert!(validator.validate_transcription(&t).is_ok());
}

#[test]
fn hallucination_error_message() {
    assert_eq!(
        ShuroError::Hallucination.message(),
        "Hallucination detected in transcription"
    );
}
