use shuro::quality::{Transcription, TranscriptionSegment};
use shuro::transcribe::common::{
    calculate_segment_smoothness, distinct_models, generate_tempo_range, select_best_tempo,
    summarize_entry_times, TranscriptionCache, TuneAttempt, WhisperUtils,
};

fn seg(start_ms: u64, end_ms: u64) -> TranscriptionSegment {
    TranscriptionSegment {
        id: 0,
        start_ms,
        end_ms,
        text: "x".to_string(),
        tokens: Vec::new(),
        temperature_milli: 0,
        avg_logprob_milli: 0,
        compression_ratio_milli: 1000,
        no_speech_prob_milli: 0,
    }
}

fn transcript(segments: Vec<TranscriptionSegment>) -> Transcription {
    Transcription { text: String::new(), segments, language: "en".to_string() }
}

#[test]
fn tempo_range_eighty_to_one_ten_in_ten_steps() {
    let r = generate_tempo_range(80, 110, 10);
    assert_eq!(r.len(), 10);
    assert_eq!(r[0], 80);
    assert_eq!(r[9], 110);
    for w in r.windows(2) {
        assert!(w[0] <= w[1]);
    }
    // Evenly spaced within rounding: each value is 80 + round(i * 30 / 9).
    assert_eq!(r, vec![80, 83, 87, 90, 93, 97, 100, 103, 107, 110]);
}

#[test]
fn tempo_range_single_step_is_default() {
    assert_eq!(generate_tempo_range(80, 110, 1), vec![100]);
    assert_eq!(generate_tempo_range(50, 200, 0), vec![100]);
    assert_eq!(generate_tempo_range(95, 40, -3), vec![100]);
}

#[test]
fn tempo_range_descending_bounds() {
    let r = generate_tempo_range(110, 80, 4);
    assert_eq!(r.first(), Some(&110));
    assert_eq!(r.last(), Some(&80));
    assert_eq!(r.len(), 4);
}

#[test]
fn smoothness_of_even_segments_is_scaled_one() {
    // Equal durations: the scaled second moment is exactly one million.
    let t = transcript(vec![seg(0, 1000), seg(1000, 2000), seg(2000, 3000)]);
    assert_eq!(calculate_segment_smoothness(&t), Some(1_000_000));
}

#[test]
fn smoothness_worse_for_uneven_segments() {
    let even = transcript(vec![seg(0, 1000), seg(1000, 2000)]);
    let uneven = transcript(vec![seg(0, 1900), seg(1900, 2000)]);
    let e = calculate_segment_smoothness(&even).unwrap();
    let u = calculate_segment_smoothness(&uneven).unwrap();
    assert!(u > e);
}

#[test]
fn smoothness_degenerate_transcripts_are_worst() {
    assert_eq!(calculate_segment_smoothness(&transcript(vec![])), None);
    assert_eq!(calculate_segment_smoothness(&transcript(vec![seg(0, 1000)])), None);
    // Two segments, but neither has a positive duration.
    assert_eq!(
        calculate_segment_smoothness(&transcript(vec![seg(5, 5), seg(7, 3)])),
        None
    );
}

#[test]
fn best_tempo_picks_lowest_score_first_wins_ties() {
    let attempts = vec![
        TuneAttempt { tempo: 80, smoothness_micro: Some(2_000_000) },
        TuneAttempt { tempo: 90, smoothness_micro: Some(1_200_000) },
        TuneAttempt { tempo: 100, smoothness_micro: None },
        TuneAttempt { tempo: 110, smoothness_micro: Some(1_200_000) },
    ];
    assert_eq!(select_best_tempo(&attempts), (90, Some(1_200_000)));
}

#[test]
fn best_tempo_defaults_to_hundred() {
    assert_eq!(select_best_tempo(&vec![]), (100, None));
    let all_failed = vec![
        TuneAttempt { tempo: 80, smoothness_micro: None },
        TuneAttempt { tempo: 90, smoothness_micro: None },
    ];
    assert_eq!(select_best_tempo(&all_failed), (100, None));
}

#[test]
fn whisper_utils_format_duration() {
    assert_eq!(WhisperUtils::format_duration(45), "45s");
    assert_eq!(WhisperUtils::format_duration(3 * 86400 + 7200), "3d 2h");
}

fn cache_entry(model: &str, cached_at: u64) -> TranscriptionCache {
    TranscriptionCache {
        transcription: transcript(vec![]),
        model: model.to_string(),
        temperature_milli: 0,
        language: None,
        audio_path: "a.wav".to_string(),
        audio_modified: None,
        cached_at,
    }
}

#[test]
fn cache_statistics_fold() {
    let entries = vec![
        cache_entry("base", 300),
        cache_entry("medium", 100),
        cache_entry("base", 200),
    ];
    let (count, oldest, newest) = summarize_entry_times(&entries);
    assert_eq!(count, 3);
    assert_eq!(oldest, Some(100));
    assert_eq!(newest, Some(300));
    let models = distinct_models(&entries);
    assert_eq!(models, vec!["base".to_string(), "medium".to_string()]);
    let (c0, o0, n0) = summarize_entry_times(&Vec::new());
    assert_eq!((c0, o0, n0), (0, None, None));
}
