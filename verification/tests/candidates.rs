use shuro::quality::{Transcription, TranscriptionSegment};
use shuro::translate::llm::{
    collect_candidates, finalize_sentences, is_prefix_or_suffix, merge_candidates,
    parse_analysis_response, reconstruct_sentences_from_candidates, remove_markdown_code_blocks,
    sort_candidates_by_confidence, sort_candidates_by_length, try_flexible_json_parsing,
    update_transcription_with_sentences, validate_translation, window_end, should_stop_sliding,
    SentenceCandidate,
};

fn seg(id: i32, start_ms: u64, end_ms: u64, text: &str) -> TranscriptionSegment {
    TranscriptionSegment {
        id,
        start_ms,
        end_ms,
        text: text.to_string(),
        tokens: Vec::new(),
        temperature_milli: 0,
        avg_logprob_milli: 0,
        compression_ratio_milli: 1000,
        no_speech_prob_milli: 0,
    }
}

fn cand(text: &str, detection_count: u64, total_windows: u64) -> SentenceCandidate {
    SentenceCandidate { text: text.to_string(), detection_count, total_windows }
}

#[test]
fn prefix_merge_combines_counts() {
    // "hello" is a true prefix of "hello world": the merged candidate has
    // the combined count 5 and "hello" does not survive on its own.
    let cands = vec![cand("hello world", 3, 5), cand("hello", 2, 5)];
    let sorted = sort_candidates_by_length(cands);
    let merged = merge_candidates(&sorted);
    assert_eq!(merged.len(), 1);
    assert_eq!(merged[0].text, "hello world");
    assert_eq!(merged[0].detection_count, 5);
    assert!(merged.iter().all(|c| c.text != "hello"));
}

#[test]
fn suffix_merge_combines_counts() {
    let cands = vec![cand("the full sentence", 1, 4), cand("full sentence", 2, 4)];
    let sorted = sort_candidates_by_length(cands);
    let merged = merge_candidates(&sorted);
    assert_eq!(merged.len(), 1);
    assert_eq!(merged[0].detection_count, 3);
}

#[test]
fn unrelated_candidates_stay_separate() {
    let cands = vec![cand("one sentence", 2, 4), cand("another one entirely", 1, 4)];
    let sorted = sort_candidates_by_length(cands);
    let merged = merge_candidates(&sorted);
    assert_eq!(merged.len(), 2);
    let total: u64 = merged.iter().map(|c| c.detection_count).sum();
    assert_eq!(total, 3);
}

#[test]
fn prefix_check_is_normalized_and_strict() {
    assert!(is_prefix_or_suffix("hello", "Hello   world"));
    assert!(is_prefix_or_suffix("world", "hello world"));
    assert!(!is_prefix_or_suffix("hello world", "hello"));
    assert!(!is_prefix_or_suffix("same", "same"));
    assert!(!is_prefix_or_suffix("axe", "hello world"));
}

#[test]
fn collect_counts_in_first_occurrence_order() {
    let raw = vec![
        "b".to_string(),
        "a".to_string(),
        "b".to_string(),
        "b".to_string(),
    ];
    let cands = collect_candidates(&raw, 7);
    assert_eq!(cands.len(), 2);
    assert_eq!(cands[0].text, "b");
    assert_eq!(cands[0].detection_count, 3);
    assert_eq!(cands[1].text, "a");
    assert_eq!(cands[1].detection_count, 1);
    assert!(cands.iter().all(|c| c.total_windows == 7));
}

#[test]
fn threshold_boundary_is_inclusive() {
    // 3 detections over 5 windows is exactly a 0.6 confidence.
    let at = vec![cand("kept", 3, 5)];
    assert_eq!(finalize_sentences(at, 600).len(), 1);
    let below = vec![cand("dropped", 2, 5)];
    assert_eq!(finalize_sentences(below, 600).len(), 0);
    let zero_windows = vec![cand("never", 0, 0)];
    assert_eq!(finalize_sentences(zero_windows, 0).len(), 0);
}

#[test]
fn flexible_parsing_handles_the_four_shapes() {
    let direct = "{\"sentences\": [\"one\", \"two\"]}";
    assert_eq!(
        try_flexible_json_parsing(direct),
        Some(vec!["one".to_string(), "two".to_string()])
    );
    let fenced = "```json\n{\"sentences\": [\"one\"]}\n```";
    assert_eq!(try_flexible_json_parsing(fenced), Some(vec!["one".to_string()]));
    let prose = "Sure! Here you go: {\"sentences\": [\"one\"]} Hope that helps.";
    assert_eq!(try_flexible_json_parsing(prose), Some(vec!["one".to_string()]));
    let fenced_prose = "```\nnoise {\"sentences\": [\"one\"]} noise\n```";
    assert_eq!(try_flexible_json_parsing(fenced_prose), Some(vec!["one".to_string()]));
    assert_eq!(try_flexible_json_parsing("no json at all"), None);
    assert_eq!(try_flexible_json_parsing("{\"sentences\": [1, 2]}"), None);
}

#[test]
fn fence_stripping_shapes() {
    let strip = |s: &str| -> String { remove_markdown_code_blocks(s).into_iter().collect() };
    assert_eq!(strip("```json\n{\"a\":1}\n```"), "{\"a\":1}");
    assert_eq!(strip("``` {\"a\":1} ```"), "{\"a\":1}");
    assert_eq!(strip("`json {\"a\":1}`"), "{\"a\":1}");
    assert_eq!(strip("`x`"), "x");
    assert_eq!(strip("plain"), "plain");
}

#[test]
fn analysis_response_unwraps_the_envelope() {
    let enveloped =
        "{\"response\": \"{\\\"sentences\\\": [\\\"inner one\\\"]}\", \"done\": true}";
    assert_eq!(parse_analysis_response(enveloped), vec!["inner one".to_string()]);
    // A bad window yields no sentences, never an error.
    assert_eq!(parse_analysis_response("garbage"), Vec::<String>::new());
}

#[test]
fn translation_sanity_checks() {
    assert!(validate_translation("source text", "texte source"));
    assert!(!validate_translation("source", "   "));
    assert!(!validate_translation("source", " source "));
    // More than three times the source length.
    assert!(!validate_translation("ab", "1234567"));
    assert!(validate_translation("ab", "123456"));
}

#[test]
fn window_arithmetic() {
    assert_eq!(window_end(0, 6, 10), 6);
    assert_eq!(window_end(7, 6, 10), 10);
    assert!(should_stop_sliding(8, 10));
    assert!(!should_stop_sliding(7, 10));
    assert!(should_stop_sliding(0, 1));
}

#[test]
fn reconstruction_uses_candidates_or_falls_back() {
    let segments = vec![seg(0, 0, 1000, "a"), seg(1, 1000, 2000, "b")];
    let with = reconstruct_sentences_from_candidates(&segments, vec![cand("a b", 3, 4)]);
    assert_eq!(with.len(), 1);
    assert_eq!(with[0].text, "a b");
    assert_eq!(with[0].start_time_ms, 0);
    assert_eq!(with[0].end_time_ms, 2000);
    let fallback = reconstruct_sentences_from_candidates(&segments, vec![]);
    assert_eq!(fallback.len(), 2);
    assert_eq!(fallback[0].text, "a");
    assert_eq!(fallback[1].text, "b");
    assert_eq!(fallback[1].start_time_ms, 1000);
}

#[test]
fn rebuild_replaces_segments_wholesale() {
    let mut t = Transcription {
        text: "a b c".to_string(),
        segments: vec![seg(0, 0, 1000, "a"), seg(1, 1000, 2000, "b"), seg(2, 2000, 3000, "c")],
        language: "en".to_string(),
    };
    let mut s1 = reconstruct_sentences_from_candidates(&t.segments, vec![cand("a b c", 3, 4)]);
    s1[0].translated_text = "alles zusammen".to_string();
    update_transcription_with_sentences(&mut t, &s1);
    // One sentence against three segments: rebuilt wholesale.
    assert_eq!(t.segments.len(), 1);
    assert_eq!(t.segments[0].text, "alles zusammen");
    assert_eq!(t.segments[0].start_ms, 0);
    assert_eq!(t.segments[0].end_ms, 1000);
    assert_eq!(t.text, "alles zusammen");
}

#[test]
fn per_segment_fallback_keeps_timing() {
    let mut t = Transcription {
        text: "a b".to_string(),
        segments: vec![seg(0, 0, 1000, "a"), seg(1, 1000, 2000, "b")],
        language: "en".to_string(),
    };
    let mut sentences = reconstruct_sentences_from_candidates(&t.segments, vec![]);
    sentences[0].translated_text = "x".to_string();
    sentences[1].translated_text = "y".to_string();
    update_transcription_with_sentences(&mut t, &sentences);
    assert_eq!(t.segments.len(), 2);
    assert_eq!(t.segments[0].text, "x");
    assert_eq!(t.segments[0].start_ms, 0);
    assert_eq!(t.segments[1].text, "y");
    assert_eq!(t.segments[1].end_ms, 2000);
    assert_eq!(t.text, "a b");
}

#[test]
fn survivors_rank_by_confidence_descending() {
    let merged = vec![
        cand("low confidence", 1, 5),
        cand("high confidence", 4, 5),
        cand("middle confidence", 3, 5),
    ];
    let ranked = sort_candidates_by_confidence(merged);
    let counts: Vec<u64> = ranked.iter().map(|c| c.detection_count).collect();
    assert_eq!(counts, vec![4, 3, 1]);
    // Ties keep the earlier candidate in front.
    let tied = vec![cand("first", 2, 4), cand("second", 2, 4)];
    let ranked_tied = sort_candidates_by_confidence(tied);
    assert_eq!(ranked_tied[0].text, "first");
    assert_eq!(ranked_tied[1].text, "second");
}

#[test]
fn merge_never_drops_an_input_text() {
    // The folded shorter text survives inside the accepted longer one.
    let cands = vec![cand("a complete sentence", 2, 6), cand("complete sentence", 1, 6)];
    let merged = merge_candidates(&sort_candidates_by_length(cands));
    assert_eq!(merged.len(), 1);
    assert_eq!(merged[0].text, "a complete sentence");
    assert!(is_prefix_or_suffix("complete sentence", &merged[0].text));
}
