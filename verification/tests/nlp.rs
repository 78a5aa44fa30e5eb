use shuro::quality::TranscriptionSegment;
use shuro::translate::nlp::{
    build_sentences_from_segments, distribute_words, has_strong_sentence_ending,
    map_sentences_to_segments, split_by_length, split_by_sentences, Sentence,
};

fn seg(id: i32, start_ms: u64, end_ms: u64, text: &str) -> TranscriptionSegment {
    TranscriptionSegment {
        id,
        start_ms,
        end_ms,
        text: text.to_string(),
        tokens: Vec::new(),
        temperature_milli: 0,
        avg_logprob_milli: 0,
        compression_ratio_milli: 1000,
        no_speech_prob_milli: 0,
    }
}

#[test]
fn strong_endings() {
    assert!(has_strong_sentence_ending("It ends. Then more"));
    assert!(has_strong_sentence_ending("one. The next"));
    assert!(!has_strong_sentence_ending("no ending here"));
    assert!(!has_strong_sentence_ending("ends. but lowercase next"));
}

#[test]
fn sentences_split_at_punctuation_before_capitals() {
    let text = "This first sentence is comfortably long enough. Next one is also long enough to count.";
    let pieces = split_by_sentences(text);
    assert_eq!(pieces.len(), 2);
    assert_eq!(pieces[0], "This first sentence is comfortably long enough.");
    assert_eq!(pieces[1], "Next one is also long enough to count.");
    // The capital after the mark is what allows the split.
    let lower = "This first sentence is comfortably long enough. next one is also long enough to count.";
    assert_eq!(split_by_sentences(lower).len(), 1);
}

#[test]
fn short_fragments_do_not_split() {
    assert_eq!(split_by_sentences("Hi. Bye."), vec!["Hi. Bye.".to_string()]);
}

#[test]
fn split_by_length_respects_word_boundaries() {
    let mut long = String::new();
    for _ in 0..50 {
        long.push_str("word ");
    }
    let chunks = split_by_length(long.trim(), 120);
    assert!(chunks.len() > 1);
    for c in &chunks {
        assert!(!c.starts_with(' ') && !c.ends_with(' '));
        assert!(c.split_whitespace().all(|w| w == "word"));
    }
    let total: usize = chunks.iter().map(|c| c.split_whitespace().count()).sum();
    assert_eq!(total, 50);
}

#[test]
fn words_distribute_evenly_with_earlier_groups_longer() {
    let words: Vec<String> = ["a", "b", "c", "d", "e"].iter().map(|w| w.to_string()).collect();
    let groups = distribute_words(&words, 2);
    assert_eq!(groups, vec!["a b c".to_string(), "d e".to_string()]);
    let groups3 = distribute_words(&words, 3);
    assert_eq!(groups3, vec!["a b".to_string(), "c d".to_string(), "e".to_string()]);
}

#[test]
fn gap_closes_a_sentence() {
    let segments = vec![
        seg(0, 0, 1000, "first part"),
        seg(1, 1200, 2000, "still the same"),
        // A five-second silence follows.
        seg(2, 7000, 8000, "new thought"),
    ];
    let sentences = build_sentences_from_segments(&segments, 2000);
    assert_eq!(sentences.len(), 2);
    assert_eq!(sentences[0].text, "first part still the same");
    assert_eq!(sentences[0].start_time_ms, 0);
    assert_eq!(sentences[0].end_time_ms, 2000);
    assert_eq!(sentences[0].segment_indices, vec![0, 1]);
    assert_eq!(sentences[1].text, "new thought");
    assert_eq!(sentences[1].segment_indices, vec![2]);
}

#[test]
fn empty_segments_are_passed_over() {
    let segments = vec![seg(0, 0, 1000, "   "), seg(1, 1000, 2000, "")];
    assert_eq!(build_sentences_from_segments(&segments, 2000).len(), 0);
    let one = vec![seg(0, 0, 1000, "  "), seg(1, 1000, 2000, "content")];
    let sentences = build_sentences_from_segments(&one, 2000);
    assert_eq!(sentences.len(), 1);
    assert_eq!(sentences[0].text, "content");
}

#[test]
fn translated_words_map_back_proportionally() {
    let mut segments = vec![seg(0, 0, 1000, "one"), seg(1, 1000, 2000, "two"), seg(2, 2000, 3000, "keep")];
    let sentences = vec![Sentence {
        text: "uno dos tres cuatro".to_string(),
        start_time_ms: 0,
        end_time_ms: 2000,
        segment_indices: vec![0, 1],
    }];
    map_sentences_to_segments(&sentences, &mut segments);
    assert_eq!(segments[0].text, "uno dos");
    assert_eq!(segments[1].text, "tres cuatro");
    assert_eq!(segments[2].text, "keep");
    assert_eq!(segments[0].start_ms, 0);
    assert_eq!(segments[1].end_ms, 2000);
}

#[test]
fn out_of_range_indices_are_ignored() {
    let mut segments = vec![seg(0, 0, 1000, "only")];
    let sentences = vec![Sentence {
        text: "a b".to_string(),
        start_time_ms: 0,
        end_time_ms: 1000,
        segment_indices: vec![0, 9],
    }];
    map_sentences_to_segments(&sentences, &mut segments);
    assert_eq!(segments.len(), 1);
    assert_eq!(segments[0].text, "a");
}
