use shuro::quality::{Transcription, TranscriptionSegment};
use shuro::translate::common::{
    clean_translation_response, interpret_evaluation_response, interpret_translation_response,
    TranslationQuality,
};
use shuro::translate::context::{
    build_segment_context, length_check_exceeded, resolve_unit_translation, AttemptEvent,
    GateAction, RetryGate,
};
use shuro::translate::simple::apply_segment_translation;

fn seg(id: i32, text: &str) -> TranscriptionSegment {
    TranscriptionSegment {
        id,
        start_ms: id as u64 * 1000,
        end_ms: id as u64 * 1000 + 1000,
        text: text.to_string(),
        tokens: Vec::new(),
        temperature_milli: 0,
        avg_logprob_milli: 0,
        compression_ratio_milli: 1000,
        no_speech_prob_milli: 0,
    }
}

#[test]
fn judge_always_bad_exhausts_and_keeps_the_original() {
    let mut gate = RetryGate::new(3);
    let mut outcomes = Vec::new();
    while gate.has_attempts_left() {
        outcomes.push(gate.step(AttemptEvent::Judged(TranslationQuality::Bad)));
    }
    assert_eq!(outcomes, vec![GateAction::Retry, GateAction::Retry, GateAction::GiveUp]);
    assert_eq!(gate.attempts, 3);
    // The caller's fallback preserves the original text unchanged.
    let resolved = resolve_unit_translation("the original text", None);
    assert_eq!(resolved, "the original text");
}

#[test]
fn good_verdict_accepts_at_once() {
    let mut gate = RetryGate::new(3);
    assert_eq!(gate.step(AttemptEvent::Judged(TranslationQuality::Good)), GateAction::Accept);
    assert_eq!(gate.attempts, 1);
}

#[test]
fn over_long_translation_drops_the_context_and_spends_an_attempt() {
    let mut gate = RetryGate::new(2);
    assert!(!gate.context_dropped);
    assert_eq!(gate.step(AttemptEvent::TooLong), GateAction::Retry);
    assert!(gate.context_dropped);
    assert_eq!(gate.step(AttemptEvent::Judged(TranslationQuality::Invalid)), GateAction::GiveUp);
}

#[test]
fn request_and_judge_failures_retry() {
    let mut gate = RetryGate::new(3);
    assert_eq!(gate.step(AttemptEvent::RequestFailed), GateAction::Retry);
    assert_eq!(gate.step(AttemptEvent::JudgeFailed), GateAction::Retry);
    assert!(!gate.context_dropped);
}

#[test]
fn length_check_is_five_times_the_source() {
    assert!(!length_check_exceeded("ab", "1234567890"));
    assert!(length_check_exceeded("ab", "12345678901"));
}

#[test]
fn quality_labels() {
    assert!(TranslationQuality::from_str("perfect").is_acceptable());
    assert!(TranslationQuality::from_str("GOOD").is_acceptable());
    assert!(!TranslationQuality::from_str("Bad").is_acceptable());
    assert!(!TranslationQuality::from_str("INVALID").is_acceptable());
    // Unrecognized labels default leniently to GOOD.
    assert_eq!(TranslationQuality::from_str("shrug").to_str(), "GOOD");
    assert_eq!(TranslationQuality::from_str("BAD").to_str(), "BAD");
    assert_eq!(TranslationQuality::from_str("perfect").to_str(), "PERFECT");
    assert_eq!(TranslationQuality::from_str("Invalid").to_str(), "INVALID");
}

#[test]
fn evaluation_parses_json_then_keywords_then_lenient_default() {
    assert_eq!(
        interpret_evaluation_response("{\"evaluation\": \"PERFECT\"}").to_str(),
        "PERFECT"
    );
    assert_eq!(
        interpret_evaluation_response("{\"evaluation\": \"invalid\"}").to_str(),
        "INVALID"
    );
    assert_eq!(
        interpret_evaluation_response("I would call this good overall").to_str(),
        "GOOD"
    );
    assert_eq!(interpret_evaluation_response("quite BAD honestly").to_str(), "BAD");
    // Unparseable judge output defaults leniently, so a flaky judge cannot
    // force endless retries.
    assert_eq!(interpret_evaluation_response("???").to_str(), "GOOD");
    // PERFECT wins over GOOD when both occur.
    assert_eq!(interpret_evaluation_response("good, even perfect").to_str(), "PERFECT");
}

#[test]
fn translation_response_shapes() {
    assert_eq!(interpret_translation_response(""), None);
    assert_eq!(interpret_translation_response("   "), None);
    assert_eq!(
        interpret_translation_response("{\"text\": \"  bonjour  \"}"),
        Some("bonjour".to_string())
    );
    // Free-form output degrades to the cleaned first substantial line.
    assert_eq!(
        interpret_translation_response("Here are some options:\nbonjour le monde\n"),
        Some("bonjour le monde".to_string())
    );
}

#[test]
fn response_cleaner_filters_commentary() {
    let raw = "Here are two options:\n- premiere\n**bold**\nla vraie traduction\n";
    assert_eq!(clean_translation_response(raw), "la vraie traduction");
    // Nothing substantial: the first non-empty line wins.
    assert_eq!(clean_translation_response("- a\n- b"), "- a");
    // Nothing at all: the response comes back as it is.
    assert_eq!(clean_translation_response(""), "");
}

#[test]
fn segment_context_uses_neighbours_not_the_segment() {
    let segments = vec![seg(0, "zero"), seg(1, "one"), seg(2, "two"), seg(3, "three"), seg(4, "four")];
    assert_eq!(build_segment_context(&segments, 2, 1), "one three");
    assert_eq!(build_segment_context(&segments, 0, 2), "one two");
    assert_eq!(build_segment_context(&segments, 4, 2), "two three");
    assert_eq!(build_segment_context(&segments, 1, 0), "");
}

#[test]
fn failed_unit_keeps_the_segment_text() {
    let mut t = Transcription {
        text: String::new(),
        segments: vec![seg(0, "keep me"), seg(1, "translate me")],
        language: "en".to_string(),
    };
    apply_segment_translation(&mut t, 1, Some("done".to_string()));
    apply_segment_translation(&mut t, 0, None);
    assert_eq!(t.segments[0].text, "keep me");
    assert_eq!(t.segments[1].text, "done");
    assert_eq!(t.segments[1].start_ms, 1000);
}
