use shuro::quality::{Transcription, TranscriptionSegment};
use shuro::subtitle::{format_srt_time, generate_srt_content};
use shuro::format_duration;

fn seg(id: i32, start_ms: u64, end_ms: u64, text: &str) -> TranscriptionSegment {
    TranscriptionSegment {
        id,
        start_ms,
        end_ms,
        text: text.to_string(),
        tokens: Vec::new(),
        temperature_milli: 0,
        avg_logprob_milli: 0,
        compression_ratio_milli: 1000,
        no_speech_prob_milli: 0,
    }
}

#[test]
fn test_format_srt_time() {
    assert_eq!(format_srt_time((0.0f64 * 1000.0) as u64), "00:00:00,000");
    assert_eq!(format_srt_time((65.123f64 * 1000.0) as u64), "00:01:05,123");
    assert_eq!(format_srt_time((3661.500f64 * 1000.0) as u64), "01:01:01,500");
}

#[test]
fn srt_time_grows_past_two_hour_digits() {
    // 100 hours.
    assert_eq!(format_srt_time(360_000_000), "100:00:00,000");
}

#[test]
fn srt_content_for_two_segments() {
    let t = Transcription {
        text: String::new(),
        segments: vec![seg(0, 0, 1500, "  Hello.  "), seg(1, 1500, 3000, "World.")],
        language: "en".to_string(),
    };
    let expected = "1\n00:00:00,000 --> 00:00:01,500\nHello.\n\n\
                    2\n00:00:01,500 --> 00:00:03,000\nWorld.\n\n";
    assert_eq!(generate_srt_content(&t), expected);
}

#[test]
fn srt_content_empty_transcript() {
    let t = Transcription { text: String::new(), segments: vec![], language: "en".to_string() };
    assert_eq!(generate_srt_content(&t), "");
}

#[test]
fn format_duration_unit_selection() {
    assert_eq!(format_duration(0), "0s");
    assert_eq!(format_duration(59), "59s");
    assert_eq!(format_duration(75), "1m 15s");
    assert_eq!(format_duration(3661), "1h 1m");
    assert_eq!(format_duration(90_061), "1d 1h");
}
