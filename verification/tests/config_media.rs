use shuro::cli::clean_cutoff_time;
use shuro::config::{
    default_llm_confidence_threshold_milli, default_llm_window_size, parse_transcription_mode,
    parse_translation_mode, Config, TranscriptionMode, TranslationMode,
};
use shuro::error::ShuroError;
use shuro::media::commands::{MediaCommand, MediaCommandBuilder, MediaPresets};
use shuro::media::processor::MediaProcessorImpl;
use shuro::setup::{get_available_models, resolve_model_path, select_appropriate_model};
use shuro::transcribe::common::{AbstractTranscription, AbstractTranscriptionSegment};
use shuro::transcribe::whisper_cpp::{
    WhisperCppMapper, WhisperCppOffsets, WhisperCppOutput, WhisperCppResult, WhisperCppSegment,
    WhisperCppTimestamps,
};
use shuro::workflow::{is_video_extension, srt_output_name, video_output_name};
use shuro::translate::common::language_code_to_name;
use shuro::text::{norm_text, trim_str};

#[test]
fn mode_parsing_accepts_known_names_case_insensitively() {
    assert_eq!(parse_transcription_mode("Simple").unwrap(), TranscriptionMode::Simple);
    assert_eq!(parse_transcription_mode("TUNED").unwrap(), TranscriptionMode::Tuned);
    assert!(matches!(parse_transcription_mode("other"), Err(ShuroError::Config(_))));
    assert_eq!(parse_translation_mode("simple").unwrap(), TranslationMode::Simple);
    assert_eq!(parse_translation_mode("Context").unwrap(), TranslationMode::Context);
    assert_eq!(parse_translation_mode("NLP").unwrap(), TranslationMode::Nlp);
    assert!(matches!(parse_translation_mode("llm"), Err(ShuroError::Config(_))));
}

#[test]
fn stock_configuration_values() {
    let c = Config::default();
    assert_eq!(c.transcriber.explore_model, "base");
    assert_eq!(c.transcriber.transcribe_model, "medium");
    assert_eq!(c.transcriber.explore_steps, 10);
    assert_eq!(c.transcriber.explore_range_min, 80);
    assert_eq!(c.transcriber.explore_range_max, 110);
    assert_eq!(c.translate.max_retries, 3);
    assert_eq!(c.translate.nlp_gap_threshold_ms, 2000);
    assert_eq!(c.quality.min_quality_score_milli, 700);
    assert_eq!(c.media.binary_path, "ffmpeg");
    assert_eq!(default_llm_window_size(), 6);
    assert_eq!(default_llm_confidence_threshold_milli(), 600);
}

#[test]
fn cutoff_time_saturates() {
    assert_eq!(clean_cutoff_time(1_000_000, 1), 1_000_000 - 86400);
    assert_eq!(clean_cutoff_time(100, 30), 0);
}

#[test]
fn media_command_collects_arguments_in_order() {
    let cmd = MediaCommand::new("ffmpeg", "test")
        .overwrite()
        .input("in.mp4")
        .no_audio()
        .audio_sample_rate(16000)
        .audio_channels(1)
        .output("out.wav");
    assert_eq!(cmd.binary_path, "ffmpeg");
    assert_eq!(
        cmd.args,
        vec!["-y", "-i", "in.mp4", "-an", "-ar", "16000", "-ac", "1", "out.wav"]
    );
}

#[test]
fn audio_extraction_command_line() {
    let builder = MediaCommandBuilder::new("ffmpeg");
    let cmd = builder.extract_audio("movie.mkv", "sound.wav");
    assert_eq!(
        cmd.args,
        vec!["-i", "movie.mkv", "-vn", "-c:a", "pcm_s16le", "-ar", "16000", "-ac", "1", "-y",
            "sound.wav"]
    );
}

#[test]
fn subtitle_embedding_command_line() {
    let builder = MediaCommandBuilder::new("ffmpeg");
    let opts = vec!["-crf".to_string(), "23".to_string()];
    let cmd = builder.embed_subtitles("movie.mp4", "subs.srt", "out.mp4", &opts);
    assert_eq!(
        cmd.args,
        vec!["-y", "-i", "movie.mp4", "-vf", "subtitles=subs.srt", "-c:v", "libx264", "-c:a",
            "copy", "-crf", "23", "out.mp4"]
    );
}

#[test]
fn version_check_and_presets() {
    let builder = MediaCommandBuilder::new("ffmpeg");
    assert_eq!(builder.version_check().args, vec!["-version"]);
    let fast = MediaPresets::fast_encoding(builder.custom("enc"));
    assert_eq!(fast.args, vec!["-c:v", "libx264", "-preset", "ultrafast"]);
    let hq = MediaPresets::high_quality_video(builder.custom("enc"));
    assert_eq!(hq.args, vec!["-c:v", "libx264", "-crf", "18", "-preset", "slow"]);
    let web = MediaPresets::web_optimized(builder.custom("enc"));
    assert_eq!(
        web.args,
        vec!["-c:v", "libx264", "-movflags", "+faststart", "-pix_fmt", "yuv420p"]
    );
}

#[test]
fn processor_command_lines() {
    let p = MediaProcessorImpl::new("ffmpeg", vec![]);
    assert_eq!(
        p.convert_video_format("a.avi", "a.mp4").args,
        vec!["-i", "a.avi", "-c:v", "libx264", "-c:a", "copy", "-y", "a.mp4"]
    );
    assert_eq!(
        p.resize_video("a.mp4", "b.mp4", 1280, 720).args,
        vec!["-i", "a.mp4", "-vf", "scale=1280:720", "-c:v", "libx264", "-c:a", "copy", "-y",
            "b.mp4"]
    );
    assert_eq!(
        p.concatenate_videos("list.txt", "all.mp4").args,
        vec!["-f", "concat", "-safe", "0", "-i", "list.txt", "-c:v", "copy", "-c:a", "copy",
            "-y", "all.mp4"]
    );
}

#[test]
fn model_catalogue_is_coherent() {
    let models = get_available_models();
    assert_eq!(models.len(), 11);
    assert_eq!(models[0].name, "tiny");
    assert_eq!(models[2].name, "base");
    assert_eq!(models[6].name, "medium");
    for m in &models {
        assert_eq!(m.filename, format!("ggml-{}.bin", m.name));
        assert!(m.url.ends_with(&m.filename));
    }
}

#[test]
fn model_selection_prefers_then_falls_back() {
    let models = get_available_models();
    assert_eq!(select_appropriate_model(&models, "small").unwrap().name, "small");
    assert_eq!(select_appropriate_model(&models, "nonexistent").unwrap().name, "base");
    assert!(matches!(
        select_appropriate_model(&Vec::new(), "anything"),
        Err(ShuroError::Config(_))
    ));
}

#[test]
fn model_paths_resolve() {
    assert_eq!(resolve_model_path(".shuro/models", "base"), ".shuro/models/ggml-base.bin");
    assert_eq!(resolve_model_path(".shuro/models", "some/path"), "some/path");
    assert_eq!(resolve_model_path(".shuro/models", "custom.bin"), "custom.bin");
}

#[test]
fn video_extensions_and_output_names() {
    assert!(is_video_extension("mp4"));
    assert!(is_video_extension("MKV"));
    assert!(!is_video_extension("srt"));
    assert_eq!(srt_output_name("movie", "ja"), "movie_ja.srt");
    assert_eq!(video_output_name("movie", "ja"), "movie_ja.mp4");
}

#[test]
fn whisper_mapper_joins_and_times() {
    let output = WhisperCppOutput {
        result: WhisperCppResult { language: "en".to_string() },
        transcription: vec![
            WhisperCppSegment {
                timestamps: WhisperCppTimestamps {
                    from: "00:00:00,000".to_string(),
                    to: "00:00:01,000".to_string(),
                },
                offsets: WhisperCppOffsets { from: 0, to: 1000 },
                text: "  Hello  ".to_string(),
            },
            WhisperCppSegment {
                timestamps: WhisperCppTimestamps {
                    from: "00:00:01,000".to_string(),
                    to: "00:00:02,000".to_string(),
                },
                offsets: WhisperCppOffsets { from: 1000, to: 2000 },
                text: "world".to_string(),
            },
        ],
    };
    let a = WhisperCppMapper::to_abstract_transcription(&output);
    assert_eq!(a.text, "Hello world");
    assert_eq!(a.language, "en");
    assert_eq!(a.segments.len(), 2);
    assert_eq!(a.segments[0].text, "Hello");
    assert_eq!(a.segments[0].start_time_ms, 0);
    assert_eq!(a.segments[1].end_time_ms, 2000);
    assert_eq!(a.duration_ms, Some(2000));

    let legacy = WhisperCppMapper::to_legacy_transcription(a);
    assert_eq!(legacy.segments.len(), 2);
    assert_eq!(legacy.segments[0].compression_ratio_milli, 1000);
    // No confidence reported: the no-speech probability defaults to 0.5.
    assert_eq!(legacy.segments[0].no_speech_prob_milli, 500);
}

#[test]
fn abstract_conversion_inverts_confidence() {
    let a = AbstractTranscription {
        text: "t".to_string(),
        segments: vec![AbstractTranscriptionSegment {
            id: 0,
            start_time_ms: 0,
            end_time_ms: 1000,
            text: "t".to_string(),
            confidence_milli: Some(900),
            language: None,
        }],
        language: "en".to_string(),
        duration_ms: Some(1000),
        model_info: None,
    };
    let legacy = WhisperCppMapper::to_legacy_transcription(a);
    assert_eq!(legacy.segments[0].no_speech_prob_milli, 100);
    assert_eq!(legacy.segments[0].avg_logprob_milli, 900);
}

#[test]
fn language_codes_map_to_names() {
    assert_eq!(language_code_to_name("ja"), "Japanese");
    assert_eq!(language_code_to_name("JA"), "Japanese");
    assert_eq!(language_code_to_name("en"), "English");
    assert_eq!(language_code_to_name("mr"), "Marathi");
    // An unknown code comes back lowercased.
    assert_eq!(language_code_to_name("XX"), "xx");
}

#[test]
fn text_normalization_collapses_and_lowercases() {
    assert_eq!(norm_text("  Hello\t\tWORLD  "), "hello world");
    assert_eq!(norm_text(""), "");
    assert_eq!(trim_str("\r\n  padded  \t"), "padded");
}
