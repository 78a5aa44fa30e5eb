//! The pipeline's configuration model, with fixed-point integer fields:
//! times in milliseconds and ratios, probabilities and scores in
//! thousandths. Loading and saving configuration files is the caller's
//! business.

use vstd::prelude::*;
use crate::error::{ShuroError, ShuroResult, concat_msg};
use crate::text::{ascii_lower_str, spec_ascii_lower, str_eq};

verus! {

/// The transcription backend's settings.
#[derive(Debug, Clone)]
pub struct TranscriberConfig {
    pub binary_path: String,
    pub mode: TranscriptionMode,
    pub explore_model: String,
    pub transcribe_model: String,
    pub acceptable_languages: String,
    pub fallback_language: String,
    pub explore_steps: i32,
    pub explore_range_max: i32,
    pub explore_range_min: i32,
    /// Decoding temperature, in thousandths.
    pub temperature_milli: i32,
}

/// How transcription runs: one pass, or tempo exploration first.
#[derive(Debug, Clone, PartialEq, Eq, Structural)]
pub enum TranscriptionMode {
    Simple,
    Tuned,
}

/// The translation engine's settings.
#[derive(Debug, Clone)]
pub struct TranslateConfig {
    pub endpoint: String,
    pub model: String,
    pub max_retries: u32,
    pub mode: TranslationMode,
    /// The timing gap that closes a sentence, in milliseconds.
    pub nlp_gap_threshold_ms: u64,
    pub context_window_size: usize,
    pub llm_window_size: usize,
    /// The confidence a candidate needs, in thousandths.
    pub llm_confidence_threshold_milli: u64,
}

/// Which translation strategy runs.
#[derive(Debug, Clone, PartialEq, Eq, Structural)]
pub enum TranslationMode {
    Simple,
    Context,
    Nlp,
    Llm,
}

/// The quality thresholds, in the report's units.
#[derive(Debug, Clone)]
pub struct QualityConfig {
    pub repetitive_segment_threshold_milli: u64,
    pub max_tokens_threshold: u64,
    pub min_quality_score_milli: u64,
}

/// The media encoder's settings.
#[derive(Debug, Clone)]
pub struct MediaConfig {
    pub binary_path: String,
    pub subtitle_options: Vec<String>,
}

/// The whole pipeline configuration.
#[derive(Debug, Clone)]
pub struct Config {
    pub transcriber: TranscriberConfig,
    pub translate: TranslateConfig,
    pub quality: QualityConfig,
    pub media: MediaConfig,
}

/// The window size LLM mode analyses when none is configured.
pub fn default_llm_window_size() -> (r: usize)
    ensures
        r == 6,
{
    6
}

/// The confidence threshold LLM mode applies when none is configured, in
/// thousandths.
pub fn default_llm_confidence_threshold_milli() -> (r: u64)
    ensures
        r == 600,
{
    600
}

impl Default for Config {
    /// The stock configuration: tuned transcription with the base model
    /// exploring and the medium model transcribing, tempo 80 to 110 over
    /// ten steps, simple translation with three retries, and the standard
    /// quality thresholds (repetitive share 0.8, 50 tokens, score 0.7).
    fn default() -> (r: Self)
        ensures
            r.transcriber.binary_path@ == "whisper-cli"@,
            r.transcriber.mode == TranscriptionMode::Tuned,
            r.transcriber.explore_model@ == "base"@,
            r.transcriber.transcribe_model@ == "medium"@,
            r.transcriber.fallback_language@ == "en"@,
            r.transcriber.explore_steps == 10,
            r.transcriber.explore_range_max == 110,
            r.transcriber.explore_range_min == 80,
            r.transcriber.temperature_milli == 0,
            r.translate.endpoint@ == "http://localhost:11434"@,
            r.translate.model@ == "llama3.2:3b"@,
            r.translate.max_retries == 3,
            r.translate.mode == TranslationMode::Simple,
            r.translate.nlp_gap_threshold_ms == 2000,
            r.translate.context_window_size == 2,
            r.translate.llm_window_size == 15,
            r.translate.llm_confidence_threshold_milli == 600,
            r.quality.repetitive_segment_threshold_milli == 800,
            r.quality.max_tokens_threshold == 50,
            r.quality.min_quality_score_milli == 700,
            r.media.binary_path@ == "ffmpeg"@,
            r.media.subtitle_options@.len() == 0,
    {
        Config {
            transcriber: TranscriberConfig {
                binary_path: String::from_str("whisper-cli"),
                mode: TranscriptionMode::Tuned,
                explore_model: String::from_str("base"),
                transcribe_model: String::from_str("medium"),
                acceptable_languages: String::from_str(
                    "en,ja,ko,zh,fr,de,es,ru,it,pt,pl,nl,tr,ar,hi,th,vi,sv,da,no,fi,he,hu,cs,sk,bg,hr,sl,et,lv,lt,mt,ga,cy,eu,ca,gl,is,mk,sq,be,uk,az,kk,ky,uz,tg,am,ka,hy,ne,si,my,km,lo,ka,gu,pa,ta,te,kn,ml,bn,as,or,mr",
                ),
                fallback_language: String::from_str("en"),
                explore_steps: 10,
                explore_range_max: 110,
                explore_range_min: 80,
                temperature_milli: 0,
            },
            translate: TranslateConfig {
                endpoint: String::from_str("http://localhost:11434"),
                model: String::from_str("llama3.2:3b"),
                max_retries: 3,
                mode: TranslationMode::Simple,
                nlp_gap_threshold_ms: 2000,
                context_window_size: 2,
                llm_window_size: 15,
                llm_confidence_threshold_milli: 600,
            },
            quality: QualityConfig {
                repetitive_segment_threshold_milli: 800,
                max_tokens_threshold: 50,
                min_quality_score_milli: 700,
            },
            media: MediaConfig {
                binary_path: String::from_str("ffmpeg"),
                subtitle_options: Vec::new(),
            },
        }
    }
}

/// Parses a transcription mode name, ignoring ASCII case: `simple` or
/// `tuned`; anything else is a configuration error.
pub fn parse_transcription_mode(mode: &str) -> (r: ShuroResult<TranscriptionMode>)
    ensures
        ({
            let lowered = mode@.map_values(|c: char| spec_ascii_lower(c));
            if lowered == "simple"@ {
                r == Ok::<TranscriptionMode, ShuroError>(TranscriptionMode::Simple)
            } else if lowered == "tuned"@ {
                r == Ok::<TranscriptionMode, ShuroError>(TranscriptionMode::Tuned)
            } else {
                r matches Err(e) && e is Config
            }
        }),
{
    let lowered = ascii_lower_str(mode);
    if str_eq(lowered.as_str(), "simple") {
        Ok(TranscriptionMode::Simple)
    } else if str_eq(lowered.as_str(), "tuned") {
        Ok(TranscriptionMode::Tuned)
    } else {
        let detail = crate::text::trim_str(mode);
        Err(ShuroError::Config(concat_msg(
            "Invalid transcription mode; valid modes: simple, tuned. Got: ",
            &detail,
        )))
    }
}

/// Parses a translation mode name, ignoring ASCII case: `simple`,
/// `context` or `nlp`; anything else is a configuration error.
pub fn parse_translation_mode(mode: &str) -> (r: ShuroResult<TranslationMode>)
    ensures
        ({
            let lowered = mode@.map_values(|c: char| spec_ascii_lower(c));
            if lowered == "simple"@ {
                r == Ok::<TranslationMode, ShuroError>(TranslationMode::Simple)
            } else if lowered == "context"@ {
                r == Ok::<TranslationMode, ShuroError>(TranslationMode::Context)
            } else if lowered == "nlp"@ {
                r == Ok::<TranslationMode, ShuroError>(TranslationMode::Nlp)
            } else {
                r matches Err(e) && e is Config
            }
        }),
{
    let lowered = ascii_lower_str(mode);
    if str_eq(lowered.as_str(), "simple") {
        Ok(TranslationMode::Simple)
    } else if str_eq(lowered.as_str(), "context") {
        Ok(TranslationMode::Context)
    } else if str_eq(lowered.as_str(), "nlp") {
        Ok(TranslationMode::Nlp)
    } else {
        let detail = crate::text::trim_str(mode);
        Err(ShuroError::Config(concat_msg(
            "Invalid translation mode; valid modes: simple, context, nlp. Got: ",
            &detail,
        )))
    }
}

} // verus!
