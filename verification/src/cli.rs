//! The command-line surface as plain data: the options and subcommands the
//! pipeline accepts. Argument parsing itself is the caller's business; the
//! values arrive here as plain strings and flags.

use vstd::prelude::*;

verus! {

/// The top-level invocation.
#[derive(Debug, Clone)]
pub struct Args {
    /// Enable verbose logging.
    pub verbose: bool,
    /// Configuration file path.
    pub config: Option<String>,
    pub command: Commands,
}

/// What the invocation asks for.
#[derive(Debug, Clone)]
pub enum Commands {
    /// Process one video file with subtitle translation.
    Process {
        input: String,
        target_langs: String,
        output_dir: Option<String>,
        translation_mode: String,
    },
    /// Process every video file in a directory.
    Batch {
        input_dir: String,
        target_langs: String,
        output_dir: Option<String>,
        translation_mode: String,
    },
    /// List the available transcription models and their status.
    Models { download: bool },
    /// Maintain the transcription cache.
    Cache { action: CacheAction },
    /// Extract audio from a video file.
    Extract { input: String, output: String },
    /// Transcribe audio to subtitles with hallucination detection.
    Transcribe { input: String, output: String, language: Option<String> },
    /// Translate subtitles.
    Translate { input: String, output: String, target_langs: String },
    /// Embed subtitles into a video file.
    Embed { video: String, subtitles: String, output: String },
}

/// The cache maintenance operations.
#[derive(Debug, Clone)]
pub enum CacheAction {
    /// List cached transcriptions and audio files.
    List,
    /// Clear all cached transcriptions and audio files.
    Clear,
    /// Show cache statistics and size.
    Info,
    /// Clear cache entries older than the given number of days.
    Clean { days: u64 },
    /// List only cached transcriptions.
    ListTranscriptions,
    /// List only cached audio files.
    ListAudio,
    /// List only cached translations.
    ListTranslations,
    /// Clear only cached transcriptions.
    ClearTranscriptions,
    /// Clear only cached audio files.
    ClearAudio,
    /// Clear only cached translations.
    ClearTranslations,
}

/// The cutoff time a clean operation uses: the age in days converted to
/// seconds and taken off the current time, saturating at zero.
pub fn clean_cutoff_time(now: u64, max_age_days: u64) -> (r: u64)
    requires
        max_age_days < 213_503_982_334,
    ensures
        r == if now >= max_age_days * 86400 {
            now - max_age_days * 86400
        } else {
            0int
        },
{
    let age_seconds = max_age_days * 86400;
    if now >= age_seconds {
        now - age_seconds
    } else {
        0
    }
}

} // verus!
