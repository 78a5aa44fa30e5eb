//! The pipeline's error taxonomy. Collaborator failures carry a message;
//! `Hallucination` is its own variant so callers can distinguish a quality
//! rejection they may override from one they may not.

use vstd::prelude::*;

verus! {

#[derive(Debug, Clone)]
pub enum ShuroError {
    /// A file could not be read or written.
    Io(String),
    /// A JSON payload could not be serialized or parsed.
    Json(String),
    /// A configuration file could not be parsed.
    Toml(String),
    /// An HTTP call to the model endpoint failed.
    Http(String),
    /// The transcriber collaborator failed.
    Whisper(String),
    /// The transcriber collaborator failed (modular backends).
    Transcriber(String),
    /// The translation collaborator failed.
    Translation(String),
    /// The media encoder collaborator failed.
    Media(String),
    /// A transcript breached a configured quality threshold.
    Quality(String),
    /// A transcript contains at least one hallucinated period.
    Hallucination,
    /// The configuration is unusable.
    Config(String),
    /// An input file does not exist.
    FileNotFound(String),
    /// An input file has a format the pipeline does not handle.
    UnsupportedFormat(String),
    /// The on-disk cache could not be maintained.
    Cache(String),
}

impl ShuroError {
    /// A human-readable description, in place of `Display`.
    pub fn message(&self) -> (r: String)
        ensures
            self is Hallucination ==> r@ == "Hallucination detected in transcription"@,
    {
        match self {
            ShuroError::Io(m) => concat_msg("IO error: ", m),
            ShuroError::Json(m) => concat_msg("JSON serialization error: ", m),
            ShuroError::Toml(m) => concat_msg("TOML parsing error: ", m),
            ShuroError::Http(m) => concat_msg("HTTP request error: ", m),
            ShuroError::Whisper(m) => concat_msg("Whisper transcription error: ", m),
            ShuroError::Transcriber(m) => concat_msg("Transcription error: ", m),
            ShuroError::Translation(m) => concat_msg("Translation error: ", m),
            ShuroError::Media(m) => concat_msg("Media processing error: ", m),
            ShuroError::Quality(m) => concat_msg("Quality validation error: ", m),
            ShuroError::Hallucination => hallucination_message(),
            ShuroError::Config(m) => concat_msg("Configuration error: ", m),
            ShuroError::FileNotFound(m) => concat_msg("File not found: ", m),
            ShuroError::UnsupportedFormat(m) => concat_msg("Unsupported format: ", m),
            ShuroError::Cache(m) => concat_msg("Cache error: ", m),
        }
    }
}

fn hallucination_message() -> (r: String)
    ensures
        r@ == "Hallucination detected in transcription"@,
{
    let mut s = String::new();
    s.append("Hallucination detected in transcription");
    assert(s@ =~= "Hallucination detected in transcription"@);
    s
}

/// `prefix` followed by `detail`.
pub fn concat_msg(prefix: &str, detail: &String) -> (r: String)
    ensures
        r@ == prefix@ + detail@,
{
    let mut s = String::new();
    s.append(prefix);
    s.append(detail.as_str());
    assert(s@ =~= prefix@ + detail@);
    s
}

/// The `Result` type used throughout the library.
pub type ShuroResult<T> = Result<T, ShuroError>;

} // verus!
