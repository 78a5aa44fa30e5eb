//! Transcription backends: shared tuning logic and the per-service output
//! mappers.

pub mod common;
pub mod whisper_cpp;
pub mod openai;

use vstd::prelude::*;

verus! {

/// Which transcription backend the pipeline drives.
#[derive(Debug, Clone)]
pub enum TranscriberImplementation {
    WhisperCpp,
    OpenAI,
}

} // verus!
