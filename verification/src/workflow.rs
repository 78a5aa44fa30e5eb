//! Batch-driver decisions: which files the directory walk treats as video,
//! and the output paths one processed video produces. Walking directories
//! and running the stages is the caller's business.

use vstd::prelude::*;
use crate::text::{ascii_lower_str, spec_ascii_lower, str_eq};

verus! {

/// The file extensions the batch driver treats as video, compared without
/// regard to ASCII case.
pub open spec fn spec_is_video_extension(ext: Seq<char>) -> bool {
    let lowered = ext.map_values(|c: char| spec_ascii_lower(c));
    ||| lowered == "mp4"@
    ||| lowered == "avi"@
    ||| lowered == "mov"@
    ||| lowered == "mkv"@
    ||| lowered == "wmv"@
    ||| lowered == "flv"@
    ||| lowered == "webm"@
}

/// Whether a file extension names a video format the pipeline processes.
pub fn is_video_extension(ext: &str) -> (r: bool)
    ensures
        r == spec_is_video_extension(ext@),
{
    let lowered = ascii_lower_str(ext);
    str_eq(lowered.as_str(), "mp4") || str_eq(lowered.as_str(), "avi") || str_eq(
        lowered.as_str(),
        "mov",
    ) || str_eq(lowered.as_str(), "mkv") || str_eq(lowered.as_str(), "wmv") || str_eq(
        lowered.as_str(),
        "flv",
    ) || str_eq(lowered.as_str(), "webm")
}

/// The subtitle file one processed video writes for one target language:
/// `<stem>_<lang>.srt`.
pub fn srt_output_name(video_stem: &str, target_lang: &str) -> (r: String)
    ensures
        r@ == video_stem@ + "_"@ + target_lang@ + ".srt"@,
{
    let mut out = String::new();
    out.append(video_stem);
    out.append("_");
    out.append(target_lang);
    out.append(".srt");
    proof {
        assert(out@ =~= video_stem@ + "_"@ + target_lang@ + ".srt"@);
    }
    out
}

/// The subtitled video one processed video writes for one target language:
/// `<stem>_<lang>.mp4`.
pub fn video_output_name(video_stem: &str, target_lang: &str) -> (r: String)
    ensures
        r@ == video_stem@ + "_"@ + target_lang@ + ".mp4"@,
{
    let mut out = String::new();
    out.append(video_stem);
    out.append("_");
    out.append(target_lang);
    out.append(".mp4");
    proof {
        assert(out@ =~= video_stem@ + "_"@ + target_lang@ + ".mp4"@);
    }
    out
}

} // verus!
