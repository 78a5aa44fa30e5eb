//! Command construction for the higher-level media operations. Executing
//! the commands is the caller's business.

use vstd::prelude::*;
use super::commands::{spec_args, MediaCommand, MediaCommandBuilder};
use crate::text::chars_vec;

verus! {

/// Builds the commands for the media operations the pipeline performs.
pub struct MediaProcessorImpl {
    pub binary_path: String,
    pub subtitle_options: Vec<String>,
    pub command_builder: MediaCommandBuilder,
}

impl MediaProcessorImpl {
    pub fn new(binary_path: &str, subtitle_options: Vec<String>) -> (r: Self)
        ensures
            r.binary_path@ == binary_path@,
            r.subtitle_options == subtitle_options,
            r.command_builder.binary_path@ == binary_path@,
    {
        let command_builder = MediaCommandBuilder::new(binary_path);
        let v = chars_vec(binary_path);
        MediaProcessorImpl {
            binary_path: crate::text::string_from_chars(&v),
            subtitle_options,
            command_builder,
        }
    }

    /// The command converting a video into another container format:
    /// H.264 video, copied audio, overwrite.
    pub fn convert_video_format(&self, input_path: &str, output_path: &str) -> (r: MediaCommand)
        ensures
            r.binary_path@ == self.command_builder.binary_path@,
            spec_args(r) == seq!["-i"@, input_path@, "-c:v"@, "libx264"@, "-c:a"@, "copy"@, "-y"@,
                output_path@],
    {
        let cmd = self.command_builder.custom("Convert video format")
            .input(input_path)
            .video_codec("libx264")
            .copy_audio()
            .overwrite()
            .output(output_path);
        proof {
            assert(spec_args(cmd) =~= seq!["-i"@, input_path@, "-c:v"@, "libx264"@, "-c:a"@,
                "copy"@, "-y"@, output_path@]);
        }
        cmd
    }

    /// The command resizing a video to the given dimensions with a scale
    /// filter, H.264 video, copied audio, overwrite.
    pub fn resize_video(&self, input_path: &str, output_path: &str, width: u32, height: u32) -> (r:
        MediaCommand)
        ensures
            r.binary_path@ == self.command_builder.binary_path@,
            spec_args(r) == seq!["-i"@, input_path@, "-vf"@]
                + seq!["scale="@ + crate::spec_dec(width as nat) + ":"@ + crate::spec_dec(
                    height as nat,
                )] + seq!["-c:v"@, "libx264"@, "-c:a"@, "copy"@, "-y"@, output_path@],
    {
        let mut filter = String::new();
        filter.append("scale=");
        filter.append(crate::dec_string(width as u64).as_str());
        filter.append(":");
        filter.append(crate::dec_string(height as u64).as_str());
        proof {
            assert(filter@ =~= "scale="@ + crate::spec_dec(width as nat) + ":"@ + crate::spec_dec(
                height as nat,
            ));
        }
        let cmd = self.command_builder.custom("Resize video")
            .input(input_path)
            .video_filter(filter.as_str())
            .video_codec("libx264")
            .copy_audio()
            .overwrite()
            .output(output_path);
        proof {
            assert(spec_args(cmd) =~= seq!["-i"@, input_path@, "-vf"@] + seq![filter@]
                + seq!["-c:v"@, "libx264"@, "-c:a"@, "copy"@, "-y"@, output_path@]);
        }
        cmd
    }

    /// The command concatenating the videos named in a list file: the
    /// concat demuxer in unrestricted mode, streams copied, overwrite.
    pub fn concatenate_videos(&self, input_list_file: &str, output_path: &str) -> (r: MediaCommand)
        ensures
            r.binary_path@ == self.command_builder.binary_path@,
            spec_args(r) == seq!["-f"@, "concat"@, "-safe"@, "0"@, "-i"@, input_list_file@]
                + seq!["-c:v"@, "copy"@, "-c:a"@, "copy"@, "-y"@, output_path@],
    {
        let cmd = self.command_builder.custom("Concatenate videos")
            .arg("-f")
            .arg("concat")
            .arg("-safe")
            .arg("0")
            .input(input_list_file)
            .copy_video()
            .copy_audio()
            .overwrite()
            .output(output_path);
        proof {
            assert(spec_args(cmd) =~= seq!["-f"@, "concat"@, "-safe"@, "0"@, "-i"@,
                input_list_file@] + seq!["-c:v"@, "copy"@, "-c:a"@, "copy"@, "-y"@, output_path@]);
        }
        cmd
    }
}

} // verus!
