//! An abstract media-processing command: a binary, its argument list, and
//! a description. The builders put exactly the documented flags in the
//! documented order, so a caller knows the full command line from the
//! contracts alone.

use vstd::prelude::*;
use crate::text::chars_vec;

verus! {

/// One media-processing invocation under construction.
#[derive(Debug, Clone)]
pub struct MediaCommand {
    pub binary_path: String,
    pub args: Vec<String>,
    pub description: String,
}

/// The views of the arguments, for contracts.
pub open spec fn spec_args(c: MediaCommand) -> Seq<Seq<char>> {
    c.args@.map_values(|s: String| s@)
}

fn copy_str_m(s: &str) -> (r: String)
    ensures
        r@ == s@,
{
    let v = chars_vec(s);
    crate::text::string_from_chars(&v)
}

impl MediaCommand {
    /// A new command with no arguments yet.
    pub fn new(binary_path: &str, description: &str) -> (r: Self)
        ensures
            r.binary_path@ == binary_path@,
            r.description@ == description@,
            spec_args(r) == Seq::<Seq<char>>::empty(),
    {
        let r = MediaCommand {
            binary_path: copy_str_m(binary_path),
            args: Vec::new(),
            description: copy_str_m(description),
        };
        proof {
            assert(spec_args(r) =~= Seq::<Seq<char>>::empty());
        }
        r
    }

    /// Appends one argument.
    pub fn arg(self, arg: &str) -> (r: Self)
        ensures
            r.binary_path == self.binary_path,
            r.description == self.description,
            spec_args(r) == spec_args(self).push(arg@),
    {
        let mut args = self.args;
        let ghost before = args@.map_values(|s: String| s@);
        args.push(copy_str_m(arg));
        proof {
            assert(args@.map_values(|s: String| s@) =~= before.push(arg@));
        }
        MediaCommand { binary_path: self.binary_path, args, description: self.description }
    }

    /// Appends several arguments in order.
    pub fn args(self, extra: &Vec<String>) -> (r: Self)
        ensures
            r.binary_path == self.binary_path,
            r.description == self.description,
            spec_args(r) == spec_args(self) + extra@.map_values(|s: String| s@),
    {
        let mut args = self.args;
        let ghost before = args@.map_values(|s: String| s@);
        let ghost ev = extra@.map_values(|s: String| s@);
        let mut i: usize = 0;
        proof {
            assert(args@.map_values(|s: String| s@) =~= before + ev.take(0));
        }
        while i < extra.len()
            invariant
                0 <= i <= extra@.len(),
                ev == extra@.map_values(|s: String| s@),
                args@.map_values(|s: String| s@) == before + ev.take(i as int),
            decreases extra@.len() - i,
        {
            let ghost cur = args@.map_values(|s: String| s@);
            args.push(copy_str_m(extra[i].as_str()));
            i = i + 1;
            proof {
                assert(args@.map_values(|s: String| s@) =~= cur.push(ev[i - 1]));
                assert(cur.push(ev[i - 1]) =~= before + ev.take(i as int));
            }
        }
        proof {
            assert(ev.take(extra@.len() as int) =~= ev);
        }
        MediaCommand { binary_path: self.binary_path, args, description: self.description }
    }

    /// Adds the input file: `-i <path>`.
    pub fn input(self, path: &str) -> (r: Self)
        ensures
            r.binary_path == self.binary_path,
            r.description == self.description,
            spec_args(r) == spec_args(self).push("-i"@).push(path@),
    {
        self.arg("-i").arg(path)
    }

    /// Adds the output file as the final positional argument.
    pub fn output(self, path: &str) -> (r: Self)
        ensures
            r.binary_path == self.binary_path,
            r.description == self.description,
            spec_args(r) == spec_args(self).push(path@),
    {
        self.arg(path)
    }

    /// Forces overwriting the output: `-y`.
    pub fn overwrite(self) -> (r: Self)
        ensures
            r.binary_path == self.binary_path,
            r.description == self.description,
            spec_args(r) == spec_args(self).push("-y"@),
    {
        self.arg("-y")
    }

    /// Sets the video codec: `-c:v <codec>`.
    pub fn video_codec(self, codec: &str) -> (r: Self)
        ensures
            r.binary_path == self.binary_path,
            r.description == self.description,
            spec_args(r) == spec_args(self).push("-c:v"@).push(codec@),
    {
        self.arg("-c:v").arg(codec)
    }

    /// Sets the audio codec: `-c:a <codec>`.
    pub fn audio_codec(self, codec: &str) -> (r: Self)
        ensures
            r.binary_path == self.binary_path,
            r.description == self.description,
            spec_args(r) == spec_args(self).push("-c:a"@).push(codec@),
    {
        self.arg("-c:a").arg(codec)
    }

    /// Copies the video stream unchanged.
    pub fn copy_video(self) -> (r: Self)
        ensures
            r.binary_path == self.binary_path,
            r.description == self.description,
            spec_args(r) == spec_args(self).push("-c:v"@).push("copy"@),
    {
        self.video_codec("copy")
    }

    /// Copies the audio stream unchanged.
    pub fn copy_audio(self) -> (r: Self)
        ensures
            r.binary_path == self.binary_path,
            r.description == self.description,
            spec_args(r) == spec_args(self).push("-c:a"@).push("copy"@),
    {
        self.audio_codec("copy")
    }

    /// Drops the video stream: `-vn`.
    pub fn no_video(self) -> (r: Self)
        ensures
            r.binary_path == self.binary_path,
            r.description == self.description,
            spec_args(r) == spec_args(self).push("-vn"@),
    {
        self.arg("-vn")
    }

    /// Drops the audio stream: `-an`.
    pub fn no_audio(self) -> (r: Self)
        ensures
            r.binary_path == self.binary_path,
            r.description == self.description,
            spec_args(r) == spec_args(self).push("-an"@),
    {
        self.arg("-an")
    }

    /// Sets the audio sample rate: `-ar <rate>`.
    pub fn audio_sample_rate(self, rate: u32) -> (r: Self)
        ensures
            r.binary_path == self.binary_path,
            r.description == self.description,
            spec_args(r) == spec_args(self).push("-ar"@).push(crate::spec_dec(rate as nat)),
    {
        let rendered = crate::dec_string(rate as u64);
        self.arg("-ar").arg(rendered.as_str())
    }

    /// Sets the audio channel count: `-ac <channels>`.
    pub fn audio_channels(self, channels: u32) -> (r: Self)
        ensures
            r.binary_path == self.binary_path,
            r.description == self.description,
            spec_args(r) == spec_args(self).push("-ac"@).push(crate::spec_dec(channels as nat)),
    {
        let rendered = crate::dec_string(channels as u64);
        self.arg("-ac").arg(rendered.as_str())
    }

    /// Adds a video filter: `-vf <filter>`.
    pub fn video_filter(self, filter: &str) -> (r: Self)
        ensures
            r.binary_path == self.binary_path,
            r.description == self.description,
            spec_args(r) == spec_args(self).push("-vf"@).push(filter@),
    {
        self.arg("-vf").arg(filter)
    }

    /// Adds an audio filter: `-af <filter>`.
    pub fn audio_filter(self, filter: &str) -> (r: Self)
        ensures
            r.binary_path == self.binary_path,
            r.description == self.description,
            spec_args(r) == spec_args(self).push("-af"@).push(filter@),
    {
        self.arg("-af").arg(filter)
    }
}

/// Builds the commands the pipeline needs from one binary path.
pub struct MediaCommandBuilder {
    pub binary_path: String,
}

impl MediaCommandBuilder {
    pub fn new(binary_path: &str) -> (r: Self)
        ensures
            r.binary_path@ == binary_path@,
    {
        MediaCommandBuilder { binary_path: copy_str_m(binary_path) }
    }

    /// The subtitle-embedding command: overwrite, the video as input, a
    /// subtitles video filter, H.264 video, copied audio, the caller's
    /// extra options, and the output path last.
    pub fn embed_subtitles(
        &self,
        video_path: &str,
        subtitle_path: &str,
        output_path: &str,
        additional_options: &Vec<String>,
    ) -> (r: MediaCommand)
        ensures
            r.binary_path@ == self.binary_path@,
            spec_args(r) == seq!["-y"@, "-i"@, video_path@]
                + seq!["-vf"@, "subtitles="@ + subtitle_path@, "-c:v"@, "libx264"@, "-c:a"@, "copy"@]
                + additional_options@.map_values(|s: String| s@) + seq![output_path@],
    {
        let mut filter = String::new();
        filter.append("subtitles=");
        filter.append(subtitle_path);
        proof {
            assert(filter@ =~= "subtitles="@ + subtitle_path@);
        }
        let cmd = MediaCommand::new(self.binary_path.as_str(), "Subtitle embedding")
            .overwrite()
            .input(video_path)
            .video_filter(filter.as_str())
            .video_codec("libx264")
            .copy_audio()
            .args(additional_options)
            .output(output_path);
        proof {
            assert(spec_args(cmd) =~= seq!["-y"@, "-i"@, video_path@]
                + seq!["-vf"@, "subtitles="@ + subtitle_path@, "-c:v"@, "libx264"@, "-c:a"@, "copy"@]
                + additional_options@.map_values(|s: String| s@) + seq![output_path@]);
        }
        cmd
    }

    /// The audio-extraction command: the video as input, video dropped,
    /// 16-bit PCM at 16 kHz mono, overwrite, and the output path last.
    pub fn extract_audio(&self, video_path: &str, audio_path: &str) -> (r: MediaCommand)
        ensures
            r.binary_path@ == self.binary_path@,
            spec_args(r) == seq!["-i"@, video_path@, "-vn"@, "-c:a"@, "pcm_s16le"@, "-ar"@]
                + seq![crate::spec_dec(16000), "-ac"@, crate::spec_dec(1), "-y"@, audio_path@],
    {
        let cmd = MediaCommand::new(self.binary_path.as_str(), "Audio extraction")
            .input(video_path)
            .no_video()
            .audio_codec("pcm_s16le")
            .audio_sample_rate(16000)
            .audio_channels(1)
            .overwrite()
            .output(audio_path);
        proof {
            assert(spec_args(cmd) =~= seq!["-i"@, video_path@, "-vn"@, "-c:a"@, "pcm_s16le"@,
                "-ar"@] + seq![crate::spec_dec(16000), "-ac"@, crate::spec_dec(1), "-y"@,
                audio_path@]);
        }
        cmd
    }

    /// The version-check command: `-version` alone.
    pub fn version_check(&self) -> (r: MediaCommand)
        ensures
            r.binary_path@ == self.binary_path@,
            spec_args(r) == seq!["-version"@],
    {
        let cmd = MediaCommand::new(self.binary_path.as_str(), "Version check").arg("-version");
        proof {
            assert(spec_args(cmd) =~= seq!["-version"@]);
        }
        cmd
    }

    /// An empty command under the caller's description.
    pub fn custom(&self, description: &str) -> (r: MediaCommand)
        ensures
            r.binary_path@ == self.binary_path@,
            r.description@ == description@,
            spec_args(r) == Seq::<Seq<char>>::empty(),
    {
        MediaCommand::new(self.binary_path.as_str(), description)
    }
}

/// Preset argument bundles for common encodes.
pub struct MediaPresets;

impl MediaPresets {
    /// High quality: H.264 at CRF 18 with the slow preset.
    pub fn high_quality_video(cmd: MediaCommand) -> (r: MediaCommand)
        ensures
            r.binary_path == cmd.binary_path,
            spec_args(r) == spec_args(cmd) + seq!["-c:v"@, "libx264"@, "-crf"@, "18"@, "-preset"@,
                "slow"@],
    {
        let r = cmd.video_codec("libx264").arg("-crf").arg("18").arg("-preset").arg("slow");
        proof {
            assert(spec_args(r) =~= spec_args(cmd) + seq!["-c:v"@, "libx264"@, "-crf"@, "18"@,
                "-preset"@, "slow"@]);
        }
        r
    }

    /// Fast: H.264 with the ultrafast preset.
    pub fn fast_encoding(cmd: MediaCommand) -> (r: MediaCommand)
        ensures
            r.binary_path == cmd.binary_path,
            spec_args(r) == spec_args(cmd) + seq!["-c:v"@, "libx264"@, "-preset"@, "ultrafast"@],
    {
        let r = cmd.video_codec("libx264").arg("-preset").arg("ultrafast");
        proof {
            assert(spec_args(r) =~= spec_args(cmd) + seq!["-c:v"@, "libx264"@, "-preset"@,
                "ultrafast"@]);
        }
        r
    }

    /// Web friendly: H.264, fast start, widely compatible pixel format.
    pub fn web_optimized(cmd: MediaCommand) -> (r: MediaCommand)
        ensures
            r.binary_path == cmd.binary_path,
            spec_args(r) == spec_args(cmd) + seq!["-c:v"@, "libx264"@, "-movflags"@, "+faststart"@,
                "-pix_fmt"@, "yuv420p"@],
    {
        let r = cmd.video_codec("libx264").arg("-movflags").arg("+faststart").arg(
            "-pix_fmt",
        ).arg("yuv420p");
        proof {
            assert(spec_args(r) =~= spec_args(cmd) + seq!["-c:v"@, "libx264"@, "-movflags"@,
                "+faststart"@, "-pix_fmt"@, "yuv420p"@]);
        }
        r
    }
}

} // verus!
