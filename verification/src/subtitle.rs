//! SRT subtitle rendering: timestamp formatting and the text of a whole
//! subtitle file. Writing the file to disk is the caller's business.

use vstd::prelude::*;
use crate::quality::Transcription;
use crate::text::{spec_trim, trim_str};
use crate::{spec_dec, spec_digit, dec_string, digit_char, push_char};

verus! {

/// Decimal rendering padded to at least two digits.
pub open spec fn spec_pad2(n: nat) -> Seq<char> {
    if n < 10 {
        seq!['0', spec_digit(n)]
    } else {
        spec_dec(n)
    }
}

/// Decimal rendering padded to exactly three digits; `n < 1000`.
pub open spec fn spec_pad3(n: nat) -> Seq<char> {
    if n < 10 {
        seq!['0', '0', spec_digit(n)]
    } else if n < 100 {
        seq!['0'] + spec_dec(n)
    } else {
        spec_dec(n)
    }
}

fn pad2_string(n: u64) -> (r: String)
    ensures
        r@ == spec_pad2(n as nat),
{
    if n < 10 {
        let mut s = String::new();
        push_char(&mut s, '0');
        let c = digit_char(n);
        push_char(&mut s, c);
        assert(s@ =~= spec_pad2(n as nat));
        s
    } else {
        dec_string(n)
    }
}

fn pad3_string(n: u64) -> (r: String)
    requires
        n < 1000,
    ensures
        r@ == spec_pad3(n as nat),
{
    if n < 10 {
        let mut s = String::new();
        push_char(&mut s, '0');
        push_char(&mut s, '0');
        let c = digit_char(n);
        push_char(&mut s, c);
        assert(s@ =~= spec_pad3(n as nat));
        s
    } else if n < 100 {
        let mut s = String::new();
        push_char(&mut s, '0');
        s.append(dec_string(n).as_str());
        assert(s@ =~= spec_pad3(n as nat));
        s
    } else {
        dec_string(n)
    }
}

/// The SRT timestamp for a time in milliseconds: `HH:MM:SS,mmm`,
/// zero-padded, with hours growing past two digits when needed.
pub open spec fn spec_srt_time(ms: u64) -> Seq<char> {
    let hours = ms as int / 3600000;
    let minutes = (ms as int % 3600000) / 60000;
    let secs = (ms as int % 60000) / 1000;
    let millis = ms as int % 1000;
    spec_pad2(hours as nat) + ":"@ + spec_pad2(minutes as nat) + ":"@ + spec_pad2(secs as nat)
        + ","@ + spec_pad3(millis as nat)
}

/// Formats a time in milliseconds as an SRT timestamp (`HH:MM:SS,mmm`).
pub fn format_srt_time(total_milliseconds: u64) -> (r: String)
    ensures
        r@ == spec_srt_time(total_milliseconds),
{
    let hours: u64 = total_milliseconds / 3600000;
    let minutes: u64 = (total_milliseconds % 3600000) / 60000;
    let secs: u64 = (total_milliseconds % 60000) / 1000;
    let millis: u64 = total_milliseconds % 1000;
    let mut s = pad2_string(hours);
    s.append(":");
    s.append(pad2_string(minutes).as_str());
    s.append(":");
    s.append(pad2_string(secs).as_str());
    s.append(",");
    s.append(pad3_string(millis).as_str());
    assert(s@ =~= spec_srt_time(total_milliseconds));
    s
}

/// One SRT cue: index line, timing line, trimmed text, blank line.
pub open spec fn spec_srt_cue(index: nat, start_ms: u64, end_ms: u64, text: Seq<char>) -> Seq<char> {
    spec_dec(index) + "\n"@ + spec_srt_time(start_ms) + " --> "@ + spec_srt_time(end_ms) + "\n"@
        + spec_trim(text) + "\n\n"@
}

/// The SRT text of the segments, cues numbered from 1.
pub open spec fn spec_srt_content(segs: Seq<crate::quality::TranscriptionSegment>) -> Seq<char>
    decreases segs.len(),
{
    if segs.len() == 0 {
        Seq::empty()
    } else {
        spec_srt_content(segs.drop_last()) + spec_srt_cue(
            segs.len() as nat,
            segs.last().start_ms,
            segs.last().end_ms,
            segs.last().text@,
        )
    }
}

/// Renders a transcript as the text of an SRT file: for each segment a cue
/// with its 1-based index, its start and end timestamps, and its trimmed
/// text, each cue ending in a blank line.
#[verifier::rlimit(50)]
pub fn generate_srt_content(transcription: &Transcription) -> (r: String)
    ensures
        r@ == spec_srt_content(transcription.segments@),
{
    let mut out = String::new();
    let n = transcription.segments.len();
    let mut i: usize = 0;
    proof {
        assert(transcription.segments@.take(0)
            =~= Seq::<crate::quality::TranscriptionSegment>::empty());
        assert(out@ =~= spec_srt_content(transcription.segments@.take(0)));
    }
    while i < n
        invariant
            0 <= i <= n == transcription.segments@.len(),
            out@ == spec_srt_content(transcription.segments@.take(i as int)),
        decreases n - i,
    {
        let ghost out0 = out@;
        let seg = &transcription.segments[i];
        let index: u64 = (i as u64) + 1;
        out.append(dec_string(index).as_str());
        out.append("\n");
        out.append(format_srt_time(seg.start_ms).as_str());
        out.append(" --> ");
        out.append(format_srt_time(seg.end_ms).as_str());
        out.append("\n");
        out.append(trim_str(seg.text.as_str()).as_str());
        out.append("\n\n");
        i = i + 1;
        proof {
            let pre = transcription.segments@.take(i as int);
            assert(pre.drop_last() =~= transcription.segments@.take(i - 1));
            assert(pre.last() == transcription.segments@[i - 1]);
            assert(out@ =~= out0 + spec_srt_cue(
                i as nat,
                seg.start_ms,
                seg.end_ms,
                seg.text@,
            ));
            assert(out@ == spec_srt_content(pre));
        }
    }
    proof {
        assert(transcription.segments@.take(n as int) =~= transcription.segments@);
    }
    out
}

} // verus!
