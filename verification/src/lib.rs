//! Subtitle translation pipeline core: transcription quality assessment,
//! tempo-parameter tuning, content-addressed caching, sentence
//! reconstruction, and quality-gated translation retry logic.

use vstd::prelude::*;

pub mod cache;
pub mod cli;
pub mod config;
pub mod error;
pub mod media;
pub mod subtitle;
pub mod workflow;
pub mod transcribe;
pub mod translate;
pub mod quality;
pub mod setup;
pub mod text;

verus! {

/// Renders a duration in whole seconds as a short human-readable string,
/// choosing the two most significant units among days, hours, minutes and
/// seconds.
pub fn format_duration(seconds: u64) -> (r: String)
    ensures
        r@ == spec_format_duration(seconds),
{
    let days: u64 = seconds / 86400;
    let hours: u64 = (seconds % 86400) / 3600;
    let minutes: u64 = (seconds % 3600) / 60;
    let secs: u64 = seconds % 60;
    if days > 0 {
        let mut s = dec_string(days);
        s.append("d ");
        s.append(dec_string(hours).as_str());
        s.append("h");
        s
    } else if hours > 0 {
        let mut s = dec_string(hours);
        s.append("h ");
        s.append(dec_string(minutes).as_str());
        s.append("m");
        s
    } else if minutes > 0 {
        let mut s = dec_string(minutes);
        s.append("m ");
        s.append(dec_string(secs).as_str());
        s.append("s");
        s
    } else {
        let mut s = dec_string(secs);
        s.append("s");
        s
    }
}

/// What `format_duration` returns, unit selection included.
pub open spec fn spec_format_duration(seconds: u64) -> Seq<char> {
    let days = seconds as int / 86400;
    let hours = (seconds as int % 86400) / 3600;
    let minutes = (seconds as int % 3600) / 60;
    let secs = seconds as int % 60;
    if days > 0 {
        spec_dec(days as nat) + "d "@ + spec_dec(hours as nat) + "h"@
    } else if hours > 0 {
        spec_dec(hours as nat) + "h "@ + spec_dec(minutes as nat) + "m"@
    } else if minutes > 0 {
        spec_dec(minutes as nat) + "m "@ + spec_dec(secs as nat) + "s"@
    } else {
        spec_dec(secs as nat) + "s"@
    }
}

/// Decimal digits of `n`, most significant first, with no leading zeros
/// (a single `'0'` for zero).
pub open spec fn spec_dec(n: nat) -> Seq<char>
    decreases n,
{
    if n < 10 {
        seq![spec_digit(n % 10)]
    } else {
        spec_dec(n / 10) + seq![spec_digit(n % 10)]
    }
}

/// The character for one decimal digit value.
pub open spec fn spec_digit(d: nat) -> char {
    if d == 0 { '0' }
    else if d == 1 { '1' }
    else if d == 2 { '2' }
    else if d == 3 { '3' }
    else if d == 4 { '4' }
    else if d == 5 { '5' }
    else if d == 6 { '6' }
    else if d == 7 { '7' }
    else if d == 8 { '8' }
    else { '9' }
}

pub fn digit_char(d: u64) -> (c: char)
    requires
        d < 10,
    ensures
        c == spec_digit(d as nat),
{
    if d == 0 { '0' }
    else if d == 1 { '1' }
    else if d == 2 { '2' }
    else if d == 3 { '3' }
    else if d == 4 { '4' }
    else if d == 5 { '5' }
    else if d == 6 { '6' }
    else if d == 7 { '7' }
    else if d == 8 { '8' }
    else { '9' }
}

/// Decimal rendering of `n` without leading zeros.
pub fn dec_string(n: u64) -> (r: String)
    ensures
        r@ == spec_dec(n as nat),
    decreases n,
{
    if n < 10 {
        let mut s = String::new();
        let c = digit_char(n);
        push_char(&mut s, c);
        assert(s@ =~= spec_dec(n as nat));
        s
    } else {
        let mut s = dec_string(n / 10);
        let c = digit_char(n % 10);
        push_char(&mut s, c);
        assert(s@ =~= spec_dec(n as nat));
        s
    }
}

/// Relies on `String::push`: appends exactly one character.
#[verifier::external_body]
pub fn push_char(s: &mut String, c: char)
    ensures
        final(s)@ == old(s)@ + seq![c],
{
    s.push(c);
}

} // verus!
