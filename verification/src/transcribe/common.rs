//! Service-agnostic transcription types and the tempo-tuning arithmetic:
//! candidate tempo generation, the segment-smoothness proxy score, and
//! best-attempt selection.

use vstd::prelude::*;
use vstd::arithmetic::div_mod::{
    lemma_div_is_ordered, lemma_div_pos_is_pos, lemma_fundamental_div_mod_converse,
};
use vstd::arithmetic::mul::lemma_mul_inequality;
use crate::quality::{Transcription, TranscriptionSegment};

verus! {

/// A transcription segment in the service-agnostic shape.
#[derive(Debug, Clone)]
pub struct AbstractTranscriptionSegment {
    pub id: i32,
    pub start_time_ms: u64,
    pub end_time_ms: u64,
    pub text: String,
    /// Confidence in thousandths, where the service reports one.
    pub confidence_milli: Option<u32>,
    pub language: Option<String>,
}

/// A transcription result in the service-agnostic shape.
#[derive(Debug, Clone)]
pub struct AbstractTranscription {
    pub text: String,
    pub segments: Vec<AbstractTranscriptionSegment>,
    pub language: String,
    pub duration_ms: Option<u64>,
    pub model_info: Option<String>,
}

/// The parameters of one transcription attempt.
#[derive(Debug, Clone)]
pub struct TuneParams {
    pub tempo: i32,
    pub model: String,
    pub temperature_milli: i32,
}

/// One explored tempo and the smoothness proxy it scored; `None` is the
/// worst possible score (a failed or degenerate attempt).
#[derive(Debug, Clone)]
pub struct TuneAttempt {
    pub tempo: i32,
    pub smoothness_micro: Option<u128>,
}

/// The outcome of a tuning run.
#[derive(Debug, Clone)]
pub struct TuneResult {
    pub best_transcription: Transcription,
    pub best_tempo: i32,
    pub best_temperature_milli: i32,
    /// Smoothness proxy of the winning attempt; `None` when no attempt
    /// produced a usable score.
    pub quality_score_micro: Option<u128>,
    pub all_attempts: Vec<TuneAttempt>,
    pub tested_parameters: Vec<String>,
}

/// A cached transcription with its provenance.
#[derive(Debug, Clone)]
pub struct TranscriptionCache {
    pub transcription: Transcription,
    pub model: String,
    pub temperature_milli: i32,
    pub language: Option<String>,
    pub audio_path: String,
    pub audio_modified: Option<u64>,
    pub cached_at: u64,
}

/// A cached extracted-audio artifact with its provenance.
#[derive(Debug, Clone)]
pub struct AudioCache {
    pub audio_path: String,
    pub video_path: String,
    pub video_modified: Option<u64>,
    pub cached_at: u64,
}

/// Aggregate statistics over the cache directories.
#[derive(Debug, Clone)]
pub struct CacheInfo {
    pub total_files: u64,
    pub total_size: u64,
    pub oldest_entry: Option<u64>,
    pub newest_entry: Option<u64>,
    pub models_used: Vec<String>,
    pub audio_files: u64,
    pub audio_size: u64,
}

/// Shared helpers for the transcription backends.
pub struct WhisperUtils;

impl WhisperUtils {
    /// Renders a duration in whole seconds as a short human-readable
    /// string.
    pub fn format_duration(seconds: u64) -> (r: String)
        ensures
            r@ == crate::spec_format_duration(seconds),
    {
        crate::format_duration(seconds)
    }
}

/// Renders a duration in whole seconds as a short human-readable string.
pub fn format_duration(seconds: u64) -> (r: String)
    ensures
        r@ == crate::spec_format_duration(seconds),
{
    crate::format_duration(seconds)
}

/// Division rounded to the nearest integer, halves away from zero;
/// `den > 0`.
pub open spec fn spec_round_div(num: int, den: int) -> int {
    if num >= 0 {
        (2 * num + den) / (2 * den)
    } else {
        0 - ((2 * (0 - num) + den) / (2 * den))
    }
}

proof fn lemma_round_div_exact(r: int, d: int)
    requires
        d > 0,
    ensures
        spec_round_div(d * r, d) == r,
{
    if r >= 0 {
        assert(d * r >= 0) by (nonlinear_arith)
            requires d > 0 && r >= 0;
        assert(2 * (d * r) + d == r * (2 * d) + d) by (nonlinear_arith);
        lemma_fundamental_div_mod_converse(2 * (d * r) + d, 2 * d, r, d);
    } else {
        assert(d * r < 0) by (nonlinear_arith)
            requires d > 0 && r < 0;
        assert(2 * (0 - (d * r)) + d == (0 - r) * (2 * d) + d) by (nonlinear_arith);
        lemma_fundamental_div_mod_converse(2 * (0 - (d * r)) + d, 2 * d, 0 - r, d);
    }
}

proof fn lemma_round_div_ordered(a: int, b: int, d: int)
    requires
        d > 0,
        a <= b,
    ensures
        spec_round_div(a, d) <= spec_round_div(b, d),
{
    if a >= 0 {
        lemma_div_is_ordered(2 * a + d, 2 * b + d, 2 * d);
    } else if b >= 0 {
        lemma_div_pos_is_pos(2 * (0 - a) + d, 2 * d);
        lemma_div_pos_is_pos(2 * b + d, 2 * d);
    } else {
        lemma_div_is_ordered(2 * (0 - b) + d, 2 * (0 - a) + d, 2 * d);
    }
}

proof fn lemma_round_div_bounds(i: int, r: int, d: int)
    requires
        d > 0,
        0 <= i <= d,
    ensures
        r >= 0 ==> 0 <= spec_round_div(i * r, d) <= r,
        r < 0 ==> r <= spec_round_div(i * r, d) <= 0,
{
    lemma_round_div_exact(r, d);
    assert(d * 0 == 0) by (nonlinear_arith);
    lemma_round_div_exact(0, d);
    if r >= 0 {
        assert(0 <= i * r) by (nonlinear_arith)
            requires 0 <= i && 0 <= r;
        lemma_mul_inequality(i, d, r);
        assert(d * r == r * d) by (nonlinear_arith);
        lemma_round_div_ordered(0, i * r, d);
        lemma_round_div_ordered(i * r, d * r, d);
    } else {
        assert(i * r <= 0) by (nonlinear_arith)
            requires 0 <= i && r < 0;
        lemma_mul_inequality(i, d, 0 - r);
        assert(i * (0 - r) == 0 - (i * r) && d * (0 - r) == 0 - (d * r) && d * r == r * d)
            by (nonlinear_arith);
        lemma_round_div_ordered(i * r, 0, d);
        lemma_round_div_ordered(d * r, i * r, d);
    }
}

fn round_div(num: i128, den: i128) -> (r: i128)
    requires
        0 < den < 100_000_000_000_000_000_000,
        -100_000_000_000_000_000_000 < num < 100_000_000_000_000_000_000,
    ensures
        r == spec_round_div(num as int, den as int),
{
    if num >= 0 {
        (2 * num + den) / (2 * den)
    } else {
        let q = (2 * (0 - num) + den) / (2 * den);
        proof {
            lemma_div_pos_is_pos(2 * (0 - num) + den, 2 * den);
            lemma_div_is_ordered(
                2 * (0 - num) + den,
                2 * (0 - num) + den + den,
                2 * den,
            );
        }
        0 - q
    }
}

/// Generates the candidate tempo percentages for exploration: `steps`
/// values evenly interpolated from `min_tempo` to `max_tempo`, each rounded
/// to the nearest whole percent. Fewer than two steps yield the single
/// default tempo of 100%.
pub fn generate_tempo_range(min_tempo: i32, max_tempo: i32, steps: i32) -> (r: Vec<i32>)
    ensures
        steps <= 1 ==> r@ == seq![100i32],
        steps > 1 ==> r@.len() == steps,
        steps > 1 ==> forall|i: int|
            0 <= i < steps ==> r@[i] as int == min_tempo + spec_round_div(
                i * (max_tempo - min_tempo),
                steps - 1,
            ),
        steps > 1 ==> r@[0] == min_tempo && r@[steps - 1] == max_tempo,
        steps > 1 && min_tempo <= max_tempo ==> forall|i: int, j: int|
            0 <= i <= j < steps ==> r@[i] <= r@[j],
{
    if steps <= 1 {
        let mut v: Vec<i32> = Vec::new();
        v.push(100);
        assert(v@ =~= seq![100i32]);
        return v;
    }
    let d: i128 = (steps - 1) as i128;
    let range: i128 = (max_tempo as i128) - (min_tempo as i128);
    let ghost rangeg: int = max_tempo - min_tempo;
    let mut v: Vec<i32> = Vec::new();
    let mut i: i32 = 0;
    while i < steps
        invariant
            0 <= i <= steps,
            steps > 1,
            d == steps - 1,
            range == max_tempo - min_tempo,
            rangeg == max_tempo - min_tempo,
            v@.len() == i,
            forall|k: int|
                0 <= k < i ==> v@[k] as int == min_tempo + spec_round_div(
                    k * rangeg,
                    steps - 1,
                ),
        decreases steps - i,
    {
        proof {
            let ig = i as int;
            assert(-100_000_000_000_000_000_000 < ig * rangeg < 100_000_000_000_000_000_000)
                by (nonlinear_arith)
                requires
                    0 <= ig < 2_147_483_648,
                    -4_294_967_296 < rangeg < 4_294_967_296,
            ;
        }
        let num: i128 = (i as i128) * range;
        let rounded = round_div(num, d);
        proof {
            lemma_round_div_bounds(i as int, rangeg, (steps - 1) as int);
        }
        let val: i128 = (min_tempo as i128) + rounded;
        v.push(val as i32);
        i = i + 1;
    }
    proof {
        assert(0 * (rangeg as int) == 0) by (nonlinear_arith);
        lemma_round_div_exact(0, (steps - 1) as int);
        assert(((steps - 1) as int) * (rangeg as int) == ((steps - 1) as int) * (rangeg as int));
        assert(v@[steps - 1] as int == min_tempo + spec_round_div(
            ((steps - 1) as int) * (rangeg as int),
            (steps - 1) as int,
        ));
        assert(((steps - 1) as int) * (rangeg as int) == ((steps - 1) as int) * (rangeg as int));
        assert(spec_round_div(((steps - 1) as int) * (rangeg as int), (steps - 1) as int)
            == rangeg as int) by {
            assert(((steps - 1) as int) * (rangeg as int) == ((steps - 1) as int) * (rangeg as int));
            lemma_round_div_exact(rangeg as int, (steps - 1) as int);
        };
        if min_tempo <= max_tempo {
            assert forall|i: int, j: int| 0 <= i <= j < steps implies v@[i] <= v@[j] by {
                assert(i * (rangeg as int) <= j * (rangeg as int)) by (nonlinear_arith)
                    requires 0 <= i <= j && rangeg >= 0;
                lemma_round_div_ordered(i * (rangeg as int), j * (rangeg as int), (steps - 1) as int);
            };
        }
    }
    v
}

/// The durations of the segments with positive length, in milliseconds.
pub open spec fn spec_durations(segs: Seq<TranscriptionSegment>) -> Seq<int>
    decreases segs.len(),
{
    if segs.len() == 0 {
        Seq::empty()
    } else {
        let prev = spec_durations(segs.drop_last());
        let s = segs.last();
        if s.end_ms > s.start_ms { prev.push(s.end_ms - s.start_ms) } else { prev }
    }
}

/// The sum of a sequence of integers.
pub open spec fn spec_sum(ds: Seq<int>) -> int
    decreases ds.len(),
{
    if ds.len() == 0 { 0 } else { spec_sum(ds.drop_last()) + ds.last() }
}

/// The sum of the squares of a sequence of integers.
pub open spec fn spec_sum_sq(ds: Seq<int>) -> int
    decreases ds.len(),
{
    if ds.len() == 0 { 0 } else { spec_sum_sq(ds.drop_last()) + ds.last() * ds.last() }
}

/// A segment ends within this bound so the smoothness arithmetic fits in
/// 128 bits.
pub const MAX_SMOOTHNESS_END_MS: u64 = 10_000_000_000;

/// At most this many segments take part in a smoothness computation, so
/// the arithmetic fits in 128 bits.
pub const MAX_SMOOTHNESS_SEGMENTS: usize = 1_000_000;

/// The smoothness proxy: the scaled second-moment ratio of the positive
/// segment durations — count times the sum of squares over the squared
/// sum, times one million, rounded down, which is the squared coefficient
/// of variation plus one, scaled. `None` (the worst score) for transcripts
/// with fewer than two segments or no positive durations. Lower is better,
/// and identical durations score exactly one million, so selection orders
/// attempts as the coefficient of variation would.
pub open spec fn spec_smoothness_micro(segs: Seq<TranscriptionSegment>) -> Option<int> {
    if segs.len() < 2 {
        None
    } else {
        let ds = spec_durations(segs);
        if ds.len() == 0 {
            None
        } else {
            Some(ds.len() * spec_sum_sq(ds) * 1000000 / (spec_sum(ds) * spec_sum(ds)))
        }
    }
}

proof fn lemma_durations_bounds(segs: Seq<TranscriptionSegment>)
    requires
        forall|i: int| 0 <= i < segs.len() ==> (#[trigger] segs[i]).end_ms <= MAX_SMOOTHNESS_END_MS,
    ensures
        spec_durations(segs).len() <= segs.len(),
        forall|i: int|
            0 <= i < spec_durations(segs).len() ==> 1 <= #[trigger] spec_durations(segs)[i]
                <= MAX_SMOOTHNESS_END_MS,
    decreases segs.len(),
{
    if segs.len() > 0 {
        assert(segs.last() == segs[segs.len() - 1]);
        assert(forall|i: int|
            0 <= i < segs.drop_last().len() ==> segs.drop_last()[i] == segs[i]);
        lemma_durations_bounds(segs.drop_last());
    }
}

proof fn lemma_sums_bounds(ds: Seq<int>, b: int)
    requires
        b >= 1,
        forall|i: int| 0 <= i < ds.len() ==> 1 <= #[trigger] ds[i] <= b,
    ensures
        ds.len() <= spec_sum(ds) <= ds.len() * b,
        0 <= spec_sum_sq(ds) <= ds.len() * (b * b),
    decreases ds.len(),
{
    if ds.len() > 0 {
        assert(ds.last() == ds[ds.len() - 1]);
        assert(forall|i: int| 0 <= i < ds.drop_last().len() ==> ds.drop_last()[i] == ds[i]);
        lemma_sums_bounds(ds.drop_last(), b);
        assert(ds.last() * ds.last() <= b * b) by (nonlinear_arith)
            requires 1 <= ds.last() <= b;
        assert((ds.len() - 1) * b + b == ds.len() * b) by (nonlinear_arith);
        assert((ds.len() - 1) * (b * b) + b * b == ds.len() * (b * b)) by (nonlinear_arith);
    }
}

/// Computes the smoothness proxy of a transcript: the scaled squared
/// coefficient of variation of its positive segment durations. `None`
/// stands for the worst possible score. The bounds on segment count and end
/// time keep the 128-bit arithmetic exact.
pub fn calculate_segment_smoothness(transcription: &Transcription) -> (r: Option<u128>)
    requires
        transcription.segments@.len() <= MAX_SMOOTHNESS_SEGMENTS,
        forall|i: int|
            0 <= i < transcription.segments@.len()
                ==> (#[trigger] transcription.segments@[i]).end_ms <= MAX_SMOOTHNESS_END_MS,
    ensures
        match r {
            Some(v) => spec_smoothness_micro(transcription.segments@) == Some(v as int),
            None => spec_smoothness_micro(transcription.segments@) is None,
        },
{
    let n = transcription.segments.len();
    if n < 2 {
        return None;
    }
    let ghost allds = spec_durations(transcription.segments@);
    proof {
        lemma_durations_bounds(transcription.segments@);
    }
    let mut count: u128 = 0;
    let mut sum: u128 = 0;
    let mut sum_sq: u128 = 0;
    let mut i: usize = 0;
    proof {
        assert(transcription.segments@.take(0) =~= Seq::<TranscriptionSegment>::empty());
    }
    while i < n
        invariant
            0 <= i <= n == transcription.segments@.len(),
            n <= MAX_SMOOTHNESS_SEGMENTS,
            forall|k: int|
                0 <= k < transcription.segments@.len()
                    ==> (#[trigger] transcription.segments@[k]).end_ms <= MAX_SMOOTHNESS_END_MS,
            count == spec_durations(transcription.segments@.take(i as int)).len(),
            sum == spec_sum(spec_durations(transcription.segments@.take(i as int))),
            sum_sq == spec_sum_sq(spec_durations(transcription.segments@.take(i as int))),
            count <= i,
            sum <= count * 10_000_000_000,
            sum_sq <= count * 100_000_000_000_000_000_000,
        decreases n - i,
    {
        let seg = &transcription.segments[i];
        let ghost pre = transcription.segments@.take(i + 1);
        let ghost ds0 = spec_durations(transcription.segments@.take(i as int));
        proof {
            assert(pre.drop_last() =~= transcription.segments@.take(i as int));
            assert(pre.last() == transcription.segments@[i as int]);
        }
        if seg.end_ms > seg.start_ms {
            let d: u128 = (seg.end_ms - seg.start_ms) as u128;
            proof {
                assert(spec_durations(pre) == ds0.push(d as int));
                assert(ds0.push(d as int).drop_last() =~= ds0);
                assert(ds0.push(d as int).last() == d as int);
                assert(d * d <= 100_000_000_000_000_000_000) by (nonlinear_arith)
                    requires 1 <= d <= 10_000_000_000;
                assert(count * 10_000_000_000 + 10_000_000_000
                    == (count + 1) * 10_000_000_000) by (nonlinear_arith);
                assert(count * 100_000_000_000_000_000_000 + 100_000_000_000_000_000_000
                    == (count + 1) * 100_000_000_000_000_000_000) by (nonlinear_arith);
                assert(count * 10_000_000_000 <= (MAX_SMOOTHNESS_SEGMENTS as int) * 10_000_000_000)
                    by (nonlinear_arith)
                    requires 0 <= count <= MAX_SMOOTHNESS_SEGMENTS as int;
                assert(count * 100_000_000_000_000_000_000
                    <= (MAX_SMOOTHNESS_SEGMENTS as int) * 100_000_000_000_000_000_000)
                    by (nonlinear_arith)
                    requires 0 <= count <= MAX_SMOOTHNESS_SEGMENTS as int;
            }
            count = count + 1;
            sum = sum + d;
            sum_sq = sum_sq + d * d;
        } else {
            proof {
                assert(spec_durations(pre) == ds0);
            }
        }
        i = i + 1;
    }
    proof {
        assert(transcription.segments@.take(n as int) =~= transcription.segments@);
    }
    if count == 0 {
        return None;
    }
    proof {
        lemma_durations_bounds(transcription.segments@);
        lemma_sums_bounds(allds, 10_000_000_000);
        assert(sum <= 10_000_000_000_000_000) by (nonlinear_arith)
            requires
                sum <= count * 10_000_000_000,
                0 <= count <= 1_000_000,
        ;
        assert(count * sum_sq <= 1_000_000 * (1_000_000int * 100_000_000_000_000_000_000))
            by (nonlinear_arith)
            requires
                0 <= count <= 1_000_000,
                0 <= sum_sq <= count * 100_000_000_000_000_000_000,
        ;
        assert(sum * sum <= 10_000_000_000_000_000 * 10_000_000_000_000_000int)
            by (nonlinear_arith)
            requires 0 <= sum <= 10_000_000_000_000_000,
        ;
        assert(sum * sum >= 1) by (nonlinear_arith)
            requires sum >= 1;
        assert(count * sum_sq * 1000000
            <= 1_000_000 * (1_000_000int * 100_000_000_000_000_000_000) * 1000000)
            by (nonlinear_arith)
            requires 0 <= count * sum_sq <= 1_000_000 * (1_000_000int * 100_000_000_000_000_000_000),
        ;
    }
    let num: u128 = count * sum_sq * 1000000;
    let den: u128 = sum * sum;
    Some(num / den)
}

/// `a` is a strictly better attempt score than `b`: a real score beats a
/// failed attempt, and a lower score beats a higher one.
pub open spec fn strictly_better(a: Option<u128>, b: Option<u128>) -> bool {
    match (a, b) {
        (Some(x), Some(y)) => x < y,
        (Some(_), None) => true,
        (None, _) => false,
    }
}

/// The tempo and score the selection loop picks: the first attempt whose
/// score strictly beats every earlier attempt, starting from the default of
/// tempo 100 with no score.
pub open spec fn spec_best_attempt(attempts: Seq<TuneAttempt>) -> (i32, Option<u128>)
    decreases attempts.len(),
{
    if attempts.len() == 0 {
        (100i32, None)
    } else {
        let prev = spec_best_attempt(attempts.drop_last());
        let cur = attempts.last();
        if strictly_better(cur.smoothness_micro, prev.1) {
            (cur.tempo, cur.smoothness_micro)
        } else {
            prev
        }
    }
}

/// Selects the best tempo among the explored attempts: the lowest
/// smoothness score wins, earlier attempts win ties, failed attempts never
/// win, and an empty exploration falls back to tempo 100 with no score.
pub fn select_best_tempo(attempts: &Vec<TuneAttempt>) -> (r: (i32, Option<u128>))
    ensures
        r == spec_best_attempt(attempts@),
        forall|i: int|
            0 <= i < attempts@.len()
                ==> !strictly_better((#[trigger] attempts@[i]).smoothness_micro, r.1),
{
    let mut best_tempo: i32 = 100;
    let mut best_score: Option<u128> = None;
    let n = attempts.len();
    let mut i: usize = 0;
    proof {
        assert(attempts@.take(0) =~= Seq::<TuneAttempt>::empty());
    }
    while i < n
        invariant
            0 <= i <= n == attempts@.len(),
            (best_tempo, best_score) == spec_best_attempt(attempts@.take(i as int)),
            forall|k: int|
                0 <= k < i ==> !strictly_better(
                    (#[trigger] attempts@[k]).smoothness_micro,
                    best_score,
                ),
        decreases n - i,
    {
        let a = &attempts[i];
        let better = match (&a.smoothness_micro, &best_score) {
            (Some(x), Some(y)) => *x < *y,
            (Some(_), None) => true,
            (None, _) => false,
        };
        if better {
            best_tempo = a.tempo;
            best_score = a.smoothness_micro;
        }
        i = i + 1;
        proof {
            let pre = attempts@.take(i as int);
            assert(pre.drop_last() =~= attempts@.take(i - 1));
            assert(pre.last() == attempts@[i - 1]);
        }
    }
    proof {
        assert(attempts@.take(n as int) =~= attempts@);
    }
    (best_tempo, best_score)
}


/// The oldest write time among `ts`, when any.
pub open spec fn spec_oldest(ts: Seq<u64>) -> Option<u64>
    decreases ts.len(),
{
    if ts.len() == 0 {
        None
    } else {
        match spec_oldest(ts.drop_last()) {
            None => Some(ts.last()),
            Some(m) => if ts.last() < m {
                Some(ts.last())
            } else {
                Some(m)
            },
        }
    }
}

/// The newest write time among `ts`, when any.
pub open spec fn spec_newest(ts: Seq<u64>) -> Option<u64>
    decreases ts.len(),
{
    if ts.len() == 0 {
        None
    } else {
        match spec_newest(ts.drop_last()) {
            None => Some(ts.last()),
            Some(m) => if ts.last() > m {
                Some(ts.last())
            } else {
                Some(m)
            },
        }
    }
}

/// Summarizes the write times of the parsed cache entries for the
/// statistics report: how many there are and the oldest and newest times.
/// Walking the cache directory and sizing the files is the caller's
/// business.
pub fn summarize_entry_times(entries: &Vec<TranscriptionCache>) -> (r: (u64, Option<u64>, Option<
    u64,
>))
    requires
        entries@.len() < 18446744073709551616,
    ensures
        r.0 == entries@.len(),
        r.1 == spec_oldest(entries@.map_values(|e: TranscriptionCache| e.cached_at)),
        r.2 == spec_newest(entries@.map_values(|e: TranscriptionCache| e.cached_at)),
{
    let ghost times = entries@.map_values(|e: TranscriptionCache| e.cached_at);
    let n = entries.len();
    let mut oldest: Option<u64> = None;
    let mut newest: Option<u64> = None;
    let mut i: usize = 0;
    proof {
        assert(times.take(0) =~= Seq::<u64>::empty());
    }
    while i < n
        invariant
            0 <= i <= n == entries@.len(),
            times == entries@.map_values(|e: TranscriptionCache| e.cached_at),
            oldest == spec_oldest(times.take(i as int)),
            newest == spec_newest(times.take(i as int)),
        decreases n - i,
    {
        let t = entries[i].cached_at;
        proof {
            assert(times.take(i + 1).drop_last() =~= times.take(i as int));
            assert(times.take(i + 1).last() == times[i as int]);
            assert(times[i as int] == t);
        }
        oldest = match oldest {
            None => Some(t),
            Some(m) => if t < m {
                Some(t)
            } else {
                Some(m)
            },
        };
        newest = match newest {
            None => Some(t),
            Some(m) => if t > m {
                Some(t)
            } else {
                Some(m)
            },
        };
        i = i + 1;
    }
    proof {
        assert(times.take(n as int) =~= times);
    }
    (n as u64, oldest, newest)
}

/// One of the first `upto` entries uses the model named `v`.
pub open spec fn spec_model_used(entries: Seq<TranscriptionCache>, upto: int, v: Seq<char>) -> bool {
    exists|j: int| 0 <= j < upto && v == (#[trigger] entries[j]).model@
}

/// The name `v` stands among the first `upto` collected names.
pub open spec fn spec_name_listed(models: Seq<String>, upto: int, v: Seq<char>) -> bool {
    exists|a: int| 0 <= a < upto && v == (#[trigger] models[a])@
}

/// The distinct model names among the parsed cache entries, each once and
/// in first-use order, for the statistics report: no name twice, every
/// listed name used by some entry, and every entry's model listed.
pub fn distinct_models(entries: &Vec<TranscriptionCache>) -> (r: Vec<String>)
    ensures
        forall|a: int, b: int|
            0 <= a < b < r@.len() ==> (#[trigger] r@[a])@ != (#[trigger] r@[b])@,
        forall|a: int|
            0 <= a < r@.len() ==> spec_model_used(entries@, entries@.len() as int, (#[trigger] r@[a])@),
        forall|j: int|
            0 <= j < entries@.len() ==> spec_name_listed(
                r@,
                r@.len() as int,
                (#[trigger] entries@[j]).model@,
            ),
{
    let n = entries.len();
    let mut models: Vec<String> = Vec::new();
    let mut i: usize = 0;
    while i < n
        invariant
            0 <= i <= n == entries@.len(),
            forall|a: int, b: int|
                0 <= a < b < models@.len() ==> (#[trigger] models@[a])@
                    != (#[trigger] models@[b])@,
            forall|a: int|
                0 <= a < models@.len() ==> spec_model_used(
                    entries@,
                    i as int,
                    (#[trigger] models@[a])@,
                ),
            forall|j: int|
                0 <= j < i ==> spec_name_listed(
                    models@,
                    models@.len() as int,
                    (#[trigger] entries@[j]).model@,
                ),
        decreases n - i,
    {
        let mut seen = false;
        let mut k: usize = 0;
        let m = models.len();
        while k < m
            invariant
                0 <= k <= m == models@.len(),
                i < n == entries@.len(),
                seen ==> exists|a: int|
                    0 <= a < m && (#[trigger] models@[a])@ == entries@[i as int].model@,
                !seen ==> forall|a: int|
                    0 <= a < k ==> (#[trigger] models@[a])@ != entries@[i as int].model@,
            decreases m - k,
        {
            if !seen && crate::text::str_eq(models[k].as_str(), entries[i].model.as_str()) {
                proof {
                    assert(models@[k as int]@ == entries@[i as int].model@);
                }
                seen = true;
            }
            k = k + 1;
        }
        let ghost models0 = models@;
        if !seen {
            let mv = crate::text::chars_vec(entries[i].model.as_str());
            models.push(crate::text::string_from_chars(&mv));
            proof {
                assert(forall|a: int|
                    0 <= a < models0.len() ==> #[trigger] models@[a] == models0[a]);
                assert(models@[models@.len() - 1]@ == entries@[i as int].model@);
                assert forall|a: int, b: int|
                    0 <= a < b < models@.len() implies (#[trigger] models@[a])@
                        != (#[trigger] models@[b])@ by {
                    if b < models0.len() {
                        assert(models@[a] == models0[a]);
                        assert(models@[b] == models0[b]);
                    } else {
                        assert(models@[a] == models0[a]);
                        assert(models@[b]@ == entries@[i as int].model@);
                    }
                };
                assert(spec_model_used(entries@, i + 1, entries@[i as int].model@));
            }
        }
        proof {
            assert forall|a: int|
                0 <= a < models@.len() implies spec_model_used(
                entries@,
                i + 1,
                (#[trigger] models@[a])@,
            ) by {
                if spec_model_used(entries@, i as int, models@[a]@) {
                    let j = choose|j: int|
                        0 <= j < i && models@[a]@ == (#[trigger] entries@[j]).model@;
                    assert(0 <= j < i + 1 && models@[a]@ == entries@[j].model@);
                } else {
                    assert(models@[a]@ == entries@[i as int].model@);
                }
            };
            let ghost mcur = models@;
            assert forall|j: int|
                0 <= j < i + 1 implies spec_name_listed(
                mcur,
                mcur.len() as int,
                (#[trigger] entries@[j]).model@,
            ) by {
                if j < i {
                    let a = choose|a: int|
                        0 <= a < models0.len() && entries@[j].model@ == (#[trigger] models0[a])@;
                    assert(mcur[a] == models0[a]);
                    assert(entries@[j].model@ == mcur[a]@);
                } else {
                    if seen {
                        let a = choose|a: int|
                            0 <= a < models0.len() && (#[trigger] models0[a])@
                                == entries@[i as int].model@;
                        assert(entries@[j].model@ == mcur[a]@);
                    } else {
                        assert(entries@[j].model@ == mcur[mcur.len() - 1]@);
                    }
                }
            };
        }
        i = i + 1;
    }
    models
}

} // verus!
