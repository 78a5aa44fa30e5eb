//! Transcript data model and quality assessment.
//!
//! Times are whole milliseconds; probabilities, ratios and scores are
//! fixed-point integers in thousandths ("milli" units), so a
//! `no_speech_prob` of 0.8 is 800 and a quality score of 0.7 is 700.

use vstd::prelude::*;
use crate::text::{lower_of, spec_trim, trim_str, lowercase};
use crate::error::{ShuroError, ShuroResult, concat_msg};

verus! {

/// One timed unit of transcribed speech.
#[derive(Debug, Clone)]
pub struct TranscriptionSegment {
    pub id: i32,
    /// Start of the segment, in milliseconds.
    pub start_ms: u64,
    /// End of the segment, in milliseconds.
    pub end_ms: u64,
    pub text: String,
    pub tokens: Vec<i32>,
    /// Decoding temperature, in thousandths.
    pub temperature_milli: i32,
    /// Mean log-probability of the tokens, in thousandths.
    pub avg_logprob_milli: i64,
    /// Compression ratio of the text, in thousandths.
    pub compression_ratio_milli: u32,
    /// Probability that the segment is silence, in thousandths.
    pub no_speech_prob_milli: u32,
}

/// A whole transcript: the joined text, the timed segments in document
/// order, and the detected language.
#[derive(Debug, Clone)]
pub struct Transcription {
    pub text: String,
    pub segments: Vec<TranscriptionSegment>,
    pub language: String,
}

/// A stretch of the transcript suspected to be hallucinated.
#[derive(Debug, Clone)]
pub struct HallucinationPeriod {
    pub start_ms: u64,
    pub end_ms: u64,
    /// Confidence that the stretch is hallucinated, in thousandths.
    pub confidence_milli: u32,
}

/// Quality metrics derived from a transcript; recomputed on demand and
/// never stored.
#[derive(Debug, Clone)]
pub struct TranscriptionQuality {
    /// The largest token count over all segments.
    pub tokens_max_segment: u64,
    /// Share of segments that repeat an earlier segment's normalized text,
    /// in thousandths.
    pub repetitive_segments_milli: u64,
    pub hallucination_periods: Vec<HallucinationPeriod>,
}

/// The segment is silence misread as speech: high no-speech probability
/// with low compression.
pub open spec fn silence_flagged(s: TranscriptionSegment) -> bool {
    s.no_speech_prob_milli > 800 && s.compression_ratio_milli < 1500
}

/// The segment is pathologically repetitive: very high compression.
pub open spec fn repetition_flagged(s: TranscriptionSegment) -> bool {
    s.compression_ratio_milli > 3000
}

/// The hallucination periods contributed by one segment, in order: the
/// silence flag first, the repetition flag second.
pub open spec fn spec_segment_periods(s: TranscriptionSegment) -> Seq<HallucinationPeriod> {
    let a: Seq<HallucinationPeriod> = if silence_flagged(s) {
        seq![HallucinationPeriod {
            start_ms: s.start_ms,
            end_ms: s.end_ms,
            confidence_milli: s.no_speech_prob_milli,
        }]
    } else {
        Seq::empty()
    };
    let b: Seq<HallucinationPeriod> = if repetition_flagged(s) {
        seq![HallucinationPeriod {
            start_ms: s.start_ms,
            end_ms: s.end_ms,
            confidence_milli: ((s.compression_ratio_milli - 3000) / 10) as u32,
        }]
    } else {
        Seq::empty()
    };
    a + b
}

/// All hallucination periods of a transcript, in document order.
pub open spec fn spec_hallucinations(segs: Seq<TranscriptionSegment>) -> Seq<HallucinationPeriod>
    decreases segs.len(),
{
    if segs.len() == 0 {
        Seq::empty()
    } else {
        spec_hallucinations(segs.drop_last()) + spec_segment_periods(segs.last())
    }
}

/// The largest token count over the segments.
pub open spec fn spec_max_tokens(segs: Seq<TranscriptionSegment>) -> int
    decreases segs.len(),
{
    if segs.len() == 0 {
        0
    } else {
        let prev = spec_max_tokens(segs.drop_last());
        let cur = segs.last().tokens.len() as int;
        if cur > prev { cur } else { prev }
    }
}

/// The normalized text of a segment, used to detect over-repetition:
/// trimmed and lowercased.
pub open spec fn spec_norm_seg_text(s: TranscriptionSegment) -> Seq<char> {
    lower_of(spec_trim(s.text@))
}

/// The normalized texts of all segments whose normalized text is non-empty.
pub open spec fn spec_norm_texts(segs: Seq<TranscriptionSegment>) -> Seq<Seq<char>>
    decreases segs.len(),
{
    if segs.len() == 0 {
        Seq::empty()
    } else {
        let prev = spec_norm_texts(segs.drop_last());
        let t = spec_norm_seg_text(segs.last());
        if t.len() == 0 { prev } else { prev.push(t) }
    }
}

/// How many entries repeat an earlier entry; each group of `k` equal texts
/// contributes `k - 1`.
pub open spec fn spec_dup_count(ts: Seq<Seq<char>>) -> int
    decreases ts.len(),
{
    if ts.len() == 0 {
        0
    } else {
        spec_dup_count(ts.drop_last()) + if ts.drop_last().contains(ts.last()) { 1int } else { 0int }
    }
}

/// The repetitive-segment share of a transcript, in thousandths.
pub open spec fn spec_rep_milli(segs: Seq<TranscriptionSegment>) -> int {
    if segs.len() > 0 {
        spec_dup_count(spec_norm_texts(segs)) * 1000 / (segs.len() as int)
    } else {
        0
    }
}

/// The quality report that `Transcription::quality` computes.
pub open spec fn is_quality_of(t: Transcription, q: TranscriptionQuality) -> bool {
    &&& q.tokens_max_segment == spec_max_tokens(t.segments@)
    &&& q.repetitive_segments_milli == spec_rep_milli(t.segments@)
    &&& q.hallucination_periods@ == spec_hallucinations(t.segments@)
}

/// The scalar quality score of a transcript, in thousandths.
pub open spec fn spec_score_of(t: Transcription) -> int {
    10 * spec_max_tokens(t.segments@) + spec_rep_milli(t.segments@)
        + 500 * spec_hallucinations(t.segments@).len()
}

/// The scalar quality score, in thousandths; lower is better. Each token of
/// the longest segment costs 10, each repeated segment's share costs its
/// milli value, and each hallucination period costs 500.
pub open spec fn spec_score(q: TranscriptionQuality) -> int {
    10 * q.tokens_max_segment + q.repetitive_segments_milli + 500 * q.hallucination_periods@.len()
}

proof fn lemma_dup_count_bound(ts: Seq<Seq<char>>)
    ensures
        0 <= spec_dup_count(ts) <= ts.len(),
    decreases ts.len(),
{
    if ts.len() > 0 {
        lemma_dup_count_bound(ts.drop_last());
    }
}

proof fn lemma_norm_texts_bound(segs: Seq<TranscriptionSegment>)
    ensures
        spec_norm_texts(segs).len() <= segs.len(),
    decreases segs.len(),
{
    if segs.len() > 0 {
        lemma_norm_texts_bound(segs.drop_last());
    }
}

impl TranscriptionQuality {
    /// The scalar quality score, in thousandths; lower is better.
    pub fn score(&self) -> (r: u128)
        ensures
            r == spec_score(*self),
    {
        let token_penalty: u128 = 10 * (self.tokens_max_segment as u128);
        let hallucination_penalty: u128 = 500 * (self.hallucination_periods.len() as u128);
        token_penalty + (self.repetitive_segments_milli as u128) + hallucination_penalty
    }

    /// Whether any hallucination period was detected.
    pub fn has_hallucinations(&self) -> (r: bool)
        ensures
            r == (self.hallucination_periods@.len() > 0),
    {
        self.hallucination_periods.len() > 0
    }
}

/// The score never falls when the repetitive share, the maximum token
/// count, or the number of hallucination periods grows, the others held
/// fixed or also growing.
pub proof fn lemma_score_monotone(q1: TranscriptionQuality, q2: TranscriptionQuality)
    requires
        q1.tokens_max_segment <= q2.tokens_max_segment,
        q1.repetitive_segments_milli <= q2.repetitive_segments_milli,
        q1.hallucination_periods@.len() <= q2.hallucination_periods@.len(),
    ensures
        spec_score(q1) <= spec_score(q2),
{
}

/// A transcript has a hallucination period exactly when some segment
/// satisfies one of the two hallucination predicates.
pub proof fn lemma_hallucination_iff_flagged(segs: Seq<TranscriptionSegment>)
    ensures
        spec_hallucinations(segs).len() > 0 <==> exists|i: int|
            0 <= i < segs.len() && (silence_flagged(#[trigger] segs[i]) || repetition_flagged(
                segs[i],
            )),
    decreases segs.len(),
{
    if segs.len() > 0 {
        assert(segs.last() == segs[segs.len() - 1]);
        assert(forall|i: int| 0 <= i < segs.len() - 1 ==> segs.drop_last()[i] == segs[i]);
        lemma_hallucination_iff_flagged(segs.drop_last());
        if spec_hallucinations(segs).len() > 0 {
            if spec_hallucinations(segs.drop_last()).len() > 0 {
                let w = choose|i: int|
                    0 <= i < segs.drop_last().len() && (silence_flagged(
                        #[trigger] segs.drop_last()[i],
                    ) || repetition_flagged(segs.drop_last()[i]));
                assert(silence_flagged(segs[w]) || repetition_flagged(segs[w]));
            } else {
                assert(spec_segment_periods(segs.last()).len() > 0);
                assert(silence_flagged(segs[segs.len() - 1]) || repetition_flagged(
                    segs[segs.len() - 1],
                ));
            }
        }
        if exists|i: int|
            0 <= i < segs.len() && (silence_flagged(#[trigger] segs[i]) || repetition_flagged(
                segs[i],
            )) {
            let w = choose|i: int|
                0 <= i < segs.len() && (silence_flagged(#[trigger] segs[i]) || repetition_flagged(
                    segs[i],
                ));
            if w < segs.len() - 1 {
                assert(silence_flagged(segs.drop_last()[w]) || repetition_flagged(
                    segs.drop_last()[w],
                ));
                assert(spec_hallucinations(segs.drop_last()).len() > 0);
            } else {
                assert(spec_segment_periods(segs.last()).len() > 0);
            }
        }
    }
}

/// A transcript none of whose segments carries a hallucination marker
/// (no-speech probability above 0.8 or compression ratio above 3.0) has no
/// hallucination periods at all.
pub proof fn lemma_no_marker_no_hallucination(segs: Seq<TranscriptionSegment>)
    requires
        forall|i: int|
            0 <= i < segs.len() ==> (#[trigger] segs[i]).no_speech_prob_milli <= 800
                && segs[i].compression_ratio_milli <= 3000,
    ensures
        spec_hallucinations(segs).len() == 0,
    decreases segs.len(),
{
    if segs.len() > 0 {
        assert(segs.last() == segs[segs.len() - 1]);
        lemma_no_marker_no_hallucination(segs.drop_last());
    }
}

impl Transcription {
    /// Detects suspected hallucination periods: per segment, silence
    /// misread as speech (no-speech probability above 0.8 with compression
    /// ratio below 1.5, confidence the no-speech probability), and
    /// pathological repetition (compression ratio above 3.0, confidence a
    /// tenth of the excess).
    pub fn detect_hallucinations(&self) -> (r: Vec<HallucinationPeriod>)
        ensures
            r@ == spec_hallucinations(self.segments@),
    {
        let mut periods: Vec<HallucinationPeriod> = Vec::new();
        let n = self.segments.len();
        let mut i: usize = 0;
        proof {
            assert(self.segments@.take(0) =~= Seq::<TranscriptionSegment>::empty());
        }
        while i < n
            invariant
                0 <= i <= n == self.segments@.len(),
                periods@ == spec_hallucinations(self.segments@.take(i as int)),
            decreases n - i,
        {
            let seg = &self.segments[i];
            if seg.no_speech_prob_milli > 800 && seg.compression_ratio_milli < 1500 {
                periods.push(HallucinationPeriod {
                    start_ms: seg.start_ms,
                    end_ms: seg.end_ms,
                    confidence_milli: seg.no_speech_prob_milli,
                });
            }
            if seg.compression_ratio_milli > 3000 {
                periods.push(HallucinationPeriod {
                    start_ms: seg.start_ms,
                    end_ms: seg.end_ms,
                    confidence_milli: (seg.compression_ratio_milli - 3000) / 10,
                });
            }
            i = i + 1;
            proof {
                let pre = self.segments@.take(i as int);
                assert(pre.drop_last() =~= self.segments@.take(i - 1));
                assert(pre.last() == self.segments@[i - 1]);
                assert(periods@ =~= spec_hallucinations(pre));
            }
        }
        proof {
            assert(self.segments@.take(n as int) =~= self.segments@);
        }
        periods
    }

    /// Computes the quality report: the largest per-segment token count,
    /// the repetitive-segment share in thousandths, and the hallucination
    /// periods.
    pub fn quality(&self) -> (q: TranscriptionQuality)
        ensures
            is_quality_of(*self, q),
    {
        let n = self.segments.len();
        // Largest token count over the segments.
        let mut tokens_max: u64 = 0;
        let mut i: usize = 0;
        proof {
            assert(self.segments@.take(0) =~= Seq::<TranscriptionSegment>::empty());
        }
        while i < n
            invariant
                0 <= i <= n == self.segments@.len(),
                tokens_max == spec_max_tokens(self.segments@.take(i as int)),
            decreases n - i,
        {
            let cur = self.segments[i].tokens.len() as u64;
            if cur > tokens_max {
                tokens_max = cur;
            }
            i = i + 1;
            proof {
                let pre = self.segments@.take(i as int);
                assert(pre.drop_last() =~= self.segments@.take(i - 1));
                assert(pre.last() == self.segments@[i - 1]);
            }
        }
        proof {
            assert(self.segments@.take(n as int) =~= self.segments@);
        }

        // Normalized non-empty texts, in order.
        let mut norms: Vec<String> = Vec::new();
        let mut i: usize = 0;
        proof {
            assert(self.segments@.take(0) =~= Seq::<TranscriptionSegment>::empty());
            assert(norms@.map_values(|s: String| s@) =~= spec_norm_texts(self.segments@.take(0)));
        }
        while i < n
            invariant
                0 <= i <= n == self.segments@.len(),
                norms@.map_values(|s: String| s@) == spec_norm_texts(self.segments@.take(i as int)),
            decreases n - i,
        {
            let trimmed = trim_str(self.segments[i].text.as_str());
            let norm = lowercase(trimmed.as_str());
            if norm.as_str().unicode_len() > 0 {
                norms.push(norm);
            }
            i = i + 1;
            proof {
                let pre = self.segments@.take(i as int);
                assert(pre.drop_last() =~= self.segments@.take(i - 1));
                assert(pre.last() == self.segments@[i - 1]);
                assert(norms@.map_values(|s: String| s@) =~= spec_norm_texts(pre));
            }
        }
        proof {
            assert(self.segments@.take(n as int) =~= self.segments@);
        }

        // Count entries that repeat an earlier entry.
        let ghost ts = norms@.map_values(|s: String| s@);
        let m = norms.len();
        let mut dups: u64 = 0;
        let mut i: usize = 0;
        proof {
            assert(ts.take(0) =~= Seq::<Seq<char>>::empty());
            lemma_dup_count_bound(ts.take(0));
        }
        while i < m
            invariant
                0 <= i <= m == norms@.len(),
                ts == norms@.map_values(|s: String| s@),
                dups == spec_dup_count(ts.take(i as int)),
                0 <= dups <= i,
            decreases m - i,
        {
            let mut found = false;
            let mut j: usize = 0;
            while j < i
                invariant
                    0 <= j <= i < m == norms@.len(),
                    ts == norms@.map_values(|s: String| s@),
                    found == exists|k: int| 0 <= k < j && ts[k] == ts[i as int],
                decreases i - j,
            {
                if norms[j] == norms[i] {
                    assert(ts[j as int] == ts[i as int]);
                    found = true;
                }
                j = j + 1;
            }
            if found {
                dups = dups + 1;
            }
            proof {
                let pre = ts.take(i + 1);
                assert(pre.drop_last() =~= ts.take(i as int));
                assert(pre.last() == ts[i as int]);
                if found {
                    let k = choose|k: int| 0 <= k < i && ts[k] == ts[i as int];
                    assert(ts.take(i as int)[k] == ts[i as int]);
                    assert(ts.take(i as int).contains(ts[i as int]));
                } else {
                    assert(forall|k: int| 0 <= k < i ==> ts.take(i as int)[k] == ts[k]);
                    assert(!ts.take(i as int).contains(ts[i as int]));
                }
            }
            i = i + 1;
        }
        proof {
            assert(ts.take(m as int) =~= ts);
            lemma_norm_texts_bound(self.segments@);
            assert(dups <= n);
            if n > 0 {
                assert((dups as int) * 1000 / (n as int) <= 1000) by (nonlinear_arith)
                    requires
                        dups as int <= n as int,
                        n > 0,
                ;
            }
        }

        let repetitive: u64 = if n > 0 {
            ((dups as u128) * 1000 / (n as u128)) as u64
        } else {
            0
        };

        let hallucination_periods = self.detect_hallucinations();

        TranscriptionQuality {
            tokens_max_segment: tokens_max,
            repetitive_segments_milli: repetitive,
            hallucination_periods,
        }
    }
}

/// Rejects transcripts that breach the configured quality thresholds.
/// Thresholds are in the same milli units as the report.
pub struct QualityValidator {
    pub repetitive_threshold_milli: u64,
    pub max_tokens_threshold: u64,
    pub min_quality_score_milli: u64,
}

impl QualityValidator {
    pub fn new(
        repetitive_threshold_milli: u64,
        max_tokens_threshold: u64,
        min_quality_score_milli: u64,
    ) -> (r: Self)
        ensures
            r.repetitive_threshold_milli == repetitive_threshold_milli,
            r.max_tokens_threshold == max_tokens_threshold,
            r.min_quality_score_milli == min_quality_score_milli,
    {
        Self { repetitive_threshold_milli, max_tokens_threshold, min_quality_score_milli }
    }

    /// Validates a transcript against the thresholds. Fails closed: any
    /// hallucination is rejected whatever the thresholds; otherwise the
    /// repetitive share, the maximum token count, and the aggregate score
    /// are each checked against their threshold.
    pub fn validate_transcription(&self, transcription: &Transcription) -> (r: ShuroResult<()>)
        ensures
            ({
                let segs = transcription.segments@;
                if spec_hallucinations(segs).len() > 0 {
                    r matches Err(e) && e is Hallucination
                } else if spec_rep_milli(segs) > self.repetitive_threshold_milli {
                    r matches Err(e) && e is Quality
                } else if spec_max_tokens(segs) > self.max_tokens_threshold {
                    r matches Err(e) && e is Quality
                } else if spec_score_of(*transcription) > self.min_quality_score_milli {
                    r matches Err(e) && e is Quality
                } else {
                    r is Ok
                }
            }),
    {
        let quality = transcription.quality();

        if quality.has_hallucinations() {
            return Err(ShuroError::Hallucination);
        }

        if quality.repetitive_segments_milli > self.repetitive_threshold_milli {
            let detail = crate::dec_string(quality.repetitive_segments_milli);
            return Err(ShuroError::Quality(concat_msg(
                "Too many repetitive segments (in thousandths): ",
                &detail,
            )));
        }

        if quality.tokens_max_segment > self.max_tokens_threshold {
            let detail = crate::dec_string(quality.tokens_max_segment);
            return Err(ShuroError::Quality(concat_msg("Segment too long (tokens): ", &detail)));
        }

        let score = quality.score();
        if score > self.min_quality_score_milli as u128 {
            let detail = crate::dec_string(self.min_quality_score_milli);
            return Err(ShuroError::Quality(concat_msg(
                "Quality score too low; threshold (in thousandths): ",
                &detail,
            )));
        }

        Ok(())
    }
}

} // verus!
