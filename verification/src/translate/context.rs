//! Context-aware translation: the neighbouring-segment context builder and
//! the bounded retry machine that accepts or rejects each attempt. The HTTP
//! calls themselves are the caller's business; the state machine decides
//! what happens after each outcome.

use vstd::prelude::*;
use crate::quality::TranscriptionSegment;
use crate::text::{chars_vec, join_space, spec_join_space};
use crate::translate::common::TranslationQuality;

verus! {

/// The texts of the segments in `[lo, hi)`.
pub open spec fn spec_segment_texts(
    segs: Seq<TranscriptionSegment>,
    lo: int,
    hi: int,
) -> Seq<Seq<char>> {
    segs.subrange(lo, hi).map_values(|s: TranscriptionSegment| s.text@)
}

/// The context handed to the translator for one segment: the texts of up
/// to `context_size` segments on each side, original text only, joined with
/// spaces; the segment's own text is never part of it.
pub open spec fn spec_segment_context(
    segs: Seq<TranscriptionSegment>,
    idx: int,
    context_size: int,
) -> Seq<char> {
    let lo = if idx - context_size >= 0 { idx - context_size } else { 0 };
    let hi = if idx + 1 + context_size <= segs.len() { idx + 1 + context_size } else {
        segs.len() as int
    };
    spec_join_space(spec_segment_texts(segs, lo, idx) + spec_segment_texts(segs, idx + 1, hi))
}

/// Builds the context for one segment from its neighbours' original texts.
pub fn build_segment_context(
    segments: &Vec<TranscriptionSegment>,
    current_idx: usize,
    context_size: usize,
) -> (r: String)
    requires
        current_idx < segments@.len(),
    ensures
        r@ == spec_segment_context(segments@, current_idx as int, context_size as int),
{
    let mut parts: Vec<String> = Vec::new();
    let start_idx = if current_idx > context_size { current_idx - context_size } else { 0 };
    let ghost lo = start_idx as int;
    let mut i: usize = start_idx;
    proof {
        assert(parts@.map_values(|s: String| s@) =~= spec_segment_texts(
            segments@,
            lo,
            lo,
        ));
    }
    while i < current_idx
        invariant
            lo <= i <= current_idx < segments@.len(),
            lo == if current_idx - context_size >= 0 { current_idx - context_size } else { 0int },
            parts@.map_values(|s: String| s@) == spec_segment_texts(segments@, lo, i as int),
        decreases current_idx - i,
    {
        let ghost pm0 = parts@.map_values(|s: String| s@);
        parts.push(copy_string(&segments[i].text));
        i = i + 1;
        proof {
            assert(parts@.map_values(|s: String| s@) =~= pm0.push(segments@[i - 1].text@));
            assert(spec_segment_texts(segments@, lo, i as int) =~= spec_segment_texts(
                segments@,
                lo,
                i - 1,
            ).push(segments@[i - 1].text@));
        }
    }
    let n = segments.len();
    let remaining = n - current_idx - 1;
    let end_idx = if context_size < remaining { current_idx + 1 + context_size } else { n };
    let ghost hi = end_idx as int;
    let ghost before = spec_segment_texts(segments@, lo, current_idx as int);
    let mut j: usize = current_idx + 1;
    proof {
        assert(spec_segment_texts(segments@, current_idx + 1, j as int)
            =~= Seq::<Seq<char>>::empty());
        assert(parts@.map_values(|s: String| s@) =~= before + spec_segment_texts(
            segments@,
            current_idx + 1,
            j as int,
        ));
    }
    while j < end_idx
        invariant
            current_idx + 1 <= j <= hi <= segments@.len(),
            hi == end_idx,
            before == spec_segment_texts(segments@, lo, current_idx as int),
            parts@.map_values(|s: String| s@) == before + spec_segment_texts(
                segments@,
                current_idx + 1,
                j as int,
            ),
        decreases hi - j,
    {
        let ghost pm0 = parts@.map_values(|s: String| s@);
        parts.push(copy_string(&segments[j].text));
        j = j + 1;
        proof {
            assert(parts@.map_values(|s: String| s@) =~= pm0.push(segments@[j - 1].text@));
            assert(spec_segment_texts(segments@, current_idx + 1, j as int)
                =~= spec_segment_texts(segments@, current_idx + 1, j - 1).push(
                segments@[j - 1].text@,
            ));
            assert(pm0.push(segments@[j - 1].text@) =~= before + spec_segment_texts(
                segments@,
                current_idx + 1,
                j as int,
            ));
        }
    }
    proof {
        let ghost hi2 = if current_idx + 1 + context_size <= segments@.len() {
            current_idx + 1 + context_size
        } else {
            segments@.len() as int
        };
        assert(hi == hi2);
    }
    join_space(&parts)
}

fn copy_string(s: &String) -> (r: String)
    ensures
        r@ == s@,
{
    let v = chars_vec(s.as_str());
    crate::text::string_from_chars(&v)
}

/// A translation echoed or expanded far beyond its source: more than five
/// times the source's length.
pub open spec fn spec_length_exceeded(source: Seq<char>, translation: Seq<char>) -> bool {
    source.len() * 5 < translation.len()
}

/// The cheap sanity check run before judging: whether the translation is
/// more than five times the source's length, a sign that the model echoed
/// the context instead of translating the unit.
pub fn length_check_exceeded(source: &str, translation: &str) -> (r: bool)
    ensures
        r == spec_length_exceeded(source@, translation@),
{
    let sv = chars_vec(source);
    let tv = chars_vec(translation);
    let limit: u128 = (sv.len() as u128) * 5;
    (tv.len() as u128) > limit
}

/// What one translation attempt reported.
#[derive(Debug, Clone)]
pub enum AttemptEvent {
    /// The translation request itself failed.
    RequestFailed,
    /// The translation came back longer than five times the source.
    TooLong,
    /// The judge could not be reached or understood.
    JudgeFailed,
    /// The judge assigned this level.
    Judged(TranslationQuality),
}

/// What the retry machine tells the caller to do next.
#[derive(Debug, Clone, PartialEq, Eq, Structural)]
pub enum GateAction {
    /// Use this attempt's translation and persist it.
    Accept,
    /// Try again; consult `context_dropped` for the context to use.
    Retry,
    /// All attempts are spent; fall back to the original text.
    GiveUp,
}

/// The bounded retry machine for one translation unit. The caller performs
/// the translation and judgement calls; this state counts attempts and
/// decides. Once `context_dropped` is set the caller translates without
/// context.
#[derive(Debug, Clone)]
pub struct RetryGate {
    pub max_retries: u32,
    pub attempts: u32,
    pub context_dropped: bool,
}

/// The action taken on an event, with `attempts` already counting the
/// attempt the event reports: accept exactly a PERFECT or GOOD verdict;
/// otherwise retry while attempts remain and give up when none do.
pub open spec fn spec_gate_action(s: RetryGate, event: AttemptEvent) -> GateAction {
    if event matches AttemptEvent::Judged(q) && (q is Perfect || q is Good) {
        GateAction::Accept
    } else if s.attempts + 1 < s.max_retries {
        GateAction::Retry
    } else {
        GateAction::GiveUp
    }
}

/// The state after an event: the attempt is counted, and an over-long
/// translation drops the context for every later attempt.
pub open spec fn spec_gate_next(s: RetryGate, event: AttemptEvent) -> RetryGate {
    RetryGate {
        max_retries: s.max_retries,
        attempts: (s.attempts + 1) as u32,
        context_dropped: s.context_dropped || event is TooLong,
    }
}

impl RetryGate {
    /// A fresh machine with no attempts spent and the context intact.
    pub fn new(max_retries: u32) -> (r: Self)
        ensures
            r.max_retries == max_retries,
            r.attempts == 0,
            !r.context_dropped,
    {
        RetryGate { max_retries, attempts: 0, context_dropped: false }
    }

    /// Whether another attempt may start.
    pub fn has_attempts_left(&self) -> (r: bool)
        ensures
            r == (self.attempts < self.max_retries),
    {
        self.attempts < self.max_retries
    }

    /// Consumes the attempt the event reports and decides what happens
    /// next: a PERFECT or GOOD verdict is accepted; anything else retries
    /// while attempts remain and gives up once they are spent. An
    /// over-long translation drops the context for all later attempts.
    pub fn step(&mut self, event: AttemptEvent) -> (r: GateAction)
        requires
            old(self).attempts < old(self).max_retries,
        ensures
            *final(self) == spec_gate_next(*old(self), event),
            r == spec_gate_action(*old(self), event),
    {
        self.attempts = self.attempts + 1;
        let accepted = match &event {
            AttemptEvent::Judged(q) => q.is_acceptable(),
            _ => false,
        };
        if let AttemptEvent::TooLong = &event {
            self.context_dropped = true;
        }
        if accepted {
            GateAction::Accept
        } else if self.attempts < self.max_retries {
            GateAction::Retry
        } else {
            GateAction::GiveUp
        }
    }
}

/// The state after `n` further attempts that a judge answering BAD ends.
pub open spec fn spec_run_bad(s: RetryGate, n: nat) -> RetryGate
    decreases n,
{
    if n == 0 {
        s
    } else {
        spec_run_bad(spec_gate_next(s, AttemptEvent::Judged(TranslationQuality::Bad)), (n - 1) as nat)
    }
}

/// Against a judge that always answers BAD, no attempt is ever accepted:
/// every attempt but the last ends in Retry, the last in GiveUp, after
/// exactly the configured number of attempts.
pub proof fn lemma_gate_exhausts_on_bad(s: RetryGate, n: nat)
    requires
        s.attempts + n == s.max_retries,
    ensures
        forall|i: nat|
            i < n ==> spec_gate_action(
                #[trigger] spec_run_bad(s, i),
                AttemptEvent::Judged(TranslationQuality::Bad),
            ) != GateAction::Accept,
        forall|i: nat|
            i + 1 < n ==> spec_gate_action(
                #[trigger] spec_run_bad(s, i),
                AttemptEvent::Judged(TranslationQuality::Bad),
            ) == GateAction::Retry,
        n > 0 ==> spec_gate_action(
            spec_run_bad(s, (n - 1) as nat),
            AttemptEvent::Judged(TranslationQuality::Bad),
        ) == GateAction::GiveUp,
        spec_run_bad(s, n).attempts == s.max_retries,
    decreases n,
{
    lemma_run_bad_attempts(s, n);
    assert forall|i: nat| i < n implies spec_gate_action(
        #[trigger] spec_run_bad(s, i),
        AttemptEvent::Judged(TranslationQuality::Bad),
    ) != GateAction::Accept by {
        lemma_run_bad_attempts(s, i);
    };
    assert forall|i: nat| i + 1 < n implies spec_gate_action(
        #[trigger] spec_run_bad(s, i),
        AttemptEvent::Judged(TranslationQuality::Bad),
    ) == GateAction::Retry by {
        lemma_run_bad_attempts(s, i);
    };
    if n > 0 {
        lemma_run_bad_attempts(s, (n - 1) as nat);
    }
}

proof fn lemma_run_bad_attempts(s: RetryGate, n: nat)
    requires
        s.attempts + n <= s.max_retries,
    ensures
        spec_run_bad(s, n).attempts == s.attempts + n,
        spec_run_bad(s, n).max_retries == s.max_retries,
    decreases n,
{
    if n > 0 {
        lemma_run_bad_attempts(
            spec_gate_next(s, AttemptEvent::Judged(TranslationQuality::Bad)),
            (n - 1) as nat,
        );
    }
}

/// Resolves one translation unit: the accepted translation when there is
/// one, the unchanged original text when every attempt was spent.
pub fn resolve_unit_translation(original: &str, accepted: Option<String>) -> (r: String)
    ensures
        match accepted {
            Some(t) => r@ == t@,
            None => r@ == original@,
        },
{
    match accepted {
        Some(t) => t,
        None => {
            let v = chars_vec(original);
            crate::text::string_from_chars(&v)
        },
    }
}

} // verus!
