//! The sliding-window consensus reconstruction: tolerant extraction of the
//! model's JSON window analyses, frequency voting over the detected
//! sentences, prefix/suffix merging, confidence thresholding, and the
//! rebuilding of the transcript from the translated sentences.

use vstd::prelude::*;
use vstd::multiset::Multiset;
use crate::quality::{Transcription, TranscriptionSegment};
use crate::text::{
    chars_vec, ends_with_chars, is_prefix, is_suffix, norm_text, spec_find_char, spec_norm,
    spec_trim, starts_with_chars, string_from_chars, str_eq, subrange_chars, trim_chars,
};
use crate::translate::common::json_string_field_of;

verus! {

/// One candidate sentence and how often the sliding windows detected it.
#[derive(Debug, Clone)]
pub struct SentenceCandidate {
    pub text: String,
    pub detection_count: u64,
    pub total_windows: u64,
}

/// A sentence rebuilt from one or more segments, with its translation.
#[derive(Debug, Clone)]
pub struct ReconstructedSentence {
    pub segment_indices: Vec<usize>,
    pub start_time_ms: u64,
    pub end_time_ms: u64,
    pub text: String,
    pub translated_text: String,
}

/// What parsing a window-analysis JSON payload returns: the `sentences`
/// array of strings, or nothing when the text is not such a document. A
/// function of the text alone.
pub uninterp spec fn sentences_json_of(s: Seq<char>) -> Option<Seq<Seq<char>>>;

/// Relies on `serde_json::from_str::<Value>`, `Value::get`,
/// `Value::as_array` and `Value::as_str`: reads the `sentences` string
/// array out of a JSON object.
#[verifier::external_body]
pub fn parse_sentences_payload(s: &str) -> (r: Option<Vec<String>>)
    ensures
        match r {
            Some(v) => sentences_json_of(s@) == Some(v@.map_values(|t: String| t@)),
            None => sentences_json_of(s@) is None,
        },
{
    let value: serde_json::Value = serde_json::from_str(s).ok()?;
    let items = value.get("sentences")?.as_array()?;
    let mut out: Vec<String> = Vec::new();
    for item in items {
        out.push(item.as_str()?.to_string());
    }
    Some(out)
}

/// `s` (trimmed) with one level of markdown code fencing removed: a
/// ```` ```json ```` or ```` ``` ```` block, or single-backtick wrapping.
/// Text too short for the fences to be disjoint is left as it is.
pub open spec fn spec_strip_fences(s: Seq<char>) -> Seq<char> {
    let t = spec_trim(s);
    if t.len() >= 10 && t.take(7) == "```json"@ && t.skip(t.len() - 3) == "```"@ {
        spec_trim(t.subrange(7, t.len() - 3))
    } else if t.len() >= 6 && t.take(3) == "```"@ && t.skip(t.len() - 3) == "```"@ {
        spec_trim(t.subrange(3, t.len() - 3))
    } else if t.len() >= 6 && t.take(5) == "`json"@ && t.skip(t.len() - 1) == "`"@ {
        spec_trim(t.subrange(5, t.len() - 1))
    } else if t.len() >= 2 && t.take(1) == "`"@ && t.skip(t.len() - 1) == "`"@ {
        spec_trim(t.subrange(1, t.len() - 1))
    } else {
        t
    }
}

/// Removes one level of markdown code fencing from the trimmed text.
pub fn remove_markdown_code_blocks(text: &str) -> (r: Vec<char>)
    ensures
        r@ == spec_strip_fences(text@),
{
    let tv0 = chars_vec(text);
    let t = trim_chars(&tv0);
    let n = t.len();
    proof {
        reveal_strlit("```json");
        reveal_strlit("```");
        reveal_strlit("`json");
        reveal_strlit("`");
    }
    let fence_json = chars_vec("```json");
    let fence = chars_vec("```");
    let tick_json = chars_vec("`json");
    let tick = chars_vec("`");
    if n >= 10 && starts_with_chars(&t, &fence_json) && ends_with_chars(&t, &fence) {
        proof {
            assert(t@.take(7) =~= t@.subrange(0, 7));
            assert(t@.take(fence_json@.len() as int) == fence_json@);
            assert(t@.take(7) =~= t@.take(fence_json@.len() as int));
            assert(t@.skip(t@.len() - 3) == fence@);
        }
        let inner = subrange_chars(&t, 7, n - 3);
        trim_chars(&inner)
    } else if n >= 6 && starts_with_chars(&t, &fence) && ends_with_chars(&t, &fence) {
        proof {
            assert(t@.take(3) =~= t@.take(fence@.len() as int));
        }
        let inner = subrange_chars(&t, 3, n - 3);
        trim_chars(&inner)
    } else if n >= 6 && starts_with_chars(&t, &tick_json) && ends_with_chars(&t, &tick) {
        proof {
            assert(t@.take(5) =~= t@.take(tick_json@.len() as int));
            assert(t@.skip(t@.len() - 1) =~= t@.skip(t@.len() - tick@.len()));
        }
        let inner = subrange_chars(&t, 5, n - 1);
        trim_chars(&inner)
    } else if n >= 2 && starts_with_chars(&t, &tick) && ends_with_chars(&t, &tick) {
        proof {
            assert(t@.take(1) =~= t@.take(tick@.len() as int));
        }
        let inner = subrange_chars(&t, 1, n - 1);
        trim_chars(&inner)
    } else {
        proof {
            if n >= 10 && t@.take(7) == "```json"@ && t@.skip(t@.len() - 3) == "```"@ {
                assert(is_prefix(fence_json@, t@)) by {
                    assert(t@.take(fence_json@.len() as int) =~= t@.take(7));
                };
                assert(is_suffix(fence@, t@));
                assert(false);
            }
            if n >= 6 && t@.take(3) == "```"@ && t@.skip(t@.len() - 3) == "```"@ {
                assert(is_prefix(fence@, t@)) by {
                    assert(t@.take(fence@.len() as int) =~= t@.take(3));
                };
                assert(is_suffix(fence@, t@));
                assert(false);
            }
            if n >= 6 && t@.take(5) == "`json"@ && t@.skip(t@.len() - 1) == "`"@ {
                assert(is_prefix(tick_json@, t@)) by {
                    assert(t@.take(tick_json@.len() as int) =~= t@.take(5));
                };
                assert(is_suffix(tick@, t@)) by {
                    assert(t@.skip(t@.len() - tick@.len()) =~= t@.skip(t@.len() - 1));
                };
                assert(false);
            }
            if n >= 2 && t@.take(1) == "`"@ && t@.skip(t@.len() - 1) == "`"@ {
                assert(is_prefix(tick@, t@)) by {
                    assert(t@.take(tick@.len() as int) =~= t@.take(1));
                };
                assert(is_suffix(tick@, t@)) by {
                    assert(t@.skip(t@.len() - tick@.len()) =~= t@.skip(t@.len() - 1));
                };
                assert(false);
            }
        }
        t
    }
}

/// The index of the last occurrence of `c`, or -1.
pub open spec fn spec_rfind_char(s: Seq<char>, c: char) -> int
    decreases s.len(),
{
    if s.len() == 0 {
        -1
    } else if s.last() == c {
        s.len() - 1
    } else {
        spec_rfind_char(s.drop_last(), c)
    }
}

/// The substring from the first `{` to the last `}`, when both exist in
/// that order and the substring is proper; what the brace-extraction
/// fallback parses.
pub open spec fn spec_brace_slice(s: Seq<char>) -> Option<Seq<char>> {
    let a = spec_find_char(s, '{');
    let b = spec_rfind_char(s, '}');
    if a < s.len() && 0 <= b && a <= b {
        Some(s.subrange(a, b + 1))
    } else {
        None
    }
}

proof fn lemma_find_char_bounds(s: Seq<char>, c: char)
    ensures
        0 <= spec_find_char(s, c) <= s.len(),
        spec_find_char(s, c) < s.len() ==> s[spec_find_char(s, c)] == c,
        forall|k: int| 0 <= k < spec_find_char(s, c) ==> s[k] != c,
    decreases s.len(),
{
    if s.len() > 0 {
        if s[0] != c {
            lemma_find_char_bounds(s.drop_first(), c);
            assert forall|k: int| 0 <= k < spec_find_char(s, c) implies s[k] != c by {
                if k > 0 {
                    assert(s.drop_first()[k - 1] == s[k]);
                    assert(k - 1 < spec_find_char(s.drop_first(), c));
                }
            };
        }
    }
}

proof fn lemma_rfind_char_bounds(s: Seq<char>, c: char)
    ensures
        -1 <= spec_rfind_char(s, c) < s.len(),
        spec_rfind_char(s, c) >= 0 ==> s[spec_rfind_char(s, c)] == c,
        forall|k: int| spec_rfind_char(s, c) < k < s.len() ==> s[k] != c,
    decreases s.len(),
{
    if s.len() > 0 {
        if s.last() != c {
            lemma_rfind_char_bounds(s.drop_last(), c);
            assert(forall|k: int|
                0 <= k < s.drop_last().len() ==> s.drop_last()[k] == s[k]);
        }
    }
}

/// Finds the first `{`, or the length when there is none.
fn find_open_brace(v: &Vec<char>) -> (r: usize)
    ensures
        r == spec_find_char(v@, '{'),
{
    let n = v.len();
    let mut i: usize = 0;
    while i < n && v[i] != '{'
        invariant
            0 <= i <= n == v@.len(),
            forall|k: int| 0 <= k < i ==> v@[k] != '{',
        decreases n - i,
    {
        i = i + 1;
    }
    proof {
        crate::text::lemma_find_char_at(v@, '{', i as int);
    }
    i
}

/// Finds the last `}`; `None` when there is none.
fn rfind_close_brace(v: &Vec<char>) -> (r: Option<usize>)
    ensures
        match r {
            Some(b) => spec_rfind_char(v@, '}') == b,
            None => spec_rfind_char(v@, '}') == -1,
        },
{
    let n = v.len();
    let mut j: usize = n;
    while j > 0 && v[j - 1] != '}'
        invariant
            0 <= j <= n == v@.len(),
            forall|k: int| j <= k < n ==> v@[k] != '}',
        decreases j,
    {
        j = j - 1;
    }
    proof {
        lemma_rfind_char_at(v@, '}', j - 1);
    }
    if j == 0 {
        None
    } else {
        Some(j - 1)
    }
}

proof fn lemma_rfind_char_at(s: Seq<char>, c: char, m: int)
    requires
        -1 <= m < s.len(),
        forall|k: int| m < k < s.len() ==> s[k] != c,
        m >= 0 ==> s[m] == c,
    ensures
        spec_rfind_char(s, c) == m,
    decreases s.len(),
{
    if s.len() > 0 {
        if m < s.len() - 1 {
            assert(s.last() != c);
            assert(forall|k: int| 0 <= k < s.drop_last().len() ==> s.drop_last()[k] == s[k]);
            lemma_rfind_char_at(s.drop_last(), c, m);
        }
    }
}

/// What the flexible extraction yields on (already trimmed) text: the
/// first of these attempts to parse: the text itself; the text with code
/// fences stripped, when that changes it; the first-to-last-brace slice of
/// the text; the same slice of the fence-stripped text.
pub open spec fn spec_flexible_parse(t: Seq<char>) -> Option<Seq<Seq<char>>> {
    if sentences_json_of(t) is Some {
        sentences_json_of(t)
    } else {
        let cleaned = spec_strip_fences(t);
        if cleaned != t && sentences_json_of(cleaned) is Some {
            sentences_json_of(cleaned)
        } else {
            match spec_brace_slice(t) {
                Some(b) => if b != t && sentences_json_of(b) is Some {
                    sentences_json_of(b)
                } else {
                    spec_braced_cleaned(cleaned)
                },
                None => spec_braced_cleaned(cleaned),
            }
        }
    }
}

/// The last extraction attempt: the brace slice of the fence-stripped
/// text.
pub open spec fn spec_braced_cleaned(cleaned: Seq<char>) -> Option<Seq<Seq<char>>> {
    match spec_brace_slice(cleaned) {
        Some(b) => if sentences_json_of(b) is Some {
            sentences_json_of(b)
        } else {
            None
        },
        None => None,
    }
}

/// Tries the ordered extraction attempts on the text: direct parse, fence
/// stripping, brace slicing, and brace slicing of the fence-stripped text.
pub fn try_flexible_json_parsing(text: &str) -> (r: Option<Vec<String>>)
    ensures
        match r {
            Some(v) => spec_flexible_parse(spec_trim(text@)) == Some(
                v@.map_values(|t: String| t@),
            ),
            None => spec_flexible_parse(spec_trim(text@)) is None,
        },
{
    let tv0 = chars_vec(text);
    let tv = trim_chars(&tv0);
    let t = string_from_chars(&tv);
    if let Some(v) = parse_sentences_payload(t.as_str()) {
        return Some(v);
    }
    let cleaned_v = remove_markdown_code_blocks(t.as_str());
    let cleaned = string_from_chars(&cleaned_v);
    let differs = !str_eq(cleaned.as_str(), t.as_str());
    if differs {
        if let Some(v) = parse_sentences_payload(cleaned.as_str()) {
            return Some(v);
        }
    }
    let a = find_open_brace(&tv);
    let b = rfind_close_brace(&tv);
    proof {
        lemma_find_char_bounds(tv@, '{');
        lemma_rfind_char_bounds(tv@, '}');
    }
    if let Some(bidx) = b {
        if a < tv.len() && a <= bidx {
            let slice = subrange_chars(&tv, a, bidx + 1);
            let sliced = string_from_chars(&slice);
            let slice_differs = !str_eq(sliced.as_str(), t.as_str());
            if slice_differs {
                if let Some(v) = parse_sentences_payload(sliced.as_str()) {
                    return Some(v);
                }
            }
        }
    }
    let ca = find_open_brace(&cleaned_v);
    let cb = rfind_close_brace(&cleaned_v);
    proof {
        lemma_find_char_bounds(cleaned_v@, '{');
        lemma_rfind_char_bounds(cleaned_v@, '}');
    }
    if let Some(cbidx) = cb {
        if ca < cleaned_v.len() && ca <= cbidx {
            let cslice = subrange_chars(&cleaned_v, ca, cbidx + 1);
            let csliced = string_from_chars(&cslice);
            if let Some(v) = parse_sentences_payload(csliced.as_str()) {
                return Some(v);
            }
        }
    }
    None
}

/// What analysing one raw window response yields: the sentences of the
/// model-envelope's inner response when the envelope parses and its inner
/// text extracts, else the sentences extracted from the whole response,
/// else no sentences at all. Parse failure is never an error.
pub open spec fn spec_parse_analysis(raw: Seq<char>) -> Seq<Seq<char>> {
    let t = spec_trim(raw);
    let fallback = match spec_flexible_parse(t) {
        Some(ss) => ss,
        None => Seq::<Seq<char>>::empty(),
    };
    match json_string_field_of(t, "response"@) {
        Some(inner) => match spec_flexible_parse(spec_trim(inner)) {
            Some(ss) => ss,
            None => fallback,
        },
        None => fallback,
    }
}

/// Extracts the reconstructed sentences from one raw window-analysis
/// response, tolerating the model envelope, code fences, and surrounding
/// prose; any shape that defeats every attempt yields no sentences rather
/// than an error.
pub fn parse_analysis_response(raw: &str) -> (r: Vec<String>)
    ensures
        r@.map_values(|t: String| t@) == spec_parse_analysis(raw@),
{
    let trimmed = crate::text::trim_str(raw);
    if let Some(inner) = crate::translate::common::parse_string_field(
        trimmed.as_str(),
        "response",
    ) {
        if let Some(v) = try_flexible_json_parsing(inner.as_str()) {
            return v;
        }
    }
    if let Some(v) = try_flexible_json_parsing(trimmed.as_str()) {
        proof {
            crate::text::lemma_trim_idempotent(raw@);
        }
        return v;
    }
    proof {
        crate::text::lemma_trim_idempotent(raw@);
    }
    let r: Vec<String> = Vec::new();
    proof {
        assert(r@.map_values(|t: String| t@) =~= Seq::<Seq<char>>::empty());
    }
    r
}


/// How many entries of `ss` equal `t`.
pub open spec fn spec_count_str(ss: Seq<Seq<char>>, t: Seq<char>) -> int
    decreases ss.len(),
{
    if ss.len() == 0 {
        0
    } else {
        spec_count_str(ss.drop_last(), t) + if ss.last() == t { 1int } else { 0int }
    }
}

/// The distinct entries of `ss`, each at the position of its first
/// occurrence.
pub open spec fn spec_dedup(ss: Seq<Seq<char>>) -> Seq<Seq<char>>
    decreases ss.len(),
{
    if ss.len() == 0 {
        Seq::empty()
    } else {
        let prev = spec_dedup(ss.drop_last());
        if ss.drop_last().contains(ss.last()) {
            prev
        } else {
            prev.push(ss.last())
        }
    }
}

/// The sum of the detection counts.
pub open spec fn spec_sum_counts(cs: Seq<SentenceCandidate>) -> int
    decreases cs.len(),
{
    if cs.len() == 0 {
        0
    } else {
        spec_sum_counts(cs.drop_last()) + cs.last().detection_count
    }
}

proof fn lemma_sum_counts_update_inc(cs: Seq<SentenceCandidate>, k: int, e: SentenceCandidate)
    requires
        0 <= k < cs.len(),
        e.detection_count == cs[k].detection_count + 1,
    ensures
        spec_sum_counts(cs.update(k, e)) == spec_sum_counts(cs) + 1,
    decreases cs.len(),
{
    if k == cs.len() - 1 {
        assert(cs.update(k, e).drop_last() =~= cs.drop_last());
        assert(cs.update(k, e).last() == e);
    } else {
        assert(cs.update(k, e).drop_last() =~= cs.drop_last().update(k, e));
        assert(cs.update(k, e).last() == cs.last());
        lemma_sum_counts_update_inc(cs.drop_last(), k, e);
    }
}

/// Tallies each distinct sentence string detected across the windows: the
/// candidates come in first-occurrence order, each counting its exact
/// occurrences, all sharing the window total; the counts sum to the number
/// of detections.
pub fn collect_candidates(all_sentences: &Vec<String>, total_windows: u64) -> (r: Vec<
    SentenceCandidate,
>)
    ensures
        r@.map_values(|c: SentenceCandidate| c.text@) == spec_dedup(
            all_sentences@.map_values(|s: String| s@),
        ),
        forall|k: int|
            0 <= k < r@.len() ==> (#[trigger] r@[k]).detection_count == spec_count_str(
                all_sentences@.map_values(|s: String| s@),
                r@[k].text@,
            ),
        forall|k: int| 0 <= k < r@.len() ==> (#[trigger] r@[k]).total_windows == total_windows,
        spec_sum_counts(r@) == all_sentences@.len(),
{
    let ghost ss = all_sentences@.map_values(|s: String| s@);
    let n = all_sentences.len();
    let mut r: Vec<SentenceCandidate> = Vec::new();
    let mut i: usize = 0;
    proof {
        assert(ss.take(0) =~= Seq::<Seq<char>>::empty());
        assert(r@.map_values(|c: SentenceCandidate| c.text@) =~= spec_dedup(ss.take(0)));
    }
    while i < n
        invariant
            0 <= i <= n == all_sentences@.len(),
            ss == all_sentences@.map_values(|s: String| s@),
            r@.map_values(|c: SentenceCandidate| c.text@) == spec_dedup(ss.take(i as int)),
            forall|k: int|
                0 <= k < r@.len() ==> (#[trigger] r@[k]).detection_count == spec_count_str(
                    ss.take(i as int),
                    r@[k].text@,
                ),
            forall|k: int| 0 <= k < r@.len() ==> (#[trigger] r@[k]).total_windows == total_windows,
            forall|k: int| 0 <= k < r@.len() ==> (#[trigger] r@[k]).detection_count <= i,
            forall|k1: int, k2: int|
                0 <= k1 < k2 < r@.len() ==> (#[trigger] r@[k1]).text@ != (#[trigger] r@[k2]).text@,
            spec_sum_counts(r@) == i,
        decreases n - i,
    {
        let ghost pre = ss.take(i + 1);
        let ghost r0 = r@;
        proof {
            assert(pre.drop_last() =~= ss.take(i as int));
            assert(pre.last() == ss[i as int]);
        }
        let mut found: Option<usize> = None;
        let m = r.len();
        let mut k: usize = 0;
        while k < m
            invariant
                0 <= k <= m == r@.len(),
                ss == all_sentences@.map_values(|s: String| s@),
                i < n == all_sentences@.len(),
                match found {
                    Some(f) => f < k && r@[f as int].text@ == ss[i as int],
                    None => forall|a: int| 0 <= a < k ==> (#[trigger] r@[a]).text@ != ss[i as int],
                },
            decreases m - k,
        {
            if found.is_none() && str_eq(r[k].text.as_str(), all_sentences[i].as_str()) {
                found = Some(k);
            }
            k = k + 1;
        }
        match found {
            Some(f) => {
                let old_entry_count = r[f].detection_count;
                let old_tw = r[f].total_windows;
                let new_text = copy_string_local(&r[f].text);
                let ghost e = SentenceCandidate {
                    text: new_text,
                    detection_count: (old_entry_count + 1) as u64,
                    total_windows: old_tw,
                };
                let updated = SentenceCandidate {
                    text: new_text,
                    detection_count: old_entry_count + 1,
                    total_windows: old_tw,
                };
                r.set(f, updated);
                proof {
                    assert(r@ == r0.update(f as int, e));
                    lemma_sum_counts_update_inc(r0, f as int, e);
                    // The processed prefix contains this text, so dedup is
                    // unchanged.
                    assert(ss.take(i as int).contains(ss[i as int])) by {
                        let w = choose|w: int|
                            0 <= w < r0.len() && r0[w].text@ == ss[i as int]
                                && r0.map_values(|c: SentenceCandidate| c.text@)[w] == ss[i as int];
                        assert(r0.map_values(|c: SentenceCandidate| c.text@)[f as int]
                            == ss[i as int]);
                        lemma_dedup_members(ss.take(i as int));
                        assert(spec_dedup(ss.take(i as int))[f as int] == ss[i as int]);
                    };
                    assert(spec_dedup(pre) == spec_dedup(ss.take(i as int)));
                    assert(r@.map_values(|c: SentenceCandidate| c.text@)
                        =~= r0.map_values(|c: SentenceCandidate| c.text@));
                    // Counts: only the matching entry changes.
                    assert forall|k2: int| 0 <= k2 < r@.len() implies (#[trigger] r@[k2])
                        .detection_count == spec_count_str(pre, r@[k2].text@) by {
                        lemma_count_str_step(ss, i as int, r@[k2].text@);
                        if k2 != f {
                            assert(r@[k2] == r0[k2]);
                            assert(r0[k2].text@ != r0[f as int].text@);
                        }
                    };
                }
            },
            None => {
                let new_text = copy_string_local(&all_sentences[i]);
                let entry = SentenceCandidate {
                    text: new_text,
                    detection_count: 1,
                    total_windows,
                };
                r.push(entry);
                proof {
                    assert(!ss.take(i as int).contains(ss[i as int])) by {
                        if ss.take(i as int).contains(ss[i as int]) {
                            lemma_dedup_members(ss.take(i as int));
                            let w = choose|w: int|
                                0 <= w < spec_dedup(ss.take(i as int)).len()
                                    && spec_dedup(ss.take(i as int))[w] == ss[i as int];
                            assert(r0.map_values(|c: SentenceCandidate| c.text@)[w]
                                == ss[i as int]);
                            assert(r0[w].text@ == ss[i as int]);
                            assert(false);
                        }
                    };
                    assert(spec_dedup(pre) == spec_dedup(ss.take(i as int)).push(ss[i as int]));
                    assert(r@.map_values(|c: SentenceCandidate| c.text@)
                        =~= r0.map_values(|c: SentenceCandidate| c.text@).push(ss[i as int]));
                    assert(r@.drop_last() =~= r0);
                    assert forall|k2: int| 0 <= k2 < r@.len() implies (#[trigger] r@[k2])
                        .detection_count == spec_count_str(pre, r@[k2].text@) by {
                        lemma_count_str_step(ss, i as int, r@[k2].text@);
                        if k2 < r0.len() {
                            assert(r@[k2] == r0[k2]);
                            assert(r0.map_values(|c: SentenceCandidate| c.text@)[k2]
                                == r0[k2].text@);
                            lemma_dedup_members(ss.take(i as int));
                            assert(ss.take(i as int).contains(r0[k2].text@));
                            assert(r0[k2].text@ != ss[i as int]);
                        } else {
                            lemma_count_str_zero(ss.take(i as int), ss[i as int]);
                        }
                    };
                }
            },
        }
        i = i + 1;
    }
    proof {
        assert(ss.take(n as int) =~= ss);
    }
    r
}

/// Every entry of the deduplicated sequence occurs in the original, and
/// conversely every original entry occurs in the deduplicated sequence.
proof fn lemma_dedup_members(ss: Seq<Seq<char>>)
    ensures
        forall|w: int|
            0 <= w < spec_dedup(ss).len() ==> ss.contains(#[trigger] spec_dedup(ss)[w]),
        forall|t: Seq<char>| ss.contains(t) ==> spec_dedup(ss).contains(t),
    decreases ss.len(),
{
    if ss.len() > 0 {
        lemma_dedup_members(ss.drop_last());
        let prev = spec_dedup(ss.drop_last());
        assert(forall|a: int| 0 <= a < ss.len() - 1 ==> ss.drop_last()[a] == ss[a]);
        assert forall|w: int|
            0 <= w < spec_dedup(ss).len() implies ss.contains(#[trigger] spec_dedup(ss)[w]) by {
            if w < prev.len() {
                assert(ss.drop_last().contains(prev[w]));
                let a = choose|a: int| 0 <= a < ss.drop_last().len() && ss.drop_last()[a] == prev[w];
                assert(ss[a] == prev[w]);
            } else {
                assert(spec_dedup(ss)[w] == ss.last());
                assert(ss[ss.len() - 1] == ss.last());
            }
        };
        assert forall|t: Seq<char>| ss.contains(t) implies spec_dedup(ss).contains(t) by {
            let a = choose|a: int| 0 <= a < ss.len() && ss[a] == t;
            if a < ss.len() - 1 {
                assert(ss.drop_last()[a] == t);
                assert(ss.drop_last().contains(t));
                assert(spec_dedup(ss.drop_last()).contains(t));
                let w = choose|w: int| 0 <= w < prev.len() && prev[w] == t;
                if ss.drop_last().contains(ss.last()) {
                    assert(spec_dedup(ss)[w] == t);
                } else {
                    assert(spec_dedup(ss)[w] == t);
                }
            } else {
                if ss.drop_last().contains(ss.last()) {
                    assert(spec_dedup(ss.drop_last()).contains(t));
                    let w = choose|w: int| 0 <= w < prev.len() && prev[w] == t;
                    assert(spec_dedup(ss)[w] == t);
                } else {
                    assert(spec_dedup(ss).last() == t);
                }
            }
        };
    }
}

proof fn lemma_count_str_step(ss: Seq<Seq<char>>, i: int, t: Seq<char>)
    requires
        0 <= i < ss.len(),
    ensures
        spec_count_str(ss.take(i + 1), t) == spec_count_str(ss.take(i), t) + if ss[i] == t {
            1int
        } else {
            0int
        },
{
    assert(ss.take(i + 1).drop_last() =~= ss.take(i));
    assert(ss.take(i + 1).last() == ss[i]);
}

proof fn lemma_count_str_zero(ss: Seq<Seq<char>>, t: Seq<char>)
    requires
        !ss.contains(t),
    ensures
        spec_count_str(ss, t) == 0,
    decreases ss.len(),
{
    if ss.len() > 0 {
        assert(ss[ss.len() - 1] == ss.last());
        assert(forall|a: int| 0 <= a < ss.len() - 1 ==> ss.drop_last()[a] == ss[a]);
        lemma_count_str_zero(ss.drop_last(), t);
    }
}

fn copy_string_local(s: &String) -> (r: String)
    ensures
        r@ == s@,
{
    let v = chars_vec(s.as_str());
    string_from_chars(&v)
}


/// `shorter` is strictly shorter than `longer` and, after normalization,
/// a prefix or suffix of it.
pub open spec fn spec_pre_or_suf(shorter: Seq<char>, longer: Seq<char>) -> bool {
    shorter.len() < longer.len() && (is_prefix(spec_norm(shorter), spec_norm(longer))
        || is_suffix(spec_norm(shorter), spec_norm(longer)))
}

/// Whether `shorter` is a strictly shorter, normalized prefix or suffix of
/// `longer`: the truncated-detection test of the consensus merge.
pub fn is_prefix_or_suffix(shorter: &str, longer: &str) -> (r: bool)
    ensures
        r == spec_pre_or_suf(shorter@, longer@),
{
    let sv = chars_vec(shorter);
    let lv = chars_vec(longer);
    if sv.len() >= lv.len() {
        return false;
    }
    let sn = norm_text(shorter);
    let ln = norm_text(longer);
    let snv = chars_vec(sn.as_str());
    let lnv = chars_vec(ln.as_str());
    starts_with_chars(&lnv, &snv) || ends_with_chars(&lnv, &snv)
}

/// The candidates are ordered by text length, longest first.
pub open spec fn spec_sorted_by_len_desc(cs: Seq<SentenceCandidate>) -> bool {
    forall|a: int, b: int|
        0 <= a <= b < cs.len() ==> (#[trigger] cs[a]).text@.len() >= (#[trigger] cs[b]).text@.len()
}

/// Orders the candidates longest text first (a permutation of the input),
/// so that the merge always folds truncated detections into the fullest
/// sentence.
pub fn sort_candidates_by_length(cands: Vec<SentenceCandidate>) -> (r: Vec<SentenceCandidate>)
    ensures
        spec_sorted_by_len_desc(r@),
        r@.to_multiset() == cands@.to_multiset(),
        r@.len() == cands@.len(),
        spec_sum_counts(r@) == spec_sum_counts(cands@),
{
    let ghost orig = cands@;
    let mut rest = cands;
    let mut out: Vec<SentenceCandidate> = Vec::new();
    proof {
        broadcast use vstd::multiset::group_multiset_axioms;

        out@.to_multiset_ensures();
        assert(forall|a: SentenceCandidate| !out@.contains(a));
        assert(out@.to_multiset() =~= Multiset::<SentenceCandidate>::empty());
        assert(out@.to_multiset().add(rest@.to_multiset()) =~= orig.to_multiset());
    }
    while rest.len() > 0
        invariant
            out@.to_multiset().add(rest@.to_multiset()) == orig.to_multiset(),
            out@.len() + rest@.len() == orig.len(),
            spec_sorted_by_len_desc(out@),
            forall|a: int, b: int|
                0 <= a < out@.len() && 0 <= b < rest@.len() ==> (#[trigger] out@[a]).text@.len()
                    >= (#[trigger] rest@[b]).text@.len(),
            spec_sum_counts(out@) + spec_sum_counts(rest@) == spec_sum_counts(orig),
        decreases rest@.len(),
    {
        // Find the first longest text among the remaining candidates.
        let mut best: usize = 0;
        let mut k: usize = 1;
        while k < rest.len()
            invariant
                0 <= best < k <= rest@.len(),
                rest@.len() > 0,
                forall|a: int|
                    0 <= a < k ==> (#[trigger] rest@[a]).text@.len()
                        <= rest@[best as int].text@.len(),
            decreases rest@.len() - k,
        {
            if rest[k].text.as_str().unicode_len() > rest[best].text.as_str().unicode_len() {
                best = k;
            }
            k = k + 1;
        }
        let ghost rest0 = rest@;
        let ghost out0 = out@;
        let picked = rest.remove(best);
        out.push(picked);
        proof {
            broadcast use vstd::multiset::group_multiset_axioms;

            out0.to_multiset_ensures();
            rest0.to_multiset_ensures();
            assert(out@ =~= out0.push(rest0[best as int]));
            assert(rest@ =~= rest0.remove(best as int));
            assert(rest0.to_multiset().count(rest0[best as int]) > 0) by {
                assert(rest0.contains(rest0[best as int]));
            };
            assert(out@.to_multiset().add(rest@.to_multiset()) =~= orig.to_multiset());
            assert(out@.drop_last() =~= out0);
            assert(out@.last() == rest0[best as int]);
            lemma_sum_counts_remove(rest0, best as int);
            assert forall|a: int, b: int|
                0 <= a < out@.len() && 0 <= b < rest@.len() implies (#[trigger] out@[a]).text@
                .len() >= (#[trigger] rest@[b]).text@.len() by {
                if b < best {
                    assert(rest@[b] == rest0[b]);
                } else {
                    assert(rest@[b] == rest0[b + 1]);
                }
                if a < out0.len() {
                    assert(out@[a] == out0[a]);
                } else {
                    assert(out@[a] == rest0[best as int]);
                }
            };
        }
    }
    proof {
        broadcast use vstd::multiset::group_multiset_axioms;

        rest@.to_multiset_ensures();
        assert(forall|a: SentenceCandidate| !rest@.contains(a));
        assert(rest@.to_multiset() =~= Multiset::<SentenceCandidate>::empty());
        assert(out@.to_multiset() =~= orig.to_multiset());
    }
    out
}

proof fn lemma_sum_counts_remove(cs: Seq<SentenceCandidate>, k: int)
    requires
        0 <= k < cs.len(),
    ensures
        spec_sum_counts(cs.remove(k)) == spec_sum_counts(cs) - cs[k].detection_count,
    decreases cs.len(),
{
    if k == cs.len() - 1 {
        assert(cs.remove(k) =~= cs.drop_last());
    } else {
        assert(cs.remove(k).drop_last() =~= cs.drop_last().remove(k));
        assert(cs.remove(k).last() == cs.last());
        lemma_sum_counts_remove(cs.drop_last(), k);
    }
}

/// `a`'s confidence — detections over analysed windows — is at least
/// `b`'s, compared exactly by cross-multiplication.
pub open spec fn spec_conf_ge(a: SentenceCandidate, b: SentenceCandidate) -> bool {
    a.detection_count * b.total_windows >= b.detection_count * a.total_windows
}

/// The candidates are ordered by confidence, highest first.
pub open spec fn spec_sorted_by_conf_desc(cs: Seq<SentenceCandidate>) -> bool {
    forall|x: int, y: int|
        0 <= x <= y < cs.len() ==> spec_conf_ge(#[trigger] cs[x], #[trigger] cs[y])
}

proof fn lemma_conf_ge_total(a: SentenceCandidate, b: SentenceCandidate)
    ensures
        spec_conf_ge(a, b) || spec_conf_ge(b, a),
{
}

proof fn lemma_conf_ge_trans(a: SentenceCandidate, b: SentenceCandidate, c: SentenceCandidate)
    requires
        a.total_windows > 0,
        b.total_windows > 0,
        c.total_windows > 0,
        spec_conf_ge(a, b),
        spec_conf_ge(b, c),
    ensures
        spec_conf_ge(a, c),
{
    let ad = a.detection_count as int;
    let at = a.total_windows as int;
    let bd = b.detection_count as int;
    let bt = b.total_windows as int;
    let cd = c.detection_count as int;
    let ct = c.total_windows as int;
    assert(ad * bt * ct >= bd * at * ct) by (nonlinear_arith)
        requires ad * bt >= bd * at && ct > 0;
    assert(bd * ct * at >= cd * bt * at) by (nonlinear_arith)
        requires bd * ct >= cd * bt && at > 0;
    assert(ad * bt * ct == ad * ct * bt && bd * at * ct == bd * ct * at && cd * bt * at == cd * at
        * bt) by (nonlinear_arith);
    assert(ad * ct >= cd * at) by (nonlinear_arith)
        requires ad * ct * bt >= cd * at * bt && bt > 0;
}

fn conf_strictly_above(a: &SentenceCandidate, b: &SentenceCandidate) -> (r: bool)
    ensures
        r == !spec_conf_ge(*b, *a),
{
    proof {
        let x = a.detection_count as int;
        let y = b.total_windows as int;
        let z = b.detection_count as int;
        let w = a.total_windows as int;
        assert(x * y < 340282366920938463463374607431768211456 && z * w
            < 340282366920938463463374607431768211456) by (nonlinear_arith)
            requires
                0 <= x < 18446744073709551616,
                0 <= y < 18446744073709551616,
                0 <= z < 18446744073709551616,
                0 <= w < 18446744073709551616,
        ;
    }
    (a.detection_count as u128) * (b.total_windows as u128) > (b.detection_count as u128)
        * (a.total_windows as u128)
}

/// Orders the candidates by confidence, highest first (a permutation of
/// the input; ties keep the earlier candidate in front), the order the
/// rebuilt transcript's sentences follow. Every candidate must come from at
/// least one analysed window, which makes the confidence comparison a total
/// order.
pub fn sort_candidates_by_confidence(cands: Vec<SentenceCandidate>) -> (r: Vec<SentenceCandidate>)
    requires
        forall|j: int| 0 <= j < cands@.len() ==> (#[trigger] cands@[j]).total_windows > 0,
    ensures
        spec_sorted_by_conf_desc(r@),
        r@.to_multiset() == cands@.to_multiset(),
        r@.len() == cands@.len(),
        spec_sum_counts(r@) == spec_sum_counts(cands@),
{
    let ghost orig = cands@;
    let mut rest = cands;
    let mut out: Vec<SentenceCandidate> = Vec::new();
    proof {
        broadcast use vstd::multiset::group_multiset_axioms;

        out@.to_multiset_ensures();
        assert(forall|a: SentenceCandidate| !out@.contains(a));
        assert(out@.to_multiset() =~= Multiset::<SentenceCandidate>::empty());
        assert(out@.to_multiset().add(rest@.to_multiset()) =~= orig.to_multiset());
    }
    while rest.len() > 0
        invariant
            out@.to_multiset().add(rest@.to_multiset()) == orig.to_multiset(),
            out@.len() + rest@.len() == orig.len(),
            forall|j: int| 0 <= j < rest@.len() ==> (#[trigger] rest@[j]).total_windows > 0,
            forall|j: int| 0 <= j < out@.len() ==> (#[trigger] out@[j]).total_windows > 0,
            spec_sorted_by_conf_desc(out@),
            forall|a: int, b: int|
                0 <= a < out@.len() && 0 <= b < rest@.len() ==> spec_conf_ge(
                    #[trigger] out@[a],
                    #[trigger] rest@[b],
                ),
            spec_sum_counts(out@) + spec_sum_counts(rest@) == spec_sum_counts(orig),
        decreases rest@.len(),
    {
        // Find the first highest-confidence candidate among the rest.
        let mut best: usize = 0;
        let mut k: usize = 1;
        while k < rest.len()
            invariant
                0 <= best < k <= rest@.len(),
                rest@.len() > 0,
                forall|j: int| 0 <= j < rest@.len() ==> (#[trigger] rest@[j]).total_windows > 0,
                forall|a: int| 0 <= a < k ==> spec_conf_ge(rest@[best as int], #[trigger] rest@[a]),
            decreases rest@.len() - k,
        {
            if conf_strictly_above(&rest[k], &rest[best]) {
                proof {
                    let ghost old_best = best as int;
                    lemma_conf_ge_total(rest@[k as int], rest@[old_best]);
                    assert forall|a: int| 0 <= a < k implies spec_conf_ge(
                        rest@[k as int],
                        #[trigger] rest@[a],
                    ) by {
                        lemma_conf_ge_trans(rest@[k as int], rest@[old_best], rest@[a]);
                    };
                }
                best = k;
            }
            k = k + 1;
        }
        proof {
            lemma_conf_ge_total(rest@[best as int], rest@[best as int]);
        }
        let ghost rest0 = rest@;
        let ghost out0 = out@;
        let picked = rest.remove(best);
        out.push(picked);
        proof {
            broadcast use vstd::multiset::group_multiset_axioms;

            out0.to_multiset_ensures();
            rest0.to_multiset_ensures();
            assert(out@ =~= out0.push(rest0[best as int]));
            assert(rest@ =~= rest0.remove(best as int));
            assert(rest0.to_multiset().count(rest0[best as int]) > 0) by {
                assert(rest0.contains(rest0[best as int]));
            };
            assert(out@.to_multiset().add(rest@.to_multiset()) =~= orig.to_multiset());
            assert(out@.drop_last() =~= out0);
            assert(out@.last() == rest0[best as int]);
            lemma_sum_counts_remove(rest0, best as int);
            assert forall|a: int, b: int|
                0 <= a < out@.len() && 0 <= b < rest@.len() implies spec_conf_ge(
                #[trigger] out@[a],
                #[trigger] rest@[b],
            ) by {
                if b < best {
                    assert(rest@[b] == rest0[b]);
                } else {
                    assert(rest@[b] == rest0[b + 1]);
                }
                if a < out0.len() {
                    assert(out@[a] == out0[a]);
                } else {
                    assert(out@[a] == rest0[best as int]);
                }
            };
        }
    }
    proof {
        broadcast use vstd::multiset::group_multiset_axioms;

        rest@.to_multiset_ensures();
        assert(forall|a: SentenceCandidate| !rest@.contains(a));
        assert(rest@.to_multiset() =~= Multiset::<SentenceCandidate>::empty());
        assert(out@.to_multiset() =~= orig.to_multiset());
    }
    out
}

/// The sum of the detection counts of the marked candidates.
pub open spec fn spec_marked_sum(cs: Seq<SentenceCandidate>, used: Seq<bool>) -> int
    decreases cs.len(),
{
    if cs.len() == 0 {
        0
    } else {
        spec_marked_sum(cs.drop_last(), used.drop_last()) + if used.len() == cs.len()
            && used.last() {
            cs.last().detection_count as int
        } else {
            0int
        }
    }
}

proof fn lemma_marked_sum_update(cs: Seq<SentenceCandidate>, used: Seq<bool>, j: int)
    requires
        used.len() == cs.len(),
        0 <= j < cs.len(),
        !used[j],
    ensures
        spec_marked_sum(cs, used.update(j, true)) == spec_marked_sum(cs, used)
            + cs[j].detection_count,
    decreases cs.len(),
{
    if j == cs.len() - 1 {
        assert(used.update(j, true).drop_last() =~= used.drop_last());
    } else {
        assert(used.update(j, true).drop_last() =~= used.drop_last().update(j, true));
        lemma_marked_sum_update(cs.drop_last(), used.drop_last(), j);
    }
}

proof fn lemma_marked_sum_bounds(cs: Seq<SentenceCandidate>, used: Seq<bool>)
    requires
        used.len() == cs.len(),
    ensures
        0 <= spec_marked_sum(cs, used) <= spec_sum_counts(cs),
        (forall|j: int| 0 <= j < used.len() ==> used[j]) ==> spec_marked_sum(cs, used)
            == spec_sum_counts(cs),
    decreases cs.len(),
{
    if cs.len() > 0 {
        lemma_marked_sum_bounds(cs.drop_last(), used.drop_last());
        assert(forall|j: int| 0 <= j < used.len() - 1 ==> used.drop_last()[j] == used[j]);
        assert(used[used.len() - 1] == used.last());
    }
}

/// The text `t` survives in `out`: some accepted candidate carries it
/// verbatim, or absorbs it as a normalized prefix or suffix of a longer
/// text.
pub open spec fn spec_folded_into(t: Seq<char>, out: Seq<SentenceCandidate>) -> bool {
    exists|k: int|
        0 <= k < out.len() && (t == (#[trigger] out[k]).text@ || spec_pre_or_suf(t, out[k].text@))
}

/// Folds truncated detections into their full sentences: processed longest
/// first, a candidate that is a normalized prefix or suffix of an already
/// accepted longer candidate is merged into it, its detections added to the
/// longer one's. No accepted candidate is a prefix or suffix of another,
/// every accepted text is one of the input texts, every input text survives
/// verbatim or inside the longer accepted text it was folded into, and the
/// total detection count is conserved.
pub fn merge_candidates(cands: &Vec<SentenceCandidate>) -> (r: Vec<SentenceCandidate>)
    requires
        spec_sorted_by_len_desc(cands@),
        spec_sum_counts(cands@) < 18446744073709551616,
        forall|j: int| 0 <= j < cands@.len() ==> (#[trigger] cands@[j]).detection_count >= 0,
    ensures
        spec_sum_counts(r@) == spec_sum_counts(cands@),
        forall|k1: int, k2: int|
            0 <= k1 < r@.len() && 0 <= k2 < r@.len() && k1 != k2 ==> !spec_pre_or_suf(
                (#[trigger] r@[k1]).text@,
                (#[trigger] r@[k2]).text@,
            ),
        forall|k: int|
            0 <= k < r@.len() ==> exists|j: int|
                0 <= j < cands@.len() && (#[trigger] r@[k]).text@ == cands@[j].text@
                    && r@[k].total_windows == cands@[j].total_windows,
        forall|j: int|
            0 <= j < cands@.len() ==> spec_folded_into((#[trigger] cands@[j]).text@, r@),
{
    let n = cands.len();
    let mut used: Vec<bool> = Vec::new();
    let mut z: usize = 0;
    while z < n
        invariant
            0 <= z <= n,
            used@.len() == z,
            forall|j: int| 0 <= j < z ==> !(#[trigger] used@[j]),
        decreases n - z,
    {
        used.push(false);
        z = z + 1;
    }
    let mut result: Vec<SentenceCandidate> = Vec::new();
    let mut i: usize = 0;
    proof {
        lemma_marked_sum_zero(cands@, used@);
    }
    while i < n
        invariant
            0 <= i <= n == cands@.len(),
            used@.len() == n,
            spec_sorted_by_len_desc(cands@),
            spec_sum_counts(cands@) < 18446744073709551616,
            forall|j: int| 0 <= j < i ==> (#[trigger] used@[j]),
            spec_sum_counts(result@) == spec_marked_sum(cands@, used@),
            forall|k1: int, k2: int|
                0 <= k1 < result@.len() && 0 <= k2 < result@.len() && k1 != k2
                    ==> !spec_pre_or_suf(
                    (#[trigger] result@[k1]).text@,
                    (#[trigger] result@[k2]).text@,
                ),
            forall|j: int|
                0 <= j < n && !(#[trigger] used@[j]) ==> forall|k: int|
                    0 <= k < result@.len() ==> !spec_pre_or_suf(
                        cands@[j].text@,
                        (#[trigger] result@[k]).text@,
                    ),
            forall|k: int|
                0 <= k < result@.len() ==> forall|j: int|
                    i <= j < n ==> (#[trigger] result@[k]).text@.len()
                        >= (#[trigger] cands@[j]).text@.len(),
            forall|k: int|
                0 <= k < result@.len() ==> exists|j: int|
                    0 <= j < cands@.len() && (#[trigger] result@[k]).text@ == cands@[j].text@
                        && result@[k].total_windows == cands@[j].total_windows,
            forall|j: int|
                0 <= j < n && used@[j] ==> spec_folded_into(
                    (#[trigger] cands@[j]).text@,
                    result@,
                ),
        decreases n - i,
    {
        if used[i] {
            i = i + 1;
            continue;
        }
        let ghost used_at_entry = used@;
        used.set(i, true);
        proof {
            lemma_marked_sum_update(cands@, used_at_entry, i as int);
            lemma_marked_sum_bounds(cands@, used@);
        }
        let merged_text = copy_string_local(&cands[i].text);
        let mut merged_count: u64 = cands[i].detection_count;
        let tw = cands[i].total_windows;
        let ghost result_sum = spec_sum_counts(result@);
        proof {
            lemma_sum_counts_nonneg(result@);
        }
        let mut j: usize = 0;
        while j < n
            invariant
                0 <= j <= n == cands@.len(),
                used@.len() == n,
                i < n,
                spec_sum_counts(cands@) < 18446744073709551616,
                merged_text@ == cands@[i as int].text@,
                used@[i as int],
                result_sum == spec_sum_counts(result@),
                result_sum >= 0,
                spec_marked_sum(cands@, used@) == result_sum + merged_count,
                forall|a: int| 0 <= a < i ==> (#[trigger] used@[a]),
                forall|a: int|
                    0 <= a < n && !(#[trigger] used@[a]) ==> forall|k: int|
                        0 <= k < result@.len() ==> !spec_pre_or_suf(
                            cands@[a].text@,
                            (#[trigger] result@[k]).text@,
                        ),
                forall|a: int|
                    0 <= a < j && !(#[trigger] used@[a]) ==> !spec_pre_or_suf(
                        cands@[a].text@,
                        merged_text@,
                    ),
                forall|a: int| 0 <= a < n && used_at_entry[a] ==> #[trigger] used@[a],
                forall|a: int|
                    0 <= a < n && used_at_entry[a] ==> spec_folded_into(
                        (#[trigger] cands@[a]).text@,
                        result@,
                    ),
                forall|a: int|
                    0 <= a < n && (#[trigger] used@[a]) && !used_at_entry[a] ==> (cands@[a].text@
                        == merged_text@ || spec_pre_or_suf(cands@[a].text@, merged_text@)),
            decreases n - j,
        {
            let redundant = if !used[j] {
                is_prefix_or_suffix(cands[j].text.as_str(), merged_text.as_str())
            } else {
                false
            };
            if redundant {
                let ghost used_before = used@;
                used.set(j, true);
                proof {
                    lemma_marked_sum_update(cands@, used_before, j as int);
                    lemma_marked_sum_bounds(cands@, used@);
                }
                merged_count = merged_count + cands[j].detection_count;
            }
            j = j + 1;
        }
        let ghost result0 = result@;
        let ghost mt = merged_text@;
        result.push(SentenceCandidate {
            text: merged_text,
            detection_count: merged_count,
            total_windows: tw,
        });
        i = i + 1;
        proof {
            assert(result@.drop_last() =~= result0);
            let m = result@.last();
            assert(m.text@ == cands@[i - 1].text@);
            assert(result@[result0.len() as int].text@ == mt);
            assert forall|j2: int|
                0 <= j2 < n && used@[j2] implies spec_folded_into(
                (#[trigger] cands@[j2]).text@,
                result@,
            ) by {
                if used_at_entry[j2] {
                    let k = choose|k: int|
                        0 <= k < result0.len() && (cands@[j2].text@ == (#[trigger] result0[k]).text@
                            || spec_pre_or_suf(cands@[j2].text@, result0[k].text@));
                    assert(result@[k] == result0[k]);
                    assert(cands@[j2].text@ == result@[k].text@ || spec_pre_or_suf(
                        cands@[j2].text@,
                        result@[k].text@,
                    ));
                } else {
                    assert(cands@[j2].text@ == mt || spec_pre_or_suf(cands@[j2].text@, mt));
                    assert(cands@[j2].text@ == result@[result0.len() as int].text@
                        || spec_pre_or_suf(cands@[j2].text@, result@[result0.len() as int].text@));
                }
            };
            assert forall|k1: int, k2: int|
                0 <= k1 < result@.len() && 0 <= k2 < result@.len() && k1 != k2
                    implies !spec_pre_or_suf(
                    (#[trigger] result@[k1]).text@,
                    (#[trigger] result@[k2]).text@,
                ) by {
                if k1 < result0.len() && k2 < result0.len() {
                    assert(result@[k1] == result0[k1]);
                    assert(result@[k2] == result0[k2]);
                } else if k2 == result0.len() {
                    // result[k1] cannot be shorter than the new entry.
                    assert(result@[k1] == result0[k1]);
                    assert(result0[k1].text@.len() >= cands@[i - 1].text@.len());
                } else {
                    // The new entry was unused when accepted, so it is not
                    // a prefix or suffix of any earlier result.
                    assert(result@[k2] == result0[k2]);
                    assert(!spec_pre_or_suf(cands@[i - 1].text@, result0[k2].text@));
                }
            };
        }
    }
    proof {
        lemma_marked_sum_bounds(cands@, used@);
    }
    result
}

proof fn lemma_sum_counts_nonneg(cs: Seq<SentenceCandidate>)
    ensures
        spec_sum_counts(cs) >= 0,
    decreases cs.len(),
{
    if cs.len() > 0 {
        lemma_sum_counts_nonneg(cs.drop_last());
    }
}

proof fn lemma_marked_sum_zero(cs: Seq<SentenceCandidate>, used: Seq<bool>)
    requires
        used.len() == cs.len(),
        forall|j: int| 0 <= j < used.len() ==> !(#[trigger] used[j]),
    ensures
        spec_marked_sum(cs, used) == 0,
    decreases cs.len(),
{
    if cs.len() > 0 {
        assert(!used[used.len() - 1]);
        assert(forall|j: int| 0 <= j < used.len() - 1 ==> used.drop_last()[j] == used[j]);
        lemma_marked_sum_zero(cs.drop_last(), used.drop_last());
    }
}


/// The candidate meets the confidence threshold: its detection share of
/// the analysed windows is at least `threshold_milli` thousandths. The
/// boundary is inclusive, and a candidate from zero windows never
/// qualifies.
pub open spec fn spec_candidate_accepted(c: SentenceCandidate, threshold_milli: u64) -> bool {
    c.total_windows > 0 && c.detection_count * 1000 >= threshold_milli * c.total_windows
}

/// The candidates that meet the threshold, in order.
pub open spec fn spec_qualified(cs: Seq<SentenceCandidate>, threshold_milli: u64) -> Seq<
    SentenceCandidate,
>
    decreases cs.len(),
{
    if cs.len() == 0 {
        Seq::empty()
    } else {
        let prev = spec_qualified(cs.drop_last(), threshold_milli);
        if spec_candidate_accepted(cs.last(), threshold_milli) {
            prev.push(cs.last())
        } else {
            prev
        }
    }
}

/// Keeps the candidates whose confidence — detections over analysed
/// windows — is at least the threshold; the boundary is inclusive.
pub fn finalize_sentences(
    sentence_candidates: Vec<SentenceCandidate>,
    threshold_milli: u64,
) -> (r: Vec<SentenceCandidate>)
    ensures
        r@ == spec_qualified(sentence_candidates@, threshold_milli),
{
    let ghost cs = sentence_candidates@;
    let mut rest = sentence_candidates;
    let mut qualified: Vec<SentenceCandidate> = Vec::new();
    let ghost mut i: int = 0;
    proof {
        assert(cs.take(0) =~= Seq::<SentenceCandidate>::empty());
        assert(rest@ =~= cs.skip(0));
    }
    while rest.len() > 0
        invariant
            0 <= i <= cs.len(),
            i + rest@.len() == cs.len(),
            rest@ == cs.skip(i),
            qualified@ == spec_qualified(cs.take(i), threshold_milli),
        decreases rest@.len(),
    {
        let ghost rest0 = rest@;
        let c = rest.remove(0);
        proof {
            assert(c == cs.skip(i)[0]);
            assert(c == cs[i]);
            assert(rest@ =~= rest0.remove(0));
            assert(rest@ =~= cs.skip(i + 1));
            assert(cs.take(i + 1).drop_last() =~= cs.take(i));
            assert(cs.take(i + 1).last() == cs[i]);
        }
        proof {
            assert((threshold_milli as int) * (c.total_windows as int)
                < 340282366920938463463374607431768211456) by (nonlinear_arith)
                requires
                    0 <= threshold_milli < 18446744073709551616,
                    0 <= c.total_windows < 18446744073709551616,
            ;
        }
        let accepted = c.total_windows > 0 && (c.detection_count as u128) * 1000
            >= (threshold_milli as u128) * (c.total_windows as u128);
        proof {
            assert(accepted == spec_candidate_accepted(cs[i], threshold_milli));
        }
        if accepted {
            qualified.push(c);
        }
        proof {
            i = i + 1;
        }
    }
    proof {
        assert(cs.take(i) =~= cs);
    }
    qualified
}


/// The cheap sanity check on one translated sentence: non-empty once
/// trimmed, not identical to the trimmed source, and at most three times
/// the source's length.
pub open spec fn spec_translation_valid(original: Seq<char>, translated: Seq<char>) -> bool {
    &&& spec_trim(translated).len() > 0
    &&& spec_trim(original) != spec_trim(translated)
    &&& translated.len() <= original.len() * 3
}

/// Validates one translated sentence: it must have content, differ from
/// the source, and not exceed three times the source's length.
pub fn validate_translation(original: &str, translated: &str) -> (r: bool)
    ensures
        r == spec_translation_valid(original@, translated@),
{
    let ov = chars_vec(original);
    let tv = chars_vec(translated);
    let ttrim = trim_chars(&tv);
    if ttrim.len() == 0 {
        return false;
    }
    let otrim = trim_chars(&ov);
    let same = crate::text::str_eq(
        string_from_chars(&otrim).as_str(),
        string_from_chars(&ttrim).as_str(),
    );
    if same {
        return false;
    }
    let limit: u128 = (ov.len() as u128) * 3;
    (tv.len() as u128) <= limit
}

/// The end of the window starting at `window_start`: `window_size` more
/// segments, clamped to the transcript's end.
pub fn window_end(window_start: usize, window_size: usize, total: usize) -> (r: usize)
    requires
        window_start <= total,
    ensures
        r == if window_start + window_size <= total {
            window_start + window_size
        } else {
            total as int
        },
        window_start <= r <= total,
{
    if total - window_start >= window_size {
        window_start + window_size
    } else {
        total
    }
}

/// Whether the slide stops after moving to `next_start`: fewer than two
/// segments would remain for a window.
pub fn should_stop_sliding(next_start: usize, total: usize) -> (r: bool)
    ensures
        r == (next_start + 2 >= total),
{
    total < 2 || next_start >= total - 2
}

/// Turns the surviving candidates into translation units. With candidates,
/// each becomes one sentence spanning the whole transcript's time range and
/// carrying its position as its index; with none, every segment becomes its
/// own one-segment sentence, so the pipeline always has translatable units.
pub fn reconstruct_sentences_from_candidates(
    segments: &Vec<TranscriptionSegment>,
    sentence_candidates: Vec<SentenceCandidate>,
) -> (r: Vec<ReconstructedSentence>)
    ensures
        sentence_candidates@.len() > 0 ==> {
            &&& r@.len() == sentence_candidates@.len()
            &&& forall|k: int|
                0 <= k < r@.len() ==> {
                    let dst = #[trigger] r@[k];
                    &&& dst.text@ == sentence_candidates@[k].text@
                    &&& dst.translated_text@.len() == 0
                    &&& dst.segment_indices@ == seq![k as usize]
                    &&& dst.start_time_ms == if segments@.len() > 0 {
                        segments@[0].start_ms
                    } else {
                        0u64
                    }
                    &&& dst.end_time_ms == if segments@.len() > 0 {
                        segments@.last().end_ms
                    } else {
                        0u64
                    }
                }
        },
        sentence_candidates@.len() == 0 ==> {
            &&& r@.len() == segments@.len()
            &&& forall|k: int|
                0 <= k < r@.len() ==> {
                    let dst = #[trigger] r@[k];
                    &&& dst.text@ == segments@[k].text@
                    &&& dst.translated_text@.len() == 0
                    &&& dst.segment_indices@ == seq![k as usize]
                    &&& dst.start_time_ms == segments@[k].start_ms
                    &&& dst.end_time_ms == segments@[k].end_ms
                }
        },
{
    let mut sentences: Vec<ReconstructedSentence> = Vec::new();
    let n_cands = sentence_candidates.len();
    let n_segs = segments.len();
    if n_cands > 0 {
        let start_ms = if n_segs > 0 { segments[0].start_ms } else { 0 };
        let end_ms = if n_segs > 0 { segments[n_segs - 1].end_ms } else { 0 };
        let mut rest = sentence_candidates;
        let ghost cs = rest@;
        let mut idx: usize = 0;
        while rest.len() > 0
            invariant
                idx + rest@.len() == cs.len(),
                cs.len() == n_cands,
                rest@ == cs.skip(idx as int),
                n_segs == segments@.len(),
                start_ms == if segments@.len() > 0 { segments@[0].start_ms } else { 0u64 },
                end_ms == if segments@.len() > 0 { segments@.last().end_ms } else { 0u64 },
                sentences@.len() == idx,
                forall|k: int|
                    0 <= k < idx ==> {
                        let dst = #[trigger] sentences@[k];
                        &&& dst.text@ == cs[k].text@
                        &&& dst.translated_text@.len() == 0
                        &&& dst.segment_indices@ == seq![k as usize]
                        &&& dst.start_time_ms == start_ms
                        &&& dst.end_time_ms == end_ms
                    },
            decreases rest@.len(),
        {
            let ghost rest0 = rest@;
            let c = rest.remove(0);
            proof {
                assert(c == cs.skip(idx as int)[0]);
                assert(c == cs[idx as int]);
                assert(rest@ =~= rest0.remove(0));
                assert(rest@ =~= cs.skip(idx + 1));
            }
            let mut indices: Vec<usize> = Vec::new();
            indices.push(idx);
            proof {
                assert(indices@ =~= seq![idx]);
            }
            sentences.push(ReconstructedSentence {
                segment_indices: indices,
                start_time_ms: start_ms,
                end_time_ms: end_ms,
                text: c.text,
                translated_text: String::new(),
            });
            idx = idx + 1;
        }
        proof {
            assert(cs.skip(cs.len() as int) =~= Seq::<SentenceCandidate>::empty());
        }
        sentences
    } else {
        let mut idx: usize = 0;
        while idx < n_segs
            invariant
                0 <= idx <= n_segs == segments@.len(),
                sentences@.len() == idx,
                forall|k: int|
                    0 <= k < idx ==> {
                        let dst = #[trigger] sentences@[k];
                        &&& dst.text@ == segments@[k].text@
                        &&& dst.translated_text@.len() == 0
                        &&& dst.segment_indices@ == seq![k as usize]
                        &&& dst.start_time_ms == segments@[k].start_ms
                        &&& dst.end_time_ms == segments@[k].end_ms
                    },
            decreases n_segs - idx,
        {
            let seg = &segments[idx];
            let mut indices: Vec<usize> = Vec::new();
            indices.push(idx);
            proof {
                assert(indices@ =~= seq![idx]);
            }
            sentences.push(ReconstructedSentence {
                segment_indices: indices,
                start_time_ms: seg.start_ms,
                end_time_ms: seg.end_ms,
                text: copy_string_local(&seg.text),
                translated_text: String::new(),
            });
            idx = idx + 1;
        }
        sentences
    }
}


/// The uniform duration given to each rebuilt segment: the transcript's
/// time range split evenly over its original segment count, or one second
/// for an empty transcript.
pub open spec fn spec_rebuild_duration(segs: Seq<TranscriptionSegment>) -> int {
    if segs.len() == 0 {
        1000
    } else {
        let range: int = if segs.last().end_ms >= segs[0].start_ms {
            segs.last().end_ms - segs[0].start_ms
        } else {
            0
        };
        range / (segs.len() as int)
    }
}

/// Folds the translated sentences back into the transcript. When the
/// sentence count matches the segment count (the per-segment fallback),
/// each segment keeps its timing and takes its sentence's translation;
/// otherwise the segment list is rebuilt wholesale: one segment per
/// sentence, the transcript's time range split evenly, and the full text
/// replaced by the space-joined translations. The bounds keep the timing
/// arithmetic within 64 bits.
pub fn update_transcription_with_sentences(
    transcription: &mut Transcription,
    sentences: &Vec<ReconstructedSentence>,
)
    requires
        sentences@.len() <= 1_000_000,
        forall|i: int|
            0 <= i < old(transcription).segments@.len()
                ==> (#[trigger] old(transcription).segments@[i]).end_ms <= 10_000_000_000,
    ensures
        final(transcription).language == old(transcription).language,
        sentences@.len() == old(transcription).segments@.len() ==> {
            &&& final(transcription).text == old(transcription).text
            &&& final(transcription).segments@.len() == old(transcription).segments@.len()
            &&& forall|i: int|
                0 <= i < final(transcription).segments@.len() ==> {
                    let dst = #[trigger] final(transcription).segments@[i];
                    let src = old(transcription).segments@[i];
                    &&& dst.id == src.id
                    &&& dst.start_ms == src.start_ms
                    &&& dst.end_ms == src.end_ms
                    &&& dst.text@ == sentences@[i].translated_text@
                    &&& dst.tokens@ == src.tokens@
                    &&& dst.temperature_milli == src.temperature_milli
                    &&& dst.avg_logprob_milli == src.avg_logprob_milli
                    &&& dst.compression_ratio_milli == src.compression_ratio_milli
                    &&& dst.no_speech_prob_milli == src.no_speech_prob_milli
                }
        },
        sentences@.len() != old(transcription).segments@.len() ==> {
            let dur = spec_rebuild_duration(old(transcription).segments@);
            &&& final(transcription).segments@.len() == sentences@.len()
            &&& forall|i: int|
                0 <= i < final(transcription).segments@.len() ==> {
                    let dst = #[trigger] final(transcription).segments@[i];
                    &&& dst.id == i as i32
                    &&& dst.start_ms == i * dur
                    &&& dst.end_ms == i * dur + dur
                    &&& dst.text@ == sentences@[i].translated_text@
                    &&& dst.tokens@.len() == 0
                    &&& dst.temperature_milli == 0
                    &&& dst.avg_logprob_milli == 0
                    &&& dst.compression_ratio_milli == 1000
                    &&& dst.no_speech_prob_milli == 0
                }
            &&& final(transcription).text@ == spec_join_space_local(
                sentences@.map_values(|s: ReconstructedSentence| s.translated_text@),
            )
        },
{
    let n_sents = sentences.len();
    let n_segs = transcription.segments.len();
    if n_sents == n_segs {
        let mut new_segments: Vec<TranscriptionSegment> = Vec::new();
        let mut i: usize = 0;
        while i < n_segs
            invariant
                0 <= i <= n_segs == old(transcription).segments@.len(),
                n_sents == sentences@.len() == n_segs,
                transcription.segments@ == old(transcription).segments@,
                new_segments@.len() == i,
                forall|k: int|
                    0 <= k < i ==> {
                        let dst = #[trigger] new_segments@[k];
                        let src = old(transcription).segments@[k];
                        &&& dst.id == src.id
                        &&& dst.start_ms == src.start_ms
                        &&& dst.end_ms == src.end_ms
                        &&& dst.text@ == sentences@[k].translated_text@
                        &&& dst.tokens@ == src.tokens@
                        &&& dst.temperature_milli == src.temperature_milli
                        &&& dst.avg_logprob_milli == src.avg_logprob_milli
                        &&& dst.compression_ratio_milli == src.compression_ratio_milli
                        &&& dst.no_speech_prob_milli == src.no_speech_prob_milli
                    },
            decreases n_segs - i,
        {
            let src = &transcription.segments[i];
            new_segments.push(TranscriptionSegment {
                id: src.id,
                start_ms: src.start_ms,
                end_ms: src.end_ms,
                text: copy_string_local(&sentences[i].translated_text),
                tokens: copy_tokens(&src.tokens),
                temperature_milli: src.temperature_milli,
                avg_logprob_milli: src.avg_logprob_milli,
                compression_ratio_milli: src.compression_ratio_milli,
                no_speech_prob_milli: src.no_speech_prob_milli,
            });
            i = i + 1;
        }
        transcription.segments = new_segments;
    } else {
        let duration: u64 = if n_segs == 0 {
            1000
        } else {
            let first_start = transcription.segments[0].start_ms;
            let last_end = transcription.segments[n_segs - 1].end_ms;
            let range: u64 = if last_end >= first_start { last_end - first_start } else { 0 };
            range / (n_segs as u64)
        };
        proof {
            assert(duration == spec_rebuild_duration(old(transcription).segments@));
            assert(duration <= 10_000_000_000);
        }
        let mut new_segments: Vec<TranscriptionSegment> = Vec::new();
        let mut parts: Vec<String> = Vec::new();
        let mut i: usize = 0;
        while i < n_sents
            invariant
                0 <= i <= n_sents == sentences@.len(),
                n_sents <= 1_000_000,
                duration <= 10_000_000_000,
                duration == spec_rebuild_duration(old(transcription).segments@),
                new_segments@.len() == i,
                parts@.map_values(|s: String| s@) == sentences@.take(i as int).map_values(
                    |s: ReconstructedSentence| s.translated_text@,
                ),
                forall|k: int|
                    0 <= k < i ==> {
                        let dst = #[trigger] new_segments@[k];
                        &&& dst.id == k as i32
                        &&& dst.start_ms == k * duration
                        &&& dst.end_ms == k * duration + duration
                        &&& dst.text@ == sentences@[k].translated_text@
                        &&& dst.tokens@.len() == 0
                        &&& dst.temperature_milli == 0
                        &&& dst.avg_logprob_milli == 0
                        &&& dst.compression_ratio_milli == 1000
                        &&& dst.no_speech_prob_milli == 0
                    },
            decreases n_sents - i,
        {
            proof {
                let ig = i as int;
                let dg = duration as int;
                assert(ig * dg + dg <= 1_000_000 * 10_000_000_000int) by (nonlinear_arith)
                    requires
                        0 <= ig < 1_000_000,
                        0 <= dg <= 10_000_000_000,
                ;
                assert((ig + 1) * dg == ig * dg + dg) by (nonlinear_arith);
            }
            let start_ms: u64 = (i as u64) * duration;
            let end_ms: u64 = start_ms + duration;
            new_segments.push(TranscriptionSegment {
                id: i as i32,
                start_ms,
                end_ms,
                text: copy_string_local(&sentences[i].translated_text),
                tokens: Vec::new(),
                temperature_milli: 0,
                avg_logprob_milli: 0,
                compression_ratio_milli: 1000,
                no_speech_prob_milli: 0,
            });
            let ghost pm0 = parts@.map_values(|s: String| s@);
            parts.push(copy_string_local(&sentences[i].translated_text));
            i = i + 1;
            proof {
                assert(parts@.map_values(|s: String| s@) =~= pm0.push(
                    sentences@[i - 1].translated_text@,
                ));
                assert(sentences@.take(i as int).map_values(
                    |s: ReconstructedSentence| s.translated_text@,
                ) =~= sentences@.take(i - 1).map_values(
                    |s: ReconstructedSentence| s.translated_text@,
                ).push(sentences@[i - 1].translated_text@));
            }
        }
        proof {
            assert(sentences@.take(n_sents as int) =~= sentences@);
        }
        transcription.text = crate::text::join_space(&parts);
        transcription.segments = new_segments;
    }
}

/// The translated texts joined with single spaces.
pub open spec fn spec_join_space_local(parts: Seq<Seq<char>>) -> Seq<char> {
    crate::text::spec_join_space(parts)
}

fn copy_tokens(tokens: &Vec<i32>) -> (r: Vec<i32>)
    ensures
        r@ == tokens@,
{
    let mut out: Vec<i32> = Vec::new();
    let mut i: usize = 0;
    while i < tokens.len()
        invariant
            0 <= i <= tokens@.len(),
            out@ == tokens@.take(i as int),
        decreases tokens@.len() - i,
    {
        out.push(tokens[i]);
        assert(out@ =~= tokens@.take(i + 1 as int));
        i = i + 1;
    }
    assert(tokens@.take(tokens@.len() as int) =~= tokens@);
    out
}

} // verus!
