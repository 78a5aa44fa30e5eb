//! The deterministic sentence reconstruction: merging timed segments into
//! sentences at timing gaps and punctuation boundaries, splitting overlong
//! runs, and distributing translated words back over the original segment
//! slots.

use vstd::prelude::*;
use crate::quality::TranscriptionSegment;
use crate::text::{
    chars_vec, contains_chars, has_sub, is_space_char, is_space, spec_trim, spec_trim_front,
    string_from_chars, trim_chars,
};

verus! {

/// A sentence assembled from consecutive segments.
#[derive(Debug, Clone)]
pub struct Sentence {
    pub text: String,
    pub start_time_ms: u64,
    pub end_time_ms: u64,
    pub segment_indices: Vec<usize>,
}

/// What `char::is_uppercase` returns; a function of the character alone.
pub uninterp spec fn upper_char_of(c: char) -> bool;

/// Relies on `char::is_uppercase`: whether the character is uppercase.
#[verifier::external_body]
pub fn char_is_uppercase(c: char) -> (r: bool)
    ensures
        r == upper_char_of(c),
{
    c.is_uppercase()
}

/// An ASCII uppercase letter.
pub open spec fn is_ascii_upper(c: char) -> bool {
    'A' <= c && c <= 'Z'
}

/// A sentence-ending punctuation mark.
pub open spec fn is_sentence_end(c: char) -> bool {
    c == '.' || c == '!' || c == '?'
}

fn sentence_end(c: char) -> (r: bool)
    ensures
        r == is_sentence_end(c),
{
    c == '.' || c == '!' || c == '?'
}

/// The text shows a strong sentence ending: a mark followed by a space and
/// an ASCII capital, or a period-space together with a common
/// sentence-opening word.
pub open spec fn spec_strong_ending(t: Seq<char>) -> bool {
    ||| exists|i: int|
        0 <= i && i + 2 < t.len() && is_sentence_end(#[trigger] t[i]) && t[i + 1] == ' '
            && is_ascii_upper(t[i + 2])
    ||| (has_sub(t, ". "@) && (has_sub(t, ". The "@) || has_sub(t, ". I "@) || has_sub(
        t,
        ". We "@,
    ) || has_sub(t, ". This "@) || has_sub(t, ". That "@) || has_sub(t, ". So "@)))
}

/// Whether the text shows a strong sentence ending, a good place to close
/// the sentence under construction.
pub fn has_strong_sentence_ending(text: &str) -> (r: bool)
    ensures
        r == spec_strong_ending(text@),
{
    let t = chars_vec(text);
    let n = t.len();
    if n >= 3 {
        let mut i: usize = 0;
        while i < n - 2
            invariant
                3 <= n == t@.len(),
                t@ == text@,
                0 <= i <= n - 2,
                forall|k: int|
                    0 <= k < i ==> !(is_sentence_end(#[trigger] t@[k]) && t@[k + 1] == ' '
                        && is_ascii_upper(t@[k + 2])),
            decreases n - i,
        {
            let c = t[i];
            if sentence_end(c) && t[i + 1] == ' ' {
                let up = t[i + 2];
                if 'A' <= up && up <= 'Z' {
                    proof {
                        let w = i as int;
                        assert(0 <= w && w + 2 < text@.len());
                        assert(is_sentence_end(text@[w]));
                        assert(text@[w + 1] == ' ');
                        assert(text@[w + 2] == up);
                        assert(is_ascii_upper(text@[w + 2]));
                        assert(exists|q: int|
                            0 <= q && q + 2 < text@.len() && is_sentence_end(#[trigger] text@[q])
                                && text@[q + 1] == ' ' && is_ascii_upper(text@[q + 2]));
                        assert(spec_strong_ending(text@));
                    }
                    return true;
                }
            }
            i = i + 1;
        }
    }
    proof {
        assert(forall|k: int|
            0 <= k && k + 2 < t@.len() ==> !(is_sentence_end(#[trigger] t@[k]) && t@[k + 1] == ' '
                && is_ascii_upper(t@[k + 2])));
    }
    let dot_space = chars_vec(". ");
    if !contains_chars(&t, &dot_space) {
        return false;
    }
    let p1 = chars_vec(". The ");
    let p2 = chars_vec(". I ");
    let p3 = chars_vec(". We ");
    let p4 = chars_vec(". This ");
    let p5 = chars_vec(". That ");
    let p6 = chars_vec(". So ");
    contains_chars(&t, &p1) || contains_chars(&t, &p2) || contains_chars(&t, &p3)
        || contains_chars(&t, &p4) || contains_chars(&t, &p5) || contains_chars(&t, &p6)
}

/// The sentences the punctuation splitter produces from the remaining
/// characters, with `cur` the sentence under construction. A mark followed
/// by whitespace closes the sentence when it already has more than thirty
/// characters and the rest of the text starts with an uppercase letter (or
/// nothing); a mark at the end of the text closes it when it has more than
/// fifteen; whatever remains is emitted trimmed.
pub open spec fn spec_sbs(rest: Seq<char>, cur: Seq<char>) -> Seq<Seq<char>>
    decreases rest.len(),
{
    if rest.len() == 0 {
        if spec_trim(cur).len() > 0 {
            seq![spec_trim(cur)]
        } else {
            Seq::empty()
        }
    } else {
        let c = rest[0];
        let cur2 = cur.push(c);
        let rest2 = rest.drop_first();
        if is_sentence_end(c) {
            if rest2.len() > 0 {
                if is_space_char(rest2[0]) {
                    let sentence = spec_trim(cur2);
                    if sentence.len() > 30 {
                        let rem = spec_trim_front(rest2);
                        if rem.len() == 0 || upper_char_of(rem[0]) {
                            seq![sentence] + spec_sbs(rest2, Seq::empty())
                        } else {
                            spec_sbs(rest2, cur2)
                        }
                    } else {
                        spec_sbs(rest2, cur2)
                    }
                } else {
                    spec_sbs(rest2, cur2)
                }
            } else {
                let sentence = spec_trim(cur2);
                if sentence.len() > 15 {
                    seq![sentence] + spec_sbs(rest2, Seq::empty())
                } else {
                    spec_sbs(rest2, cur2)
                }
            }
        } else {
            spec_sbs(rest2, cur2)
        }
    }
}

/// The index where the first word ends (the first whitespace character),
/// or the length.
pub open spec fn spec_find_space(s: Seq<char>) -> int
    decreases s.len(),
{
    if s.len() == 0 {
        0
    } else if is_space_char(s[0]) {
        0
    } else {
        1 + spec_find_space(s.drop_first())
    }
}

/// The whitespace-separated words of `s`.
pub open spec fn spec_split_words(s: Seq<char>) -> Seq<Seq<char>>
    decreases s.len(),
{
    if s.len() == 0 {
        Seq::empty()
    } else if is_space_char(s[0]) {
        spec_split_words(s.drop_first())
    } else {
        let f = spec_find_space(s);
        if 0 < f <= s.len() {
            seq![s.take(f)] + spec_split_words(s.skip(f))
        } else {
            seq![s]
        }
    }
}

proof fn lemma_find_space_at(s: Seq<char>, m: int)
    requires
        0 <= m <= s.len(),
        forall|k: int| 0 <= k < m ==> !is_space_char(s[k]),
        m == s.len() || is_space_char(s[m]),
    ensures
        spec_find_space(s) == m,
    decreases m,
{
    if s.len() > 0 && m > 0 {
        assert(forall|k: int| 0 <= k < m - 1 ==> s.drop_first()[k] == s[k + 1]);
        lemma_find_space_at(s.drop_first(), m - 1);
    }
}

/// Splits `s` into its whitespace-separated words.
pub fn split_words(v: &Vec<char>) -> (r: Vec<Vec<char>>)
    ensures
        r@.map_values(|w: Vec<char>| w@) == spec_split_words(v@),
{
    let n = v.len();
    let mut out: Vec<Vec<char>> = Vec::new();
    let mut p: usize = 0;
    proof {
        assert(v@.skip(0) =~= v@);
        assert(out@.map_values(|w: Vec<char>| w@) + spec_split_words(v@.skip(0))
            =~= spec_split_words(v@));
    }
    while p < n
        invariant
            0 <= p <= n == v@.len(),
            out@.map_values(|w: Vec<char>| w@) + spec_split_words(v@.skip(p as int))
                == spec_split_words(v@),
        decreases n - p,
    {
        let ghost rest = v@.skip(p as int);
        proof {
            assert(rest[0] == v@[p as int]);
            assert(rest.drop_first() =~= v@.skip(p + 1));
        }
        if is_space(v[p]) {
            p = p + 1;
            proof {
                assert(out@.map_values(|w: Vec<char>| w@) + spec_split_words(v@.skip(p as int))
                    =~= spec_split_words(v@));
            }
        } else {
            let mut q: usize = p;
            while q < n && !is_space(v[q])
                invariant
                    p <= q <= n == v@.len(),
                    forall|k: int| p <= k < q ==> !is_space_char(v@[k]),
                decreases n - q,
            {
                q = q + 1;
            }
            proof {
                assert(forall|k: int| 0 <= k < q - p ==> rest[k] == v@[p + k]);
                lemma_find_space_at(rest, q - p);
            }
            let word = crate::text::subrange_chars(v, p, q);
            let ghost out0 = out@.map_values(|w: Vec<char>| w@);
            out.push(word);
            proof {
                assert(rest.take(q - p) =~= v@.subrange(p as int, q as int));
                assert(out@.map_values(|w: Vec<char>| w@) =~= out0.push(rest.take(q - p)));
                assert(rest.skip(q - p) =~= v@.skip(q as int));
                if q > p {
                    assert(spec_split_words(rest) == seq![rest.take(q - p)]
                        + spec_split_words(rest.skip(q - p)));
                }
            }
            p = q;
            proof {
                assert(out@.map_values(|w: Vec<char>| w@) + spec_split_words(v@.skip(p as int))
                    =~= spec_split_words(v@));
            }
        }
    }
    proof {
        assert(v@.skip(n as int) =~= Seq::<char>::empty());
        assert(out@.map_values(|w: Vec<char>| w@) =~= spec_split_words(v@));
    }
    out
}

/// The length-bounded splitter over a word list: a word that would push
/// the sentence past `max_len` closes it, provided it already has more
/// than a hundred characters; words are joined with single spaces.
pub open spec fn spec_sbl(words: Seq<Seq<char>>, cur: Seq<char>, max_len: int) -> Seq<Seq<char>>
    decreases words.len(),
{
    if words.len() == 0 {
        if spec_trim(cur).len() > 0 {
            seq![spec_trim(cur)]
        } else {
            Seq::empty()
        }
    } else {
        let w = words[0];
        if cur.len() + w.len() + 1 > max_len && cur.len() > 100 {
            seq![spec_trim(cur)] + spec_sbl(words.drop_first(), w, max_len)
        } else {
            let cur2 = if cur.len() == 0 {
                w
            } else {
                cur + seq![' '] + w
            };
            spec_sbl(words.drop_first(), cur2, max_len)
        }
    }
}

/// What splitting text by length yields: the word-joined chunks.
pub open spec fn spec_split_by_length(t: Seq<char>, max_len: int) -> Seq<Seq<char>> {
    spec_sbl(spec_split_words(t), Seq::empty(), max_len)
}

/// Splits text into chunks of roughly `max_length` characters at word
/// boundaries; used when no sentence punctuation is available.
pub fn split_by_length(text: &str, max_length: usize) -> (r: Vec<String>)
    requires
        max_length <= 1_000_000,
    ensures
        r@.map_values(|s: String| s@) == spec_split_by_length(text@, max_length as int),
{
    let tv = chars_vec(text);
    let words = split_words(&tv);
    let ghost wviews = words@.map_values(|w: Vec<char>| w@);
    let n = words.len();
    let mut out: Vec<String> = Vec::new();
    let mut cur: Vec<char> = Vec::new();
    let mut i: usize = 0;
    proof {
        assert(wviews.skip(0) =~= wviews);
        assert(out@.map_values(|s: String| s@) + spec_sbl(wviews.skip(0), cur@, max_length as int)
            =~= spec_split_by_length(text@, max_length as int));
    }
    while i < n
        invariant
            0 <= i <= n == words@.len(),
            wviews == words@.map_values(|w: Vec<char>| w@),
            out@.map_values(|s: String| s@) + spec_sbl(
                wviews.skip(i as int),
                cur@,
                max_length as int,
            ) == spec_split_by_length(text@, max_length as int),
        decreases n - i,
    {
        let ghost rest = wviews.skip(i as int);
        let ghost cur_entry = cur@;
        let ghost out_entry = out@.map_values(|s: String| s@);
        proof {
            assert(rest[0] == wviews[i as int]);
            assert(rest.drop_first() =~= wviews.skip(i + 1));
        }
        let w = &words[i];
        let would_overflow = (cur.len() as u128) + (w.len() as u128) + 1 > (max_length as u128)
            && cur.len() > 100;
        if would_overflow {
            let trimmed = trim_chars(&cur);
            out.push(string_from_chars(&trimmed));
            proof {
                assert(out@.map_values(|s: String| s@) =~= out_entry.push(spec_trim(cur_entry)));
            }
            cur = crate::text::subrange_chars(w, 0, w.len());
            proof {
                assert(cur@ =~= wviews[i as int]);
            }
        } else {
            if cur.len() > 0 {
                cur.push(' ');
            }
            let ghost cur0 = cur@;
            let mut k: usize = 0;
            while k < w.len()
                invariant
                    0 <= k <= w@.len(),
                    cur@ == cur0 + w@.take(k as int),
                decreases w@.len() - k,
            {
                cur.push(w[k]);
                assert(cur@ =~= cur0 + w@.take(k + 1 as int));
                k = k + 1;
            }
            proof {
                assert(w@.take(w@.len() as int) =~= w@);
                if cur_entry.len() == 0 {
                    assert(cur@ =~= wviews[i as int]);
                } else {
                    assert(cur0 =~= cur_entry.push(' '));
                    assert(cur@ =~= cur_entry + seq![' '] + wviews[i as int]);
                }
            }
        }
        i = i + 1;
        proof {
            if would_overflow {
                assert(spec_sbl(rest, cur_entry, max_length as int) == seq![spec_trim(cur_entry)]
                    + spec_sbl(rest.drop_first(), wviews[i - 1], max_length as int));
            } else {
                if cur_entry.len() == 0 {
                    assert(spec_sbl(rest, cur_entry, max_length as int) == spec_sbl(
                        rest.drop_first(),
                        wviews[i - 1],
                        max_length as int,
                    ));
                } else {
                    assert(spec_sbl(rest, cur_entry, max_length as int) == spec_sbl(
                        rest.drop_first(),
                        cur_entry + seq![' '] + wviews[i - 1],
                        max_length as int,
                    ));
                }
            }
            assert(out@.map_values(|s: String| s@) + spec_sbl(
                wviews.skip(i as int),
                cur@,
                max_length as int,
            ) =~= spec_split_by_length(text@, max_length as int));
        }
    }
    proof {
        assert(wviews.skip(n as int) =~= Seq::<Seq<char>>::empty());
    }
    let trimmed = trim_chars(&cur);
    if trimmed.len() > 0 {
        let ghost out0 = out@.map_values(|s: String| s@);
        out.push(string_from_chars(&trimmed));
        proof {
            assert(out@.map_values(|s: String| s@) =~= out0.push(spec_trim(cur@)));
        }
    }
    proof {
        assert(out@.map_values(|s: String| s@) =~= spec_split_by_length(
            text@,
            max_length as int,
        ));
    }
    out
}

/// What the punctuation splitter yields on whole text: its sentences, or
/// the length-bounded chunks when punctuation found none and the text has
/// content.
pub open spec fn spec_split_by_sentences(t: Seq<char>) -> Seq<Seq<char>> {
    let r = spec_sbs(t, Seq::empty());
    if r.len() == 0 && spec_trim(t).len() > 0 {
        spec_split_by_length(t, 500)
    } else {
        r
    }
}

/// Splits text into individual sentences at punctuation boundaries,
/// falling back to 500-character chunks when no boundary qualifies.
pub fn split_by_sentences(text: &str) -> (r: Vec<String>)
    ensures
        r@.map_values(|s: String| s@) == spec_split_by_sentences(text@),
{
    let tv = chars_vec(text);
    let n = tv.len();
    let mut out: Vec<String> = Vec::new();
    let mut cur: Vec<char> = Vec::new();
    let mut i: usize = 0;
    proof {
        assert(tv@.skip(0) =~= tv@);
        assert(out@.map_values(|s: String| s@) + spec_sbs(tv@.skip(0), cur@)
            =~= spec_sbs(tv@, Seq::empty()));
    }
    while i < n
        invariant
            0 <= i <= n == tv@.len(),
            tv@ == text@,
            out@.map_values(|s: String| s@) + spec_sbs(tv@.skip(i as int), cur@)
                == spec_sbs(tv@, Seq::empty()),
        decreases n - i,
    {
        let ghost rest = tv@.skip(i as int);
        let ghost cur_before = cur@;
        proof {
            assert(rest[0] == tv@[i as int]);
            assert(rest.drop_first() =~= tv@.skip(i + 1));
        }
        let c = tv[i];
        cur.push(c);
        if sentence_end(c) {
            if i + 1 < n {
                if is_space(tv[i + 1]) {
                    let sentence = trim_chars(&cur);
                    if sentence.len() > 30 {
                        // Find the first non-space character of the rest.
                        let mut j: usize = i + 1;
                        while j < n && is_space(tv[j])
                            invariant
                                i + 1 <= j <= n == tv@.len(),
                                forall|k: int| i + 1 <= k < j ==> is_space_char(tv@[k]),
                            decreases n - j,
                        {
                            j = j + 1;
                        }
                        proof {
                            assert(forall|k: int|
                                0 <= k < j - i - 1 ==> #[trigger] tv@.skip(i + 1)[k] == tv@[i + 1
                                    + k]);
                            crate::text::lemma_trim_front_skip(tv@.skip(i + 1), j - i - 1);
                            assert(tv@.skip(i + 1).skip(j - i - 1) =~= tv@.skip(j as int));
                        }
                        let close = if j == n {
                            true
                        } else {
                            proof {
                                assert(spec_trim_front(tv@.skip(i + 1))[0] == tv@[j as int]) by {
                                    assert(spec_trim_front(tv@.skip(i + 1)) == tv@.skip(j as int));
                                    assert(tv@.skip(j as int)[0] == tv@[j as int]);
                                };
                            }
                            char_is_uppercase(tv[j])
                        };
                        if close {
                            let ghost out0 = out@.map_values(|s: String| s@);
                            out.push(string_from_chars(&sentence));
                            proof {
                                assert(out@.map_values(|s: String| s@)
                                    =~= out0.push(spec_trim(cur@)));
                            }
                            cur = Vec::new();
                        }
                    }
                }
            } else {
                let sentence = trim_chars(&cur);
                if sentence.len() > 15 {
                    let ghost out0 = out@.map_values(|s: String| s@);
                    out.push(string_from_chars(&sentence));
                    proof {
                        assert(out@.map_values(|s: String| s@) =~= out0.push(spec_trim(cur@)));
                    }
                    cur = Vec::new();
                }
            }
        }
        i = i + 1;
        proof {
            assert(out@.map_values(|s: String| s@) + spec_sbs(tv@.skip(i as int), cur@)
                =~= spec_sbs(tv@, Seq::empty()));
        }
    }
    proof {
        assert(tv@.skip(n as int) =~= Seq::<char>::empty());
    }
    let trimmed = trim_chars(&cur);
    if trimmed.len() > 0 {
        let ghost out0 = out@.map_values(|s: String| s@);
        out.push(string_from_chars(&trimmed));
        proof {
            assert(out@.map_values(|s: String| s@) =~= out0.push(spec_trim(cur@)));
        }
    }
    proof {
        assert(out@.map_values(|s: String| s@) =~= spec_sbs(tv@, Seq::empty()));
    }
    if out.len() == 0 {
        let tr = trim_chars(&tv);
        if tr.len() > 0 {
            return split_by_length(text, 500);
        }
    }
    out
}


/// The slice boundaries when `total` items are dealt into `k` groups,
/// earlier groups taking the remainder: group `p` gets the items from
/// `offset(p)` to `offset(p + 1)`.
pub open spec fn spec_chunk_offset(total: int, k: int, p: int) -> int {
    p * (total / k) + if p < total % k {
        p
    } else {
        total % k
    }
}

/// Deals the words into `k` contiguous groups, earlier groups one longer
/// where the count does not divide evenly; group `p` is the space-join of
/// the words from `offset(p)` to `offset(p + 1)`.
pub fn distribute_words(words: &Vec<String>, k: usize) -> (r: Vec<String>)
    requires
        k > 0,
    ensures
        r@.len() == k,
        forall|p: int|
            0 <= p < k ==> (#[trigger] r@[p])@ == crate::text::spec_join_space(
                words@.map_values(|w: String| w@).subrange(
                    spec_chunk_offset(words@.len() as int, k as int, p),
                    spec_chunk_offset(words@.len() as int, k as int, p + 1),
                ),
            ),
{
    let ghost wv = words@.map_values(|w: String| w@);
    let n = words.len();
    let wps = n / k;
    let extra = n % k;
    let mut out: Vec<String> = Vec::new();
    let mut offset: usize = 0;
    let mut p: usize = 0;
    while p < k
        invariant
            0 <= p <= k,
            n == words@.len(),
            wv == words@.map_values(|w: String| w@),
            wps == n / k,
            extra == n % k,
            k > 0,
            offset == spec_chunk_offset(n as int, k as int, p as int),
            offset <= n,
            out@.len() == p,
            forall|q: int|
                0 <= q < p ==> (#[trigger] out@[q])@ == crate::text::spec_join_space(
                    wv.subrange(
                        spec_chunk_offset(n as int, k as int, q),
                        spec_chunk_offset(n as int, k as int, q + 1),
                    ),
                ),
        decreases k - p,
    {
        proof {
            assert((p + 1) * (n as int / k as int) == p * (n as int / k as int) + (n as int
                / k as int)) by (nonlinear_arith);
            assert(spec_chunk_offset(n as int, k as int, p + 1) == offset + wps + if p < extra {
                1int
            } else {
                0int
            });
            // The next offset stays within the word count.
            lemma_chunk_offset_bound(n as int, k as int, p + 1);
        }
        let upper: usize = if p < extra {
            offset + wps + 1
        } else {
            offset + wps
        };
        let mut piece: Vec<String> = Vec::new();
        let mut w: usize = offset;
        while w < upper
            invariant
                offset <= w <= upper <= n == words@.len(),
                wv == words@.map_values(|w2: String| w2@),
                piece@.map_values(|s: String| s@) == wv.subrange(offset as int, w as int),
            decreases upper - w,
        {
            let ghost pm0 = piece@.map_values(|s: String| s@);
            piece.push(copy_string_nlp(&words[w]));
            w = w + 1;
            proof {
                assert(piece@.map_values(|s: String| s@) =~= pm0.push(wv[w - 1]));
                assert(wv.subrange(offset as int, w as int) =~= wv.subrange(
                    offset as int,
                    w - 1,
                ).push(wv[w - 1]));
            }
        }
        out.push(crate::text::join_space(&piece));
        offset = upper;
        p = p + 1;
    }
    out
}

proof fn lemma_chunk_offset_bound(total: int, k: int, p: int)
    requires
        k > 0,
        0 <= p <= k,
        total >= 0,
    ensures
        0 <= spec_chunk_offset(total, k, p) <= total,
        p == k ==> spec_chunk_offset(total, k, p) == total,
{
    let q = total / k;
    let r = total % k;
    vstd::arithmetic::div_mod::lemma_fundamental_div_mod(total, k);
    vstd::arithmetic::div_mod::lemma_mod_bound(total, k);
    vstd::arithmetic::div_mod::lemma_div_pos_is_pos(total, k);
    assert(p * q >= 0) by (nonlinear_arith)
        requires p >= 0 && q >= 0;
    assert(p * q <= k * q) by (nonlinear_arith)
        requires p <= k && q >= 0;
    assert(total == k * q + r);
}

fn copy_string_nlp(s: &String) -> (r: String)
    ensures
        r@ == s@,
{
    let v = chars_vec(s.as_str());
    string_from_chars(&v)
}

/// The last position in `indices` holding segment `i`, or -1.
pub open spec fn spec_last_pos(indices: Seq<usize>, i: int) -> int
    decreases indices.len(),
{
    if indices.len() == 0 {
        -1
    } else if indices.last() as int == i {
        indices.len() - 1
    } else {
        spec_last_pos(indices.drop_last(), i)
    }
}

/// The text one sentence assigns to segment `i`: the dealt share of its
/// words for the last of its positions listing `i` — an even chunk, the
/// leftovers going to the earlier positions — or nothing when the sentence
/// has no positions, no words, or does not list `i`.
pub open spec fn spec_sentence_share(s: Sentence, i: int) -> Option<Seq<char>> {
    let w = spec_split_words(s.text@);
    let k = s.segment_indices@.len() as int;
    let p = spec_last_pos(s.segment_indices@, i);
    if k > 0 && w.len() > 0 && p >= 0 {
        Some(crate::text::spec_join_space(w.subrange(
            spec_chunk_offset(w.len() as int, k, p),
            spec_chunk_offset(w.len() as int, k, p + 1),
        )))
    } else {
        None
    }
}

/// The text segment `i` holds after the sentences fold over it in order:
/// the last sentence listing `i` assigns its share, and a segment no
/// sentence lists keeps `orig`.
pub open spec fn spec_mapped_text(sentences: Seq<Sentence>, i: int, orig: Seq<char>) -> Seq<char>
    decreases sentences.len(),
{
    if sentences.len() == 0 {
        orig
    } else {
        match spec_sentence_share(sentences.last(), i) {
            Some(t) => t,
            None => spec_mapped_text(sentences.drop_last(), i, orig),
        }
    }
}

/// A segment no sentence lists keeps its text through the fold.
pub proof fn lemma_unlisted_segment_keeps_text(sentences: Seq<Sentence>, i: int, orig: Seq<char>)
    requires
        0 <= i,
        forall|q: int|
            0 <= q < sentences.len() ==> !(#[trigger] sentences[q]).segment_indices@.contains(
                i as usize,
            ),
    ensures
        spec_mapped_text(sentences, i, orig) == orig,
    decreases sentences.len(),
{
    if sentences.len() > 0 {
        assert(sentences.last() == sentences[sentences.len() - 1]);
        lemma_last_pos_not_contained(sentences.last().segment_indices@, i);
        assert(forall|q: int|
            0 <= q < sentences.len() - 1 ==> sentences.drop_last()[q] == sentences[q]);
        lemma_unlisted_segment_keeps_text(sentences.drop_last(), i, orig);
    }
}

proof fn lemma_last_pos_bounds(indices: Seq<usize>, i: int)
    ensures
        -1 <= spec_last_pos(indices, i) < indices.len(),
        spec_last_pos(indices, i) >= 0 ==> indices[spec_last_pos(indices, i)] as int == i,
    decreases indices.len(),
{
    if indices.len() > 0 && indices.last() as int != i {
        assert(forall|p: int| 0 <= p < indices.len() - 1 ==> indices.drop_last()[p] == indices[p]);
        lemma_last_pos_bounds(indices.drop_last(), i);
    }
}

proof fn lemma_last_pos_not_contained(indices: Seq<usize>, i: int)
    requires
        0 <= i,
        !indices.contains(i as usize),
    ensures
        spec_last_pos(indices, i) == -1,
    decreases indices.len(),
{
    if indices.len() > 0 {
        assert(indices[indices.len() - 1] == indices.last());
        assert(indices.last() as int != i);
        assert(forall|p: int| 0 <= p < indices.len() - 1 ==> indices.drop_last()[p] == indices[p]);
        lemma_last_pos_not_contained(indices.drop_last(), i);
    }
}

/// Distributes each translated sentence's words back over the original
/// segment slots it was built from, in order, the last writer winning:
/// every segment ends holding exactly the fold's text for its position
/// (its dealt word share from the last sentence listing it, or its
/// original text), and every segment keeps its timing and confidence
/// fields.
pub fn map_sentences_to_segments(
    sentences: &Vec<Sentence>,
    segments: &mut Vec<TranscriptionSegment>,
)
    ensures
        final(segments)@.len() == old(segments)@.len(),
        forall|i: int|
            0 <= i < final(segments)@.len() ==> {
                let dst = #[trigger] final(segments)@[i];
                let src = old(segments)@[i];
                &&& dst.id == src.id
                &&& dst.start_ms == src.start_ms
                &&& dst.end_ms == src.end_ms
                &&& dst.tokens@ == src.tokens@
                &&& dst.temperature_milli == src.temperature_milli
                &&& dst.avg_logprob_milli == src.avg_logprob_milli
                &&& dst.compression_ratio_milli == src.compression_ratio_milli
                &&& dst.no_speech_prob_milli == src.no_speech_prob_milli
            },
        forall|i: int|
            0 <= i < final(segments)@.len() ==> (#[trigger] final(segments)@[i]).text@
                == spec_mapped_text(sentences@, i, old(segments)@[i].text@),
{
    let n_sentences = sentences.len();
    let mut s: usize = 0;
    proof {
        assert(sentences@.take(0) =~= Seq::<Sentence>::empty());
    }
    while s < n_sentences
        invariant
            0 <= s <= n_sentences == sentences@.len(),
            segments@.len() == old(segments)@.len(),
            forall|i: int|
                0 <= i < segments@.len() ==> {
                    let dst = #[trigger] segments@[i];
                    let src = old(segments)@[i];
                    &&& dst.id == src.id
                    &&& dst.start_ms == src.start_ms
                    &&& dst.end_ms == src.end_ms
                    &&& dst.tokens@ == src.tokens@
                    &&& dst.temperature_milli == src.temperature_milli
                    &&& dst.avg_logprob_milli == src.avg_logprob_milli
                    &&& dst.compression_ratio_milli == src.compression_ratio_milli
                    &&& dst.no_speech_prob_milli == src.no_speech_prob_milli
                },
            forall|i: int|
                0 <= i < segments@.len() ==> (#[trigger] segments@[i]).text@ == spec_mapped_text(
                    sentences@.take(s as int),
                    i,
                    old(segments)@[i].text@,
                ),
        decreases n_sentences - s,
    {
        let sentence = &sentences[s];
        let tv = chars_vec(sentence.text.as_str());
        let word_vecs = crate::translate::nlp::split_words(&tv);
        let ghost wv = spec_split_words(sentences@[s as int].text@);
        let seg_count = sentence.segment_indices.len();
        if seg_count > 0 && word_vecs.len() > 0 {
            let mut words: Vec<String> = Vec::new();
            let mut w: usize = 0;
            proof {
                assert(words@.map_values(|x: String| x@) =~= wv.take(0));
            }
            while w < word_vecs.len()
                invariant
                    0 <= w <= word_vecs@.len(),
                    word_vecs@.map_values(|x: Vec<char>| x@) == wv,
                    words@.map_values(|x: String| x@) == wv.take(w as int),
                decreases word_vecs@.len() - w,
            {
                let ghost wm0 = words@.map_values(|x: String| x@);
                words.push(string_from_chars(&word_vecs[w]));
                w = w + 1;
                proof {
                    assert(words@.map_values(|x: String| x@) =~= wm0.push(wv[w - 1]));
                    assert(wm0.push(wv[w - 1]) =~= wv.take(w as int));
                }
            }
            proof {
                assert(wv.take(wv.len() as int) =~= wv);
            }
            let pieces = distribute_words(&words, seg_count);
            let ghost pv = pieces@.map_values(|x: String| x@);
            let ghost indices = sentences@[s as int].segment_indices@;
            let ghost segs_at_entry = segments@;
            let mut pos: usize = 0;
            let mut rest = pieces;
            proof {
                assert(rest@.map_values(|x: String| x@) =~= pv.skip(0));
                assert(indices.take(0) =~= Seq::<usize>::empty());
            }
            while pos < seg_count
                invariant
                    0 <= pos <= seg_count == sentence.segment_indices@.len(),
                    s < sentences@.len(),
                    sentence == &sentences@[s as int],
                    indices == sentences@[s as int].segment_indices@,
                    wv == spec_split_words(sentences@[s as int].text@),
                    wv.len() > 0,
                    seg_count > 0,
                    rest@.len() == seg_count - pos,
                    rest@.map_values(|x: String| x@) == pv.skip(pos as int),
                    forall|p: int|
                        0 <= p < seg_count ==> (#[trigger] pv[p]) == crate::text::spec_join_space(
                            wv.subrange(
                                spec_chunk_offset(wv.len() as int, seg_count as int, p),
                                spec_chunk_offset(wv.len() as int, seg_count as int, p + 1),
                            ),
                        ),
                    pv.len() == seg_count,
                    segments@.len() == segs_at_entry.len() == old(segments)@.len(),
                    forall|i: int|
                        0 <= i < segments@.len() ==> {
                            let dst = #[trigger] segments@[i];
                            let src = old(segments)@[i];
                            &&& dst.id == src.id
                            &&& dst.start_ms == src.start_ms
                            &&& dst.end_ms == src.end_ms
                            &&& dst.tokens@ == src.tokens@
                            &&& dst.temperature_milli == src.temperature_milli
                            &&& dst.avg_logprob_milli == src.avg_logprob_milli
                            &&& dst.compression_ratio_milli == src.compression_ratio_milli
                            &&& dst.no_speech_prob_milli == src.no_speech_prob_milli
                        },
                    forall|i: int|
                        0 <= i < segments@.len() ==> (#[trigger] segments@[i]).text@ == {
                            let p = spec_last_pos(indices.take(pos as int), i);
                            if p >= 0 {
                                pv[p]
                            } else {
                                segs_at_entry[i].text@
                            }
                        },
                decreases seg_count - pos,
            {
                let seg_idx = sentence.segment_indices[pos];
                let ghost rest0 = rest@.map_values(|x: String| x@);
                proof {
                    assert(rest0[0] == pv.skip(pos as int)[0]);
                    assert(rest0[0] == rest@[0]@);
                }
                let piece = rest.remove(0);
                proof {
                    assert(piece@ == pv.skip(pos as int)[0]);
                    assert(piece@ == pv[pos as int]);
                    assert(rest@.map_values(|x: String| x@) =~= rest0.drop_first());
                    assert(rest0.drop_first() =~= pv.skip(pos + 1));
                    assert(indices.take(pos + 1).drop_last() =~= indices.take(pos as int));
                    assert(indices.take(pos + 1).last() == indices[pos as int]);
                }
                if seg_idx < segments.len() {
                    let old_seg = &segments[seg_idx];
                    let replacement = TranscriptionSegment {
                        id: old_seg.id,
                        start_ms: old_seg.start_ms,
                        end_ms: old_seg.end_ms,
                        text: piece,
                        tokens: copy_tokens_nlp(&old_seg.tokens),
                        temperature_milli: old_seg.temperature_milli,
                        avg_logprob_milli: old_seg.avg_logprob_milli,
                        compression_ratio_milli: old_seg.compression_ratio_milli,
                        no_speech_prob_milli: old_seg.no_speech_prob_milli,
                    };
                    let ghost segs0 = segments@;
                    segments.set(seg_idx, replacement);
                    proof {
                        assert(forall|i: int|
                            0 <= i < segs0.len() && i != seg_idx
                                ==> #[trigger] segments@[i] == segs0[i]);
                        assert(segments@[seg_idx as int].text@ == pv[pos as int]);
                    }
                }
                pos = pos + 1;
                proof {
                    assert forall|i: int|
                        0 <= i < segments@.len() implies (#[trigger] segments@[i]).text@ == {
                        let p = spec_last_pos(indices.take(pos as int), i);
                        if p >= 0 {
                            pv[p]
                        } else {
                            segs_at_entry[i].text@
                        }
                    } by {
                        if indices[pos - 1] as int == i {
                            assert(spec_last_pos(indices.take(pos as int), i) == pos - 1);
                        } else {
                            assert(spec_last_pos(indices.take(pos as int), i) == spec_last_pos(
                                indices.take(pos - 1),
                                i,
                            ));
                        }
                    };
                }
            }
            proof {
                assert(indices.take(seg_count as int) =~= indices);
                assert forall|i: int|
                    0 <= i < segments@.len() implies (#[trigger] segments@[i]).text@
                    == spec_mapped_text(
                    sentences@.take(s + 1),
                    i,
                    old(segments)@[i].text@,
                ) by {
                    assert(sentences@.take(s + 1).drop_last() =~= sentences@.take(s as int));
                    assert(sentences@.take(s + 1).last() == sentences@[s as int]);
                    assert(segs_at_entry[i].text@ == spec_mapped_text(
                        sentences@.take(s as int),
                        i,
                        old(segments)@[i].text@,
                    ));
                    lemma_last_pos_bounds(indices, i);
                    let p = spec_last_pos(indices, i);
                    if p >= 0 {
                        assert(pv[p] == crate::text::spec_join_space(
                            wv.subrange(
                                spec_chunk_offset(wv.len() as int, seg_count as int, p),
                                spec_chunk_offset(wv.len() as int, seg_count as int, p + 1),
                            ),
                        ));
                        assert(spec_sentence_share(sentences@[s as int], i) == Some(pv[p]));
                    } else {
                        assert(spec_sentence_share(sentences@[s as int], i) is None);
                    }
                };
            }
        } else {
            proof {
                assert(word_vecs@.map_values(|x: Vec<char>| x@) == wv);
                assert forall|i: int|
                    0 <= i < segments@.len() implies (#[trigger] segments@[i]).text@
                    == spec_mapped_text(
                    sentences@.take(s + 1),
                    i,
                    old(segments)@[i].text@,
                ) by {
                    assert(sentences@.take(s + 1).drop_last() =~= sentences@.take(s as int));
                    assert(sentences@.take(s + 1).last() == sentences@[s as int]);
                    assert(spec_sentence_share(sentences@[s as int], i) is None);
                };
            }
        }
        s = s + 1;
    }
    proof {
        assert(sentences@.take(n_sentences as int) =~= sentences@);
    }
}

fn copy_tokens_nlp(tokens: &Vec<i32>) -> (r: Vec<i32>)
    ensures
        r@ == tokens@,
{
    let mut out: Vec<i32> = Vec::new();
    let mut i: usize = 0;
    while i < tokens.len()
        invariant
            0 <= i <= tokens@.len(),
            out@ == tokens@.take(i as int),
        decreases tokens@.len() - i,
    {
        out.push(tokens[i]);
        assert(out@ =~= tokens@.take(i + 1 as int));
        i = i + 1;
    }
    assert(tokens@.take(tokens@.len() as int) =~= tokens@);
    out
}


/// The character count of all pieces together.
pub open spec fn spec_sum_lens(pieces: Seq<Seq<char>>) -> int
    decreases pieces.len(),
{
    if pieces.len() == 0 {
        0
    } else {
        spec_sum_lens(pieces.drop_last()) + pieces.last().len()
    }
}

/// The time given to piece `k`: its share of the total duration by
/// character count.
pub open spec fn spec_piece_duration(pieces: Seq<Seq<char>>, k: int, total_dur: int) -> int {
    let total_chars = spec_sum_lens(pieces);
    if total_chars > 0 {
        pieces[k].len() * total_dur / total_chars
    } else {
        total_dur / pieces.len() as int
    }
}

/// The segment indices given to piece `k` of `pieces_len`: an even share
/// of the index list, with any leftover indices falling to the last
/// pieces' truncation rule; a piece past the index list gets the last
/// index again.
pub open spec fn spec_piece_indices(indices: Seq<usize>, pieces_len: int, k: int) -> Seq<usize> {
    let sps = indices.len() as int / pieces_len;
    let lo = k * sps;
    let hi = if (k + 1) * sps <= indices.len() {
        (k + 1) * sps
    } else {
        indices.len() as int
    };
    if lo < indices.len() {
        indices.subrange(lo, hi)
    } else {
        if indices.len() > 0 {
            seq![indices.last()]
        } else {
            seq![0usize]
        }
    }
}

/// Splits a reconstructed run into individual sentences and appends them:
/// a single piece keeps the run's timing and indices; several pieces share
/// the time span proportionally by character count (each piece's end
/// clamped to the run's end, the last piece ending exactly there, each
/// piece starting where the previous ended) and deal the index list out
/// evenly. Every appended sentence has non-empty text, and its indices come
/// from the given list.
pub fn split_and_add_sentences(
    text: &str,
    start_time_ms: u64,
    end_time_ms: u64,
    segment_indices: &Vec<usize>,
    sentences: &mut Vec<Sentence>,
)
    requires
        segment_indices@.len() > 0,
        spec_trim(text@).len() > 0,
    ensures
        final(sentences)@.len() > old(sentences)@.len(),
        forall|i: int|
            0 <= i < old(sentences)@.len() ==> #[trigger] final(sentences)@[i] == old(sentences)@[i],
        forall|i: int, j: int|
            old(sentences)@.len() <= i < final(sentences)@.len() && 0 <= j < final(sentences)@[i].segment_indices@.len() ==> segment_indices@.contains(
                #[trigger] final(sentences)@[i].segment_indices@[j],
            ),
        ({
            let pieces = spec_split_by_sentences(text@);
            if pieces.len() <= 1 {
                &&& final(sentences)@.len() == old(sentences)@.len() + 1
                &&& final(sentences)@.last().text@ == text@
                &&& final(sentences)@.last().start_time_ms == start_time_ms
                &&& final(sentences)@.last().end_time_ms == end_time_ms
                &&& final(sentences)@.last().segment_indices@ == segment_indices@
            } else {
                &&& final(sentences)@.len() == old(sentences)@.len() + pieces.len()
                &&& forall|k: int|
                    0 <= k < pieces.len() ==> {
                        let s = #[trigger] final(sentences)@[old(sentences)@.len() + k];
                        &&& s.text@ == pieces[k]
                        &&& s.segment_indices@ == spec_piece_indices(
                            segment_indices@,
                            pieces.len() as int,
                            k,
                        )
                    }
                &&& final(sentences)@[old(sentences)@.len() as int].start_time_ms
                    == start_time_ms
                &&& final(sentences)@.last().end_time_ms == end_time_ms
                &&& forall|k: int|
                    0 < k < pieces.len() ==> (#[trigger] final(sentences)@[old(sentences)@.len() + k]).start_time_ms == final(sentences)@[old(sentences)@.len() + k
                        - 1].end_time_ms
            }
        }),
{
    let ghost old_len = sentences@.len();
    let individual = split_by_sentences(text);
    let ghost pieces = spec_split_by_sentences(text@);
    proof {
        assert(pieces == individual@.map_values(|s: String| s@));
    }
    let n_pieces = individual.len();
    if n_pieces <= 1 {
        let tvv = chars_vec(text);
        sentences.push(Sentence {
            text: string_from_chars(&tvv),
            start_time_ms,
            end_time_ms,
            segment_indices: copy_indices(segment_indices),
        });
        proof {
            lemma_piece_nonempty_single(text@);
            assert(text@.len() > 0);
            assert(forall|j: int|
                0 <= j < segment_indices@.len() ==> segment_indices@.contains(
                    #[trigger] segment_indices@[j],
                ));
        }
        return;
    }
    // Character total over all pieces, for the proportional timing.
    let mut total_chars: u128 = 0;
    let mut t: usize = 0;
    while t < n_pieces
        invariant
            0 <= t <= n_pieces == individual@.len(),
            pieces == individual@.map_values(|s: String| s@),
            total_chars == spec_sum_lens(pieces.take(t as int)),
            total_chars <= t * 0x1_0000_0000_0000_0000,
        decreases n_pieces - t,
    {
        let ghost pre = pieces.take(t + 1);
        proof {
            assert(pre.drop_last() =~= pieces.take(t as int));
            assert(pre.last() == pieces[t as int]);
            assert((t + 1) * 0x1_0000_0000_0000_0000int == t * 0x1_0000_0000_0000_0000
                + 0x1_0000_0000_0000_0000) by (nonlinear_arith);
        }
        let piece_chars = chars_vec(individual[t].as_str());
        total_chars = total_chars + (piece_chars.len() as u128);
        t = t + 1;
    }
    proof {
        assert(pieces.take(n_pieces as int) =~= pieces);
    }
    let total_duration: u64 = if end_time_ms >= start_time_ms {
        end_time_ms - start_time_ms
    } else {
        0
    };
    let sps = segment_indices.len() / n_pieces;
    let mut current_start: u64 = start_time_ms;
    let mut idx: usize = 0;
    while idx < n_pieces
        invariant
            0 <= idx <= n_pieces == individual@.len(),
            n_pieces > 1,
            pieces == individual@.map_values(|s: String| s@),
            total_chars == spec_sum_lens(pieces),
            sps == segment_indices@.len() as int / n_pieces as int,
            segment_indices@.len() > 0,
            sentences@.len() == old_len + idx,
            forall|i: int| 0 <= i < old_len ==> #[trigger] sentences@[i] == old(sentences)@[i],
            forall|i: int, j: int|
                old_len <= i < sentences@.len() && 0 <= j < sentences@[i].segment_indices@.len()
                    ==> segment_indices@.contains(
                    #[trigger] sentences@[i].segment_indices@[j],
                ),
            forall|k: int|
                0 <= k < idx ==> {
                    let s = #[trigger] sentences@[old_len + k];
                    &&& s.text@ == pieces[k]
                    &&& s.segment_indices@ == spec_piece_indices(
                        segment_indices@,
                        n_pieces as int,
                        k,
                    )
                },
            idx > 0 ==> sentences@[old_len as int].start_time_ms == start_time_ms,
            idx > 0 ==> sentences@.last().end_time_ms == current_start,
            idx == n_pieces ==> sentences@.last().end_time_ms == end_time_ms,
            idx == 0 ==> current_start == start_time_ms,
            forall|k: int|
                0 < k < idx ==> (#[trigger] sentences@[old_len + k]).start_time_ms
                    == sentences@[old_len + k - 1].end_time_ms,
        decreases n_pieces - idx,
    {
        let piece_chars = chars_vec(individual[idx].as_str());
        let piece_len = piece_chars.len();
        proof {
            let lg = piece_len as int;
            assert(lg == piece_chars@.len());
            let dg = total_duration as int;
            let tg = total_chars as int;
            assert(lg * dg < 340282366920938463463374607431768211456) by (nonlinear_arith)
                requires
                    0 <= lg < 18446744073709551616,
                    0 <= dg < 18446744073709551616,
            ;
            assert(pieces.len() == individual@.len());
            assert(pieces[idx as int] == individual@[idx as int]@);
            assert(lg == pieces[idx as int].len());
            lemma_sum_lens_ge(pieces, idx as int);
            assert(lg <= tg);
            if tg > 0 {
                assert(lg * dg <= tg * dg) by (nonlinear_arith)
                    requires lg <= tg && dg >= 0;
                vstd::arithmetic::div_mod::lemma_div_is_ordered(lg * dg, tg * dg, tg);
                assert(tg * dg / tg == dg) by {
                    vstd::arithmetic::div_mod::lemma_div_multiples_vanish(dg, tg);
                };
            } else {
                vstd::arithmetic::div_mod::lemma_div_nonincreasing(dg, n_pieces as int);
                vstd::arithmetic::div_mod::lemma_div_pos_is_pos(dg, n_pieces as int);
            }
        }
        let sentence_duration_u: u128 = if total_chars > 0 {
            (piece_chars.len() as u128) * (total_duration as u128) / total_chars
        } else {
            (total_duration as u128) / (n_pieces as u128)
        };
        proof {
            assert(sentence_duration_u <= total_duration);
        }
        let sentence_end: u64 = if idx == n_pieces - 1 {
            end_time_ms
        } else {
            let e: u128 = (current_start as u128) + sentence_duration_u;
            if e > (end_time_ms as u128) {
                end_time_ms
            } else {
                e as u64
            }
        };
        // Deal this piece its share of the index list.
        let len_idx = segment_indices.len();
        proof {
            let ig = idx as int;
            let sg = sps as int;
            let ng = n_pieces as int;
            let lg = segment_indices@.len() as int;
            assert(ig * sg <= (ng - 1) * sg) by (nonlinear_arith)
                requires 0 <= ig <= ng - 1 && sg >= 0;
            assert((ng - 1) * sg + sg == ng * sg) by (nonlinear_arith);
            vstd::arithmetic::div_mod::lemma_fundamental_div_mod(lg, ng);
            vstd::arithmetic::div_mod::lemma_mod_bound(lg, ng);
            assert(ng * sg <= lg);
            assert((ig + 1) * sg == ig * sg + sg) by (nonlinear_arith);
        }
        let lo = idx * sps;
        let piece_indices: Vec<usize> = if lo < len_idx {
            let hi = if lo + sps <= len_idx {
                lo + sps
            } else {
                len_idx
            };
            let mut slice: Vec<usize> = Vec::new();
            let mut w: usize = lo;
            while w < hi
                invariant
                    lo <= w <= hi <= segment_indices@.len(),
                    slice@ == segment_indices@.subrange(lo as int, w as int),
                decreases hi - w,
            {
                slice.push(segment_indices[w]);
                assert(slice@ =~= segment_indices@.subrange(lo as int, w + 1 as int));
                w = w + 1;
            }
            slice
        } else {
            let mut one: Vec<usize> = Vec::new();
            one.push(segment_indices[len_idx - 1]);
            proof {
                assert(one@ =~= seq![segment_indices@.last()]);
            }
            one
        };
        proof {
            assert(piece_indices@ == spec_piece_indices(
                segment_indices@,
                n_pieces as int,
                idx as int,
            ));
            assert(forall|j: int|
                0 <= j < piece_indices@.len() ==> segment_indices@.contains(
                    #[trigger] piece_indices@[j],
                )) by {
                assert forall|j: int|
                    0 <= j < piece_indices@.len() implies segment_indices@.contains(
                    #[trigger] piece_indices@[j],
                ) by {
                    if (idx as int) * (sps as int) < segment_indices@.len() {
                        assert(piece_indices@[j]
                            == segment_indices@[(idx as int) * (sps as int) + j]);
                    } else {
                        assert(piece_indices@[j]
                            == segment_indices@[segment_indices@.len() - 1]);
                    }
                };
            };
        }
        let piece_text = chars_vec(individual[idx].as_str());
        sentences.push(Sentence {
            text: string_from_chars(&piece_text),
            start_time_ms: current_start,
            end_time_ms: sentence_end,
            segment_indices: piece_indices,
        });
        current_start = sentence_end;
        idx = idx + 1;
    }
}

proof fn lemma_piece_nonempty_single(t: Seq<char>)
    requires
        spec_trim(t).len() > 0,
    ensures
        t.len() > 0,
{
    lemma_trim_len(t);
}

proof fn lemma_trim_len(t: Seq<char>)
    ensures
        spec_trim(t).len() <= t.len(),
{
    lemma_trim_front_len(t);
    lemma_trim_back_len(spec_trim_front(t));
}

proof fn lemma_trim_front_len(t: Seq<char>)
    ensures
        spec_trim_front(t).len() <= t.len(),
    decreases t.len(),
{
    if t.len() > 0 && is_space_char(t[0]) {
        lemma_trim_front_len(t.drop_first());
    }
}

proof fn lemma_trim_back_len(t: Seq<char>)
    ensures
        crate::text::spec_trim_back(t).len() <= t.len(),
    decreases t.len(),
{
    if t.len() > 0 && is_space_char(t.last()) {
        lemma_trim_back_len(t.drop_last());
    }
}

fn copy_indices(v: &Vec<usize>) -> (r: Vec<usize>)
    ensures
        r@ == v@,
{
    let mut out: Vec<usize> = Vec::new();
    let mut i: usize = 0;
    while i < v.len()
        invariant
            0 <= i <= v@.len(),
            out@ == v@.take(i as int),
        decreases v@.len() - i,
    {
        out.push(v[i]);
        assert(out@ =~= v@.take(i + 1 as int));
        i = i + 1;
    }
    assert(v@.take(v@.len() as int) =~= v@);
    out
}


/// One piece's length never exceeds the total over all pieces.
proof fn lemma_sum_lens_ge(pieces: Seq<Seq<char>>, k: int)
    requires
        0 <= k < pieces.len(),
    ensures
        pieces[k].len() <= spec_sum_lens(pieces),
    decreases pieces.len(),
{
    lemma_sum_lens_nonneg(pieces.drop_last());
    if k == pieces.len() - 1 {
        assert(pieces.last() == pieces[k]);
    } else {
        assert(pieces.drop_last()[k] == pieces[k]);
        lemma_sum_lens_ge(pieces.drop_last(), k);
    }
}

proof fn lemma_sum_lens_nonneg(pieces: Seq<Seq<char>>)
    ensures
        spec_sum_lens(pieces) >= 0,
    decreases pieces.len(),
{
    if pieces.len() > 0 {
        lemma_sum_lens_nonneg(pieces.drop_last());
    }
}


/// The grouping model: one run of consecutive contributing segments, as
/// the sentence builder flushes it.
pub ghost struct RunModel {
    pub text: Seq<char>,
    pub start_ms: u64,
    pub end_ms: u64,
    pub indices: Seq<usize>,
}

/// Segment `j` opens after a silence longer than the threshold.
pub open spec fn spec_gap_exceeds(
    segs: Seq<TranscriptionSegment>,
    j: int,
    threshold_ms: u64,
) -> bool {
    &&& 0 < j < segs.len()
    &&& segs[j].start_ms > segs[j - 1].end_ms
    &&& segs[j].start_ms - segs[j - 1].end_ms > threshold_ms
}

/// The run under construction closed at the end of its last contributing
/// segment.
pub open spec fn spec_close_run(
    segs: Seq<TranscriptionSegment>,
    cur_text: Seq<char>,
    cur_start: u64,
    cur_indices: Seq<usize>,
) -> RunModel {
    RunModel {
        text: cur_text,
        start_ms: cur_start,
        end_ms: segs[cur_indices.last() as int].end_ms,
        indices: cur_indices,
    }
}

/// The runs the grouping produces from segment `i` on, with a run under
/// construction: empty segments are passed over, a timing gap beyond the
/// threshold closes the run, and appending is left to
/// `spec_runs_append`.
pub open spec fn spec_runs_from(
    segs: Seq<TranscriptionSegment>,
    i: int,
    cur_text: Seq<char>,
    cur_start: u64,
    cur_indices: Seq<usize>,
    threshold_ms: u64,
) -> Seq<RunModel>
    decreases segs.len() - i, 1int,
{
    if i < 0 || i >= segs.len() {
        if cur_text.len() > 0 && cur_indices.len() > 0 {
            seq![spec_close_run(segs, cur_text, cur_start, cur_indices)]
        } else {
            Seq::empty()
        }
    } else if spec_trim(segs[i].text@).len() == 0 {
        spec_runs_from(segs, i + 1, cur_text, cur_start, cur_indices, threshold_ms)
    } else if cur_text.len() > 0 && cur_indices.len() > 0 && spec_gap_exceeds(
        segs,
        i,
        threshold_ms,
    ) {
        seq![spec_close_run(segs, cur_text, cur_start, cur_indices)] + spec_runs_append(
            segs,
            i,
            Seq::empty(),
            0,
            Seq::empty(),
            threshold_ms,
        )
    } else {
        spec_runs_append(segs, i, cur_text, cur_start, cur_indices, threshold_ms)
    }
}

/// Appends segment `i`'s trimmed text to the run under construction and
/// closes the run at once when it grows past 800 characters, or past 200
/// with a strong sentence ending.
pub open spec fn spec_runs_append(
    segs: Seq<TranscriptionSegment>,
    i: int,
    cur_text: Seq<char>,
    cur_start: u64,
    cur_indices: Seq<usize>,
    threshold_ms: u64,
) -> Seq<RunModel>
    decreases segs.len() - i, 0int,
{
    if i < 0 || i >= segs.len() {
        Seq::empty()
    } else {
        let t = spec_trim(segs[i].text@);
        let start2 = if cur_text.len() == 0 {
            segs[i].start_ms
        } else {
            cur_start
        };
        let text2 = if cur_text.len() == 0 {
            t
        } else {
            cur_text + seq![' '] + t
        };
        let indices2 = cur_indices.push(i as usize);
        if text2.len() > 800 || (text2.len() > 200 && spec_strong_ending(text2)) {
            seq![RunModel { text: text2, start_ms: start2, end_ms: segs[i].end_ms, indices: indices2 }]
                + spec_runs_from(segs, i + 1, Seq::empty(), 0, Seq::empty(), threshold_ms)
        } else {
            spec_runs_from(segs, i + 1, text2, start2, indices2, threshold_ms)
        }
    }
}

/// The runs the sentence builder groups a transcript into.
pub open spec fn spec_runs(segs: Seq<TranscriptionSegment>, threshold_ms: u64) -> Seq<RunModel> {
    spec_runs_from(segs, 0, Seq::empty(), 0, Seq::empty(), threshold_ms)
}

/// A well-formed run of the grouping model: at least one contributing
/// segment, positions strictly increasing and in range, every contributor
/// with non-empty trimmed text, and the run's text exactly the space-join
/// of its contributors' trimmed texts, in document order.
pub open spec fn run_wf(segs: Seq<TranscriptionSegment>, r: RunModel) -> bool {
    &&& r.indices.len() > 0
    &&& forall|p: int, q: int|
        0 <= p < q < r.indices.len() ==> (#[trigger] r.indices[p]) < (#[trigger] r.indices[q])
    &&& forall|p: int| 0 <= p < r.indices.len() ==> (#[trigger] r.indices[p]) < segs.len()
    &&& forall|p: int|
        0 <= p < r.indices.len() ==> spec_trim(
            segs[(#[trigger] r.indices[p]) as int].text@,
        ).len() > 0
    &&& r.text == crate::text::spec_join_space(
        r.indices.map_values(|x: usize| spec_trim(segs[x as int].text@)),
    )
    &&& spec_trim(r.text).len() > 0
}

/// The grouping state is coherent: the run under construction mirrors its
/// contributors.
spec fn grouping_state_ok(
    segs: Seq<TranscriptionSegment>,
    i: int,
    cur_text: Seq<char>,
    cur_indices: Seq<usize>,
) -> bool {
    &&& segs.len() <= usize::MAX
    &&& 0 <= i <= segs.len()
    &&& (cur_text.len() > 0 <==> cur_indices.len() > 0)
    &&& forall|p: int, q: int|
        0 <= p < q < cur_indices.len() ==> (#[trigger] cur_indices[p]) < (#[trigger] cur_indices[q])
    &&& forall|p: int| 0 <= p < cur_indices.len() ==> (#[trigger] cur_indices[p]) < i
    &&& forall|p: int|
        0 <= p < cur_indices.len() ==> spec_trim(
            segs[(#[trigger] cur_indices[p]) as int].text@,
        ).len() > 0
    &&& cur_text == crate::text::spec_join_space(
        cur_indices.map_values(|x: usize| spec_trim(segs[x as int].text@)),
    )
    &&& cur_text.len() > 0 ==> !is_space_char(cur_text[0])
}

proof fn lemma_empty_state_ok(segs: Seq<TranscriptionSegment>, i: int)
    requires
        segs.len() <= usize::MAX,
        0 <= i <= segs.len(),
    ensures
        grouping_state_ok(segs, i, Seq::empty(), Seq::empty()),
{
    assert(Seq::<usize>::empty().map_values(|x: usize| spec_trim(segs[x as int].text@))
        =~= Seq::<Seq<char>>::empty());
}

proof fn lemma_runs_from_wf(
    segs: Seq<TranscriptionSegment>,
    i: int,
    cur_text: Seq<char>,
    cur_start: u64,
    cur_indices: Seq<usize>,
    thr: u64,
)
    requires
        grouping_state_ok(segs, i, cur_text, cur_indices),
    ensures
        ({
            let r = spec_runs_from(segs, i, cur_text, cur_start, cur_indices, thr);
            &&& forall|k: int| 0 <= k < r.len() ==> run_wf(segs, #[trigger] r[k])
            &&& forall|k: int, p: int|
                0 <= k < r.len() && 0 <= p < r[k].indices.len() ==> (cur_indices.contains(
                    #[trigger] r[k].indices[p],
                ) || r[k].indices[p] >= i)
            &&& forall|k1: int, k2: int|
                0 <= k1 < k2 < r.len() ==> (#[trigger] r[k1]).indices.last()
                    < (#[trigger] r[k2]).indices[0]
        }),
    decreases segs.len() - i, 1int,
{
    let r = spec_runs_from(segs, i, cur_text, cur_start, cur_indices, thr);
    assert(forall|p: int|
        0 <= p < cur_indices.len() ==> cur_indices.contains(#[trigger] cur_indices[p]));
    if i < 0 || i >= segs.len() {
        if cur_text.len() > 0 && cur_indices.len() > 0 {
            lemma_trim_keeps_nonspace_head(cur_text);
            assert(r[0].indices == cur_indices);
            assert(run_wf(segs, r[0]));
        }
    } else if spec_trim(segs[i].text@).len() == 0 {
        lemma_runs_from_wf(segs, i + 1, cur_text, cur_start, cur_indices, thr);
        assert(r == spec_runs_from(segs, i + 1, cur_text, cur_start, cur_indices, thr));
        assert forall|k: int| 0 <= k < r.len() implies run_wf(segs, #[trigger] r[k]) by {}
        assert forall|k: int, p: int|
            0 <= k < r.len() && 0 <= p < r[k].indices.len() implies (cur_indices.contains(
            #[trigger] r[k].indices[p],
        ) || r[k].indices[p] >= i) by {}
    } else if cur_text.len() > 0 && cur_indices.len() > 0 && spec_gap_exceeds(segs, i, thr) {
        lemma_trim_keeps_nonspace_head(cur_text);
        assert(r[0].indices == cur_indices);
        assert(run_wf(segs, r[0]));
        lemma_empty_state_ok(segs, i);
        lemma_runs_append_wf(segs, i, Seq::empty(), 0, Seq::empty(), thr);
        let rest = spec_runs_append(segs, i, Seq::<char>::empty(), 0, Seq::<usize>::empty(), thr);
        assert(forall|k: int| 0 <= k < rest.len() ==> r[k + 1] == rest[k]);
        assert forall|k: int| 0 <= k < r.len() implies run_wf(segs, #[trigger] r[k]) by {
            if k > 0 {
                assert(r[k] == rest[k - 1]);
            }
        };
        assert forall|k: int, p: int|
            0 <= k < r.len() && 0 <= p < r[k].indices.len() implies (cur_indices.contains(
            #[trigger] r[k].indices[p],
        ) || r[k].indices[p] >= i) by {
            if k == 0 {
                assert(cur_indices.contains(cur_indices[p]));
            } else {
                assert(r[k] == rest[k - 1]);
                assert(Seq::<usize>::empty().contains(r[k].indices[p]) || r[k].indices[p] >= i);
            }
        };
        assert forall|k1: int, k2: int|
            0 <= k1 < k2 < r.len() implies (#[trigger] r[k1]).indices.last()
            < (#[trigger] r[k2]).indices[0] by {
            if k1 == 0 {
                assert(r[k2] == rest[k2 - 1]);
                assert(rest[k2 - 1].indices[0] >= i);
                assert(cur_indices.contains(r[0].indices.last())) by {
                    assert(r[0].indices[r[0].indices.len() - 1] == r[0].indices.last());
                };
                assert(r[0].indices.last() < i);
            } else {
                assert(r[k1] == rest[k1 - 1] && r[k2] == rest[k2 - 1]);
            }
        };
    } else {
        lemma_runs_append_wf(segs, i, cur_text, cur_start, cur_indices, thr);
        assert(r == spec_runs_append(segs, i, cur_text, cur_start, cur_indices, thr));
        assert forall|k: int| 0 <= k < r.len() implies run_wf(segs, #[trigger] r[k]) by {}
    }
}

proof fn lemma_runs_append_wf(
    segs: Seq<TranscriptionSegment>,
    i: int,
    cur_text: Seq<char>,
    cur_start: u64,
    cur_indices: Seq<usize>,
    thr: u64,
)
    requires
        grouping_state_ok(segs, i, cur_text, cur_indices),
        0 <= i < segs.len() ==> spec_trim(segs[i].text@).len() > 0,
    ensures
        ({
            let r = spec_runs_append(segs, i, cur_text, cur_start, cur_indices, thr);
            &&& forall|k: int| 0 <= k < r.len() ==> run_wf(segs, #[trigger] r[k])
            &&& forall|k: int, p: int|
                0 <= k < r.len() && 0 <= p < r[k].indices.len() ==> (cur_indices.contains(
                    #[trigger] r[k].indices[p],
                ) || r[k].indices[p] >= i)
            &&& forall|k1: int, k2: int|
                0 <= k1 < k2 < r.len() ==> (#[trigger] r[k1]).indices.last()
                    < (#[trigger] r[k2]).indices[0]
        }),
    decreases segs.len() - i, 0int,
{
    if 0 <= i && i < segs.len() {
        let r = spec_runs_append(segs, i, cur_text, cur_start, cur_indices, thr);
        let t = spec_trim(segs[i].text@);
        let start2 = if cur_text.len() == 0 { segs[i].start_ms } else { cur_start };
        let text2 = if cur_text.len() == 0 { t } else { cur_text + seq![' '] + t };
        let indices2 = cur_indices.push(i as usize);
        // The extended state is coherent.
        let m2 = indices2.map_values(|x: usize| spec_trim(segs[x as int].text@));
        assert((i as usize) as int == i);
        assert(indices2.len() == cur_indices.len() + 1);
        assert(indices2[indices2.len() - 1] == i as usize);
        assert(m2.len() == indices2.len());
        assert(m2.drop_last() =~= cur_indices.map_values(|x: usize| spec_trim(segs[x as int].text@)));
        assert(m2[m2.len() - 1] == spec_trim(segs[indices2[indices2.len() - 1] as int].text@));
        assert(m2.last() == t);
        assert(text2 =~= crate::text::spec_join_space(m2)) by {
            if cur_indices.len() == 0 {
                assert(m2.len() == 1);
                assert(crate::text::spec_join_space(m2) == m2[0]);
                assert(m2[0] == t);
            } else {
                assert(m2.len() >= 2);
                assert(crate::text::spec_join_space(m2) == crate::text::spec_join_space(
                    m2.drop_last(),
                ) + seq![' '] + t);
            }
        };
        assert(text2.len() > 0 ==> !is_space_char(text2[0])) by {
            crate::text::lemma_trim_head(segs[i].text@);
            if cur_text.len() == 0 {
                assert(text2[0] == t[0]);
            } else {
                assert(text2[0] == cur_text[0]);
            }
        };
        assert(forall|p: int, q: int|
            0 <= p < q < indices2.len() ==> (#[trigger] indices2[p]) < (#[trigger] indices2[q]))
            by {
            assert(forall|p: int| 0 <= p < cur_indices.len() ==> indices2[p] == cur_indices[p]);
            assert(indices2[indices2.len() - 1] == i as usize);
        };
        assert(grouping_state_ok(segs, i + 1, text2, indices2));
        assert(forall|p: int|
            0 <= p < indices2.len() ==> indices2.contains(#[trigger] indices2[p]));
        if text2.len() > 800 || (text2.len() > 200 && spec_strong_ending(text2)) {
            lemma_trim_keeps_nonspace_head(text2);
            assert(r[0].indices == indices2);
            assert(run_wf(segs, r[0]));
            lemma_empty_state_ok(segs, i + 1);
            lemma_runs_from_wf(segs, i + 1, Seq::empty(), 0, Seq::empty(), thr);
            let rest = spec_runs_from(segs, i + 1, Seq::<char>::empty(), 0, Seq::<usize>::empty(), thr);
            assert(forall|k: int| 0 <= k < rest.len() ==> r[k + 1] == rest[k]);
            assert forall|k: int| 0 <= k < r.len() implies run_wf(segs, #[trigger] r[k]) by {
                if k > 0 {
                    assert(r[k] == rest[k - 1]);
                }
            };
            assert forall|k: int, p: int|
                0 <= k < r.len() && 0 <= p < r[k].indices.len() implies (cur_indices.contains(
                #[trigger] r[k].indices[p],
            ) || r[k].indices[p] >= i) by {
                if k == 0 {
                    if p < cur_indices.len() {
                        assert(indices2[p] == cur_indices[p]);
                        assert(cur_indices.contains(cur_indices[p]));
                    } else {
                        assert(r[0].indices[p] == i as usize);
                    }
                } else {
                    assert(r[k] == rest[k - 1]);
                    assert(Seq::<usize>::empty().contains(r[k].indices[p]) || r[k].indices[p]
                        >= i + 1);
                }
            };
            assert forall|k1: int, k2: int|
                0 <= k1 < k2 < r.len() implies (#[trigger] r[k1]).indices.last()
                < (#[trigger] r[k2]).indices[0] by {
                if k1 == 0 {
                    assert(r[k2] == rest[k2 - 1]);
                    assert(rest[k2 - 1].indices[0] >= i + 1);
                    assert(r[0].indices[r[0].indices.len() - 1] == r[0].indices.last());
                    assert(r[0].indices.last() == i as usize);
                } else {
                    assert(r[k1] == rest[k1 - 1] && r[k2] == rest[k2 - 1]);
                }
            };
        } else {
            lemma_runs_from_wf(segs, i + 1, text2, start2, indices2, thr);
            assert(r == spec_runs_from(segs, i + 1, text2, start2, indices2, thr));
            assert forall|k: int| 0 <= k < r.len() implies run_wf(segs, #[trigger] r[k]) by {}
            assert forall|k: int, p: int|
                0 <= k < r.len() && 0 <= p < r[k].indices.len() implies (cur_indices.contains(
                #[trigger] r[k].indices[p],
            ) || r[k].indices[p] >= i) by {
                assert(indices2.contains(r[k].indices[p]) || r[k].indices[p] >= i + 1);
                if indices2.contains(r[k].indices[p]) {
                    let q = choose|q: int|
                        0 <= q < indices2.len() && indices2[q] == r[k].indices[p];
                    if q < cur_indices.len() {
                        assert(cur_indices[q] == r[k].indices[p]);
                        assert(cur_indices.contains(r[k].indices[p]));
                    } else {
                        assert(r[k].indices[p] == i as usize);
                    }
                }
            };
        }
    }
}

/// Every run the grouping model produces is well formed — its text is
/// exactly the space-join of its contributors' trimmed texts, its positions
/// strictly increase — and the runs stay in document order: every position
/// of an earlier run lies before every position of a later one.
pub proof fn lemma_runs_wf(segs: Seq<TranscriptionSegment>, threshold_ms: u64)
    requires
        segs.len() <= usize::MAX,
    ensures
        forall|k: int|
            0 <= k < spec_runs(segs, threshold_ms).len() ==> run_wf(
                segs,
                #[trigger] spec_runs(segs, threshold_ms)[k],
            ),
        forall|k1: int, k2: int|
            0 <= k1 < k2 < spec_runs(segs, threshold_ms).len()
                ==> (#[trigger] spec_runs(segs, threshold_ms)[k1]).indices.last()
                < (#[trigger] spec_runs(segs, threshold_ms)[k2]).indices[0],
{
    lemma_empty_state_ok(segs, 0);
    lemma_runs_from_wf(segs, 0, Seq::empty(), 0, Seq::empty(), threshold_ms);
}

/// How many positions of `indices` hold segment `x`.
pub open spec fn spec_count_in(indices: Seq<usize>, x: int) -> int
    decreases indices.len(),
{
    if indices.len() == 0 {
        0
    } else {
        spec_count_in(indices.drop_last(), x) + if indices.last() as int == x {
            1int
        } else {
            0int
        }
    }
}

/// How many positions over all runs hold segment `x`.
pub open spec fn spec_runs_count(runs: Seq<RunModel>, x: int) -> int
    decreases runs.len(),
{
    if runs.len() == 0 {
        0
    } else {
        spec_runs_count(runs.drop_last(), x) + spec_count_in(runs.last().indices, x)
    }
}

proof fn lemma_runs_from_count(
    segs: Seq<TranscriptionSegment>,
    i: int,
    cur_text: Seq<char>,
    cur_start: u64,
    cur_indices: Seq<usize>,
    thr: u64,
    x: int,
)
    requires
        segs.len() <= usize::MAX,
        0 <= i <= segs.len(),
        cur_text.len() > 0 <==> cur_indices.len() > 0,
        0 <= x < segs.len(),
    ensures
        spec_runs_count(spec_runs_from(segs, i, cur_text, cur_start, cur_indices, thr), x)
            == spec_count_in(cur_indices, x) + if i <= x && spec_trim(segs[x].text@).len() > 0 {
            1int
        } else {
            0int
        },
    decreases segs.len() - i, 1int,
{
    let r = spec_runs_from(segs, i, cur_text, cur_start, cur_indices, thr);
    if i >= segs.len() {
        if cur_text.len() > 0 && cur_indices.len() > 0 {
            assert(r.len() == 1);
            assert(r.last() == spec_close_run(segs, cur_text, cur_start, cur_indices));
            assert(r.drop_last() =~= Seq::<RunModel>::empty());
            assert(spec_runs_count(Seq::<RunModel>::empty(), x) == 0);
        }
    } else if spec_trim(segs[i].text@).len() == 0 {
        lemma_runs_from_count(segs, i + 1, cur_text, cur_start, cur_indices, thr, x);
    } else if cur_text.len() > 0 && cur_indices.len() > 0 && spec_gap_exceeds(segs, i, thr) {
        lemma_runs_append_count(segs, i, Seq::empty(), 0, Seq::empty(), thr, x);
        let closed = spec_close_run(segs, cur_text, cur_start, cur_indices);
        let rest = spec_runs_append(segs, i, Seq::<char>::empty(), 0, Seq::<usize>::empty(), thr);
        lemma_runs_count_concat(seq![closed], rest, x);
        assert(spec_runs_count(seq![closed], x) == spec_count_in(cur_indices, x)) by {
            assert(seq![closed].len() == 1);
            assert(seq![closed].last() == closed);
            assert(seq![closed].drop_last() =~= Seq::<RunModel>::empty());
            assert(spec_runs_count(Seq::<RunModel>::empty(), x) == 0);
        };
    } else {
        lemma_runs_append_count(segs, i, cur_text, cur_start, cur_indices, thr, x);
    }
}

proof fn lemma_runs_append_count(
    segs: Seq<TranscriptionSegment>,
    i: int,
    cur_text: Seq<char>,
    cur_start: u64,
    cur_indices: Seq<usize>,
    thr: u64,
    x: int,
)
    requires
        segs.len() <= usize::MAX,
        0 <= i < segs.len(),
        spec_trim(segs[i].text@).len() > 0,
        0 <= x < segs.len(),
    ensures
        spec_runs_count(spec_runs_append(segs, i, cur_text, cur_start, cur_indices, thr), x)
            == spec_count_in(cur_indices, x) + if i <= x && spec_trim(segs[x].text@).len() > 0 {
            1int
        } else {
            0int
        },
    decreases segs.len() - i, 0int,
{
    let t = spec_trim(segs[i].text@);
    let start2 = if cur_text.len() == 0 { segs[i].start_ms } else { cur_start };
    let text2 = if cur_text.len() == 0 { t } else { cur_text + seq![' '] + t };
    let indices2 = cur_indices.push(i as usize);
    assert(indices2.drop_last() =~= cur_indices);
    assert(indices2.last() == i as usize);
    assert(spec_count_in(indices2, x) == spec_count_in(cur_indices, x) + if i == x {
        1int
    } else {
        0int
    });
    assert(text2.len() > 0);
    assert(indices2.len() > 0);
    if text2.len() > 800 || (text2.len() > 200 && spec_strong_ending(text2)) {
        let emitted = RunModel { text: text2, start_ms: start2, end_ms: segs[i].end_ms, indices: indices2 };
        let rest = spec_runs_from(segs, i + 1, Seq::<char>::empty(), 0, Seq::<usize>::empty(), thr);
        lemma_runs_from_count(segs, i + 1, Seq::empty(), 0, Seq::empty(), thr, x);
        lemma_runs_count_concat(seq![emitted], rest, x);
        assert(spec_runs_count(seq![emitted], x) == spec_count_in(indices2, x)) by {
            assert(seq![emitted].len() == 1);
            assert(seq![emitted].last() == emitted);
            assert(seq![emitted].drop_last() =~= Seq::<RunModel>::empty());
            assert(spec_runs_count(Seq::<RunModel>::empty(), x) == 0);
        };
    } else {
        lemma_runs_from_count(segs, i + 1, text2, start2, indices2, thr, x);
    }
}

proof fn lemma_runs_count_concat(a: Seq<RunModel>, b: Seq<RunModel>, x: int)
    ensures
        spec_runs_count(a + b, x) == spec_runs_count(a, x) + spec_runs_count(b, x),
    decreases b.len(),
{
    if b.len() == 0 {
        assert(a + b =~= a);
    } else {
        assert((a + b).drop_last() =~= a + b.drop_last());
        assert((a + b).last() == b.last());
        lemma_runs_count_concat(a, b.drop_last(), x);
    }
}

/// Every segment with non-empty trimmed text contributes to exactly one
/// position of exactly one run, and a segment with empty trimmed text to
/// none.
pub proof fn lemma_runs_partition(segs: Seq<TranscriptionSegment>, threshold_ms: u64, x: int)
    requires
        segs.len() <= usize::MAX,
        0 <= x < segs.len(),
    ensures
        spec_runs_count(spec_runs(segs, threshold_ms), x) == if spec_trim(
            segs[x].text@,
        ).len() > 0 {
            1int
        } else {
            0int
        },
{
    lemma_runs_from_count(segs, 0, Seq::empty(), 0, Seq::empty(), threshold_ms, x);
}

proof fn lemma_runs_from_gap(
    segs: Seq<TranscriptionSegment>,
    i: int,
    cur_text: Seq<char>,
    cur_start: u64,
    cur_indices: Seq<usize>,
    thr: u64,
)
    requires
        segs.len() <= usize::MAX,
        0 <= i <= segs.len(),
        cur_text.len() > 0 <==> cur_indices.len() > 0,
        forall|p: int|
            0 < p < cur_indices.len() ==> !spec_gap_exceeds(
                segs,
                (#[trigger] cur_indices[p]) as int,
                thr,
            ),
    ensures
        forall|k: int, p: int|
            0 <= k < spec_runs_from(segs, i, cur_text, cur_start, cur_indices, thr).len() && 0 < p
                < spec_runs_from(segs, i, cur_text, cur_start, cur_indices, thr)[k].indices.len()
                ==> !spec_gap_exceeds(
                segs,
                (#[trigger] spec_runs_from(
                    segs,
                    i,
                    cur_text,
                    cur_start,
                    cur_indices,
                    thr,
                )[k].indices[p]) as int,
                thr,
            ),
    decreases segs.len() - i, 1int,
{
    let r = spec_runs_from(segs, i, cur_text, cur_start, cur_indices, thr);
    if i >= segs.len() {
        if cur_text.len() > 0 && cur_indices.len() > 0 {
            assert(r[0].indices == cur_indices);
            assert forall|k: int, p: int|
                0 <= k < r.len() && 0 < p < r[k].indices.len() implies !spec_gap_exceeds(
                segs,
                (#[trigger] r[k].indices[p]) as int,
                thr,
            ) by {
                assert(r[k].indices == cur_indices);
            };
        }
    } else if spec_trim(segs[i].text@).len() == 0 {
        lemma_runs_from_gap(segs, i + 1, cur_text, cur_start, cur_indices, thr);
        assert(r == spec_runs_from(segs, i + 1, cur_text, cur_start, cur_indices, thr));
        assert forall|k: int, p: int|
            0 <= k < r.len() && 0 < p < r[k].indices.len() implies !spec_gap_exceeds(
            segs,
            (#[trigger] r[k].indices[p]) as int,
            thr,
        ) by {}
    } else if cur_text.len() > 0 && cur_indices.len() > 0 && spec_gap_exceeds(segs, i, thr) {
        lemma_runs_append_gap(segs, i, Seq::empty(), 0, Seq::empty(), thr);
        let rest = spec_runs_append(segs, i, Seq::<char>::empty(), 0, Seq::<usize>::empty(), thr);
        assert(r[0].indices == cur_indices);
        assert(forall|k: int| 0 <= k < rest.len() ==> r[k + 1] == rest[k]);
        assert forall|k: int, p: int|
            0 <= k < r.len() && 0 < p < r[k].indices.len() implies !spec_gap_exceeds(
            segs,
            (#[trigger] r[k].indices[p]) as int,
            thr,
        ) by {
            if k > 0 {
                assert(r[k] == rest[k - 1]);
            }
        };
    } else {
        assert(cur_indices.len() > 0 ==> !spec_gap_exceeds(segs, i, thr));
        lemma_runs_append_gap(segs, i, cur_text, cur_start, cur_indices, thr);
        assert(r == spec_runs_append(segs, i, cur_text, cur_start, cur_indices, thr));
        assert forall|k: int, p: int|
            0 <= k < r.len() && 0 < p < r[k].indices.len() implies !spec_gap_exceeds(
            segs,
            (#[trigger] r[k].indices[p]) as int,
            thr,
        ) by {}
    }
}

proof fn lemma_runs_append_gap(
    segs: Seq<TranscriptionSegment>,
    i: int,
    cur_text: Seq<char>,
    cur_start: u64,
    cur_indices: Seq<usize>,
    thr: u64,
)
    requires
        segs.len() <= usize::MAX,
        0 <= i < segs.len(),
        spec_trim(segs[i].text@).len() > 0,
        cur_text.len() > 0 <==> cur_indices.len() > 0,
        forall|p: int|
            0 < p < cur_indices.len() ==> !spec_gap_exceeds(
                segs,
                (#[trigger] cur_indices[p]) as int,
                thr,
            ),
        cur_indices.len() > 0 ==> !spec_gap_exceeds(segs, i, thr),
    ensures
        forall|k: int, p: int|
            0 <= k < spec_runs_append(segs, i, cur_text, cur_start, cur_indices, thr).len() && 0
                < p < spec_runs_append(
                segs,
                i,
                cur_text,
                cur_start,
                cur_indices,
                thr,
            )[k].indices.len() ==> !spec_gap_exceeds(
                segs,
                (#[trigger] spec_runs_append(
                    segs,
                    i,
                    cur_text,
                    cur_start,
                    cur_indices,
                    thr,
                )[k].indices[p]) as int,
                thr,
            ),
    decreases segs.len() - i, 0int,
{
    let t = spec_trim(segs[i].text@);
    let start2 = if cur_text.len() == 0 { segs[i].start_ms } else { cur_start };
    let text2 = if cur_text.len() == 0 { t } else { cur_text + seq![' '] + t };
    let indices2 = cur_indices.push(i as usize);
    let r = spec_runs_append(segs, i, cur_text, cur_start, cur_indices, thr);
    assert(forall|p: int| 0 <= p < cur_indices.len() ==> indices2[p] == cur_indices[p]);
    assert(indices2.last() == i as usize);
    assert forall|p: int|
        0 < p < indices2.len() implies !spec_gap_exceeds(
        segs,
        (#[trigger] indices2[p]) as int,
        thr,
    ) by {
        if p < cur_indices.len() {
            assert(indices2[p] == cur_indices[p]);
        } else {
            assert(indices2[p] == i as usize);
            assert(cur_indices.len() > 0);
        }
    };
    if text2.len() > 800 || (text2.len() > 200 && spec_strong_ending(text2)) {
        lemma_runs_from_gap(segs, i + 1, Seq::empty(), 0, Seq::empty(), thr);
        let rest = spec_runs_from(segs, i + 1, Seq::<char>::empty(), 0, Seq::<usize>::empty(), thr);
        assert(r[0].indices == indices2);
        assert(forall|k: int| 0 <= k < rest.len() ==> r[k + 1] == rest[k]);
        assert forall|k: int, p: int|
            0 <= k < r.len() && 0 < p < r[k].indices.len() implies !spec_gap_exceeds(
            segs,
            (#[trigger] r[k].indices[p]) as int,
            thr,
        ) by {
            if k > 0 {
                assert(r[k] == rest[k - 1]);
            }
        };
    } else {
        lemma_runs_from_gap(segs, i + 1, text2, start2, indices2, thr);
        assert(r == spec_runs_from(segs, i + 1, text2, start2, indices2, thr));
        assert forall|k: int, p: int|
            0 <= k < r.len() && 0 < p < r[k].indices.len() implies !spec_gap_exceeds(
            segs,
            (#[trigger] r[k].indices[p]) as int,
            thr,
        ) by {}
    }
}

/// A timing gap beyond the threshold always closes the run under
/// construction: a contributing segment with such a gap before it can only
/// open a run, never stand at a later position of one.
pub proof fn lemma_runs_gap(segs: Seq<TranscriptionSegment>, threshold_ms: u64)
    requires
        segs.len() <= usize::MAX,
    ensures
        forall|k: int, p: int|
            0 <= k < spec_runs(segs, threshold_ms).len() && 0 < p < spec_runs(
                segs,
                threshold_ms,
            )[k].indices.len() ==> !spec_gap_exceeds(
                segs,
                (#[trigger] spec_runs(segs, threshold_ms)[k].indices[p]) as int,
                threshold_ms,
            ),
{
    lemma_runs_from_gap(segs, 0, Seq::empty(), 0, Seq::empty(), threshold_ms);
}

/// One flushed run of consecutive contributing segments.
#[derive(Debug, Clone)]
pub struct SegmentRun {
    pub text: String,
    pub start_ms: u64,
    pub end_ms: u64,
    pub indices: Vec<usize>,
}

/// The model of one flushed run.
pub open spec fn spec_run_model(r: SegmentRun) -> RunModel {
    RunModel { text: r.text@, start_ms: r.start_ms, end_ms: r.end_ms, indices: r.indices@ }
}

/// Groups the segments into runs: empty segments are passed over, a timing
/// gap beyond the threshold closes the run under construction, and a run
/// past 800 characters (or past 200 with a strong sentence ending) closes
/// at once. The result is exactly the grouping model.
pub fn group_segments_into_runs(
    segments: &Vec<TranscriptionSegment>,
    nlp_gap_threshold_ms: u64,
) -> (r: Vec<SegmentRun>)
    ensures
        r@.map_values(|x: SegmentRun| spec_run_model(x)) == spec_runs(
            segments@,
            nlp_gap_threshold_ms,
        ),
{
    let n = segments.len();
    let mut runs: Vec<SegmentRun> = Vec::new();
    let mut current: Vec<char> = Vec::new();
    let mut current_start: u64 = 0;
    let mut indices: Vec<usize> = Vec::new();
    let mut idx: usize = 0;
    proof {
        assert(runs@.map_values(|x: SegmentRun| spec_run_model(x)) + spec_runs_from(
            segments@,
            0,
            current@,
            current_start,
            indices@,
            nlp_gap_threshold_ms,
        ) =~= spec_runs(segments@, nlp_gap_threshold_ms));
    }
    while idx < n
        invariant
            0 <= idx <= n == segments@.len(),
            current@.len() > 0 <==> indices@.len() > 0,
            indices@.len() > 0 ==> indices@.last() < idx,
            runs@.map_values(|x: SegmentRun| spec_run_model(x)) + spec_runs_from(
                segments@,
                idx as int,
                current@,
                current_start,
                indices@,
                nlp_gap_threshold_ms,
            ) == spec_runs(segments@, nlp_gap_threshold_ms),
        decreases n - idx,
    {
        let ghost total = spec_runs(segments@, nlp_gap_threshold_ms);
        let ghost cur0 = current@;
        let ghost ind0 = indices@;
        let ghost start0 = current_start;
        let seg = &segments[idx];
        let text = trim_chars(&chars_vec(seg.text.as_str()));
        if text.len() == 0 {
            idx = idx + 1;
            proof {
                assert(runs@.map_values(|x: SegmentRun| spec_run_model(x)) + spec_runs_from(
                    segments@,
                    idx as int,
                    current@,
                    current_start,
                    indices@,
                    nlp_gap_threshold_ms,
                ) =~= total);
            }
            continue;
        }
        // A large timing gap closes the run under construction.
        if current.len() > 0 && idx > 0 {
            let prev_end = segments[idx - 1].end_ms;
            let gap_exceeds = seg.start_ms > prev_end
                && seg.start_ms - prev_end > nlp_gap_threshold_ms;
            if gap_exceeds {
                let ghost rm0 = runs@.map_values(|x: SegmentRun| spec_run_model(x));
                let last_idx = indices[indices.len() - 1];
                let flush_end = segments[last_idx].end_ms;
                runs.push(SegmentRun {
                    text: string_from_chars(&current),
                    start_ms: current_start,
                    end_ms: flush_end,
                    indices,
                });
                current = Vec::new();
                current_start = 0;
                indices = Vec::new();
                proof {
                    assert(spec_gap_exceeds(segments@, idx as int, nlp_gap_threshold_ms));
                    assert(runs@.map_values(|x: SegmentRun| spec_run_model(x)) =~= rm0.push(
                        spec_close_run(segments@, cur0, start0, ind0),
                    ));
                    assert(spec_runs_from(
                        segments@,
                        idx as int,
                        cur0,
                        start0,
                        ind0,
                        nlp_gap_threshold_ms,
                    ) == seq![spec_close_run(segments@, cur0, start0, ind0)]
                        + spec_runs_append(
                        segments@,
                        idx as int,
                        Seq::<char>::empty(),
                        0,
                        Seq::<usize>::empty(),
                        nlp_gap_threshold_ms,
                    ));
                    assert(runs@.map_values(|x: SegmentRun| spec_run_model(x))
                        + spec_runs_append(
                        segments@,
                        idx as int,
                        current@,
                        current_start,
                        indices@,
                        nlp_gap_threshold_ms,
                    ) =~= total);
                }
            }
        }
        let ghost rm1 = runs@.map_values(|x: SegmentRun| spec_run_model(x));
        let ghost cur1 = current@;
        let ghost ind1 = indices@;
        let ghost start1 = current_start;
        proof {
            if cur1 == cur0 {
                // No flush happened: the grouping model proceeds straight to
                // the append step.
                assert(rm1 + spec_runs_append(
                    segments@,
                    idx as int,
                    cur1,
                    start1,
                    ind1,
                    nlp_gap_threshold_ms,
                ) =~= total);
            }
        }
        if current.len() == 0 {
            current_start = seg.start_ms;
        } else {
            current.push(' ');
        }
        let ghost curmid = current@;
        let mut w: usize = 0;
        while w < text.len()
            invariant
                0 <= w <= text@.len(),
                current@ == curmid + text@.take(w as int),
            decreases text@.len() - w,
        {
            current.push(text[w]);
            assert(current@ =~= curmid + text@.take(w + 1 as int));
            w = w + 1;
        }
        proof {
            assert(text@.take(text@.len() as int) =~= text@);
            if cur1.len() == 0 {
                assert(current@ =~= text@);
            } else {
                assert(curmid =~= cur1.push(' '));
                assert(current@ =~= cur1 + seq![' '] + text@);
            }
        }
        indices.push(idx);
        proof {
            assert(indices@ =~= ind1.push(idx));
        }
        // An overlong run closes and splits at once.
        let too_long = current.len() > 800 || (current.len() > 200 && has_strong_sentence_ending(
            string_from_chars(&current).as_str(),
        ));
        if too_long {
            let ghost rm2 = runs@.map_values(|x: SegmentRun| spec_run_model(x));
            let ghost cur2 = current@;
            let ghost ind2 = indices@;
            let ghost start2 = current_start;
            runs.push(SegmentRun {
                text: string_from_chars(&current),
                start_ms: current_start,
                end_ms: seg.end_ms,
                indices,
            });
            current = Vec::new();
            current_start = 0;
            indices = Vec::new();
            idx = idx + 1;
            proof {
                assert(runs@.map_values(|x: SegmentRun| spec_run_model(x)) =~= rm2.push(
                    RunModel {
                        text: cur2,
                        start_ms: start2,
                        end_ms: segments@[idx - 1].end_ms,
                        indices: ind2,
                    },
                ));
                assert(spec_runs_append(
                    segments@,
                    idx - 1,
                    cur1,
                    start1,
                    ind1,
                    nlp_gap_threshold_ms,
                ) == seq![RunModel {
                    text: cur2,
                    start_ms: start2,
                    end_ms: segments@[idx - 1].end_ms,
                    indices: ind2,
                }] + spec_runs_from(
                    segments@,
                    idx as int,
                    Seq::<char>::empty(),
                    0,
                    Seq::<usize>::empty(),
                    nlp_gap_threshold_ms,
                ));
                assert(runs@.map_values(|x: SegmentRun| spec_run_model(x)) + spec_runs_from(
                    segments@,
                    idx as int,
                    current@,
                    current_start,
                    indices@,
                    nlp_gap_threshold_ms,
                ) =~= total);
            }
        } else {
            idx = idx + 1;
            proof {
                assert(spec_runs_append(
                    segments@,
                    idx - 1,
                    cur1,
                    start1,
                    ind1,
                    nlp_gap_threshold_ms,
                ) == spec_runs_from(
                    segments@,
                    idx as int,
                    current@,
                    current_start,
                    indices@,
                    nlp_gap_threshold_ms,
                ));
                assert(runs@.map_values(|x: SegmentRun| spec_run_model(x)) + spec_runs_from(
                    segments@,
                    idx as int,
                    current@,
                    current_start,
                    indices@,
                    nlp_gap_threshold_ms,
                ) =~= total);
            }
        }
    }
    // Whatever is still under construction closes at its last segment.
    if current.len() > 0 {
        let ghost rm_end = runs@.map_values(|x: SegmentRun| spec_run_model(x));
        let ghost cur_end = current@;
        let ghost ind_end = indices@;
        let ghost start_end = current_start;
        let last_idx = indices[indices.len() - 1];
        let flush_end = segments[last_idx].end_ms;
        runs.push(SegmentRun {
            text: string_from_chars(&current),
            start_ms: current_start,
            end_ms: flush_end,
            indices,
        });
        proof {
            assert(spec_runs_from(
                segments@,
                n as int,
                cur_end,
                start_end,
                ind_end,
                nlp_gap_threshold_ms,
            ) == seq![spec_close_run(segments@, cur_end, start_end, ind_end)]);
            assert(runs@.map_values(|x: SegmentRun| spec_run_model(x)) =~= rm_end.push(
                spec_close_run(segments@, cur_end, start_end, ind_end),
            ));
            assert(runs@.map_values(|x: SegmentRun| spec_run_model(x)) =~= spec_runs(
                segments@,
                nlp_gap_threshold_ms,
            ));
        }
    } else {
        proof {
            assert(spec_runs_from(
                segments@,
                n as int,
                current@,
                current_start,
                indices@,
                nlp_gap_threshold_ms,
            ) =~= Seq::<RunModel>::empty());
            assert(runs@.map_values(|x: SegmentRun| spec_run_model(x)) =~= spec_runs(
                segments@,
                nlp_gap_threshold_ms,
            ));
        }
    }
    runs
}

proof fn lemma_trim_keeps_nonspace_head(s: Seq<char>)
    requires
        s.len() > 0,
        !is_space_char(s[0]),
    ensures
        spec_trim(s).len() > 0,
{
    assert(spec_trim_front(s) == s);
    lemma_trim_back_head(s);
}

proof fn lemma_trim_back_head(s: Seq<char>)
    requires
        s.len() > 0,
        !is_space_char(s[0]),
    ensures
        crate::text::spec_trim_back(s).len() > 0,
    decreases s.len(),
{
    if is_space_char(s.last()) {
        assert(s.drop_last()[0] == s[0]);
        lemma_trim_back_head(s.drop_last());
    }
}

/// One sentence traces back to one grouping run: its text is the run's
/// whole text or one of the pieces the punctuation splitter cuts it into,
/// and every segment position it lists belongs to that run.
pub open spec fn spec_from_some_run(s: Sentence, runs: Seq<RunModel>) -> bool {
    exists|k: int|
        0 <= k < runs.len() && (s.text@ == (#[trigger] runs[k]).text || spec_split_by_sentences(
            runs[k].text,
        ).contains(s.text@)) && (forall|j: int|
            0 <= j < s.segment_indices@.len() ==> runs[k].indices.contains(
                #[trigger] s.segment_indices@[j],
            ))
}

/// Groups the segments into sentences: the verified grouping model decides
/// the runs — empty segments passed over, a timing gap beyond the threshold
/// closing a run, an overlong run closing at once (see `spec_runs` and its
/// lemmas for the partition, ordering and gap guarantees) — and each run is
/// split at punctuation boundaries into the final sentences. Every sentence
/// traces back to its run, every run yields at least one sentence, and a
/// transcript with no contributing segment yields none.
pub fn build_sentences_from_segments(
    segments: &Vec<TranscriptionSegment>,
    nlp_gap_threshold_ms: u64,
) -> (r: Vec<Sentence>)
    ensures
        forall|q: int|
            0 <= q < r@.len() ==> spec_from_some_run(
                #[trigger] r@[q],
                spec_runs(segments@, nlp_gap_threshold_ms),
            ),
        r@.len() >= spec_runs(segments@, nlp_gap_threshold_ms).len(),
        spec_runs(segments@, nlp_gap_threshold_ms).len() == 0 ==> r@.len() == 0,
        forall|q: int, j: int|
            0 <= q < r@.len() && 0 <= j < r@[q].segment_indices@.len()
                ==> (#[trigger] r@[q].segment_indices@[j]) < segments@.len(),
{
    let ghost runsm = spec_runs(segments@, nlp_gap_threshold_ms);
    let n_segs = segments.len();
    proof {
        assert(segments@.len() == n_segs);
    }
    let runs = group_segments_into_runs(segments, nlp_gap_threshold_ms);
    proof {
        lemma_runs_wf(segments@, nlp_gap_threshold_ms);
    }
    let mut sentences: Vec<Sentence> = Vec::new();
    let n_runs = runs.len();
    let mut k: usize = 0;
    while k < n_runs
        invariant
            0 <= k <= n_runs == runs@.len(),
            runs@.map_values(|x: SegmentRun| spec_run_model(x)) == runsm,
            runsm == spec_runs(segments@, nlp_gap_threshold_ms),
            n_runs == runsm.len(),
            forall|k2: int| 0 <= k2 < runsm.len() ==> run_wf(segments@, #[trigger] runsm[k2]),
            sentences@.len() >= k,
            runsm.len() == 0 ==> sentences@.len() == 0,
            forall|q: int|
                0 <= q < sentences@.len() ==> spec_from_some_run(#[trigger] sentences@[q], runsm),
            forall|q: int, j: int|
                0 <= q < sentences@.len() && 0 <= j < sentences@[q].segment_indices@.len()
                    ==> (#[trigger] sentences@[q].segment_indices@[j]) < segments@.len(),
        decreases n_runs - k,
    {
        let run = &runs[k];
        proof {
            assert(spec_run_model(runs@[k as int]) == runsm[k as int]);
            assert(run_wf(segments@, runsm[k as int]));
            assert(run.text@ == runsm[k as int].text);
            assert(run.indices@ == runsm[k as int].indices);
            assert(spec_trim(run.text@).len() > 0);
            assert(run.indices@.len() > 0);
        }
        let ghost before = sentences@;
        split_and_add_sentences(
            run.text.as_str(),
            run.start_ms,
            run.end_ms,
            &run.indices,
            &mut sentences,
        );
        k = k + 1;
        proof {
            let ghost kk = k - 1;
            let pieces = spec_split_by_sentences(runsm[kk].text);
            assert forall|q: int|
                0 <= q < sentences@.len() implies spec_from_some_run(
                #[trigger] sentences@[q],
                runsm,
            ) by {
                if q < before.len() {
                    assert(sentences@[q] == before[q]);
                } else {
                    if pieces.len() <= 1 {
                        assert(sentences@[q] == sentences@.last());
                        assert(sentences@[q].text@ == runsm[kk].text);
                        assert(sentences@[q].segment_indices@ == runsm[kk].indices);
                        assert(forall|j: int|
                            0 <= j < sentences@[q].segment_indices@.len()
                                ==> runsm[kk].indices.contains(
                                #[trigger] sentences@[q].segment_indices@[j],
                            )) by {
                            assert(forall|j: int|
                                0 <= j < runsm[kk].indices.len() ==> runsm[kk].indices.contains(
                                    #[trigger] runsm[kk].indices[j],
                                ));
                        };
                    } else {
                        let piece_idx = q - before.len();
                        assert(sentences@.len() == before.len() + pieces.len());
                        assert(0 <= piece_idx < pieces.len());
                        assert(sentences@[before.len() + piece_idx].text@ == pieces[piece_idx]);
                        assert(sentences@[q].text@ == pieces[piece_idx]);
                        assert(pieces.contains(sentences@[q].text@));
                    }
                }
            };
            assert forall|q: int, j: int|
                0 <= q < sentences@.len() && 0 <= j < sentences@[q].segment_indices@.len()
                    implies (#[trigger] sentences@[q].segment_indices@[j]) < segments@.len() by {
                if q >= before.len() {
                    assert(runsm[kk].indices.contains(sentences@[q].segment_indices@[j]));
                    let w = choose|w: int|
                        0 <= w < runsm[kk].indices.len() && runsm[kk].indices[w]
                            == sentences@[q].segment_indices@[j];
                    assert(runsm[kk].indices[w] < segments@.len());
                }
            };
        }
    }
    proof {
        if runsm.len() > 0 {
            assert(sentences@.len() >= runsm.len());
        }
    }
    sentences
}

} // verus!
