//! Character-level text utilities: whitespace trimming, whitespace
//! normalization, substring search, and case-insensitive comparison.
//!
//! All logic works on `Vec<char>` / `Seq<char>`; the only trusted pieces are
//! the conversions between `String` and `Vec<char>` and the Unicode
//! lowercasing done by the standard library.

use vstd::prelude::*;

verus! {

/// The whitespace characters this library recognizes when splitting and
/// trimming text.
pub open spec fn is_space_char(c: char) -> bool {
    c == ' ' || c == '\t' || c == '\n' || c == '\r'
}

pub fn is_space(c: char) -> (r: bool)
    ensures
        r == is_space_char(c),
{
    c == ' ' || c == '\t' || c == '\n' || c == '\r'
}

/// Relies on `str::chars` and `Iterator::collect`: the characters of the
/// string, in order.
#[verifier::external_body]
pub fn chars_vec(s: &str) -> (v: Vec<char>)
    ensures
        v@ == s@,
{
    s.chars().collect()
}

/// Relies on `FromIterator<char> for String`: builds the string holding
/// exactly the given characters.
#[verifier::external_body]
pub fn string_from_chars(v: &Vec<char>) -> (s: String)
    ensures
        s@ == v@,
{
    v.iter().collect()
}

/// What `str::to_lowercase` returns; a function of the characters alone.
pub uninterp spec fn lower_of(s: Seq<char>) -> Seq<char>;

/// Relies on `str::to_lowercase`: Unicode lowercasing, a pure function of
/// the characters; it maps the empty string to the empty string.
#[verifier::external_body]
pub fn lowercase(s: &str) -> (r: String)
    ensures
        r@ == lower_of(s@),
        s@.len() == 0 ==> r@.len() == 0,
{
    s.to_lowercase()
}

/// `s` with leading whitespace removed.
pub open spec fn spec_trim_front(s: Seq<char>) -> Seq<char>
    decreases s.len(),
{
    if s.len() == 0 {
        s
    } else if is_space_char(s[0]) {
        spec_trim_front(s.drop_first())
    } else {
        s
    }
}

/// `s` with trailing whitespace removed.
pub open spec fn spec_trim_back(s: Seq<char>) -> Seq<char>
    decreases s.len(),
{
    if s.len() == 0 {
        s
    } else if is_space_char(s.last()) {
        spec_trim_back(s.drop_last())
    } else {
        s
    }
}

/// `s` with leading and trailing whitespace removed.
pub open spec fn spec_trim(s: Seq<char>) -> Seq<char> {
    spec_trim_back(spec_trim_front(s))
}

pub proof fn lemma_trim_front_skip(s: Seq<char>, i: int)
    requires
        0 <= i <= s.len(),
        forall|k: int| 0 <= k < i ==> is_space_char(s[k]),
    ensures
        spec_trim_front(s) == spec_trim_front(s.skip(i)),
    decreases i,
{
    if i > 0 {
        assert(s.skip(0) =~= s);
        lemma_trim_front_skip(s, i - 1);
        if s.len() > i - 1 {
            assert(s.skip(i - 1).drop_first() =~= s.skip(i));
            assert(spec_trim_front(s.skip(i - 1)) == spec_trim_front(s.skip(i)));
        }
    } else {
        assert(s.skip(0) =~= s);
    }
}

proof fn lemma_trim_back_take(s: Seq<char>, j: int)
    requires
        0 <= j <= s.len(),
        forall|k: int| j <= k < s.len() ==> is_space_char(s[k]),
    ensures
        spec_trim_back(s) == spec_trim_back(s.take(j)),
    decreases s.len() - j,
{
    if j < s.len() {
        assert(s.take(s.len() as int) =~= s);
        lemma_trim_back_take(s, j + 1);
        assert(s.take(j + 1).drop_last() =~= s.take(j));
        assert(spec_trim_back(s.take(j + 1)) == spec_trim_back(s.take(j)));
    } else {
        assert(s.take(j) =~= s);
    }
}

/// Copy of `v` with leading and trailing whitespace removed.
pub fn trim_chars(v: &Vec<char>) -> (r: Vec<char>)
    ensures
        r@ == spec_trim(v@),
{
    let n = v.len();
    let mut i: usize = 0;
    while i < n && is_space(v[i])
        invariant
            0 <= i <= n == v@.len(),
            forall|k: int| 0 <= k < i ==> is_space_char(v@[k]),
        decreases n - i,
    {
        i = i + 1;
    }
    proof {
        lemma_trim_front_skip(v@, i as int);
    }
    // v@.skip(i) now starts with a non-space character (or is empty), so
    // trim_front leaves it unchanged.
    assert(spec_trim_front(v@.skip(i as int)) == v@.skip(i as int));
    let mut j: usize = n;
    while j > i && is_space(v[j - 1])
        invariant
            i <= j <= n == v@.len(),
            forall|k: int| j <= k < n ==> is_space_char(v@[k]),
        decreases j,
    {
        j = j - 1;
    }
    proof {
        assert(v@.skip(i as int).take(j - i) =~= v@.subrange(i as int, j as int));
        assert(forall|k: int|
            j - i <= k < v@.skip(i as int).len() ==> is_space_char(v@.skip(i as int)[k]));
        lemma_trim_back_take(v@.skip(i as int), j - i);
        if j > i {
            assert(!is_space_char(v@.subrange(i as int, j as int).last()));
        }
        assert(spec_trim_back(v@.subrange(i as int, j as int)) == v@.subrange(i as int, j as int));
    }
    let mut out: Vec<char> = Vec::new();
    let mut k: usize = i;
    while k < j
        invariant
            i <= k <= j <= v@.len(),
            out@ == v@.subrange(i as int, k as int),
        decreases j - k,
    {
        out.push(v[k]);
        assert(out@ =~= v@.subrange(i as int, k + 1 as int));
        k = k + 1;
    }
    assert(out@ == v@.subrange(i as int, j as int));
    out
}

/// `s` with leading and trailing whitespace removed, as a string.
pub fn trim_str(s: &str) -> (r: String)
    ensures
        r@ == spec_trim(s@),
{
    let v = chars_vec(s);
    let t = trim_chars(&v);
    string_from_chars(&t)
}

/// Whitespace normalization: maximal whitespace runs collapse to a single
/// space and leading/trailing whitespace disappears. The recursion carries a
/// state: 0 before the first word, 1 inside a word, 2 between words with a
/// separator owed.
pub open spec fn norm_rest(s: Seq<char>, st: int) -> Seq<char>
    decreases s.len(),
{
    if s.len() == 0 {
        Seq::empty()
    } else if is_space_char(s[0]) {
        norm_rest(s.drop_first(), if st == 0 { 0int } else { 2int })
    } else if st == 2 {
        seq![' ', s[0]] + norm_rest(s.drop_first(), 1)
    } else {
        seq![s[0]] + norm_rest(s.drop_first(), 1)
    }
}

/// `s` with whitespace runs collapsed to single spaces and ends trimmed.
pub open spec fn spec_norm_ws(s: Seq<char>) -> Seq<char> {
    norm_rest(s, 0)
}

/// Collapses whitespace runs to single spaces and trims the ends.
pub fn norm_ws_chars(v: &Vec<char>) -> (r: Vec<char>)
    ensures
        r@ == spec_norm_ws(v@),
{
    let n = v.len();
    let mut out: Vec<char> = Vec::new();
    let mut st: u8 = 0;
    let mut i: usize = 0;
    proof {
        assert(v@.skip(0) =~= v@);
        assert(out@ + norm_rest(v@, 0) =~= spec_norm_ws(v@));
    }
    while i < n
        invariant
            0 <= i <= n == v@.len(),
            st == 0 || st == 1 || st == 2,
            out@ + norm_rest(v@.skip(i as int), st as int) == spec_norm_ws(v@),
        decreases n - i,
    {
        let ghost prev = v@.skip(i as int);
        let ghost out0 = out@;
        let ghost st0 = st as int;
        let c = v[i];
        proof {
            assert(prev[0] == v@[i as int]);
            assert(prev.drop_first() =~= v@.skip(i + 1 as int));
        }
        if is_space(c) {
            if st != 0 {
                st = 2;
            }
        } else {
            if st == 2 {
                out.push(' ');
            }
            out.push(c);
            st = 1;
        }
        i = i + 1;
        proof {
            if is_space_char(c) {
                assert(norm_rest(prev, st0) == norm_rest(v@.skip(i as int), st as int));
                assert(out@ == out0);
            } else if st0 == 2 {
                assert(out@ =~= out0 + seq![' ', c]);
                assert(norm_rest(prev, st0) == seq![' ', c] + norm_rest(v@.skip(i as int), 1));
            } else {
                assert(out@ =~= out0 + seq![c]);
                assert(norm_rest(prev, st0) == seq![c] + norm_rest(v@.skip(i as int), 1));
            }
            assert(out@ + norm_rest(v@.skip(i as int), st as int) =~= out0 + norm_rest(prev, st0));
        }
    }
    assert(v@.skip(n as int) =~= Seq::<char>::empty());
    assert(out@ =~= spec_norm_ws(v@));
    out
}

/// The library's text normalization for comparing sentence candidates:
/// whitespace collapsed, then Unicode-lowercased.
pub open spec fn spec_norm(s: Seq<char>) -> Seq<char> {
    lower_of(spec_norm_ws(s))
}

/// Normalizes text for comparison: collapses whitespace and lowercases.
pub fn norm_text(s: &str) -> (r: String)
    ensures
        r@ == spec_norm(s@),
{
    let v = chars_vec(s);
    let w = norm_ws_chars(&v);
    let joined = string_from_chars(&w);
    lowercase(joined.as_str())
}

/// `pre` is a prefix of `s`.
pub open spec fn is_prefix(pre: Seq<char>, s: Seq<char>) -> bool {
    pre.len() <= s.len() && s.take(pre.len() as int) == pre
}

/// `suf` is a suffix of `s`.
pub open spec fn is_suffix(suf: Seq<char>, s: Seq<char>) -> bool {
    suf.len() <= s.len() && s.skip(s.len() - suf.len()) == suf
}

pub fn starts_with_chars(s: &Vec<char>, pre: &Vec<char>) -> (r: bool)
    ensures
        r == is_prefix(pre@, s@),
{
    let m = pre.len();
    if m > s.len() {
        return false;
    }
    let mut k: usize = 0;
    while k < m
        invariant
            0 <= k <= m == pre@.len(),
            m <= s@.len(),
            forall|t: int| 0 <= t < k ==> s@[t] == pre@[t],
        decreases m - k,
    {
        if s[k] != pre[k] {
            assert(s@.take(m as int)[k as int] != pre@[k as int]);
            return false;
        }
        k = k + 1;
    }
    assert(s@.take(m as int) =~= pre@);
    true
}

pub fn ends_with_chars(s: &Vec<char>, suf: &Vec<char>) -> (r: bool)
    ensures
        r == is_suffix(suf@, s@),
{
    let m = suf.len();
    let n = s.len();
    if m > n {
        return false;
    }
    let off = n - m;
    let mut k: usize = 0;
    while k < m
        invariant
            0 <= k <= m == suf@.len(),
            m <= n == s@.len(),
            off == n - m,
            forall|t: int| 0 <= t < k ==> s@[off + t] == suf@[t],
        decreases m - k,
    {
        if s[off + k] != suf[k] {
            assert(s@.skip(off as int)[k as int] != suf@[k as int]);
            return false;
        }
        k = k + 1;
    }
    assert(s@.skip(off as int) =~= suf@);
    true
}

/// `pat` occurs in `s` as a contiguous subsequence.
pub open spec fn has_sub(s: Seq<char>, pat: Seq<char>) -> bool {
    exists|i: int|
        0 <= i && i + pat.len() <= s.len() && #[trigger] s.subrange(i, i + pat.len()) == pat
}

fn matches_at(s: &Vec<char>, pat: &Vec<char>, i: usize) -> (r: bool)
    requires
        i + pat@.len() <= s@.len(),
    ensures
        r == (s@.subrange(i as int, i + pat@.len()) == pat@),
{
    let m = pat.len();
    let n = s.len();
    let mut k: usize = 0;
    while k < m
        invariant
            0 <= k <= m == pat@.len(),
            n == s@.len(),
            i + m <= n,
            forall|t: int| 0 <= t < k ==> s@[i + t] == pat@[t],
        decreases m - k,
    {
        if s[i + k] != pat[k] {
            assert(s@.subrange(i as int, i + m as int)[k as int] != pat@[k as int]);
            return false;
        }
        k = k + 1;
    }
    assert(s@.subrange(i as int, i + m as int) =~= pat@);
    true
}

pub fn contains_chars(s: &Vec<char>, pat: &Vec<char>) -> (r: bool)
    ensures
        r == has_sub(s@, pat@),
{
    let m = pat.len();
    let n = s.len();
    if m > n {
        assert(!has_sub(s@, pat@));
        return false;
    }
    if m == 0 {
        proof {
            assert(s@.subrange(0, 0 + pat@.len() as int) =~= pat@);
            assert(has_sub(s@, pat@));
        }
        return true;
    }
    let mut i: usize = 0;
    while i <= n - m
        invariant
            0 <= i <= n - m + 1,
            1 <= m <= n,
            n == s@.len(),
            m == pat@.len(),
            forall|t: int| 0 <= t < i ==> #[trigger] s@.subrange(t, t + pat@.len()) != pat@,
        decreases n - i,
    {
        if matches_at(s, pat, i) {
            return true;
        }
        i = i + 1;
    }
    assert(forall|t: int| 0 <= t && t + pat@.len() <= s@.len() ==> #[trigger] s@.subrange(t, t + pat@.len()) != pat@);
    false
}

/// `s` contains `pat`, both as strings.
pub fn contains_str(s: &str, pat: &str) -> (r: bool)
    ensures
        r == has_sub(s@, pat@),
{
    let sv = chars_vec(s);
    let pv = chars_vec(pat);
    contains_chars(&sv, &pv)
}

/// The two strings hold the same characters.
pub fn str_eq(a: &str, b: &str) -> (r: bool)
    ensures
        r == (a@ == b@),
{
    let av = chars_vec(a);
    let bv = chars_vec(b);
    if av.len() != bv.len() {
        return false;
    }
    let n = av.len();
    let mut k: usize = 0;
    while k < n
        invariant
            0 <= k <= n,
            n == av@.len() == bv@.len(),
            av@ == a@,
            bv@ == b@,
            forall|t: int| 0 <= t < k ==> av@[t] == bv@[t],
        decreases n - k,
    {
        if av[k] != bv[k] {
            return false;
        }
        k = k + 1;
    }
    assert(a@ =~= b@);
    true
}

/// ASCII lowercasing of one character; everything outside `'A'..='Z'` is
/// unchanged.
pub open spec fn spec_ascii_lower(c: char) -> char {
    match c {
        'A' => 'a', 'B' => 'b', 'C' => 'c', 'D' => 'd', 'E' => 'e', 'F' => 'f',
        'G' => 'g', 'H' => 'h', 'I' => 'i', 'J' => 'j', 'K' => 'k', 'L' => 'l',
        'M' => 'm', 'N' => 'n', 'O' => 'o', 'P' => 'p', 'Q' => 'q', 'R' => 'r',
        'S' => 's', 'T' => 't', 'U' => 'u', 'V' => 'v', 'W' => 'w', 'X' => 'x',
        'Y' => 'y', 'Z' => 'z',
        _ => c,
    }
}

pub fn ascii_lower_char(c: char) -> (r: char)
    ensures
        r == spec_ascii_lower(c),
{
    match c {
        'A' => 'a', 'B' => 'b', 'C' => 'c', 'D' => 'd', 'E' => 'e', 'F' => 'f',
        'G' => 'g', 'H' => 'h', 'I' => 'i', 'J' => 'j', 'K' => 'k', 'L' => 'l',
        'M' => 'm', 'N' => 'n', 'O' => 'o', 'P' => 'p', 'Q' => 'q', 'R' => 'r',
        'S' => 's', 'T' => 't', 'U' => 'u', 'V' => 'v', 'W' => 'w', 'X' => 'x',
        'Y' => 'y', 'Z' => 'z',
        _ => c,
    }
}

/// Equality of two character sequences up to ASCII case.
pub open spec fn eq_ignore_ascii_case(a: Seq<char>, b: Seq<char>) -> bool {
    a.map_values(|c: char| spec_ascii_lower(c)) == b.map_values(|c: char| spec_ascii_lower(c))
}

pub fn chars_eq_ignore_case(a: &Vec<char>, b: &Vec<char>) -> (r: bool)
    ensures
        r == eq_ignore_ascii_case(a@, b@),
{
    let ghost la = a@.map_values(|c: char| spec_ascii_lower(c));
    let ghost lb = b@.map_values(|c: char| spec_ascii_lower(c));
    if a.len() != b.len() {
        assert(la.len() != lb.len());
        return false;
    }
    let n = a.len();
    let mut k: usize = 0;
    while k < n
        invariant
            0 <= k <= n,
            n == a@.len() == b@.len(),
            la == a@.map_values(|c: char| spec_ascii_lower(c)),
            lb == b@.map_values(|c: char| spec_ascii_lower(c)),
            forall|t: int| 0 <= t < k ==> la[t] == lb[t],
        decreases n - k,
    {
        if ascii_lower_char(a[k]) != ascii_lower_char(b[k]) {
            assert(la[k as int] != lb[k as int]);
            return false;
        }
        k = k + 1;
    }
    assert(la =~= lb);
    true
}

/// `s` equals `pat` up to ASCII case, both as strings.
pub fn str_eq_ignore_case(s: &str, pat: &str) -> (r: bool)
    ensures
        r == eq_ignore_ascii_case(s@, pat@),
{
    let sv = chars_vec(s);
    let pv = chars_vec(pat);
    chars_eq_ignore_case(&sv, &pv)
}

/// `pat` occurs in `s` up to ASCII case.
pub open spec fn has_sub_ignore_case(s: Seq<char>, pat: Seq<char>) -> bool {
    has_sub(
        s.map_values(|c: char| spec_ascii_lower(c)),
        pat.map_values(|c: char| spec_ascii_lower(c)),
    )
}

pub fn contains_str_ignore_case(s: &str, pat: &str) -> (r: bool)
    ensures
        r == has_sub_ignore_case(s@, pat@),
{
    let sv = chars_vec(s);
    let pv = chars_vec(pat);
    let mut sl: Vec<char> = Vec::new();
    let mut i: usize = 0;
    while i < sv.len()
        invariant
            0 <= i <= sv@.len(),
            sl@ == sv@.take(i as int).map_values(|c: char| spec_ascii_lower(c)),
        decreases sv@.len() - i,
    {
        sl.push(ascii_lower_char(sv[i]));
        assert(sl@ =~= sv@.take(i + 1 as int).map_values(|c: char| spec_ascii_lower(c)));
        i = i + 1;
    }
    assert(sv@.take(sv@.len() as int) =~= sv@);
    let mut pl: Vec<char> = Vec::new();
    let mut j: usize = 0;
    while j < pv.len()
        invariant
            0 <= j <= pv@.len(),
            pl@ == pv@.take(j as int).map_values(|c: char| spec_ascii_lower(c)),
        decreases pv@.len() - j,
    {
        pl.push(ascii_lower_char(pv[j]));
        assert(pl@ =~= pv@.take(j + 1 as int).map_values(|c: char| spec_ascii_lower(c)));
        j = j + 1;
    }
    assert(pv@.take(pv@.len() as int) =~= pv@);
    contains_chars(&sl, &pl)
}


/// Copy of `v[a..b]`.
pub fn subrange_chars(v: &Vec<char>, a: usize, b: usize) -> (r: Vec<char>)
    requires
        a <= b <= v@.len(),
    ensures
        r@ == v@.subrange(a as int, b as int),
{
    let mut out: Vec<char> = Vec::new();
    let mut k: usize = a;
    while k < b
        invariant
            a <= k <= b <= v@.len(),
            out@ == v@.subrange(a as int, k as int),
        decreases b - k,
    {
        out.push(v[k]);
        assert(out@ =~= v@.subrange(a as int, k + 1 as int));
        k = k + 1;
    }
    out
}

/// The index of the first occurrence of `c`, or the length when absent.
pub open spec fn spec_find_char(s: Seq<char>, c: char) -> int
    decreases s.len(),
{
    if s.len() == 0 {
        0
    } else if s[0] == c {
        0
    } else {
        1 + spec_find_char(s.drop_first(), c)
    }
}

pub proof fn lemma_find_char_at(s: Seq<char>, c: char, m: int)
    requires
        0 <= m <= s.len(),
        forall|k: int| 0 <= k < m ==> s[k] != c,
        m == s.len() || s[m] == c,
    ensures
        spec_find_char(s, c) == m,
    decreases m,
{
    if s.len() > 0 {
        if m > 0 {
            assert(forall|k: int| 0 <= k < m - 1 ==> s.drop_first()[k] == s[k + 1]);
            lemma_find_char_at(s.drop_first(), c, m - 1);
        }
    }
}

/// `l` with one trailing carriage return removed.
pub open spec fn spec_strip_cr(l: Seq<char>) -> Seq<char> {
    if l.len() > 0 && l.last() == '\r' {
        l.drop_last()
    } else {
        l
    }
}

/// The lines of `s`: split at newlines, one trailing carriage return
/// stripped from each line, and no empty line after a final newline.
pub open spec fn spec_split_lines(s: Seq<char>) -> Seq<Seq<char>>
    decreases s.len(),
{
    if s.len() == 0 {
        Seq::empty()
    } else {
        let f = spec_find_char(s, '\n');
        let line = spec_strip_cr(s.take(f));
        if 0 <= f < s.len() {
            seq![line] + spec_split_lines(s.skip(f + 1))
        } else {
            seq![line]
        }
    }
}

/// Splits `v` into lines the way the standard library does: at newlines,
/// with one trailing carriage return stripped from each line.
pub fn split_lines(v: &Vec<char>) -> (r: Vec<Vec<char>>)
    ensures
        r@.map_values(|l: Vec<char>| l@) == spec_split_lines(v@),
{
    let n = v.len();
    let mut out: Vec<Vec<char>> = Vec::new();
    if n == 0 {
        assert(out@.map_values(|l: Vec<char>| l@) =~= spec_split_lines(v@));
        return out;
    }
    let mut p: usize = 0;
    proof {
        assert(v@.skip(0) =~= v@);
    }
    loop
        invariant
            0 <= p < n == v@.len(),
            out@.map_values(|l: Vec<char>| l@) + spec_split_lines(v@.skip(p as int))
                == spec_split_lines(v@),
        decreases n - p,
    {
        let ghost rest = v@.skip(p as int);
        let mut q: usize = p;
        while q < n && v[q] != '\n'
            invariant
                p <= q <= n == v@.len(),
                forall|k: int| p <= k < q ==> v@[k] != '\n',
            decreases n - q,
        {
            q = q + 1;
        }
        proof {
            assert(forall|k: int| 0 <= k < q - p ==> rest[k] == v@[p + k]);
            lemma_find_char_at(rest, '\n', q - p);
        }
        let end = if q > p && v[q - 1] == '\r' {
            q - 1
        } else {
            q
        };
        let line = subrange_chars(v, p, end);
        proof {
            assert(rest.take(q - p) =~= v@.subrange(p as int, q as int));
            if q > p && v@[q - 1] == '\r' {
                assert(rest.take(q - p).drop_last() =~= v@.subrange(p as int, end as int));
            }
            assert(line@ == spec_strip_cr(rest.take(q - p)));
        }
        let ghost out0 = out@.map_values(|l: Vec<char>| l@);
        out.push(line);
        proof {
            assert(out@.map_values(|l: Vec<char>| l@) =~= out0.push(line@));
        }
        if q == n {
            proof {
                assert(spec_split_lines(rest) == seq![line@]);
                assert(out0 + seq![line@] =~= out@.map_values(|l: Vec<char>| l@));
                assert(out@.map_values(|l: Vec<char>| l@) =~= spec_split_lines(v@));
            }
            return out;
        }
        proof {
            assert(spec_split_lines(rest) == seq![line@] + spec_split_lines(rest.skip(q - p + 1)));
            assert(rest.skip(q - p + 1) =~= v@.skip(q + 1));
            assert(out@.map_values(|l: Vec<char>| l@) + spec_split_lines(v@.skip(q + 1))
                =~= spec_split_lines(v@));
        }
        p = q + 1;
        if p == n {
            proof {
                assert(v@.skip(n as int) =~= Seq::<char>::empty());
                assert(out@.map_values(|l: Vec<char>| l@) =~= spec_split_lines(v@));
            }
            return out;
        }
    }
}

/// `s` with every ASCII letter lowercased.
pub fn ascii_lower_str(s: &str) -> (r: String)
    ensures
        r@ == s@.map_values(|c: char| spec_ascii_lower(c)),
{
    let v = chars_vec(s);
    let mut out: Vec<char> = Vec::new();
    let mut i: usize = 0;
    proof {
        assert(out@ =~= v@.take(0).map_values(|c: char| spec_ascii_lower(c)));
    }
    while i < v.len()
        invariant
            0 <= i <= v@.len(),
            v@ == s@,
            out@ == v@.take(i as int).map_values(|c: char| spec_ascii_lower(c)),
        decreases v@.len() - i,
    {
        out.push(ascii_lower_char(v[i]));
        assert(out@ =~= v@.take(i + 1 as int).map_values(|c: char| spec_ascii_lower(c)));
        i = i + 1;
    }
    proof {
        assert(v@.take(v@.len() as int) =~= v@);
    }
    string_from_chars(&out)
}


/// The parts joined with single spaces, empties included.
pub open spec fn spec_join_space(parts: Seq<Seq<char>>) -> Seq<char>
    decreases parts.len(),
{
    if parts.len() == 0 {
        Seq::empty()
    } else if parts.len() == 1 {
        parts[0]
    } else {
        spec_join_space(parts.drop_last()) + seq![' '] + parts.last()
    }
}

/// Joins the strings with single spaces.
pub fn join_space(parts: &Vec<String>) -> (r: String)
    ensures
        r@ == spec_join_space(parts@.map_values(|s: String| s@)),
{
    let ghost pv = parts@.map_values(|s: String| s@);
    let mut out = String::new();
    let n = parts.len();
    let mut i: usize = 0;
    proof {
        assert(pv.take(0) =~= Seq::<Seq<char>>::empty());
        assert(out@ =~= spec_join_space(pv.take(0)));
    }
    while i < n
        invariant
            0 <= i <= n == parts@.len(),
            pv == parts@.map_values(|s: String| s@),
            out@ == spec_join_space(pv.take(i as int)),
        decreases n - i,
    {
        let ghost out0 = out@;
        if i > 0 {
            out.append(" ");
        }
        out.append(parts[i].as_str());
        i = i + 1;
        proof {
            reveal_strlit(" ");
            let pre = pv.take(i as int);
            assert(pre.drop_last() =~= pv.take(i - 1));
            assert(pre.last() == pv[i - 1]);
            assert(pv[i - 1] == parts@[i - 1]@);
            if i == 1 {
                assert(out0 =~= Seq::<char>::empty());
                assert(out@ =~= pv[0]);
                assert(spec_join_space(pre) == pre[0]);
            } else {
                assert(out@ =~= out0 + seq![' '] + pv[i - 1]);
            }
            assert(out@ =~= spec_join_space(pre));
        }
    }
    proof {
        assert(pv.take(n as int) =~= pv);
    }
    out
}


proof fn lemma_trim_front_no_leading(s: Seq<char>)
    ensures
        spec_trim_front(s).len() > 0 ==> !is_space_char(spec_trim_front(s)[0]),
    decreases s.len(),
{
    if s.len() > 0 && is_space_char(s[0]) {
        lemma_trim_front_no_leading(s.drop_first());
    }
}

proof fn lemma_trim_back_no_trailing(s: Seq<char>)
    ensures
        spec_trim_back(s).len() > 0 ==> !is_space_char(spec_trim_back(s).last()),
    decreases s.len(),
{
    if s.len() > 0 && is_space_char(s.last()) {
        lemma_trim_back_no_trailing(s.drop_last());
    }
}

proof fn lemma_trim_back_preserves_first(s: Seq<char>)
    ensures
        spec_trim_back(s).len() > 0 ==> spec_trim_back(s)[0] == s[0],
    decreases s.len(),
{
    if s.len() > 0 && is_space_char(s.last()) {
        lemma_trim_back_preserves_first(s.drop_last());
    }
}

/// Trimming is idempotent.
pub proof fn lemma_trim_idempotent(s: Seq<char>)
    ensures
        spec_trim(spec_trim(s)) == spec_trim(s),
{
    let tf = spec_trim_front(s);
    let t = spec_trim(s);
    lemma_trim_front_no_leading(s);
    lemma_trim_back_preserves_first(tf);
    lemma_trim_back_no_trailing(tf);
    if t.len() > 0 {
        assert(tf.len() > 0);
        assert(t[0] == tf[0]);
        assert(!is_space_char(t[0]));
        assert(spec_trim_front(t) == t);
        assert(!is_space_char(t.last()));
        assert(spec_trim_back(t) == t);
    } else {
        assert(spec_trim_front(t) == t);
        assert(spec_trim_back(t) == t);
    }
}


/// A non-empty trimmed text starts with a non-space character.
pub proof fn lemma_trim_head(s: Seq<char>)
    ensures
        spec_trim(s).len() > 0 ==> !is_space_char(spec_trim(s)[0]),
{
    lemma_trim_front_no_leading(s);
    lemma_trim_back_preserves_first(spec_trim_front(s));
}

} // verus!
