//! Content-addressed caching: deterministic key derivation (a 64-bit
//! FNV-style hash over the identifying parts, rendered as hex) and the
//! in-memory model of a one-file-per-entry cache. Reading and writing the
//! files is the caller's business; this module owns the semantics: keys are
//! unique, a put overwrites in place, and cleaning drops entries older than
//! a cutoff.

use vstd::prelude::*;
use crate::text::chars_vec;

verus! {

/// The FNV-1a offset basis.
pub const HASH_OFFSET: u64 = 14695981039346656037;

/// The FNV-1a prime.
pub const HASH_PRIME: u64 = 1099511628211;

/// The value folded in between parts so that part boundaries matter.
pub const HASH_SEPARATOR: u64 = 31;

/// One FNV-1a round: fold one value into the running hash, modulo 2^64.
pub open spec fn spec_hash_step(h: u64, v: u64) -> u64 {
    ((((h ^ v) as int) * (HASH_PRIME as int)) % 18446744073709551616) as u64
}

/// Folds the characters of `s` (as scalar values) into the running hash.
pub open spec fn spec_hash_chars(h: u64, s: Seq<char>) -> u64
    decreases s.len(),
{
    if s.len() == 0 {
        h
    } else {
        spec_hash_chars(spec_hash_step(h, s[0] as u64), s.drop_first())
    }
}

/// Folds every part, with a separator after each, into the running hash.
pub open spec fn spec_hash_parts_from(h: u64, parts: Seq<Seq<char>>) -> u64
    decreases parts.len(),
{
    if parts.len() == 0 {
        h
    } else {
        spec_hash_parts_from(
            spec_hash_step(spec_hash_chars(h, parts[0]), HASH_SEPARATOR),
            parts.drop_first(),
        )
    }
}

/// The hash of a sequence of identifying parts.
pub open spec fn spec_hash_parts(parts: Seq<Seq<char>>) -> u64 {
    spec_hash_parts_from(HASH_OFFSET, parts)
}

fn hash_step(h: u64, v: u64) -> (r: u64)
    ensures
        r == spec_hash_step(h, v),
{
    let x: u128 = (h ^ v) as u128;
    ((x * (HASH_PRIME as u128)) % 18446744073709551616u128) as u64
}

fn hash_chars(h0: u64, v: &Vec<char>) -> (r: u64)
    ensures
        r == spec_hash_chars(h0, v@),
{
    let mut h = h0;
    let n = v.len();
    let mut i: usize = 0;
    proof {
        assert(v@.skip(0) =~= v@);
    }
    while i < n
        invariant
            0 <= i <= n == v@.len(),
            spec_hash_chars(h, v@.skip(i as int)) == spec_hash_chars(h0, v@),
        decreases n - i,
    {
        proof {
            assert(v@.skip(i as int)[0] == v@[i as int]);
            assert(v@.skip(i as int).drop_first() =~= v@.skip(i + 1 as int));
        }
        h = hash_step(h, v[i] as u64);
        i = i + 1;
    }
    proof {
        assert(v@.skip(n as int) =~= Seq::<char>::empty());
    }
    h
}

/// Hashes the identifying parts of a cache entry into one 64-bit value.
pub fn hash_parts(parts: &Vec<String>) -> (r: u64)
    ensures
        r == spec_hash_parts(parts@.map_values(|s: String| s@)),
{
    let ghost pv = parts@.map_values(|s: String| s@);
    let mut h = HASH_OFFSET;
    let n = parts.len();
    let mut i: usize = 0;
    proof {
        assert(pv.skip(0) =~= pv);
    }
    while i < n
        invariant
            0 <= i <= n == parts@.len(),
            pv == parts@.map_values(|s: String| s@),
            spec_hash_parts_from(h, pv.skip(i as int)) == spec_hash_parts(pv),
        decreases n - i,
    {
        proof {
            assert(pv.skip(i as int)[0] == pv[i as int]);
            assert(pv.skip(i as int).drop_first() =~= pv.skip(i + 1 as int));
        }
        let cv = chars_vec(parts[i].as_str());
        let hc = hash_chars(h, &cv);
        h = hash_step(hc, HASH_SEPARATOR);
        i = i + 1;
    }
    proof {
        assert(pv.skip(n as int) =~= Seq::<Seq<char>>::empty());
    }
    h
}

/// The character for one hexadecimal digit value.
pub open spec fn spec_hex_digit(d: nat) -> char {
    if d == 0 { '0' }
    else if d == 1 { '1' }
    else if d == 2 { '2' }
    else if d == 3 { '3' }
    else if d == 4 { '4' }
    else if d == 5 { '5' }
    else if d == 6 { '6' }
    else if d == 7 { '7' }
    else if d == 8 { '8' }
    else if d == 9 { '9' }
    else if d == 10 { 'a' }
    else if d == 11 { 'b' }
    else if d == 12 { 'c' }
    else if d == 13 { 'd' }
    else if d == 14 { 'e' }
    else { 'f' }
}

/// `width` hexadecimal digits of `n`, most significant first, zero-padded.
pub open spec fn spec_hex(n: nat, width: nat) -> Seq<char>
    decreases width,
{
    if width == 0 {
        Seq::empty()
    } else {
        spec_hex(n / 16, (width - 1) as nat) + seq![spec_hex_digit(n % 16)]
    }
}

fn hex_digit_char(d: u64) -> (c: char)
    requires
        d < 16,
    ensures
        c == spec_hex_digit(d as nat),
{
    if d == 0 { '0' }
    else if d == 1 { '1' }
    else if d == 2 { '2' }
    else if d == 3 { '3' }
    else if d == 4 { '4' }
    else if d == 5 { '5' }
    else if d == 6 { '6' }
    else if d == 7 { '7' }
    else if d == 8 { '8' }
    else if d == 9 { '9' }
    else if d == 10 { 'a' }
    else if d == 11 { 'b' }
    else if d == 12 { 'c' }
    else if d == 13 { 'd' }
    else if d == 14 { 'e' }
    else { 'f' }
}

fn hex_string_width(n: u64, width: u64) -> (r: String)
    ensures
        r@ == spec_hex(n as nat, width as nat),
    decreases width,
{
    if width == 0 {
        let s = String::new();
        assert(s@ =~= spec_hex(n as nat, 0));
        s
    } else {
        let mut s = hex_string_width(n / 16, width - 1);
        let c = hex_digit_char(n % 16);
        crate::push_char(&mut s, c);
        assert(s@ =~= spec_hex(n as nat, width as nat));
        s
    }
}

/// The sixteen-digit zero-padded hex rendering of a 64-bit hash.
pub fn hex16(n: u64) -> (r: String)
    ensures
        r@ == spec_hex(n as nat, 16),
{
    hex_string_width(n, 16)
}

/// The cache key that a sequence of identifying parts derives: the hex
/// rendering of their hash. Identical parts always give identical keys.
pub open spec fn spec_cache_key(parts: Seq<Seq<char>>) -> Seq<char> {
    spec_hex(spec_hash_parts(parts) as nat, 16)
}

/// Derives the cache key of a sequence of identifying parts.
pub fn cache_key_of_parts(parts: &Vec<String>) -> (r: String)
    ensures
        r@ == spec_cache_key(parts@.map_values(|s: String| s@)),
{
    let h = hash_parts(parts);
    hex16(h)
}

/// One cache entry: its key, its payload, and when it was written.
#[derive(Debug, Clone)]
pub struct CacheEntry<V> {
    pub key: String,
    pub value: V,
    pub cached_at: u64,
}

/// The index of the entry holding `k`, or -1.
pub open spec fn spec_find<V>(es: Seq<CacheEntry<V>>, k: Seq<char>) -> int
    decreases es.len(),
{
    if es.len() == 0 {
        -1
    } else if es.last().key@ == k {
        es.len() - 1
    } else {
        spec_find(es.drop_last(), k)
    }
}

/// No two entries share a key.
pub open spec fn unique_keys<V>(es: Seq<CacheEntry<V>>) -> bool {
    forall|i: int, j: int|
        0 <= i < j < es.len() ==> (#[trigger] es[i]).key@ != (#[trigger] es[j]).key@
}

/// How many entries hold `k`.
pub open spec fn spec_count_key<V>(es: Seq<CacheEntry<V>>, k: Seq<char>) -> int
    decreases es.len(),
{
    if es.len() == 0 {
        0
    } else {
        spec_count_key(es.drop_last(), k) + if es.last().key@ == k { 1int } else { 0int }
    }
}

/// What a put leaves behind: the entry replaces the one holding its key,
/// or is appended when the key is new.
pub open spec fn spec_put<V>(es: Seq<CacheEntry<V>>, e: CacheEntry<V>) -> Seq<CacheEntry<V>> {
    let i = spec_find(es, e.key@);
    if i == -1 {
        es.push(e)
    } else {
        es.update(i, e)
    }
}

/// The entries with `cached_at >= cutoff`, in order.
pub open spec fn spec_retain_fresh<V>(es: Seq<CacheEntry<V>>, cutoff: u64) -> Seq<CacheEntry<V>>
    decreases es.len(),
{
    if es.len() == 0 {
        Seq::empty()
    } else {
        let prev = spec_retain_fresh(es.drop_last(), cutoff);
        if es.last().cached_at >= cutoff { prev.push(es.last()) } else { prev }
    }
}

pub proof fn lemma_find_props<V>(es: Seq<CacheEntry<V>>, k: Seq<char>)
    ensures
        spec_find(es, k) == -1 ==> forall|i: int| 0 <= i < es.len() ==> (#[trigger] es[i]).key@ != k,
        spec_find(es, k) != -1 ==> 0 <= spec_find(es, k) < es.len() && es[spec_find(es, k)].key@ == k,
    decreases es.len(),
{
    if es.len() > 0 {
        assert(es.last() == es[es.len() - 1]);
        assert(forall|i: int| 0 <= i < es.len() - 1 ==> es.drop_last()[i] == es[i]);
        lemma_find_props(es.drop_last(), k);
    }
}

pub proof fn lemma_find_unique<V>(es: Seq<CacheEntry<V>>, k: Seq<char>, i: int)
    requires
        unique_keys(es),
        0 <= i < es.len(),
        es[i].key@ == k,
    ensures
        spec_find(es, k) == i,
    decreases es.len(),
{
    assert(es.last() == es[es.len() - 1]);
    if es.last().key@ == k {
        assert(i == es.len() - 1);
    } else {
        assert(forall|a: int| 0 <= a < es.len() - 1 ==> es.drop_last()[a] == es[a]);
        lemma_find_unique(es.drop_last(), k, i);
    }
}

/// Putting the same entry twice leaves exactly what one put leaves: the
/// key maps to the entry, the keys stay unique, the entry count does not
/// grow, and exactly one entry holds the key.
pub proof fn lemma_put_idempotent<V>(es: Seq<CacheEntry<V>>, e: CacheEntry<V>)
    requires
        unique_keys(es),
    ensures
        spec_put(spec_put(es, e), e) == spec_put(es, e),
        unique_keys(spec_put(es, e)),
        spec_count_key(spec_put(es, e), e.key@) == 1,
        ({
            let es1 = spec_put(es, e);
            spec_find(es1, e.key@) >= 0 && es1[spec_find(es1, e.key@)] == e
        }),
{
    lemma_find_props(es, e.key@);
    let es1 = spec_put(es, e);
    let i0 = spec_find(es, e.key@);
    if i0 == -1 {
        assert(es1.last() == e);
        assert(forall|a: int| 0 <= a < es.len() ==> es1[a] == es[a]);
        assert(unique_keys(es1));
        lemma_find_unique(es1, e.key@, es.len() as int);
    } else {
        assert(forall|a: int| 0 <= a < es.len() && a != i0 ==> es1[a] == es[a]);
        assert(es1[i0] == e);
        assert(unique_keys(es1));
        lemma_find_unique(es1, e.key@, i0);
    }
    let i1 = spec_find(es1, e.key@);
    assert(es1.update(i1, e) =~= es1);
    lemma_count_key_unique(es1, e.key@, i1);
}

proof fn lemma_count_key_unique<V>(es: Seq<CacheEntry<V>>, k: Seq<char>, i: int)
    requires
        unique_keys(es),
        0 <= i < es.len(),
        es[i].key@ == k,
    ensures
        spec_count_key(es, k) == 1,
    decreases es.len(),
{
    assert(es.last() == es[es.len() - 1]);
    assert(forall|a: int| 0 <= a < es.len() - 1 ==> es.drop_last()[a] == es[a]);
    if es.last().key@ == k {
        assert(i == es.len() - 1);
        lemma_count_key_zero(es.drop_last(), k);
    } else {
        lemma_count_key_unique(es.drop_last(), k, i);
    }
}

proof fn lemma_count_key_zero<V>(es: Seq<CacheEntry<V>>, k: Seq<char>)
    requires
        forall|i: int| 0 <= i < es.len() ==> (#[trigger] es[i]).key@ != k,
    ensures
        spec_count_key(es, k) == 0,
    decreases es.len(),
{
    if es.len() > 0 {
        assert(es.last() == es[es.len() - 1]);
        assert(forall|a: int| 0 <= a < es.len() - 1 ==> es.drop_last()[a] == es[a]);
        lemma_count_key_zero(es.drop_last(), k);
    }
}

/// An in-memory content-addressed store: one entry per key. It models a
/// directory of one file per cache key; the caller mirrors puts and
/// removals to disk.
pub struct ContentCache<V> {
    pub entries: Vec<CacheEntry<V>>,
}

proof fn lemma_retain_unique<V>(es: Seq<CacheEntry<V>>, cutoff: u64)
    requires
        unique_keys(es),
    ensures
        unique_keys(spec_retain_fresh(es, cutoff)),
        forall|j: int|
            0 <= j < spec_retain_fresh(es, cutoff).len() ==> exists|i: int|
                0 <= i < es.len() && (#[trigger] spec_retain_fresh(es, cutoff)[j]).key@
                    == es[i].key@,
    decreases es.len(),
{
    if es.len() > 0 {
        let r = spec_retain_fresh(es, cutoff);
        let rd = spec_retain_fresh(es.drop_last(), cutoff);
        assert(es.last() == es[es.len() - 1]);
        assert(forall|a: int| 0 <= a < es.len() - 1 ==> es.drop_last()[a] == es[a]);
        lemma_retain_unique(es.drop_last(), cutoff);
        if es.last().cached_at >= cutoff {
            assert(r == rd.push(es.last()));
            assert forall|j: int| 0 <= j < r.len() implies exists|i: int|
                0 <= i < es.len() && (#[trigger] r[j]).key@ == es[i].key@ by {
                if j < rd.len() {
                    let i0 = choose|i: int|
                        0 <= i < es.drop_last().len() && rd[j].key@ == es.drop_last()[i].key@;
                    assert(r[j].key@ == es[i0].key@);
                } else {
                    assert(r[j].key@ == es[es.len() - 1].key@);
                }
            };
            assert forall|a: int, b: int| 0 <= a < b < r.len() implies (#[trigger] r[a]).key@
                != (#[trigger] r[b]).key@ by {
                if b == r.len() - 1 {
                    let i0 = choose|i: int|
                        0 <= i < es.drop_last().len() && rd[a].key@ == es.drop_last()[i].key@;
                    assert(r[a].key@ == es[i0].key@);
                    assert(es[i0].key@ != es[es.len() - 1].key@);
                }
            };
        } else {
            assert(r == rd);
        }
    }
}

impl<V> ContentCache<V> {
    /// All keys are distinct.
    pub open spec fn wf(&self) -> bool {
        unique_keys(self.entries@)
    }

    pub fn new() -> (r: Self)
        ensures
            r.wf(),
            r.entries@.len() == 0,
    {
        ContentCache { entries: Vec::new() }
    }

    /// How many entries the cache holds.
    pub fn len(&self) -> (r: usize)
        ensures
            r == self.entries@.len(),
    {
        self.entries.len()
    }

    /// Looks a key up; a hit returns the stored payload.
    pub fn get(&self, key: &str) -> (r: Option<&V>)
        requires
            self.wf(),
        ensures
            ({
                let i = spec_find(self.entries@, key@);
                match r {
                    Some(v) => i >= 0 && *v == self.entries@[i].value,
                    None => i == -1,
                }
            }),
    {
        let n = self.entries.len();
        let mut j: usize = 0;
        while j < n
            invariant
                0 <= j <= n == self.entries@.len(),
                self.wf(),
                forall|a: int| 0 <= a < j ==> (#[trigger] self.entries@[a]).key@ != key@,
            decreases n - j,
        {
            if crate::text::str_eq(self.entries[j].key.as_str(), key) {
                proof {
                    lemma_find_unique(self.entries@, key@, j as int);
                }
                return Some(&self.entries[j].value);
            }
            j = j + 1;
        }
        proof {
            lemma_find_props(self.entries@, key@);
            if spec_find(self.entries@, key@) != -1 {
                assert(false);
            }
        }
        None
    }

    /// Stores a payload under a key at a write time: a new key is appended,
    /// an existing key\'s entry is replaced in place.
    pub fn put(&mut self, key: &str, value: V, now: u64)
        requires
            old(self).wf(),
        ensures
            final(self).wf(),
            exists|e: CacheEntry<V>|
                e.key@ == key@ && e.value == value && e.cached_at == now && final(self).entries@
                    == #[trigger] spec_put(old(self).entries@, e),
    {
        let n = self.entries.len();
        let mut j: usize = 0;
        while j < n
            invariant
                0 <= j <= n == self.entries@.len(),
                self.entries@ == old(self).entries@,
                unique_keys(self.entries@),
                forall|a: int| 0 <= a < j ==> (#[trigger] self.entries@[a]).key@ != key@,
            decreases n - j,
        {
            if crate::text::str_eq(self.entries[j].key.as_str(), key) {
                proof {
                    lemma_find_unique(self.entries@, key@, j as int);
                }
                let new_entry = CacheEntry { key: key_string(key), value, cached_at: now };
                let ghost e = new_entry;
                self.entries.set(j, new_entry);
                proof {
                    let es0 = old(self).entries@;
                    assert(self.entries@ == es0.update(j as int, e));
                    assert(forall|a: int|
                        0 <= a < es0.len() && a != j ==> #[trigger] self.entries@[a] == es0[a]);
                    assert(self.entries@[j as int] == e);
                    assert(unique_keys(self.entries@));
                    assert(self.entries@ == spec_put(es0, e));
                }
                return;
            }
            j = j + 1;
        }
        proof {
            lemma_find_props(self.entries@, key@);
            if spec_find(self.entries@, key@) != -1 {
                assert(false);
            }
        }
        let new_entry = CacheEntry { key: key_string(key), value, cached_at: now };
        let ghost e = new_entry;
        self.entries.push(new_entry);
        proof {
            let es0 = old(self).entries@;
            assert(self.entries@ == es0.push(e));
            assert(self.entries@.last() == e);
            assert(forall|a: int| 0 <= a < es0.len() ==> #[trigger] self.entries@[a] == es0[a]);
            assert(unique_keys(self.entries@));
            assert(self.entries@ == spec_put(es0, e));
        }
    }

    /// Empties the cache; returns how many entries were dropped.
    pub fn clear(&mut self) -> (r: u64)
        requires
            old(self).entries@.len() < 18446744073709551616,
        ensures
            final(self).entries@.len() == 0,
            final(self).wf(),
            r == old(self).entries@.len(),
    {
        let n = self.entries.len() as u64;
        self.entries.clear();
        n
    }

    /// Drops every entry written before the cutoff time; returns how many
    /// were dropped. Entries keep their order.
    pub fn clean(&mut self, cutoff: u64) -> (r: u64)
        requires
            old(self).wf(),
            old(self).entries@.len() < 18446744073709551616,
        ensures
            final(self).wf(),
            final(self).entries@ == spec_retain_fresh(old(self).entries@, cutoff),
            r == old(self).entries@.len() - final(self).entries@.len(),
    {
        let ghost es0 = self.entries@;
        let mut dropped: u64 = 0;
        let mut i: usize = 0;
        proof {
            assert(es0.take(0) =~= Seq::<CacheEntry<V>>::empty());
            assert(self.entries@.skip(0) =~= es0.skip(0));
        }
        while i < self.entries.len()
            invariant
                0 <= i <= self.entries@.len(),
                i + dropped <= es0.len() < 18446744073709551616,
                self.entries@.take(i as int) == spec_retain_fresh(
                    es0.take(i + dropped),
                    cutoff,
                ),
                self.entries@.skip(i as int) == es0.skip(i + dropped),
                self.entries@.len() + dropped == es0.len(),
            decreases es0.len() - i - dropped,
    {
            let ghost esc = self.entries@;
            let ghost pre = es0.take(i + dropped + 1);
            proof {
                assert(pre.drop_last() =~= es0.take(i + dropped));
                assert(pre.last() == es0[i + dropped]);
                assert(esc[i as int] == esc.skip(i as int)[0]);
                assert(es0[i + dropped] == es0.skip(i + dropped)[0]);
                assert(esc[i as int] == es0[i + dropped]);
            }
            let ghost iold = i as int;
            let ghost dold = dropped as int;
            if self.entries[i].cached_at >= cutoff {
                i = i + 1;
                proof {
                    assert(pre.last().cached_at >= cutoff);
                    assert(spec_retain_fresh(pre, cutoff)
                        == spec_retain_fresh(pre.drop_last(), cutoff).push(pre.last()));
                    assert(spec_retain_fresh(pre.drop_last(), cutoff)
                        == spec_retain_fresh(es0.take(iold + dold), cutoff));
                    assert(spec_retain_fresh(es0.take(iold + dold), cutoff) == esc.take(iold));
                    assert(self.entries@.take(i as int) =~= esc.take(iold).push(esc[iold]));
                    assert(self.entries@.take(i as int) == spec_retain_fresh(pre, cutoff));
                    assert forall|t: int|
                        0 <= t < self.entries@.skip(i as int).len()
                            implies self.entries@.skip(i as int)[t] == es0.skip(i + dropped)[t] by {
                        assert(esc.skip(iold)[1 + t] == es0.skip(iold + dold)[1 + t]);
                        assert(esc.skip(iold)[1 + t] == esc[iold + 1 + t]);
                        assert(es0.skip(iold + dold)[1 + t] == es0[iold + dold + 1 + t]);
                        assert(es0.skip(i + dropped)[t] == es0[i + dropped + t]);
                    };
                    assert(self.entries@.skip(i as int) =~= es0.skip(i + dropped));
                }
            } else {
                self.entries.remove(i);
                dropped = dropped + 1;
                proof {
                    assert(pre.last().cached_at < cutoff);
                    assert(spec_retain_fresh(pre, cutoff)
                        == spec_retain_fresh(pre.drop_last(), cutoff));
                    assert(spec_retain_fresh(pre.drop_last(), cutoff)
                        == spec_retain_fresh(es0.take(iold + dold), cutoff));
                    assert(spec_retain_fresh(es0.take(iold + dold), cutoff) == esc.take(iold));
                    assert(self.entries@ == esc.remove(iold));
                    assert(self.entries@.take(i as int) =~= esc.take(iold));
                    assert(self.entries@.take(i as int) == spec_retain_fresh(pre, cutoff));
                    assert forall|t: int|
                        0 <= t < self.entries@.skip(i as int).len()
                            implies self.entries@.skip(i as int)[t] == es0.skip(i + dropped)[t] by {
                        assert(self.entries@.skip(iold)[t] == self.entries@[iold + t]);
                        assert(self.entries@[iold + t] == esc[iold + 1 + t]);
                        assert(esc.skip(iold)[1 + t] == es0.skip(iold + dold)[1 + t]);
                        assert(esc.skip(iold)[1 + t] == esc[iold + 1 + t]);
                        assert(es0.skip(iold + dold)[1 + t] == es0[iold + dold + 1 + t]);
                        assert(es0.skip(i + dropped)[t] == es0[i + dropped + t]);
                    };
                    assert(self.entries@.skip(i as int) =~= es0.skip(i + dropped));
                }
            }
        }
        proof {
            assert(es0.take(i + dropped as int) =~= es0);
            assert(self.entries@.take(i as int) =~= self.entries@);
            lemma_retain_unique(es0, cutoff);
        }
        dropped
    }
}

fn key_string(key: &str) -> (r: String)
    ensures
        r@ == key@,
{
    let v = chars_vec(key);
    crate::text::string_from_chars(&v)
}

} // verus!
