//! String-keyed tables and string helpers shared by the lifecycle, client and
//! registry modules.

use vstd::prelude::*;

verus! {

/// Whether two string slices hold the same characters.
pub fn str_eq(a: &str, b: &str) -> (r: bool)
    ensures
        r == (a@ == b@),
{
    let x = a.to_owned();
    let y = b.to_owned();
    x == y
}

/// An owned copy of a string slice.
pub fn owned(s: &str) -> (r: String)
    ensures
        r@ == s@,
{
    s.to_owned()
}

/// A copy of an owned string.
pub fn copy_string(s: &String) -> (r: String)
    ensures
        r == *s,
        r@ == s@,
{
    s.clone()
}

/// An association table from strings to values, in insertion order, with
/// at most one entry per key.
pub struct StrMap<V> {
    entries: Vec<(String, V)>,
}

impl<V> StrMap<V> {
    /// The number of entries.
    pub closed spec fn size(&self) -> nat {
        self.entries@.len()
    }

    /// The key of the entry at position `i`.
    pub closed spec fn key_at(&self, i: int) -> Seq<char> {
        self.entries@[i].0@
    }

    /// The value of the entry at position `i`.
    pub closed spec fn value_at(&self, i: int) -> V {
        self.entries@[i].1
    }

    /// The keys in insertion order.
    pub open spec fn keys(&self) -> Seq<Seq<char>> {
        Seq::new(self.size(), |i: int| self.key_at(i))
    }

    /// The values in insertion order.
    pub open spec fn values(&self) -> Seq<V> {
        Seq::new(self.size(), |i: int| self.value_at(i))
    }

    /// No key occurs twice.
    pub open spec fn wf(&self) -> bool {
        forall|i: int, j: int|
            0 <= i < self.size() && 0 <= j < self.size() && i != j ==> self.key_at(i)
                != self.key_at(j)
    }

    /// Whether some entry has key `k`.
    pub open spec fn has(&self, k: Seq<char>) -> bool {
        exists|i: int| 0 <= i < self.size() && self.key_at(i) == k
    }

    /// The position of the entry with key `k`.
    pub open spec fn pos(&self, k: Seq<char>) -> int {
        choose|i: int| 0 <= i < self.size() && self.key_at(i) == k
    }

    /// The table as a map.
    pub open spec fn map(&self) -> Map<Seq<char>, V> {
        Map::new(|k: Seq<char>| self.has(k), |k: Seq<char>| self.value_at(self.pos(k)))
    }

    /// In a table without duplicate keys, the entry at position `i` is the
    /// one that the map reads for its key.
    pub proof fn lemma_pos(&self, i: int)
        requires
            self.wf(),
            0 <= i < self.size(),
        ensures
            self.has(self.key_at(i)),
            self.pos(self.key_at(i)) == i,
            self.map().contains_key(self.key_at(i)),
            self.map()[self.key_at(i)] == self.value_at(i),
    {
        assert(self.has(self.key_at(i)));
    }

    pub fn new() -> (r: Self)
        ensures
            r.wf(),
            r.size() == 0,
            r.map() == Map::<Seq<char>, V>::empty(),
    {
        let r = StrMap { entries: Vec::new() };
        assert(r.map() =~= Map::<Seq<char>, V>::empty());
        r
    }

    pub fn len(&self) -> (r: usize)
        ensures
            r == self.size(),
    {
        self.entries.len()
    }

    /// The position of the entry with key `key`, if any.
    pub fn find(&self, key: &str) -> (r: Option<usize>)
        requires
            self.wf(),
        ensures
            r is None <==> !self.has(key@),
            r is None ==> !self.map().contains_key(key@),
            r matches Some(i) ==> {
                &&& i < self.size()
                &&& self.key_at(i as int) == key@
                &&& self.pos(key@) == i
                &&& self.map().contains_key(key@)
                &&& self.map()[key@] == self.value_at(i as int)
            },
    {
        let mut i: usize = 0;
        while i < self.entries.len()
            invariant
                self.wf(),
                i <= self.size(),
                forall|j: int| 0 <= j < i ==> self.key_at(j) != key@,
            decreases self.size() - i,
        {
            if str_eq(self.entries[i].0.as_str(), key) {
                proof {
                    self.lemma_pos(i as int);
                }
                return Some(i);
            }
            i = i + 1;
        }
        None
    }

    /// The key at position `i`.
    pub fn key_ref(&self, i: usize) -> (r: &String)
        requires
            i < self.size(),
        ensures
            r@ == self.key_at(i as int),
    {
        &self.entries[i].0
    }

    /// The value at position `i`.
    pub fn value_ref(&self, i: usize) -> (r: &V)
        requires
            i < self.size(),
        ensures
            *r == self.value_at(i as int),
    {
        &self.entries[i].1
    }

    /// The value stored under `key`, if any.
    pub fn get(&self, key: &str) -> (r: Option<&V>)
        requires
            self.wf(),
        ensures
            r is Some <==> self.map().contains_key(key@),
            r matches Some(v) ==> *v == self.map()[key@],
    {
        match self.find(key) {
            Some(i) => Some(&self.entries[i].1),
            None => None,
        }
    }

    /// Replaces the value at position `i`, keeping its key and position.
    pub fn set_value(&mut self, i: usize, value: V)
        requires
            old(self).wf(),
            i < old(self).size(),
        ensures
            final(self).wf(),
            final(self).size() == old(self).size(),
            forall|j: int| 0 <= j < final(self).size() ==> final(self).key_at(j) == old(self).key_at(j),
            forall|j: int|
                0 <= j < final(self).size() && j != i ==> final(self).value_at(j) == old(self).value_at(j),
            final(self).value_at(i as int) == value,
            final(self).keys() == old(self).keys(),
            final(self).values() == old(self).values().update(i as int, value),
            final(self).map() == old(self).map().insert(old(self).key_at(i as int), value),
    {
        let ghost before = *self;
        self.entries[i].1 = value;
        proof {
            Self::lemma_changed_at(before, *self, i as int);
        }
    }

    /// A table that differs from a table without duplicate keys only in the
    /// value at position `i` has no duplicate keys either, and its map reads
    /// the new value under that key.
    pub proof fn lemma_changed_at(before: Self, after: Self, i: int)
        requires
            before.wf(),
            0 <= i < before.size(),
            after.size() == before.size(),
            forall|j: int| 0 <= j < after.size() ==> after.key_at(j) == before.key_at(j),
            forall|j: int| 0 <= j < after.size() && j != i ==> after.value_at(j) == before.value_at(j),
        ensures
            after.wf(),
            after.keys() == before.keys(),
            after.values() == before.values().update(i, after.value_at(i)),
            after.map() == before.map().insert(before.key_at(i), after.value_at(i)),
    {
        let k = before.key_at(i);
        assert forall|a: int, b: int|
            0 <= a < after.size() && 0 <= b < after.size() && a != b implies after.key_at(a)
            != after.key_at(b) by {
            assert(before.key_at(a) != before.key_at(b));
        }
        assert forall|q: Seq<char>| #[trigger] after.has(q) == before.has(q) by {
            if after.has(q) {
                let w = choose|w: int| 0 <= w < after.size() && after.key_at(w) == q;
                assert(before.key_at(w) == q);
            }
            if before.has(q) {
                let w = choose|w: int| 0 <= w < before.size() && before.key_at(w) == q;
                assert(after.key_at(w) == q);
            }
        }
        assert forall|q: Seq<char>| after.has(q) implies after.pos(q) == before.pos(q) by {
            let a = after.pos(q);
            let b = before.pos(q);
            assert(after.key_at(a) == q);
            assert(before.key_at(b) == q);
            assert(after.key_at(b) == q);
        }
        after.lemma_pos(i);
        assert(after.map() =~= before.map().insert(k, after.value_at(i)));
        assert(after.keys() =~= before.keys());
        assert(after.values() =~= before.values().update(i, after.value_at(i)));
    }

    /// Mutable access to the value at position `i`; keys and positions stay.
    pub fn value_mut(&mut self, i: usize) -> (r: &mut V)
        requires
            old(self).wf(),
            i < old(self).size(),
        ensures
            *r == old(self).value_at(i as int),
            final(self).size() == old(self).size(),
            forall|j: int| 0 <= j < final(self).size() ==> final(self).key_at(j) == old(self).key_at(j),
            forall|j: int|
                0 <= j < final(self).size() && j != i ==> final(self).value_at(j) == old(self).value_at(j),
            final(self).value_at(i as int) == *final(r),
    {
        &mut self.entries[i].1
    }

    /// Adds or replaces the value under `key`. A new key goes last; an
    /// existing key keeps its position.
    pub fn insert(&mut self, key: String, value: V)
        requires
            old(self).wf(),
        ensures
            final(self).wf(),
            final(self).map() == old(self).map().insert(key@, value),
            old(self).has(key@) ==> final(self).keys() == old(self).keys(),
            !old(self).has(key@) ==> final(self).keys() == old(self).keys().push(key@),
            !old(self).has(key@) ==> final(self).values() == old(self).values().push(value),
            old(self).has(key@) ==> final(self).values() == old(self).values().update(
                old(self).pos(key@),
                value,
            ),
    {
        match self.find(key.as_str()) {
            Some(i) => {
                let ghost before = *self;
                self.set_value(i, value);
            },
            None => {
                let ghost before = *self;
                let ghost k = key@;
                self.entries.push((key, value));
                proof {
                    assert forall|j: int| 0 <= j < before.size() implies self.key_at(j)
                        == before.key_at(j) && self.value_at(j) == before.value_at(j) by {}
                    assert(self.key_at(before.size() as int) == k);
                    assert forall|a: int, b: int|
                        0 <= a < self.size() && 0 <= b < self.size() && a != b implies self.key_at(a)
                        != self.key_at(b) by {
                        if a < before.size() && b < before.size() {
                            assert(before.key_at(a) != before.key_at(b));
                        } else if a == before.size() {
                            assert(before.key_at(b) == self.key_at(b));
                        } else if b == before.size() {
                            assert(before.key_at(a) == self.key_at(a));
                        }
                    }
                    assert forall|q: Seq<char>| #[trigger] self.has(q) == (before.has(q) || q == k) by {
                        if self.has(q) {
                            let w = choose|w: int| 0 <= w < self.size() && self.key_at(w) == q;
                            if w < before.size() {
                                assert(before.key_at(w) == q);
                            }
                        }
                        if before.has(q) {
                            let w = choose|w: int| 0 <= w < before.size() && before.key_at(w) == q;
                            assert(self.key_at(w) == q);
                        }
                        if q == k {
                            assert(self.key_at(before.size() as int) == q);
                        }
                    }
                    assert forall|q: Seq<char>| before.has(q) implies self.pos(q) == before.pos(q) by {
                        let a = self.pos(q);
                        let b = before.pos(q);
                        assert(self.key_at(a) == q);
                        assert(before.key_at(b) == q);
                        assert(self.key_at(b) == q);
                    }
                    self.lemma_pos(before.size() as int);
                    assert(self.map() =~= before.map().insert(k, value));
                    assert(self.keys() =~= before.keys().push(k));
                    assert(self.values() =~= before.values().push(value));
                }
            },
        }
    }
}

} // verus!

verus! {

/// Lexicographic order on character sequences by code point, the order of
/// Rust's `String` comparison.
pub open spec fn text_lt(a: Seq<char>, b: Seq<char>) -> bool
    decreases a.len(),
{
    if b.len() == 0 {
        false
    } else if a.len() == 0 {
        true
    } else if a[0] != b[0] {
        (a[0] as int) < (b[0] as int)
    } else {
        text_lt(a.drop_first(), b.drop_first())
    }
}

pub proof fn lemma_text_lt_irreflexive(a: Seq<char>)
    ensures
        !text_lt(a, a),
    decreases a.len(),
{
    if a.len() > 0 {
        lemma_text_lt_irreflexive(a.drop_first());
    }
}

pub proof fn lemma_text_lt_transitive(a: Seq<char>, b: Seq<char>, c: Seq<char>)
    requires
        text_lt(a, b),
        text_lt(b, c),
    ensures
        text_lt(a, c),
    decreases a.len(),
{
    if a.len() > 0 && b.len() > 0 && c.len() > 0 && a[0] == b[0] && b[0] == c[0] {
        lemma_text_lt_transitive(a.drop_first(), b.drop_first(), c.drop_first());
    }
}

pub proof fn lemma_text_lt_total(a: Seq<char>, b: Seq<char>)
    requires
        a != b,
    ensures
        text_lt(a, b) || text_lt(b, a),
    decreases a.len(),
{
    if a.len() > 0 && b.len() > 0 && a[0] == b[0] {
        if a.drop_first() == b.drop_first() {
            assert(a =~= seq![a[0]] + a.drop_first());
            assert(b =~= seq![b[0]] + b.drop_first());
        }
        lemma_text_lt_total(a.drop_first(), b.drop_first());
    } else if a.len() > 0 && b.len() > 0 {
        assert((a[0] as int) != (b[0] as int));
    } else if a.len() == 0 && b.len() == 0 {
        assert(a =~= b);
    }
}

pub proof fn lemma_text_lt_asymmetric(a: Seq<char>, b: Seq<char>)
    requires
        text_lt(a, b),
    ensures
        !text_lt(b, a),
{
    if text_lt(b, a) {
        lemma_text_lt_transitive(a, b, a);
        lemma_text_lt_irreflexive(a);
    }
}

/// Whether `a` orders before `b` as Rust compares strings.
pub fn text_less(a: &str, b: &str) -> (r: bool)
    ensures
        r == text_lt(a@, b@),
{
    let la = a.unicode_len();
    let lb = b.unicode_len();
    let mut i: usize = 0;
    assert(a@.skip(0) =~= a@);
    assert(b@.skip(0) =~= b@);
    while i < la && i < lb
        invariant
            la == a@.len(),
            lb == b@.len(),
            i <= la,
            i <= lb,
            text_lt(a@, b@) == text_lt(a@.skip(i as int), b@.skip(i as int)),
        decreases la - i,
    {
        let ca = a.get_char(i);
        let cb = b.get_char(i);
        if ca != cb {
            return (ca as u32) < (cb as u32);
        }
        proof {
            assert(a@.skip(i as int).drop_first() =~= a@.skip(i + 1));
            assert(b@.skip(i as int).drop_first() =~= b@.skip(i + 1));
        }
        i = i + 1;
    }
    i < lb
}

/// The order key of an `f64` given by its bit pattern, as `f64::total_cmp`
/// orders values: bit patterns with the sign bit clear keep their value, the
/// others are mirrored below zero.
pub open spec fn score_key(bits: u64) -> int {
    if bits < 0x8000_0000_0000_0000 {
        bits as int
    } else {
        -1 - (bits - 0x8000_0000_0000_0000)
    }
}

/// Computes `score_key`.
pub fn score_key_of(bits: u64) -> (r: i64)
    ensures
        r == score_key(bits),
{
    if bits < 0x8000_0000_0000_0000 {
        bits as i64
    } else {
        -1 - ((bits - 0x8000_0000_0000_0000) as i64)
    }
}

/// Entry order for `(worker, score)` lists: by score descending then worker
/// ascending when `by_score`; otherwise by worker ascending.
pub open spec fn entry_lt(a: (String, u64), b: (String, u64), by_score: bool) -> bool {
    if by_score {
        score_key(a.1) > score_key(b.1) || (score_key(a.1) == score_key(b.1) && text_lt(a.0@, b.0@))
    } else {
        text_lt(a.0@, b.0@)
    }
}

/// No later entry orders before an earlier one.
pub open spec fn entries_sorted(s: Seq<(String, u64)>, by_score: bool) -> bool {
    forall|i: int, j: int| 0 <= i < j < s.len() ==> !entry_lt(s[j], s[i], by_score)
}

proof fn lemma_entry_lt_transitive(a: (String, u64), b: (String, u64), c: (String, u64), by_score: bool)
    requires
        entry_lt(a, b, by_score),
        entry_lt(b, c, by_score),
    ensures
        entry_lt(a, c, by_score),
{
    if by_score {
        if score_key(a.1) == score_key(b.1) && score_key(b.1) == score_key(c.1) {
            lemma_text_lt_transitive(a.0@, b.0@, c.0@);
        }
    } else {
        lemma_text_lt_transitive(a.0@, b.0@, c.0@);
    }
}

fn entry_less(a: &(String, u64), b: &(String, u64), by_score: bool) -> (r: bool)
    ensures
        r == entry_lt(*a, *b, by_score),
{
    if by_score {
        let ka = score_key_of(a.1);
        let kb = score_key_of(b.1);
        if ka != kb {
            ka > kb
        } else {
            text_less(a.0.as_str(), b.0.as_str())
        }
    } else {
        text_less(a.0.as_str(), b.0.as_str())
    }
}

/// `k` occurs in `s`.
pub open spec fn occurs(s: Seq<int>, k: int) -> bool {
    exists|i: int| 0 <= i < s.len() && s[i] == k
}

/// `perm` lists each of `0..n` exactly once.
pub open spec fn is_permutation(perm: Seq<int>, n: nat) -> bool {
    &&& perm.len() == n
    &&& forall|i: int| 0 <= i < perm.len() ==> 0 <= #[trigger] perm[i] < n
    &&& forall|i: int, j: int| 0 <= i < perm.len() && 0 <= j < perm.len() && i != j ==> perm[i] != perm[j]
    &&& forall|k: int| 0 <= k < n ==> #[trigger] occurs(perm, k)
}

/// `r` holds the entries of `v` rearranged.
pub open spec fn is_rearrangement<T>(r: Seq<T>, v: Seq<T>) -> bool {
    exists|perm: Seq<int>|
        is_permutation(perm, v.len()) && forall|i: int| 0 <= i < r.len() ==> #[trigger] r[i] == v[perm[i]]
}

/// Sorts `(worker, score)` entries by `entry_lt` (selection sort).
pub fn sort_entries(v: Vec<(String, u64)>, by_score: bool) -> (r: Vec<(String, u64)>)
    ensures
        r@.len() == v@.len(),
        is_rearrangement(r@, v@),
        entries_sorted(r@, by_score),
{
    let ghost v0 = v@;
    let ghost n = v@.len();
    let mut rest = v;
    let mut out: Vec<(String, u64)> = Vec::new();
    let ghost mut rest_idx: Seq<int> = Seq::new(n, |i: int| i);
    let ghost mut out_idx: Seq<int> = Seq::empty();
    assert forall|k: int| 0 <= k < n implies #[trigger] occurs(out_idx, k) || occurs(rest_idx, k) by {
        assert(rest_idx[k] == k);
    }
    while rest.len() > 0
        invariant
            out@.len() + rest@.len() == n,
            n == v0.len(),
            rest_idx.len() == rest@.len(),
            out_idx.len() == out@.len(),
            forall|j: int| 0 <= j < rest@.len() ==> 0 <= #[trigger] rest_idx[j] < n && rest@[j] == v0[rest_idx[j]],
            forall|j: int| 0 <= j < out@.len() ==> 0 <= #[trigger] out_idx[j] < n && out@[j] == v0[out_idx[j]],
            forall|a: int, b: int| 0 <= a < rest_idx.len() && 0 <= b < rest_idx.len() && a != b ==> rest_idx[a] != rest_idx[b],
            forall|a: int, b: int| 0 <= a < out_idx.len() && 0 <= b < out_idx.len() && a != b ==> out_idx[a] != out_idx[b],
            forall|a: int, b: int| 0 <= a < out_idx.len() && 0 <= b < rest_idx.len() ==> out_idx[a] != rest_idx[b],
            forall|k: int| 0 <= k < n ==> #[trigger] occurs(out_idx, k) || occurs(rest_idx, k),
            entries_sorted(out@, by_score),
            forall|i: int, j: int|
                0 <= i < out@.len() && 0 <= j < rest@.len() ==> !entry_lt(rest@[j], out@[i], by_score),
        decreases rest@.len(),
    {
        let mut best: usize = 0;
        let mut k: usize = 1;
        proof {
            lemma_text_lt_irreflexive(rest@[0].0@);
        }
        while k < rest.len()
            invariant
                0 <= best < rest@.len(),
                1 <= k <= rest@.len(),
                forall|j: int| 0 <= j < k ==> !entry_lt(rest@[j], rest@[best as int], by_score),
            decreases rest@.len() - k,
        {
            if entry_less(&rest[k], &rest[best], by_score) {
                proof {
                    assert forall|j: int| 0 <= j < k + 1 implies !entry_lt(
                        rest@[j],
                        rest@[k as int],
                        by_score,
                    ) by {
                        if j < k && entry_lt(rest@[j], rest@[k as int], by_score) {
                            lemma_entry_lt_transitive(rest@[j], rest@[k as int], rest@[best as int], by_score);
                        }
                        if j == k {
                            lemma_text_lt_irreflexive(rest@[j].0@);
                        }
                    }
                }
                best = k;
            }
            k = k + 1;
        }
        let ghost rest_before = rest@;
        let ghost out_before = out@;
        let ghost ri = rest_idx;
        let ghost oi = out_idx;
        let picked = rest.remove(best);
        out.push(picked);
        proof {
            let x = ri[best as int];
            rest_idx = ri.remove(best as int);
            out_idx = oi.push(x);
            assert(rest@ == rest_before.remove(best as int));
            assert forall|j: int| 0 <= j < rest@.len() implies #[trigger] rest@[j] == rest_before[if j < best {
                j
            } else {
                j + 1
            }] && rest_idx[j] == ri[if j < best {
                j
            } else {
                j + 1
            }] by {}
            assert(out@ == out_before.push(picked));
            assert forall|a: int, b: int|
                0 <= a < rest_idx.len() && 0 <= b < rest_idx.len() && a != b implies rest_idx[a] != rest_idx[b] by {
                let aa = if a < best { a } else { a + 1 };
                let bb = if b < best { b } else { b + 1 };
                assert(rest_idx[a] == ri[aa]);
                assert(rest_idx[b] == ri[bb]);
            }
            assert forall|a: int, b: int|
                0 <= a < out_idx.len() && 0 <= b < out_idx.len() && a != b implies out_idx[a] != out_idx[b] by {
                if a == oi.len() {
                    assert(oi[b] != ri[best as int]);
                } else if b == oi.len() {
                    assert(oi[a] != ri[best as int]);
                }
            }
            assert forall|a: int, b: int| 0 <= a < out_idx.len() && 0 <= b < rest_idx.len() implies out_idx[a] != rest_idx[b] by {
                let bb = if b < best { b } else { b + 1 };
                assert(rest_idx[b] == ri[bb]);
                if a == oi.len() {
                    assert(ri[best as int] != ri[bb]);
                } else {
                    assert(oi[a] != ri[bb]);
                }
            }
            assert forall|q: int| 0 <= q < n implies #[trigger] occurs(out_idx, q) || occurs(rest_idx, q) by {
                assert(occurs(oi, q) || occurs(ri, q));
                if occurs(oi, q) {
                    let a = choose|a: int| 0 <= a < oi.len() && oi[a] == q;
                    assert(out_idx[a] == q);
                } else {
                    let b = choose|b: int| 0 <= b < ri.len() && ri[b] == q;
                    if b == best {
                        assert(out_idx[oi.len() as int] == q);
                    } else if b < best {
                        assert(rest_idx[b] == q);
                    } else {
                        assert(rest_idx[b - 1] == q);
                    }
                }
            }
            assert forall|i: int, j: int| 0 <= i < j < out@.len() implies !entry_lt(
                out@[j],
                out@[i],
                by_score,
            ) by {
                if j == out@.len() - 1 {
                    assert(out@[j] == rest_before[best as int]);
                }
            }
            assert forall|i: int, j: int|
                0 <= i < out@.len() && 0 <= j < rest@.len() implies !entry_lt(
                rest@[j],
                out@[i],
                by_score,
            ) by {
                let jj = if j < best {
                    j
                } else {
                    j + 1
                };
                assert(rest@[j] == rest_before[jj]);
                if i == out@.len() - 1 {
                    assert(out@[i] == rest_before[best as int]);
                }
            }
        }
    }
    proof {
        assert forall|q: int| 0 <= q < n implies #[trigger] occurs(out_idx, q) by {
            assert(occurs(out_idx, q) || occurs(rest_idx, q));
        }
        assert(is_permutation(out_idx, n));
        assert(forall|i: int| 0 <= i < out@.len() ==> #[trigger] out@[i] == v0[out_idx[i]]);
    }
    out
}

} // verus!
