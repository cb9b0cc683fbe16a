//! Capacity benchmark samples: selecting one profile's runs in order of
//! worker count, and the median of a list of `f64` measurements.
//!
//! Throughput and scaling figures are `f64` arithmetic done by callers; the
//! measurements arrive here as IEEE-754 bit patterns, ordered as
//! `f64::total_cmp` orders them.

use vstd::prelude::*;

use crate::keyed::{entries_sorted, is_permutation, is_rearrangement, occurs, score_key, sort_entries, str_eq};

verus! {

/// One benchmark run: a profile, how many workers ran, how many jobs they
/// processed and how long it took.
#[derive(Debug, Clone)]
pub struct BenchmarkSample {
    pub profile_id: String,
    pub worker_count: u32,
    pub jobs_processed: u64,
    pub duration_ms: u64,
}

impl BenchmarkSample {
    /// A field-for-field copy.
    pub fn copied(&self) -> (r: BenchmarkSample)
        ensures
            r == *self,
    {
        BenchmarkSample {
            profile_id: self.profile_id.clone(),
            worker_count: self.worker_count,
            jobs_processed: self.jobs_processed,
            duration_ms: self.duration_ms,
        }
    }
}

/// The samples of profile `profile_id`, in input order.
pub open spec fn samples_of(samples: Seq<BenchmarkSample>, profile_id: Seq<char>) -> Seq<BenchmarkSample> {
    samples.filter(|s: BenchmarkSample| s.profile_id@ == profile_id)
}

/// `r` is `s` ordered by worker count, samples with equal counts keeping
/// their order in `s` (a stable sort).
pub open spec fn stably_sorted_by_workers(r: Seq<BenchmarkSample>, s: Seq<BenchmarkSample>) -> bool {
    exists|perm: Seq<int>|
        #[trigger] is_permutation(perm, s.len()) && r.len() == s.len() && (forall|i: int|
            0 <= i < r.len() ==> #[trigger] r[i] == s[perm[i]]) && (forall|i: int, j: int|
            0 <= i < j < r.len() ==> (#[trigger] r[i]).worker_count < (#[trigger] r[j]).worker_count || (
            r[i].worker_count == r[j].worker_count && perm[i] < perm[j]))
}

/// Orders `rows` by worker count, keeping the input order among equal
/// counts.
fn stable_sort_by_workers(rows: Vec<BenchmarkSample>) -> (r: Vec<BenchmarkSample>)
    ensures
        stably_sorted_by_workers(r@, rows@),
{
    let ghost v0 = rows@;
    let ghost n = rows@.len();
    let mut rest = rows;
    let mut out: Vec<BenchmarkSample> = Vec::new();
    let ghost mut rest_idx: Seq<int> = Seq::new(n, |i: int| i);
    let ghost mut out_idx: Seq<int> = Seq::empty();
    assert forall|k: int| 0 <= k < n implies #[trigger] occurs(out_idx, k) || occurs(rest_idx, k) by {
        assert(rest_idx[k] == k);
    }
    while rest.len() > 0
        invariant
            out@.len() + rest@.len() == n,
            n == v0.len(),
            rest_idx.len() == rest@.len(),
            out_idx.len() == out@.len(),
            forall|j: int| 0 <= j < rest@.len() ==> 0 <= #[trigger] rest_idx[j] < n && rest@[j] == v0[rest_idx[j]],
            forall|j: int| 0 <= j < out@.len() ==> 0 <= #[trigger] out_idx[j] < n && out@[j] == v0[out_idx[j]],
            forall|a: int, b: int| 0 <= a < b < rest_idx.len() ==> rest_idx[a] < rest_idx[b],
            forall|a: int, b: int| 0 <= a < out_idx.len() && 0 <= b < out_idx.len() && a != b ==> out_idx[a] != out_idx[b],
            forall|a: int, b: int| 0 <= a < out_idx.len() && 0 <= b < rest_idx.len() ==> out_idx[a] != rest_idx[b],
            forall|k: int| 0 <= k < n ==> #[trigger] occurs(out_idx, k) || occurs(rest_idx, k),
            forall|i: int, j: int|
                #![trigger out@[i], out@[j]]
                0 <= i < j < out@.len() ==> out@[i].worker_count < out@[j].worker_count || (out@[i].worker_count
                    == out@[j].worker_count && out_idx[i] < out_idx[j]),
            forall|i: int, j: int|
                #![trigger out@[i], rest@[j]]
                0 <= i < out@.len() && 0 <= j < rest@.len() ==> out@[i].worker_count < rest@[j].worker_count || (
                out@[i].worker_count == rest@[j].worker_count && out_idx[i] < rest_idx[j]),
        decreases rest@.len(),
    {
        let mut best: usize = 0;
        let mut k: usize = 1;
        while k < rest.len()
            invariant
                0 <= best < rest@.len(),
                1 <= k <= rest@.len(),
                forall|j: int| 0 <= j < k ==> rest@[best as int].worker_count <= #[trigger] rest@[j].worker_count,
                forall|j: int| 0 <= j < best ==> rest@[best as int].worker_count < #[trigger] rest@[j].worker_count,
            decreases rest@.len() - k,
        {
            if rest[k].worker_count < rest[best].worker_count {
                best = k;
            }
            k = k + 1;
        }
        let ghost rest_before = rest@;
        let ghost out_before = out@;
        let ghost ri = rest_idx;
        let ghost oi = out_idx;
        let picked = rest.remove(best);
        out.push(picked);
        proof {
            let x = ri[best as int];
            rest_idx = ri.remove(best as int);
            out_idx = oi.push(x);
            assert(rest@ == rest_before.remove(best as int));
            assert forall|j: int| 0 <= j < rest@.len() implies #[trigger] rest@[j] == rest_before[if j < best {
                j
            } else {
                j + 1
            }] && rest_idx[j] == ri[if j < best {
                j
            } else {
                j + 1
            }] by {}
            assert(out@ == out_before.push(picked));
            assert forall|a: int, b: int| 0 <= a < b < rest_idx.len() implies rest_idx[a] < rest_idx[b] by {
                let aa = if a < best { a } else { a + 1 };
                let bb = if b < best { b } else { b + 1 };
                assert(rest_idx[a] == ri[aa]);
                assert(rest_idx[b] == ri[bb]);
            }
            assert forall|a: int, b: int|
                0 <= a < out_idx.len() && 0 <= b < out_idx.len() && a != b implies out_idx[a] != out_idx[b] by {
                if a == oi.len() {
                    assert(oi[b] != ri[best as int]);
                } else if b == oi.len() {
                    assert(oi[a] != ri[best as int]);
                }
            }
            assert forall|a: int, b: int| 0 <= a < out_idx.len() && 0 <= b < rest_idx.len() implies out_idx[a]
                != rest_idx[b] by {
                let bb = if b < best { b } else { b + 1 };
                assert(rest_idx[b] == ri[bb]);
                if a == oi.len() {
                    assert(ri[best as int] != ri[bb]);
                } else {
                    assert(oi[a] != ri[bb]);
                }
            }
            assert forall|q: int| 0 <= q < n implies #[trigger] occurs(out_idx, q) || occurs(rest_idx, q) by {
                assert(occurs(oi, q) || occurs(ri, q));
                if occurs(oi, q) {
                    let a = choose|a: int| 0 <= a < oi.len() && oi[a] == q;
                    assert(out_idx[a] == q);
                } else {
                    let b = choose|b: int| 0 <= b < ri.len() && ri[b] == q;
                    if b == best {
                        assert(out_idx[oi.len() as int] == q);
                    } else if b < best {
                        assert(rest_idx[b] == q);
                    } else {
                        assert(rest_idx[b - 1] == q);
                    }
                }
            }
            assert forall|i: int, j: int| #![trigger out@[i], out@[j]] 0 <= i < j < out@.len() implies out@[i].worker_count < out@[j].worker_count
                || (out@[i].worker_count == out@[j].worker_count && out_idx[i] < out_idx[j]) by {
                assert(out@[i] == out_before[i]);
                assert(out_idx[i] == oi[i]);
                if j == out@.len() - 1 {
                    assert(out@[j] == rest_before[best as int]);
                    assert(out_idx[j] == ri[best as int]);
                } else {
                    assert(out@[j] == out_before[j]);
                    assert(out_idx[j] == oi[j]);
                }
            }
            assert forall|i: int, j: int| #![trigger out@[i], rest@[j]] 0 <= i < out@.len() && 0 <= j < rest@.len() implies out@[i].worker_count
                < rest@[j].worker_count || (out@[i].worker_count == rest@[j].worker_count && out_idx[i] < rest_idx[j]) by {
                let jj = if j < best { j } else { j + 1 };
                assert(rest@[j] == rest_before[jj]);
                assert(rest_idx[j] == ri[jj]);
                if i < out@.len() - 1 {
                    assert(out@[i] == out_before[i]);
                    assert(out_idx[i] == oi[i]);
                }
                if i == out@.len() - 1 {
                    assert(out@[i] == rest_before[best as int]);
                    assert(out_idx[i] == ri[best as int]);
                    assert(rest_before[best as int].worker_count <= rest_before[jj].worker_count);
                    if jj < best {
                        assert(rest_before[best as int].worker_count < rest_before[jj].worker_count);
                    } else {
                        assert(ri[best as int] < ri[jj]);
                    }
                }
            }
        }
    }
    proof {
        assert forall|q: int| 0 <= q < n implies #[trigger] occurs(out_idx, q) by {
            assert(occurs(out_idx, q) || occurs(rest_idx, q));
        }
        assert(is_permutation(out_idx, n));
        assert(forall|i: int| 0 <= i < out@.len() ==> #[trigger] out@[i] == v0[out_idx[i]]);
    }
    out
}

/// The samples of profile `profile_id`, ordered by worker count (stably).
pub fn benchmark_rows(profile_id: &str, samples: &[BenchmarkSample]) -> (r: Vec<BenchmarkSample>)
    ensures
        stably_sorted_by_workers(r@, samples_of(samples@, profile_id@)),
{
    let ghost pred = |s: BenchmarkSample| s.profile_id@ == profile_id@;
    let mut rows: Vec<BenchmarkSample> = Vec::new();
    let mut k: usize = 0;
    while k < samples.len()
        invariant
            k <= samples@.len(),
            pred == (|s: BenchmarkSample| s.profile_id@ == profile_id@),
            rows@ == samples@.subrange(0, k as int).filter(pred),
        decreases samples@.len() - k,
    {
        proof {
            let pre = samples@.subrange(0, k as int + 1);
            assert(pre.drop_last() =~= samples@.subrange(0, k as int));
            assert(pre.last() == samples@[k as int]);
            samples@.subrange(0, k as int).lemma_filter_push(samples@[k as int], pred);
            assert(pre =~= samples@.subrange(0, k as int).push(samples@[k as int]));
        }
        if str_eq(samples[k].profile_id.as_str(), profile_id) {
            rows.push(samples[k].copied());
        }
        k = k + 1;
    }
    assert(samples@.subrange(0, samples@.len() as int) =~= samples@);
    stable_sort_by_workers(rows)
}

/// The measurement at the middle position (index `n / 2`) of `values` put
/// in ascending order, as `f64::total_cmp` orders the bit patterns.
pub fn median_bits(values: &Vec<u64>) -> (r: u64)
    requires
        values@.len() > 0,
    ensures
        exists|asc: Seq<u64>|
            #[trigger] is_rearrangement(asc, values@) && asc.len() == values@.len() && (forall|i: int, j: int|
                0 <= i < j < asc.len() ==> score_key(#[trigger] asc[i]) <= score_key(#[trigger] asc[j])) && r
                == asc[(values@.len() / 2) as int],
{
    let n = values.len();
    let mut pairs: Vec<(String, u64)> = Vec::new();
    let mut k: usize = 0;
    while k < n
        invariant
            n == values@.len(),
            k <= n,
            pairs@.len() == k,
            forall|j: int| 0 <= j < k ==> (#[trigger] pairs@[j]).1 == values@[j] && pairs@[j].0@ == Seq::<char>::empty(),
        decreases n - k,
    {
        pairs.push((String::new(), values[k]));
        k = k + 1;
    }
    let ghost p0 = pairs@;
    let sorted = sort_entries(pairs, true);
    let ghost perm = choose|perm: Seq<int>|
        is_permutation(perm, p0.len()) && forall|i: int| 0 <= i < sorted@.len() ==> #[trigger] sorted@[i] == p0[perm[i]];
    let r = sorted[n - 1 - n / 2].1;
    proof {
        let asc = Seq::new(n as nat, |i: int| sorted@[n - 1 - i].1);
        let aperm = Seq::new(n as nat, |i: int| perm[n - 1 - i]);
        assert(is_permutation(aperm, values@.len())) by {
            assert forall|q: int| 0 <= q < n implies #[trigger] occurs(aperm, q) by {
                assert(occurs(perm, q));
                let i = choose|i: int| 0 <= i < perm.len() && perm[i] == q;
                assert(aperm[n - 1 - i] == q);
            }
        }
        assert forall|i: int| 0 <= i < asc.len() implies #[trigger] asc[i] == values@[aperm[i]] by {
            assert(sorted@[n - 1 - i] == p0[perm[n - 1 - i]]);
        }
        assert(is_rearrangement(asc, values@));
        assert forall|i: int, j: int| 0 <= i < j < asc.len() implies score_key(#[trigger] asc[i]) <= score_key(
            #[trigger] asc[j],
        ) by {
            assert(!crate::keyed::entry_lt(sorted@[n - 1 - i], sorted@[n - 1 - j], true));
            assert(sorted@[n - 1 - i].0@ == Seq::<char>::empty()) by {
                assert(sorted@[n - 1 - i] == p0[perm[n - 1 - i]]);
            }
            assert(sorted@[n - 1 - j].0@ == Seq::<char>::empty()) by {
                assert(sorted@[n - 1 - j] == p0[perm[n - 1 - j]]);
            }
            crate::keyed::lemma_text_lt_irreflexive(Seq::<char>::empty());
        }
        assert(r == asc[(n / 2) as int]);
    }
    r
}

} // verus!
