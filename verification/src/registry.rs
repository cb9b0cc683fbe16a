//! Registry of metric profiles per industry vertical, and the compatibility
//! relation between profiles.
//!
//! Two profiles are compatible when their schema versions share a non-empty
//! major component and they support at least one common algorithm. The
//! quality floor of a profile is an `f64` held as its IEEE-754 bit pattern.

use vstd::prelude::*;

use crate::base::schema_compat::{lemma_sorted_unique, strictly_sorted};
use crate::keyed::{StrMap, is_permutation, lemma_text_lt_irreflexive, sort_entries, str_eq, text_lt};
use crate::verifiers::{in_unit_interval, unit_interval};

verus! {

/// Quality and latency expectations of one vertical.
#[derive(Debug, Clone)]
pub struct MetricProfile {
    pub profile_id: String,
    pub vertical: String,
    pub schema_version: String,
    pub supported_algorithms: Vec<String>,
    pub max_latency_ms: u64,
    pub min_quality_score_bits: u64,
}

/// Why the registry refused a request.
#[derive(Debug, PartialEq, Eq, Structural)]
pub enum RegistryError {
    DuplicateProfile,
    InvalidProfile,
    ProfileNotFound,
}

/// The index of the first `.` in `s`, or its length.
pub open spec fn first_dot(s: Seq<char>) -> int
    decreases s.len(),
{
    if s.len() == 0 {
        0
    } else if s[0] == '.' {
        0
    } else {
        1 + first_dot(s.drop_first())
    }
}

/// The major component of a version: the text before the first `.`.
pub open spec fn major(s: Seq<char>) -> Seq<char> {
    s.subrange(0, first_dot(s))
}

proof fn lemma_first_dot(s: Seq<char>)
    ensures
        0 <= first_dot(s) <= s.len(),
        forall|i: int| 0 <= i < first_dot(s) ==> s[i] != '.',
        first_dot(s) < s.len() ==> s[first_dot(s)] == '.',
    decreases s.len(),
{
    if s.len() > 0 && s[0] != '.' {
        lemma_first_dot(s.drop_first());
        assert forall|i: int| 0 <= i < first_dot(s) implies s[i] != '.' by {
            if i > 0 {
                assert(s[i] == s.drop_first()[i - 1]);
            }
        }
    }
}

/// Two versions share a non-empty major component.
pub open spec fn same_major(a: Seq<char>, b: Seq<char>) -> bool {
    major(a).len() > 0 && major(a) == major(b)
}

/// Some algorithm of `a` is also an algorithm of `b`.
pub open spec fn share_algorithm(a: Seq<String>, b: Seq<String>) -> bool {
    exists|i: int, j: int| 0 <= i < a.len() && 0 <= j < b.len() && #[trigger] a[i]@ == #[trigger] b[j]@
}

/// Profiles `a` and `b` can serve the same jobs.
pub open spec fn compatible(a: MetricProfile, b: MetricProfile) -> bool {
    same_major(a.schema_version@, b.schema_version@) && share_algorithm(
        a.supported_algorithms@,
        b.supported_algorithms@,
    )
}

/// A profile the registry accepts: named, with a vertical, a schema version
/// and at least one algorithm, and a quality floor in `[0, 1]`.
pub open spec fn profile_valid(p: MetricProfile) -> bool {
    &&& p.profile_id@.len() > 0
    &&& p.vertical@.len() > 0
    &&& p.schema_version@.len() > 0
    &&& p.supported_algorithms@.len() > 0
    &&& unit_interval(p.min_quality_score_bits)
}

/// The major component of a version string.
fn major_end(s: &str) -> (r: usize)
    ensures
        r == first_dot(s@),
{
    proof {
        lemma_first_dot(s@);
    }
    let n = s.unicode_len();
    let mut i: usize = 0;
    while i < n
        invariant
            n == s@.len(),
            i <= n,
            forall|j: int| 0 <= j < i ==> s@[j] != '.',
            0 <= first_dot(s@) <= s@.len(),
            forall|j: int| 0 <= j < first_dot(s@) ==> s@[j] != '.',
            first_dot(s@) < s@.len() ==> s@[first_dot(s@)] == '.',
        decreases n - i,
    {
        if s.get_char(i) == '.' {
            return i;
        }
        i = i + 1;
    }
    i
}

/// Whether two versions share a non-empty major component.
pub fn same_major_version(a: &str, b: &str) -> (r: bool)
    ensures
        r == same_major(a@, b@),
{
    let ea = major_end(a);
    let eb = major_end(b);
    proof {
        lemma_first_dot(a@);
        lemma_first_dot(b@);
    }
    let ma = a.substring_char(0, ea);
    let mb = b.substring_char(0, eb);
    ea > 0 && str_eq(ma, mb)
}

/// Whether profiles `a` and `b` are compatible.
pub fn are_profiles_compatible(a: &MetricProfile, b: &MetricProfile) -> (r: bool)
    ensures
        r == compatible(*a, *b),
{
    if !same_major_version(a.schema_version.as_str(), b.schema_version.as_str()) {
        return false;
    }
    let mut i: usize = 0;
    while i < a.supported_algorithms.len()
        invariant
            same_major(a.schema_version@, b.schema_version@),
            i <= a.supported_algorithms@.len(),
            forall|x: int, y: int|
                0 <= x < i && 0 <= y < b.supported_algorithms@.len() ==> #[trigger] a.supported_algorithms@[x]@
                    != #[trigger] b.supported_algorithms@[y]@,
        decreases a.supported_algorithms@.len() - i,
    {
        let mut j: usize = 0;
        while j < b.supported_algorithms.len()
            invariant
                same_major(a.schema_version@, b.schema_version@),
                i < a.supported_algorithms@.len(),
                j <= b.supported_algorithms@.len(),
                forall|x: int, y: int|
                    0 <= x < i && 0 <= y < b.supported_algorithms@.len() ==> #[trigger] a.supported_algorithms@[x]@
                        != #[trigger] b.supported_algorithms@[y]@,
                forall|y: int| 0 <= y < j ==> a.supported_algorithms@[i as int]@ != #[trigger] b.supported_algorithms@[y]@,
            decreases b.supported_algorithms@.len() - j,
        {
            if str_eq(a.supported_algorithms[i].as_str(), b.supported_algorithms[j].as_str()) {
                assert(a.supported_algorithms@[i as int]@ == b.supported_algorithms@[j as int]@);
                return true;
            }
            j = j + 1;
        }
        i = i + 1;
    }
    false
}

/// Compatibility does not depend on the order of the two profiles.
pub proof fn law_compatibility_is_symmetric(a: MetricProfile, b: MetricProfile)
    ensures
        compatible(a, b) == compatible(b, a),
{
    if share_algorithm(a.supported_algorithms@, b.supported_algorithms@) {
        let (i, j) = choose|i: int, j: int|
            0 <= i < a.supported_algorithms@.len() && 0 <= j < b.supported_algorithms@.len()
                && #[trigger] a.supported_algorithms@[i]@ == #[trigger] b.supported_algorithms@[j]@;
        assert(b.supported_algorithms@[j]@ == a.supported_algorithms@[i]@);
    }
    if share_algorithm(b.supported_algorithms@, a.supported_algorithms@) {
        let (i, j) = choose|i: int, j: int|
            0 <= i < b.supported_algorithms@.len() && 0 <= j < a.supported_algorithms@.len()
                && #[trigger] b.supported_algorithms@[i]@ == #[trigger] a.supported_algorithms@[j]@;
        assert(a.supported_algorithms@[j]@ == b.supported_algorithms@[i]@);
    }
}

/// The major component of a version is its text before the first `.`: for
/// a dot-free `p`, both `p` and `p.rest` have major `p`; so two versions
/// `p.ra` and `q.rb` share their major exactly when `p == q` is non-empty.
pub proof fn law_major_is_text_before_first_dot(p: Seq<char>, q: Seq<char>, ra: Seq<char>, rb: Seq<char>)
    requires
        forall|i: int| 0 <= i < p.len() ==> p[i] != '.',
        forall|i: int| 0 <= i < q.len() ==> q[i] != '.',
    ensures
        major(p) == p,
        major(p + "."@ + ra) == p,
        same_major(p + "."@ + ra, q + "."@ + rb) <==> (p.len() > 0 && p == q),
{
    reveal_strlit(".");
    let a = p + "."@ + ra;
    let b = q + "."@ + rb;
    lemma_first_dot(p);
    lemma_first_dot(a);
    lemma_first_dot(b);
    assert(first_dot(p) == p.len()) by {
        if first_dot(p) < p.len() {
            assert(p[first_dot(p)] == '.');
        }
    }
    assert(p.subrange(0, p.len() as int) =~= p);
    assert(a[p.len() as int] == '.');
    assert(first_dot(a) == p.len()) by {
        if first_dot(a) < p.len() {
            assert(a[first_dot(a)] == p[first_dot(a)]);
        }
        if first_dot(a) > p.len() {
            assert(a[p.len() as int] != '.');
        }
    }
    assert(b[q.len() as int] == '.');
    assert(first_dot(b) == q.len()) by {
        if first_dot(b) < q.len() {
            assert(b[first_dot(b)] == q[first_dot(b)]);
        }
        if first_dot(b) > q.len() {
            assert(b[q.len() as int] != '.');
        }
    }
    assert(major(a) =~= p);
    assert(major(b) =~= q);
}

/// The names of a profile's algorithms.
pub open spec fn algorithm_names(p: MetricProfile) -> Seq<Seq<char>> {
    p.supported_algorithms@.map_values(|s: String| s@)
}

/// Two profiles are compatible exactly when their schema versions share a
/// non-empty major component and some algorithm name is supported by both,
/// wherever it stands in either list.
pub proof fn law_compatible_iff_common_algorithm(a: MetricProfile, b: MetricProfile)
    ensures
        compatible(a, b) <==> (same_major(a.schema_version@, b.schema_version@) && exists|x: Seq<char>|
            #[trigger] algorithm_names(a).contains(x) && algorithm_names(b).contains(x)),
{
    let na = algorithm_names(a);
    let nb = algorithm_names(b);
    if share_algorithm(a.supported_algorithms@, b.supported_algorithms@) {
        let (i, j) = choose|i: int, j: int|
            0 <= i < a.supported_algorithms@.len() && 0 <= j < b.supported_algorithms@.len()
                && #[trigger] a.supported_algorithms@[i]@ == #[trigger] b.supported_algorithms@[j]@;
        assert(na[i] == a.supported_algorithms@[i]@);
        assert(nb[j] == b.supported_algorithms@[j]@);
        assert(na.contains(na[i]));
        assert(nb.contains(na[i]));
    }
    if exists|x: Seq<char>| #[trigger] na.contains(x) && nb.contains(x) {
        let x = choose|x: Seq<char>| #[trigger] na.contains(x) && nb.contains(x);
        let i = choose|i: int| 0 <= i < na.len() && na[i] == x;
        let j = choose|j: int| 0 <= j < nb.len() && nb[j] == x;
        assert(a.supported_algorithms@[i]@ == b.supported_algorithms@[j]@);
    }
}

/// Compatibility depends only on which algorithm names a profile lists,
/// not on their order: replacing `a` by a profile with the same schema
/// version and the same set of algorithm names keeps the verdict.
pub proof fn law_compatibility_ignores_algorithm_order(a: MetricProfile, a2: MetricProfile, b: MetricProfile)
    requires
        a2.schema_version@ == a.schema_version@,
        forall|x: Seq<char>| #[trigger] algorithm_names(a).contains(x) <==> algorithm_names(a2).contains(x),
    ensures
        compatible(a, b) == compatible(a2, b),
        compatible(b, a) == compatible(b, a2),
{
    law_compatible_iff_common_algorithm(a, b);
    law_compatible_iff_common_algorithm(a2, b);
    law_compatibility_is_symmetric(a, b);
    law_compatibility_is_symmetric(a2, b);
    if compatible(a, b) {
        let x = choose|x: Seq<char>| #[trigger] algorithm_names(a).contains(x) && algorithm_names(b).contains(x);
        assert(algorithm_names(a2).contains(x));
    }
    if compatible(a2, b) {
        let x = choose|x: Seq<char>| #[trigger] algorithm_names(a2).contains(x) && algorithm_names(b).contains(x);
        assert(algorithm_names(a).contains(x));
    }
}

/// The profile ids of `l`, in order.
pub open spec fn ids_of(l: Seq<MetricProfile>) -> Seq<Seq<char>> {
    l.map_values(|p: MetricProfile| p.profile_id@)
}

/// The compatible pairs `(l[i], l[j])` with `i < j < k`, for a fixed `i`,
/// in order of `j`.
pub open spec fn pair_row(l: Seq<MetricProfile>, i: int, k: int) -> Seq<(Seq<char>, Seq<char>)>
    decreases k - i,
{
    if k <= i + 1 {
        Seq::empty()
    } else if compatible(l[i], l[k - 1]) {
        pair_row(l, i, k - 1).push((l[i].profile_id@, l[k - 1].profile_id@))
    } else {
        pair_row(l, i, k - 1)
    }
}

/// The compatible pairs `(l[i], l[j])` with `i < j` and `i < m`, ordered by
/// `i` then `j`.
pub open spec fn pairs_upto(l: Seq<MetricProfile>, m: int) -> Seq<(Seq<char>, Seq<char>)>
    decreases m,
{
    if m <= 0 {
        Seq::empty()
    } else {
        pairs_upto(l, m - 1) + pair_row(l, m - 1, l.len() as int)
    }
}

/// The id text of a profile.
pub open spec fn profile_key(p: MetricProfile) -> Seq<char> {
    p.profile_id@
}

/// The registered profiles.
pub struct MetricProfileRegistry {
    profiles: StrMap<MetricProfile>,
}

impl MetricProfileRegistry {
    /// The profiles by id.
    pub closed spec fn profile_map(&self) -> Map<Seq<char>, MetricProfile> {
        self.profiles.map()
    }

    /// How many profiles are registered.
    pub closed spec fn count(&self) -> nat {
        self.profiles.size()
    }

    /// Each profile is filed under its own id, once.
    pub closed spec fn wf(&self) -> bool {
        &&& self.profiles.wf()
        &&& forall|i: int| 0 <= i < self.profiles.size() ==> #[trigger] self.profiles.key_at(i) == self.profiles.value_at(i).profile_id@
    }

    /// `l` lists the registered profiles by id.
    pub open spec fn is_listing(&self, l: Seq<MetricProfile>) -> bool {
        &&& l.len() == self.count()
        &&& strictly_sorted(ids_of(l))
        &&& forall|i: int| 0 <= i < l.len() ==> #[trigger] self.profile_map().contains_key(l[i].profile_id@)
            && self.profile_map()[l[i].profile_id@] == l[i]
        &&& forall|k: Seq<char>| #[trigger] self.profile_map().contains_key(k) ==> exists|i: int| 0 <= i < l.len() && l[i].profile_id@ == k
    }

    /// An empty registry.
    pub fn new() -> (r: Self)
        ensures
            r.wf(),
            r.count() == 0,
            r.profile_map() == Map::<Seq<char>, MetricProfile>::empty(),
    {
        MetricProfileRegistry { profiles: StrMap::new() }
    }

    /// Registers a new, valid profile under its id.
    pub fn register_profile(&mut self, profile: MetricProfile) -> (r: Result<(), RegistryError>)
        requires
            old(self).wf(),
        ensures
            final(self).wf(),
            old(self).profile_map().contains_key(profile.profile_id@) ==> r == Err::<(), RegistryError>(
                RegistryError::DuplicateProfile,
            ) && *final(self) == *old(self),
            !old(self).profile_map().contains_key(profile.profile_id@) && !profile_valid(profile) ==> r == Err::<
                (),
                RegistryError,
            >(RegistryError::InvalidProfile) && *final(self) == *old(self),
            !old(self).profile_map().contains_key(profile.profile_id@) && profile_valid(profile) ==> r is Ok
                && final(self).profile_map() == old(self).profile_map().insert(profile.profile_id@, profile)
                && final(self).count() == old(self).count() + 1,
    {
        if self.profiles.find(profile.profile_id.as_str()).is_some() {
            return Err(RegistryError::DuplicateProfile);
        }
        if profile.profile_id.as_str().is_empty() || profile.vertical.as_str().is_empty()
            || profile.schema_version.as_str().is_empty() || profile.supported_algorithms.len() == 0
            || !in_unit_interval(profile.min_quality_score_bits) {
            return Err(RegistryError::InvalidProfile);
        }
        let ghost before = self.profiles;
        let key = profile.profile_id.clone();
        let ghost p = profile;
        self.profiles.insert(key, profile);
        proof {
            assert forall|i: int| 0 <= i < self.profiles.size() implies #[trigger] self.profiles.key_at(i)
                == self.profiles.value_at(i).profile_id@ by {
                assert(self.profiles.keys()[i] == self.profiles.key_at(i));
                assert(self.profiles.values()[i] == self.profiles.value_at(i));
                assert(self.profiles.keys() == before.keys().push(profile_key(p)));
                assert(self.profiles.values() == before.values().push(p));
                assert(self.profiles.keys().len() == self.profiles.size());
                assert(before.keys().len() == before.size());
                if i < before.size() {
                    assert(before.keys()[i] == before.key_at(i));
                    assert(before.values()[i] == before.value_at(i));
                } else {
                    assert(i == before.size());
                }
            }
            assert(self.profiles.keys() == before.keys().push(profile_key(p)));
            assert(self.profiles.keys().len() == self.profiles.size());
            assert(before.keys().len() == before.size());
        }
        Ok(())
    }

    /// The profile registered under `profile_id`.
    pub fn get_profile(&self, profile_id: &str) -> (r: Result<&MetricProfile, RegistryError>)
        requires
            self.wf(),
        ensures
            self.profile_map().contains_key(profile_id@) ==> (r matches Ok(p) && *p == self.profile_map()[profile_id@]),
            !self.profile_map().contains_key(profile_id@) ==> (r matches Err(e) && e == RegistryError::ProfileNotFound),
    {
        match self.profiles.get(profile_id) {
            Some(p) => Ok(p),
            None => Err(RegistryError::ProfileNotFound),
        }
    }

    /// The registered profiles, ordered by id.
    pub fn list_profiles(&self) -> (r: Vec<&MetricProfile>)
        requires
            self.wf(),
        ensures
            self.is_listing(r@.map_values(|p: &MetricProfile| *p)),
    {
        let n = self.profiles.len();
        let mut keyed: Vec<(String, u64)> = Vec::new();
        let mut k: usize = 0;
        while k < n
            invariant
                n == self.profiles.size(),
                k <= n,
                keyed@.len() == k,
                forall|j: int| 0 <= j < k ==> #[trigger] keyed@[j].0@ == self.profiles.key_at(j) && keyed@[j].1 == j,
            decreases n - k,
        {
            keyed.push((self.profiles.key_ref(k).clone(), k as u64));
            k = k + 1;
        }
        let ghost k0 = keyed@;
        let sorted = sort_entries(keyed, false);
        let ghost perm = choose|perm: Seq<int>|
            is_permutation(perm, k0.len()) && forall|i: int| 0 <= i < sorted@.len() ==> #[trigger] sorted@[i] == k0[perm[i]];
        let mut out: Vec<&MetricProfile> = Vec::new();
        let mut q: usize = 0;
        while q < sorted.len()
            invariant
                n == self.profiles.size(),
                sorted@.len() == n,
                k0.len() == n,
                is_permutation(perm, k0.len()),
                forall|i: int| 0 <= i < sorted@.len() ==> #[trigger] sorted@[i] == k0[perm[i]],
                forall|j: int| 0 <= j < n ==> (#[trigger] k0[j]).0@ == self.profiles.key_at(j) && k0[j].1 == j,
                q <= n,
                out@.len() == q,
                forall|i: int| 0 <= i < q ==> *(#[trigger] out@[i]) == self.profiles.value_at(perm[i]),
            decreases n - q,
        {
            let idx = sorted[q].1;
            proof {
                assert(sorted@[q as int] == k0[perm[q as int]]);
                assert(0 <= perm[q as int] < n);
                assert(k0[perm[q as int]].1 == perm[q as int]);
            }
            out.push(self.profiles.value_ref(idx as usize));
            q = q + 1;
        }
        proof {
            let l = out@.map_values(|p: &MetricProfile| *p);
            assert forall|i: int| 0 <= i < l.len() implies #[trigger] self.profile_map().contains_key(l[i].profile_id@)
                && self.profile_map()[l[i].profile_id@] == l[i] by {
                let j = perm[i];
                self.profiles.lemma_pos(j);
                assert(self.profiles.key_at(j) == self.profiles.value_at(j).profile_id@);
            }
            assert forall|i: int, j: int| 0 <= i < j < ids_of(l).len() implies text_lt(
                #[trigger] ids_of(l)[i],
                #[trigger] ids_of(l)[j],
            ) by {
                let pi = perm[i];
                let pj = perm[j];
                assert(self.profiles.key_at(pi) == self.profiles.value_at(pi).profile_id@);
                assert(self.profiles.key_at(pj) == self.profiles.value_at(pj).profile_id@);
                assert(!crate::keyed::entry_lt(sorted@[j], sorted@[i], false));
                assert(pi != pj);
                assert(self.profiles.key_at(pi) != self.profiles.key_at(pj));
                crate::keyed::lemma_text_lt_total(self.profiles.key_at(pi), self.profiles.key_at(pj));
            }
            assert forall|key: Seq<char>| #[trigger] self.profile_map().contains_key(key) implies exists|i: int|
                0 <= i < l.len() && l[i].profile_id@ == key by {
                let j = choose|j: int| 0 <= j < self.profiles.size() && self.profiles.key_at(j) == key;
                assert(crate::keyed::occurs(perm, j));
                let i = choose|i: int| 0 <= i < perm.len() && perm[i] == j;
                assert(self.profiles.key_at(j) == self.profiles.value_at(j).profile_id@);
                assert(l[i].profile_id@ == key);
            }
        }
        out
    }

    /// Any two listings of the registry are the same list.
    pub proof fn lemma_listing_unique(&self, a: Seq<MetricProfile>, b: Seq<MetricProfile>)
        requires
            self.is_listing(a),
            self.is_listing(b),
        ensures
            a == b,
    {
        assert forall|x: Seq<char>| ids_of(a).to_set().contains(x) implies ids_of(b).to_set().contains(x) by {
            let i = choose|i: int| 0 <= i < ids_of(a).len() && ids_of(a)[i] == x;
            assert(self.profile_map().contains_key(a[i].profile_id@));
            let j = choose|j: int| 0 <= j < b.len() && b[j].profile_id@ == x;
            assert(ids_of(b)[j] == x);
        }
        assert forall|x: Seq<char>| ids_of(b).to_set().contains(x) implies ids_of(a).to_set().contains(x) by {
            let i = choose|i: int| 0 <= i < ids_of(b).len() && ids_of(b)[i] == x;
            assert(self.profile_map().contains_key(b[i].profile_id@));
            let j = choose|j: int| 0 <= j < a.len() && a[j].profile_id@ == x;
            assert(ids_of(a)[j] == x);
        }
        assert(ids_of(a).to_set() =~= ids_of(b).to_set());
        lemma_sorted_unique(ids_of(a), ids_of(b));
        assert forall|i: int| 0 <= i < a.len() implies a[i] == b[i] by {
            assert(ids_of(a)[i] == ids_of(b)[i]);
            assert(self.profile_map().contains_key(a[i].profile_id@));
            assert(self.profile_map().contains_key(b[i].profile_id@));
        }
        assert(a =~= b);
    }

    /// The compatible pairs of profiles, each unordered pair once, as
    /// `(earlier id, later id)`, ordered by the earlier then the later id.
    pub fn compatible_profile_pairs(&self) -> (r: Vec<(String, String)>)
        requires
            self.wf(),
        ensures
            forall|l: Seq<MetricProfile>| #[trigger] self.is_listing(l) ==> r@.map_values(
                |e: (String, String)| (e.0@, e.1@),
            ) == pairs_upto(l, l.len() as int),
    {
        let profiles = self.list_profiles();
        let ghost l = profiles@.map_values(|p: &MetricProfile| *p);
        let n = profiles.len();
        let mut out: Vec<(String, String)> = Vec::new();
        let mut i: usize = 0;
        while i < n
            invariant
                n == l.len(),
                profiles@.map_values(|p: &MetricProfile| *p) == l,
                i <= n,
                out@.map_values(|e: (String, String)| (e.0@, e.1@)) == pairs_upto(l, i as int),
            decreases n - i,
        {
            let ghost row_start = out@.map_values(|e: (String, String)| (e.0@, e.1@));
            let mut j: usize = i + 1;
            assert(pair_row(l, i as int, j as int) =~= Seq::<(Seq<char>, Seq<char>)>::empty());
            assert(row_start + pair_row(l, i as int, j as int) =~= row_start);
            while j < n
                invariant
                    n == l.len(),
                    profiles@.map_values(|p: &MetricProfile| *p) == l,
                    i < n,
                    i + 1 <= j <= n,
                    out@.map_values(|e: (String, String)| (e.0@, e.1@)) == row_start + pair_row(l, i as int, j as int),
                decreases n - j,
            {
                let a = profiles[i];
                let b = profiles[j];
                let ghost views_before = out@.map_values(|e: (String, String)| (e.0@, e.1@));
                proof {
                    assert(*a == l[i as int]);
                    assert(*b == l[j as int]);
                }
                if are_profiles_compatible(a, b) {
                    out.push((a.profile_id.clone(), b.profile_id.clone()));
                    assert(out@.map_values(|e: (String, String)| (e.0@, e.1@)) =~= views_before.push(
                        (l[i as int].profile_id@, l[j as int].profile_id@),
                    ));
                }
                j = j + 1;
                assert(out@.map_values(|e: (String, String)| (e.0@, e.1@)) =~= row_start + pair_row(
                    l,
                    i as int,
                    j as int,
                ));
            }
            i = i + 1;
            assert(out@.map_values(|e: (String, String)| (e.0@, e.1@)) =~= pairs_upto(l, i as int));
        }
        proof {
            assert forall|m: Seq<MetricProfile>| #[trigger] self.is_listing(m) implies out@.map_values(
                |e: (String, String)| (e.0@, e.1@),
            ) == pairs_upto(m, m.len() as int) by {
                self.lemma_listing_unique(l, m);
            }
        }
        out
    }
}

impl Default for MetricProfileRegistry {
    fn default() -> (r: Self)
        ensures
            r.wf(),
            r.count() == 0,
            r.profile_map() == Map::<Seq<char>, MetricProfile>::empty(),
    {
        Self::new()
    }
}

} // verus!
