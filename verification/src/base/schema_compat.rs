//! Backward-compatibility check between two versions of an object schema.
//!
//! A candidate schema is backward compatible with a baseline when both are
//! object schemas, it requires no field the baseline does not, it keeps every
//! baseline property with the same type and (where both list one) a superset
//! of its enum values, and it does not tighten `additionalProperties` from
//! `true` to `false`.

use vstd::prelude::*;

use crate::base::json::{JsonValue, field, field_ref, lemma_member_present, member, member_ref};
use crate::base::validation::{ValidationIssue, issue_is, outcome_is};
use crate::keyed::{
    lemma_text_lt_asymmetric, lemma_text_lt_irreflexive, lemma_text_lt_total, owned, str_eq, text_less, text_lt,
};
use crate::keyed::{entries_sorted, is_permutation, is_rearrangement, occurs, sort_entries};
use crate::text::push_text;

verus! {

/// The `type` of a schema, where it is a string.
pub open spec fn schema_type(v: JsonValue) -> Option<Seq<char>> {
    match field(v, "type"@) {
        Some(JsonValue::Str(s)) => Some(s@),
        _ => None,
    }
}

/// `v` is the JSON string `s`.
pub open spec fn is_str_of(v: JsonValue, s: Seq<char>) -> bool {
    v matches JsonValue::Str(x) && x@ == s
}

/// Every item is a string.
pub open spec fn all_strings(items: Seq<JsonValue>) -> bool {
    forall|i: int| 0 <= i < items.len() ==> #[trigger] items[i] is Str
}

/// The strings among `items`.
pub open spec fn string_set(items: Seq<JsonValue>) -> Set<Seq<char>> {
    Set::new(|s: Seq<char>| exists|i: int| 0 <= i < items.len() && #[trigger] is_str_of(items[i], s))
}

/// The texts of `names`.
pub open spec fn name_set(names: Seq<String>) -> Set<Seq<char>> {
    Set::new(|s: Seq<char>| exists|i: int| 0 <= i < names.len() && #[trigger] names[i]@ == s)
}

/// The `required` names of a schema, or the issue that reading them raises.
pub open spec fn required_names(v: JsonValue) -> Result<Set<Seq<char>>, (Seq<char>, Seq<char>)> {
    match field(v, "required"@) {
        Some(JsonValue::Array(items)) => if all_strings(items@) {
            Ok(string_set(items@))
        } else {
            Err(("schema.required"@, "required entry must be string"@))
        },
        _ => Err(("schema.required"@, "missing or invalid required array"@)),
    }
}

/// The `enum` values of a property, where it is an array of strings.
pub open spec fn enum_names(v: JsonValue) -> Option<Set<Seq<char>>> {
    match field(v, "enum"@) {
        Some(JsonValue::Array(items)) => if all_strings(items@) {
            Some(string_set(items@))
        } else {
            None
        },
        _ => None,
    }
}

/// The `additionalProperties` flag of a schema, where it is a boolean.
pub open spec fn additional(v: JsonValue) -> Option<bool> {
    match field(v, "additionalProperties"@) {
        Some(JsonValue::Bool(b)) => Some(b),
        _ => None,
    }
}

/// The members of a schema's `properties` object.
pub open spec fn properties(v: JsonValue) -> Option<Seq<(String, JsonValue)>> {
    match field(v, "properties"@) {
        Some(JsonValue::Object(entries)) => Some(entries@),
        _ => None,
    }
}

/// The issue that baseline property `name`, with schema `bprop`, raises
/// against the candidate's properties.
pub open spec fn prop_issue(name: Seq<char>, bprop: JsonValue, cprops: Seq<(String, JsonValue)>) -> Option<
    (Seq<char>, Seq<char>),
> {
    match member(cprops, name) {
        None => Some(("schema.properties."@ + name, "candidate removed existing property"@)),
        Some(cprop) => if schema_type(cprop) != schema_type(bprop) {
            Some(("schema.properties."@ + name + ".type"@, "candidate changed property type"@))
        } else {
            match (enum_names(bprop), enum_names(cprop)) {
                (Some(be), Some(ce)) => if !be.subset_of(ce) {
                    Some(("schema.properties."@ + name + ".enum"@, "candidate removed existing enum values"@))
                } else {
                    None
                },
                _ => None,
            }
        },
    }
}

/// `name` is a baseline property that raises an issue.
#[verifier::opaque]
pub open spec fn failing(bprops: Seq<(String, JsonValue)>, cprops: Seq<(String, JsonValue)>, name: Seq<char>) -> bool {
    &&& member(bprops, name) is Some
    &&& prop_issue(name, member(bprops, name)->0, cprops) is Some
}

/// The first failing baseline property in name order, if any.
pub open spec fn least_failing(bprops: Seq<(String, JsonValue)>, cprops: Seq<(String, JsonValue)>) -> Option<Seq<char>> {
    if exists|name: Seq<char>| #[trigger] failing(bprops, cprops, name) {
        Some(
            choose|name: Seq<char>|
                #[trigger] failing(bprops, cprops, name) && forall|other: Seq<char>|
                    #[trigger] failing(bprops, cprops, other) ==> !text_lt(other, name),
        )
    } else {
        None
    }
}

/// Strictly increasing in text order.
pub open spec fn strictly_sorted(l: Seq<Seq<char>>) -> bool {
    forall|i: int, j: int| 0 <= i < j < l.len() ==> text_lt(#[trigger] l[i], #[trigger] l[j])
}

/// The members of a finite set of names, in text order.
pub open spec fn sorted_names(s: Set<Seq<char>>) -> Seq<Seq<char>> {
    choose|l: Seq<Seq<char>>| strictly_sorted(l) && l.to_set() == s
}

/// `items` joined by `sep`.
pub open spec fn join(items: Seq<Seq<char>>, sep: Seq<char>) -> Seq<char>
    decreases items.len(),
{
    if items.len() == 0 {
        Seq::empty()
    } else if items.len() == 1 {
        items[0]
    } else {
        join(items.drop_last(), sep) + sep + items.last()
    }
}

/// The verdict on `candidate` as a backward-compatible revision of
/// `baseline`: `Ok` or the first issue, as `(target, details)`.
pub open spec fn compat_verdict(baseline: JsonValue, candidate: JsonValue) -> Result<(), (Seq<char>, Seq<char>)> {
    if schema_type(baseline) != Some("object"@) || schema_type(candidate) != Some("object"@) {
        Err(("schema.type"@, "both schemas must be object schemas"@))
    } else {
        match required_names(baseline) {
            Err(e) => Err(e),
            Ok(base_required) => match required_names(candidate) {
                Err(e) => Err(e),
                Ok(cand_required) => {
                    let newly = cand_required.difference(base_required);
                    if !newly.is_empty() {
                        Err(
                            (
                                "schema.required"@,
                                "candidate adds new required fields and breaks backward compatibility: "@ + join(
                                    sorted_names(newly),
                                    ", "@,
                                ),
                            ),
                        )
                    } else {
                        match properties(baseline) {
                            None => Err(("schema.properties"@, "missing or invalid properties object"@)),
                            Some(bprops) => match properties(candidate) {
                                None => Err(("schema.properties"@, "missing or invalid properties object"@)),
                                Some(cprops) => match least_failing(bprops, cprops) {
                                    Some(name) => Err(prop_issue(name, member(bprops, name)->0, cprops)->0),
                                    None => if additional(baseline) == Some(true) && additional(candidate) == Some(
                                        false,
                                    ) {
                                        Err(
                                            (
                                                "schema.additionalProperties"@,
                                                "candidate tightens additionalProperties from true to false"@,
                                            ),
                                        )
                                    } else {
                                        Ok(())
                                    },
                                },
                            },
                        }
                    }
                },
            },
        }
    }
}

/// Two strictly sorted lists with the same members are equal.
pub proof fn lemma_sorted_unique(a: Seq<Seq<char>>, b: Seq<Seq<char>>)
    requires
        strictly_sorted(a),
        strictly_sorted(b),
        a.to_set() == b.to_set(),
    ensures
        a == b,
    decreases a.len(),
{
    if a.len() == 0 {
        if b.len() > 0 {
            assert(b.to_set().contains(b[0]));
        }
        assert(a =~= b);
    } else {
        assert(a.to_set().contains(a[0]));
        assert(b.to_set().contains(a[0]));
        assert(b.len() > 0);
        assert(b.to_set().contains(b[0]));
        assert(a.to_set().contains(b[0]));
        let j = choose|j: int| 0 <= j < b.len() && b[j] == a[0];
        let i = choose|i: int| 0 <= i < a.len() && a[i] == b[0];
        if a[0] != b[0] {
            assert(j > 0 && i > 0);
            assert(text_lt(b[0], b[j]));
            assert(text_lt(a[0], a[i]));
            lemma_text_lt_asymmetric(a[0], b[0]);
        }
        let ta = a.drop_first();
        let tb = b.drop_first();
        assert forall|x: Seq<char>| ta.to_set().contains(x) implies tb.to_set().contains(x) by {
            let k = choose|k: int| 0 <= k < ta.len() && ta[k] == x;
            assert(a[k + 1] == x);
            assert(text_lt(a[0], x));
            lemma_text_lt_irreflexive(x);
            assert(a.to_set().contains(x));
            let m = choose|m: int| 0 <= m < b.len() && b[m] == x;
            assert(m != 0);
            assert(tb[m - 1] == x);
        }
        assert forall|x: Seq<char>| tb.to_set().contains(x) implies ta.to_set().contains(x) by {
            let k = choose|k: int| 0 <= k < tb.len() && tb[k] == x;
            assert(b[k + 1] == x);
            assert(text_lt(b[0], x));
            lemma_text_lt_irreflexive(x);
            assert(b.to_set().contains(x));
            let m = choose|m: int| 0 <= m < a.len() && a[m] == x;
            assert(m != 0);
            assert(ta[m - 1] == x);
        }
        assert(ta.to_set() =~= tb.to_set());
        lemma_sorted_unique(ta, tb);
        assert(a =~= seq![a[0]] + ta);
        assert(b =~= seq![b[0]] + tb);
    }
}

/// The texts of a list of strings.
pub open spec fn texts(v: Seq<String>) -> Seq<Seq<char>> {
    v.map_values(|s: String| s@)
}

/// The `type` of a schema.
fn maybe_type(schema: &JsonValue) -> (r: Option<&str>)
    ensures
        match r {
            Some(t) => schema_type(*schema) == Some(t@),
            None => schema_type(*schema) is None,
        },
{
    match field_ref(schema, "type") {
        Some(JsonValue::Str(t)) => Some(t.as_str()),
        _ => None,
    }
}

/// The strings of `items`, or `None` where some item is not a string.
fn string_items(items: &Vec<JsonValue>) -> (r: Option<Vec<String>>)
    ensures
        r is Some <==> all_strings(items@),
        r matches Some(v) ==> name_set(v@) == string_set(items@),
{
    let mut out: Vec<String> = Vec::new();
    let mut k: usize = 0;
    while k < items.len()
        invariant
            k <= items@.len(),
            out@.len() == k,
            forall|j: int| 0 <= j < k ==> #[trigger] is_str_of(items@[j], out@[j]@),
            forall|j: int| 0 <= j < k ==> #[trigger] items@[j] is Str,
        decreases items@.len() - k,
    {
        match &items[k] {
            JsonValue::Str(t) => {
                out.push(t.clone());
            },
            _ => {
                return None;
            },
        }
        k = k + 1;
    }
    proof {
        assert forall|x: Seq<char>| name_set(out@).contains(x) implies string_set(items@).contains(x) by {
            let j = choose|j: int| 0 <= j < out@.len() && #[trigger] out@[j]@ == x;
            assert(is_str_of(items@[j], x));
        }
        assert forall|x: Seq<char>| string_set(items@).contains(x) implies name_set(out@).contains(x) by {
            let j = choose|j: int| 0 <= j < items@.len() && #[trigger] is_str_of(items@[j], x);
            assert(is_str_of(items@[j], out@[j]@));
            assert(out@[j]@ == x);
        }
        assert(name_set(out@) =~= string_set(items@));
    }
    Some(out)
}

/// The `required` names of a schema.
fn required_set(schema: &JsonValue) -> (r: Result<Vec<String>, ValidationIssue>)
    ensures
        match required_names(*schema) {
            Ok(names) => r matches Ok(v) && name_set(v@) == names,
            Err(e) => r matches Err(i) && i.target@ == e.0 && i.details@ == e.1,
        },
{
    match field_ref(schema, "required") {
        Some(JsonValue::Array(items)) => match string_items(items) {
            Some(v) => Ok(v),
            None => Err(ValidationIssue::new(owned("schema.required"), owned("required entry must be string"))),
        },
        _ => Err(ValidationIssue::new(owned("schema.required"), owned("missing or invalid required array"))),
    }
}

/// The `enum` values of a property schema.
fn enum_values(prop: &JsonValue) -> (r: Option<Vec<String>>)
    ensures
        match enum_names(*prop) {
            Some(names) => r matches Some(v) && name_set(v@) == names,
            None => r is None,
        },
{
    match field_ref(prop, "enum") {
        Some(JsonValue::Array(items)) => string_items(items),
        _ => None,
    }
}

/// The `additionalProperties` flag of a schema.
fn additional_properties(schema: &JsonValue) -> (r: Option<bool>)
    ensures
        r == additional(*schema),
{
    match field_ref(schema, "additionalProperties") {
        Some(JsonValue::Bool(b)) => Some(*b),
        _ => None,
    }
}

/// The members of a schema's `properties` object.
fn properties_map(schema: &JsonValue) -> (r: Result<&Vec<(String, JsonValue)>, ValidationIssue>)
    ensures
        match properties(*schema) {
            Some(entries) => r matches Ok(v) && v@ == entries,
            None => r matches Err(i) && i.target@ == "schema.properties"@ && i.details@
                == "missing or invalid properties object"@,
        },
{
    match field_ref(schema, "properties") {
        Some(JsonValue::Object(entries)) => Ok(entries),
        _ => Err(ValidationIssue::new(owned("schema.properties"), owned("missing or invalid properties object"))),
    }
}

/// Whether `name` is among `names`.
fn contains_name(names: &Vec<String>, name: &str) -> (r: bool)
    ensures
        r == name_set(names@).contains(name@),
{
    let mut k: usize = 0;
    while k < names.len()
        invariant
            k <= names@.len(),
            forall|j: int| 0 <= j < k ==> #[trigger] names@[j]@ != name@,
        decreases names@.len() - k,
    {
        if str_eq(names[k].as_str(), name) {
            return true;
        }
        k = k + 1;
    }
    false
}

/// Whether every name of `a` is among `b`.
fn names_subset(a: &Vec<String>, b: &Vec<String>) -> (r: bool)
    ensures
        r == name_set(a@).subset_of(name_set(b@)),
{
    let mut k: usize = 0;
    while k < a.len()
        invariant
            k <= a@.len(),
            forall|j: int| 0 <= j < k ==> name_set(b@).contains(#[trigger] a@[j]@),
        decreases a@.len() - k,
    {
        if !contains_name(b, a[k].as_str()) {
            assert(name_set(a@).contains(a@[k as int]@));
            return false;
        }
        k = k + 1;
    }
    true
}

/// The names of `names`, without repeats, in text order.
fn sorted_distinct(names: Vec<String>) -> (r: Vec<String>)
    ensures
        strictly_sorted(texts(r@)),
        texts(r@).to_set() == name_set(names@),
{
    let ghost n0 = names@;
    let mut pairs: Vec<(String, u64)> = Vec::new();
    let mut k: usize = 0;
    while k < names.len()
        invariant
            k <= names@.len(),
            names@ == n0,
            pairs@.len() == k,
            forall|j: int| 0 <= j < k ==> #[trigger] pairs@[j].0@ == n0[j]@,
        decreases names@.len() - k,
    {
        pairs.push((names[k].clone(), 0u64));
        k = k + 1;
    }
    let ghost p0 = pairs@;
    let sorted = sort_entries(pairs, false);
    let ghost perm = choose|perm: Seq<int>|
        is_permutation(perm, p0.len()) && forall|i: int| 0 <= i < sorted@.len() ==> #[trigger] sorted@[i] == p0[perm[i]];
    let mut out: Vec<String> = Vec::new();
    let mut q: usize = 0;
    while q < sorted.len()
        invariant
            q <= sorted@.len(),
            sorted@.len() == p0.len(),
            entries_sorted(sorted@, false),
            strictly_sorted(texts(out@)),
            forall|x: Seq<char>| texts(out@).to_set().contains(x) <==> exists|j: int| 0 <= j < q && #[trigger] sorted@[j].0@ == x,
            q > 0 ==> out@.len() > 0 && out@.last()@ == sorted@[q - 1].0@,
            q == 0 ==> out@.len() == 0,
        decreases sorted@.len() - q,
    {
        let ghost before = out@;
        let push = if out.len() == 0 {
            true
        } else {
            !str_eq(out[out.len() - 1].as_str(), sorted[q].0.as_str())
        };
        if push {
            out.push(sorted[q].0.clone());
            proof {
                if before.len() > 0 {
                    let last = before.last()@;
                    assert(!text_lt(sorted@[q as int].0@, last)) by {
                        assert(!crate::keyed::entry_lt(sorted@[q as int], sorted@[q - 1], false));
                    }
                    lemma_text_lt_total(last, sorted@[q as int].0@);
                    assert forall|i: int, j: int| 0 <= i < j < texts(out@).len() implies text_lt(
                        #[trigger] texts(out@)[i],
                        #[trigger] texts(out@)[j],
                    ) by {
                        if j == texts(out@).len() - 1 && i < j {
                            if i < before.len() - 1 {
                                assert(text_lt(texts(before)[i], texts(before)[before.len() - 1]));
                                crate::keyed::lemma_text_lt_transitive(texts(before)[i], last, sorted@[q as int].0@);
                            }
                        } else {
                            assert(texts(out@)[i] == texts(before)[i]);
                            assert(texts(out@)[j] == texts(before)[j]);
                        }
                    }
                }
            }
        }
        proof {
            assert forall|x: Seq<char>| texts(out@).to_set().contains(x) <==> exists|j: int|
                0 <= j < q + 1 && #[trigger] sorted@[j].0@ == x by {
                if texts(out@).to_set().contains(x) {
                    let i = choose|i: int| 0 <= i < texts(out@).len() && texts(out@)[i] == x;
                    if push && i == out@.len() - 1 {
                        assert(sorted@[q as int].0@ == x);
                    } else {
                        assert(texts(before)[i] == x);
                        assert(texts(before).to_set().contains(x));
                    }
                }
                if exists|j: int| 0 <= j < q + 1 && #[trigger] sorted@[j].0@ == x {
                    let j = choose|j: int| 0 <= j < q + 1 && #[trigger] sorted@[j].0@ == x;
                    if j < q {
                        assert(texts(before).to_set().contains(x));
                        let i = choose|i: int| 0 <= i < texts(before).len() && texts(before)[i] == x;
                        assert(texts(out@)[i] == x);
                    } else if push {
                        assert(texts(out@)[out@.len() - 1] == x);
                    } else {
                        assert(texts(out@)[out@.len() - 1] == x);
                    }
                }
            }
        }
        q = q + 1;
    }
    proof {
        assert forall|x: Seq<char>| texts(out@).to_set().contains(x) implies name_set(n0).contains(x) by {
            let j = choose|j: int| 0 <= j < sorted@.len() && #[trigger] sorted@[j].0@ == x;
            assert(sorted@[j] == p0[perm[j]]);
            assert(n0[perm[j]]@ == x);
        }
        assert forall|x: Seq<char>| name_set(n0).contains(x) implies texts(out@).to_set().contains(x) by {
            let j = choose|j: int| 0 <= j < n0.len() && #[trigger] n0[j]@ == x;
            assert(occurs(perm, j));
            let i = choose|i: int| 0 <= i < perm.len() && perm[i] == j;
            assert(sorted@[i] == p0[j]);
            assert(sorted@[i].0@ == x);
        }
        assert(texts(out@).to_set() =~= name_set(n0));
    }
    out
}

/// Appends `items` joined by `sep`.
pub(crate) fn push_join(out: &mut String, items: &Vec<String>, sep: &str)
    ensures
        final(out)@ == old(out)@ + join(texts(items@), sep@),
{
    let ghost start = out@;
    let mut k: usize = 0;
    while k < items.len()
        invariant
            k <= items@.len(),
            out@ == start + join(texts(items@).subrange(0, k as int), sep@),
        decreases items@.len() - k,
    {
        if k > 0 {
            push_text(out, sep);
        }
        push_text(out, items[k].as_str());
        proof {
            let pre = texts(items@).subrange(0, k as int + 1);
            assert(pre.drop_last() =~= texts(items@).subrange(0, k as int));
            if k == 0 {
                assert(texts(items@).subrange(0, 0) =~= Seq::<Seq<char>>::empty());
            }
        }
        k = k + 1;
        assert(out@ =~= start + join(texts(items@).subrange(0, k as int), sep@));
    }
    assert(texts(items@).subrange(0, items@.len() as int) =~= texts(items@));
}

/// The issue that baseline property `name` raises, if any.
fn prop_check(name: &str, bprop: &JsonValue, cprops: &Vec<(String, JsonValue)>) -> (r: Option<ValidationIssue>)
    ensures
        match prop_issue(name@, *bprop, cprops@) {
            Some(e) => r matches Some(i) && i.target@ == e.0 && i.details@ == e.1,
            None => r is None,
        },
{
    let cprop = match member_ref(cprops, name) {
        Some(c) => c,
        None => {
            let mut target = owned("schema.properties.");
            push_text(&mut target, name);
            return Some(ValidationIssue::new(target, owned("candidate removed existing property")));
        },
    };
    let ct = maybe_type(cprop);
    let bt = maybe_type(bprop);
    let same_type = match (ct, bt) {
        (Some(x), Some(y)) => str_eq(x, y),
        (None, None) => true,
        _ => false,
    };
    if !same_type {
        let mut target = owned("schema.properties.");
        push_text(&mut target, name);
        push_text(&mut target, ".type");
        return Some(ValidationIssue::new(target, owned("candidate changed property type")));
    }
    match (enum_values(bprop), enum_values(cprop)) {
        (Some(be), Some(ce)) => {
            if !names_subset(&be, &ce) {
                let mut target = owned("schema.properties.");
                push_text(&mut target, name);
                push_text(&mut target, ".enum");
                Some(ValidationIssue::new(target, owned("candidate removed existing enum values")))
            } else {
                None
            }
        },
        _ => None,
    }
}

/// The issue of the first failing baseline property in name order.
fn first_property_issue(bprops: &Vec<(String, JsonValue)>, cprops: &Vec<(String, JsonValue)>) -> (r: Option<
    ValidationIssue,
>)
    ensures
        match least_failing(bprops@, cprops@) {
            Some(name) => r matches Some(i) && issue_is(i, prop_issue(name, member(bprops@, name)->0, cprops@)->0),
            None => r is None,
        },
{
    let mut best: Option<(usize, ValidationIssue)> = None;
    let mut k: usize = 0;
    while k < bprops.len()
        invariant
            k <= bprops@.len(),
            best matches Some(b) ==> {
                let nm = bprops@[b.0 as int].0@;
                &&& b.0 < k
                &&& failing(bprops@, cprops@, nm)
                &&& issue_is(b.1, prop_issue(nm, member(bprops@, nm)->0, cprops@)->0)
                &&& forall|j: int| 0 <= j < k && #[trigger] failing(bprops@, cprops@, bprops@[j].0@) ==> !text_lt(bprops@[j].0@, nm)
            },
            best is None ==> forall|j: int| 0 <= j < k ==> !#[trigger] failing(bprops@, cprops@, bprops@[j].0@),
        decreases bprops@.len() - k,
    {
        let name = bprops[k].0.as_str();
        proof {
            reveal(failing);
            lemma_member_present(bprops@, name@);
            assert(bprops@[k as int].0@ == name@);
        }
        let bprop = match member_ref(bprops, name) {
            Some(b) => b,
            None => {
                proof {
                    assert(false);
                }
                return None;
            },
        };
        match prop_check(name, bprop, cprops) {
            Some(issue) => {
                let better = match &best {
                    Some(b) => text_less(name, bprops[b.0].0.as_str()),
                    None => true,
                };
                proof {
                    if best is Some {
                        let b = best->0;
                        let nm = bprops@[b.0 as int].0@;
                        if !better {
                            // `name` is not before the current best; the best stays least.
                            assert(!text_lt(name@, nm));
                        } else {
                            assert forall|j: int|
                                0 <= j < k + 1 && #[trigger] failing(bprops@, cprops@, bprops@[j].0@) implies !text_lt(
                                bprops@[j].0@,
                                name@,
                            ) by {
                                if j < k {
                                    assert(!text_lt(bprops@[j].0@, nm));
                                    if text_lt(bprops@[j].0@, name@) {
                                        crate::keyed::lemma_text_lt_transitive(bprops@[j].0@, name@, nm);
                                    }
                                } else {
                                    lemma_text_lt_irreflexive(name@);
                                }
                            }
                        }
                    } else {
                        assert forall|j: int|
                            0 <= j < k + 1 && #[trigger] failing(bprops@, cprops@, bprops@[j].0@) implies !text_lt(
                            bprops@[j].0@,
                            name@,
                        ) by {
                            lemma_text_lt_irreflexive(name@);
                        }
                    }
                }
                if better {
                    best = Some((k, issue));
                }
            },
            None => {},
        }
        k = k + 1;
    }
    match best {
        Some(b) => {
            proof {
                lemma_least_failing_is(bprops@, cprops@, bprops@[b.0 as int].0@);
            }
            Some(b.1)
        },
        None => {
            proof {
                lemma_least_failing_none(bprops@, cprops@);
            }
            None
        },
    }
}

/// A failing property that no failing property name precedes is the least.
proof fn lemma_least_failing_is(bprops: Seq<(String, JsonValue)>, cprops: Seq<(String, JsonValue)>, nm: Seq<char>)
    requires
        failing(bprops, cprops, nm),
        forall|j: int| 0 <= j < bprops.len() && #[trigger] failing(bprops, cprops, bprops[j].0@) ==> !text_lt(bprops[j].0@, nm),
    ensures
        least_failing(bprops, cprops) == Some(nm),
{
    assert(exists|x: Seq<char>| #[trigger] failing(bprops, cprops, x));
    assert forall|other: Seq<char>| #[trigger] failing(bprops, cprops, other) implies !text_lt(other, nm) by {
        assert(member(bprops, other) is Some) by {
            reveal(failing);
        }
        lemma_member_present(bprops, other);
        let j = choose|j: int| 0 <= j < bprops.len() && #[trigger] bprops[j].0@ == other;
        assert(failing(bprops, cprops, bprops[j].0@));
    }
    let c = least_failing(bprops, cprops)->0;
    assert(failing(bprops, cprops, c));
    assert(forall|other: Seq<char>| #[trigger] failing(bprops, cprops, other) ==> !text_lt(other, c));
    assert(member(bprops, c) is Some) by {
        reveal(failing);
    }
    lemma_member_present(bprops, c);
    let jc = choose|j: int| 0 <= j < bprops.len() && #[trigger] bprops[j].0@ == c;
    assert(failing(bprops, cprops, bprops[jc].0@));
    assert(!text_lt(c, nm));
    assert(!text_lt(nm, c));
    if c != nm {
        lemma_text_lt_total(c, nm);
    }
}

/// With no failing property among the members, there is none.
proof fn lemma_least_failing_none(bprops: Seq<(String, JsonValue)>, cprops: Seq<(String, JsonValue)>)
    requires
        forall|j: int| 0 <= j < bprops.len() ==> !#[trigger] failing(bprops, cprops, bprops[j].0@),
    ensures
        least_failing(bprops, cprops) is None,
{
    if exists|x: Seq<char>| #[trigger] failing(bprops, cprops, x) {
        let x = choose|x: Seq<char>| #[trigger] failing(bprops, cprops, x);
        reveal(failing);
        lemma_member_present(bprops, x);
        let j = choose|j: int| 0 <= j < bprops.len() && #[trigger] bprops[j].0@ == x;
        assert(failing(bprops, cprops, bprops[j].0@));
    }
}

/// Checks that `candidate` is a backward-compatible revision of
/// `baseline`, reporting the first issue.
pub fn assert_backward_compatible_schema_values(baseline: &JsonValue, candidate: &JsonValue) -> (r: Result<
    (),
    ValidationIssue,
>)
    ensures
        outcome_is(r, compat_verdict(*baseline, *candidate)),
{
    let bt = maybe_type(baseline);
    let ct = maybe_type(candidate);
    let b_object = match bt {
        Some(t) => str_eq(t, "object"),
        None => false,
    };
    let c_object = match ct {
        Some(t) => str_eq(t, "object"),
        None => false,
    };
    if !b_object || !c_object {
        return Err(ValidationIssue::new(owned("schema.type"), owned("both schemas must be object schemas")));
    }
    let base_required = match required_set(baseline) {
        Ok(v) => v,
        Err(e) => {
            return Err(e);
        },
    };
    let cand_required = match required_set(candidate) {
        Ok(v) => v,
        Err(e) => {
            return Err(e);
        },
    };
    let ghost br = name_set(base_required@);
    let ghost cr = name_set(cand_required@);
    let mut newly: Vec<String> = Vec::new();
    let mut k: usize = 0;
    while k < cand_required.len()
        invariant
            k <= cand_required@.len(),
            br == name_set(base_required@),
            cr == name_set(cand_required@),
            forall|x: Seq<char>| name_set(newly@).contains(x) <==> exists|j: int|
                0 <= j < k && #[trigger] cand_required@[j]@ == x && !br.contains(x),
        decreases cand_required@.len() - k,
    {
        let ghost before = newly@;
        if !contains_name(&base_required, cand_required[k].as_str()) {
            newly.push(cand_required[k].clone());
        }
        proof {
            assert forall|x: Seq<char>| name_set(newly@).contains(x) <==> exists|j: int|
                0 <= j < k + 1 && #[trigger] cand_required@[j]@ == x && !br.contains(x) by {
                if name_set(newly@).contains(x) {
                    let i = choose|i: int| 0 <= i < newly@.len() && #[trigger] newly@[i]@ == x;
                    if i < before.len() {
                        assert(name_set(before).contains(x));
                    }
                }
                if exists|j: int| 0 <= j < k + 1 && #[trigger] cand_required@[j]@ == x && !br.contains(x) {
                    let j = choose|j: int| 0 <= j < k + 1 && #[trigger] cand_required@[j]@ == x && !br.contains(x);
                    if j < k {
                        assert(name_set(before).contains(x));
                        let i = choose|i: int| 0 <= i < before.len() && #[trigger] before[i]@ == x;
                        assert(newly@[i]@ == x);
                    } else {
                        assert(newly@[newly@.len() - 1]@ == x);
                    }
                }
            }
        }
        k = k + 1;
    }
    proof {
        assert(name_set(newly@) =~= cr.difference(br));
    }
    if newly.len() > 0 {
        proof {
            assert(name_set(newly@).contains(newly@[0]@));
        }
        let listed = sorted_distinct(newly);
        proof {
            lemma_sorted_unique(texts(listed@), sorted_names(cr.difference(br)));
        }
        let mut details = owned("candidate adds new required fields and breaks backward compatibility: ");
        push_join(&mut details, &listed, ", ");
        return Err(ValidationIssue::new(owned("schema.required"), details));
    }
    proof {
        assert(cr.difference(br) =~= Set::<Seq<char>>::empty());
    }
    let bprops = match properties_map(baseline) {
        Ok(p) => p,
        Err(e) => {
            return Err(e);
        },
    };
    let cprops = match properties_map(candidate) {
        Ok(p) => p,
        Err(e) => {
            return Err(e);
        },
    };
    match first_property_issue(bprops, cprops) {
        Some(issue) => {
            return Err(issue);
        },
        None => {},
    }
    if additional_properties(baseline) == Some(true) && additional_properties(candidate) == Some(false) {
        return Err(
            ValidationIssue::new(
                owned("schema.additionalProperties"),
                owned("candidate tightens additionalProperties from true to false"),
            ),
        );
    }
    Ok(())
}

/// Checks the schema documents read from the baseline and candidate
/// files: a failed read of the baseline, then of the candidate, is reported
/// as such; otherwise the outcome is that of the compatibility check.
pub fn assert_backward_compatible_schema(
    baseline: Result<JsonValue, ValidationIssue>,
    candidate: Result<JsonValue, ValidationIssue>,
) -> (r: Result<(), ValidationIssue>)
    ensures
        baseline matches Err(e) ==> r == Err::<(), ValidationIssue>(e),
        baseline is Ok ==> (candidate matches Err(e) ==> r == Err::<(), ValidationIssue>(e)),
        baseline matches Ok(b) ==> (candidate matches Ok(c) ==> outcome_is(r, compat_verdict(b, c))),
{
    let b = match baseline {
        Ok(v) => v,
        Err(e) => {
            return Err(e);
        },
    };
    let c = match candidate {
        Ok(v) => v,
        Err(e) => {
            return Err(e);
        },
    };
    assert_backward_compatible_schema_values(&b, &c)
}

/// Every object schema with a `required` list of strings and a
/// `properties` object is backward compatible with itself.
pub proof fn law_schema_compatible_with_itself(schema: JsonValue)
    requires
        schema_type(schema) == Some("object"@),
        required_names(schema) is Ok,
        properties(schema) is Some,
    ensures
        compat_verdict(schema, schema) is Ok,
{
    let req = required_names(schema)->Ok_0;
    assert(req.difference(req) =~= Set::<Seq<char>>::empty());
    let props = properties(schema)->0;
    assert forall|j: int| 0 <= j < props.len() implies !#[trigger] failing(props, props, props[j].0@) by {
        reveal(failing);
        let name = props[j].0@;
        lemma_member_present(props, name);
        let v = member(props, name)->0;
        if let Some(e) = enum_names(v) {
            assert(e.subset_of(e));
        }
    }
    lemma_least_failing_none(props, props);
}

} // verus!
