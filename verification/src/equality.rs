//! Structural equality of JSON trees: the test by which a store decides
//! whether a dispatch changed its state.

use vstd::prelude::*;
use vstd::arithmetic::power2::lemma_pow2_strictly_increases;
use vstd::seq_lib::seq_to_set_is_finite;
use vstd::set_lib::lemma_subset_equality;
use crate::number::{doubles_close, JsonNumber};
use crate::value::{
    distinct_keys,
    entries_view,
    find_entry,
    lemma_array_view,
    lemma_lookup_finds,
    lemma_lookup_found,
    lemma_object_view,
    lookup,
    Json,
    JsonValue,
};

verus! {

/// Whether the entry of one object has its match in the entries of another:
/// the key is there, and the value under it is structurally equal.
pub open spec fn entry_matched(entry: (Seq<char>, Json), others: Seq<(Seq<char>, Json)>) -> bool
    decreases entry.1, 1int,
{
    match lookup(others, entry.0) {
        Some(v) => structurally_equal(entry.1, v),
        None => false,
    }
}

/// Deep equality of two JSON trees. Values of different kinds differ.
/// Numbers are the same as [`JsonNumber::same_as`] says. Arrays are equal
/// item by item, in order. Objects are equal when they have as many entries
/// and every entry of the first has its match in the second, whatever the
/// order of the entries.
pub open spec fn structurally_equal(a: Json, b: Json) -> bool
    decreases a, 0int,
{
    match (a, b) {
        (Json::Null, Json::Null) => true,
        (Json::Bool(x), Json::Bool(y)) => x == y,
        (Json::Number(x), Json::Number(y)) => x.same_as(y),
        (Json::String(x), Json::String(y)) => x == y,
        (Json::Array(x), Json::Array(y)) => x.len() == y.len() && forall|i: int|
            0 <= i < x.len() ==> structurally_equal(#[trigger] x[i], y[i]),
        (Json::Object(x), Json::Object(y)) => x.len() == y.len() && forall|i: int|
            0 <= i < x.len() ==> entry_matched(#[trigger] x[i], y),
        _ => false,
    }
}

/// Compares two JSON trees for structural equality.
pub fn states_are_equal(current: &JsonValue, updated: &JsonValue) -> (r: bool)
    ensures
        r == structurally_equal(current@, updated@),
    decreases current,
{
    match (current, updated) {
        (JsonValue::Null, JsonValue::Null) => true,
        (JsonValue::Bool(a), JsonValue::Bool(b)) => *a == *b,
        (JsonValue::Number(a), JsonValue::Number(b)) => a.matches(b),
        (JsonValue::String(a), JsonValue::String(b)) => *a == *b,
        (JsonValue::Array(a), JsonValue::Array(b)) => {
            proof {
                lemma_array_view(*a);
                lemma_array_view(*b);
            }
            if a.len() != b.len() {
                return false;
            }
            let mut i: usize = 0;
            while i < a.len()
                invariant
                    i <= a.len(),
                    a.len() == b.len(),
                    *current == JsonValue::Array(*a),
                    *updated == JsonValue::Array(*b),
                    current@ is Array,
                    updated@ is Array,
                    current@->Array_0.len() == a@.len(),
                    updated@->Array_0.len() == b@.len(),
                    forall|j: int| 0 <= j < a@.len() ==> (#[trigger] current@->Array_0[j]) == a@[j]@,
                    forall|j: int| 0 <= j < b@.len() ==> (#[trigger] updated@->Array_0[j]) == b@[j]@,
                    forall|j: int|
                        0 <= j < i ==> structurally_equal(
                            #[trigger] current@->Array_0[j],
                            updated@->Array_0[j],
                        ),
                decreases a.len() - i,
            {
                proof {
                    assert(current->Array_0 == *a);
                    assert(decreases_to!(*current => current->Array_0));
                    assert(decreases_to!(*a => a[i as int]));
                }
                if !states_are_equal(&a[i], &b[i]) {
                    proof {
                        assert(!structurally_equal(
                            current@->Array_0[i as int],
                            updated@->Array_0[i as int],
                        ));
                    }
                    return false;
                }
                i = i + 1;
            }
            true
        },
        (JsonValue::Object(a), JsonValue::Object(b)) => {
            proof {
                lemma_object_view(*a);
                lemma_object_view(*b);
            }
            if a.len() != b.len() {
                return false;
            }
            let mut i: usize = 0;
            while i < a.len()
                invariant
                    i <= a.len(),
                    a.len() == b.len(),
                    *current == JsonValue::Object(*a),
                    *updated == JsonValue::Object(*b),
                    current@ is Object,
                    updated@ is Object,
                    current@->Object_0.len() == a@.len(),
                    updated@->Object_0 == entries_view(b@),
                    updated@->Object_0.len() == b@.len(),
                    forall|j: int|
                        0 <= j < a@.len() ==> (#[trigger] current@->Object_0[j]) == (
                            a@[j].0@,
                            a@[j].1@,
                        ),
                    forall|j: int|
                        0 <= j < i ==> entry_matched(
                            #[trigger] current@->Object_0[j],
                            updated@->Object_0,
                        ),
                decreases a.len() - i,
            {
                proof {
                    assert(current->Object_0 == *a);
                    assert(decreases_to!(*current => current->Object_0));
                    assert(decreases_to!(*a => a[i as int]));
                    assert(decreases_to!(a[i as int] => a[i as int].1));
                }
                let matched: bool = match find_entry(b, &a[i].0) {
                    Some(other) => states_are_equal(&a[i].1, other),
                    None => false,
                };
                if !matched {
                    proof {
                        assert(!entry_matched(current@->Object_0[i as int], updated@->Object_0));
                    }
                    return false;
                }
                i = i + 1;
            }
            true
        },
        _ => false,
    }
}

/// A number is the same as itself.
pub proof fn lemma_same_number_reflexive(n: JsonNumber)
    ensures
        n.same_as(n),
{
    lemma_pow2_strictly_increases(968, 1022);
}

/// Whether two numbers are the same does not depend on their order.
pub proof fn lemma_same_number_symmetric(a: JsonNumber, b: JsonNumber)
    ensures
        a.same_as(b) == b.same_as(a),
{
    assert(doubles_close(a.scaled(), b.scaled()) == doubles_close(b.scaled(), a.scaled()));
}

/// Every JSON tree whose objects have distinct keys is structurally equal to itself.
pub proof fn lemma_structural_equality_reflexive(x: Json)
    requires
        x.well_formed(),
    ensures
        structurally_equal(x, x),
    decreases x,
{
    match x {
        Json::Number(n) => {
            lemma_same_number_reflexive(n);
        },
        Json::Array(items) => {
            assert forall|i: int| 0 <= i < items.len() implies structurally_equal(
                #[trigger] items[i],
                items[i],
            ) by {
                lemma_structural_equality_reflexive(items[i]);
            }
        },
        Json::Object(entries) => {
            assert forall|i: int| 0 <= i < entries.len() implies entry_matched(
                #[trigger] entries[i],
                entries,
            ) by {
                lemma_lookup_finds(entries, i);
                lemma_structural_equality_reflexive(entries[i].1);
            }
        },
        _ => {},
    }
}

/// The keys of the entries, in their order.
pub open spec fn keys_of(entries: Seq<(Seq<char>, Json)>) -> Seq<Seq<char>> {
    Seq::new(entries.len(), |i: int| entries[i].0)
}

/// Two objects with distinct keys and as many entries, of which the second
/// has every key of the first, have the same keys.
proof fn lemma_keys_covered(x: Seq<(Seq<char>, Json)>, y: Seq<(Seq<char>, Json)>)
    requires
        distinct_keys(x),
        distinct_keys(y),
        x.len() == y.len(),
        forall|i: int| 0 <= i < x.len() ==> lookup(y, (#[trigger] x[i]).0) is Some,
    ensures
        forall|j: int|
            0 <= j < y.len() ==> exists|i: int| 0 <= i < x.len() && x[i].0 == (#[trigger] y[j]).0,
{
    let kx = keys_of(x);
    let ky = keys_of(y);
    assert(kx.no_duplicates());
    assert(ky.no_duplicates());
    kx.unique_seq_to_set();
    ky.unique_seq_to_set();
    seq_to_set_is_finite(kx);
    seq_to_set_is_finite(ky);
    assert forall|k: Seq<char>| kx.to_set().contains(k) implies ky.to_set().contains(k) by {
        let i = choose|i: int| 0 <= i < kx.len() && kx[i] == k;
        assert(lookup(y, x[i].0) is Some);
        let at = lemma_lookup_found(y, k, 0);
        assert(ky[at] == k);
    }
    lemma_subset_equality(kx.to_set(), ky.to_set());
    assert forall|j: int| 0 <= j < y.len() implies exists|i: int|
        0 <= i < x.len() && x[i].0 == (#[trigger] y[j]).0 by {
        assert(ky[j] == y[j].0);
        assert(ky.to_set().contains(ky[j]));
        assert(kx.to_set().contains(ky[j]));
        let i = choose|i: int| 0 <= i < kx.len() && kx[i] == ky[j];
        assert(x[i].0 == y[j].0);
    }
}

/// Structural equality carries over to the swapped pair.
proof fn lemma_equal_swapped(a: Json, b: Json)
    requires
        a.well_formed(),
        b.well_formed(),
        structurally_equal(a, b),
    ensures
        structurally_equal(b, a),
    decreases a,
{
    match (a, b) {
        (Json::Number(x), Json::Number(y)) => {
            lemma_same_number_symmetric(x, y);
        },
        (Json::Array(x), Json::Array(y)) => {
            assert forall|i: int| 0 <= i < y.len() implies structurally_equal(
                #[trigger] y[i],
                x[i],
            ) by {
                assert(structurally_equal(x[i], y[i]));
                lemma_equal_swapped(x[i], y[i]);
            }
        },
        (Json::Object(x), Json::Object(y)) => {
            assert forall|i: int| 0 <= i < x.len() implies lookup(y, (#[trigger] x[i]).0) is Some by {
                assert(entry_matched(x[i], y));
            }
            lemma_keys_covered(x, y);
            assert forall|j: int| 0 <= j < y.len() implies entry_matched(#[trigger] y[j], x) by {
                let i = choose|i: int| 0 <= i < x.len() && x[i].0 == y[j].0;
                lemma_lookup_finds(y, j);
                lemma_lookup_finds(x, i);
                assert(entry_matched(x[i], y));
                assert(x[i].1.well_formed());
                assert(y[j].1.well_formed());
                lemma_equal_swapped(x[i].1, y[j].1);
            }
        },
        _ => {},
    }
}

/// Whether two JSON trees whose objects have distinct keys are structurally
/// equal does not depend on the order in which they are given.
pub proof fn lemma_structural_equality_symmetric(a: Json, b: Json)
    requires
        a.well_formed(),
        b.well_formed(),
    ensures
        structurally_equal(a, b) == structurally_equal(b, a),
{
    if structurally_equal(a, b) {
        lemma_equal_swapped(a, b);
    }
    if structurally_equal(b, a) {
        lemma_equal_swapped(b, a);
    }
}

} // verus!
