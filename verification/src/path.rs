//! Key paths: dotted keys such as `user.profile.name` that lead from the
//! root of a JSON tree to a value inside it.

use vstd::prelude::*;
use vstd::string::StrSliceExecFns;
use vstd::string::StringExecFns;
use vstd::std_specs::iter::IteratorSpec;
use crate::equality::{lemma_structural_equality_reflexive, structurally_equal};
use crate::value::{
    find_entry,
    lemma_array_view,
    lemma_object_view,
    lookup,
    lookup_from,
    Json,
    JsonValue,
};

verus! {

/// The segments of a key: the texts between its dots. A key without a dot
/// is one segment, and each dot starts another, so that an empty segment
/// stands before a leading dot, after a trailing one and between two in a row.
pub open spec fn split_path(key: Seq<char>) -> Seq<Seq<char>>
    decreases key.len(),
{
    if key.len() == 0 {
        seq![Seq::empty()]
    } else {
        let before = split_path(key.drop_last());
        if key.last() == '.' {
            before.push(Seq::empty())
        } else {
            before.drop_last().push(before.last().push(key.last()))
        }
    }
}

/// The texts of a list of strings.
pub open spec fn texts(parts: Seq<String>) -> Seq<Seq<char>> {
    Seq::new(parts.len(), |i: int| parts[i]@)
}

pub open spec fn is_digit(c: char) -> bool {
    '0' <= c && c <= '9'
}

pub open spec fn digit_value(c: char) -> nat {
    (c as u32 - 48) as nat
}

/// The number that a text of decimal digits writes.
pub open spec fn decimal_value(s: Seq<char>) -> nat
    decreases s.len(),
{
    if s.len() == 0 {
        0
    } else {
        decimal_value(s.drop_last()) * 10 + digit_value(s.last())
    }
}

/// The position that a segment names in an array: the segment is made of
/// decimal digits, at least one, and starts with `0` only where it is `0`.
pub open spec fn parse_index(s: Seq<char>) -> Option<nat> {
    if s.len() > 0 && (forall|i: int| 0 <= i < s.len() ==> is_digit(#[trigger] s[i])) && (s[0]
        != '0' || s.len() == 1) {
        Some(decimal_value(s))
    } else {
        None
    }
}

/// The position of an array of `len` items that a segment names, if any.
pub open spec fn item_position(segment: Seq<char>, len: nat) -> Option<nat> {
    match parse_index(segment) {
        Some(i) => if i < len {
            Some(i)
        } else {
            None
        },
        None => None,
    }
}

/// The value one step below a node: in an object the value under the
/// segment as a key, in an array the item at the position that the segment
/// names. Any other node has nothing below it.
pub open spec fn child(node: Json, segment: Seq<char>) -> Option<Json> {
    match node {
        Json::Object(entries) => lookup(entries, segment),
        Json::Array(items) => match item_position(segment, items.len()) {
            Some(i) => Some(items[i as int]),
            None => None,
        },
        _ => None,
    }
}

/// The value that the segments lead to, one step for each; `None` as soon
/// as a step finds nothing.
pub open spec fn resolve(root: Json, segments: Seq<Seq<char>>) -> Option<Json>
    decreases segments.len(),
{
    if segments.len() == 0 {
        Some(root)
    } else {
        match child(root, segments[0]) {
            Some(c) => resolve(c, segments.drop_first()),
            None => None,
        }
    }
}

/// The part of a state under a key: the whole state for the empty key, else
/// what the key's segments lead to.
pub open spec fn state_at(state: Json, key: Seq<char>) -> Option<Json> {
    if key.len() == 0 {
        Some(state)
    } else {
        resolve(state, split_path(key))
    }
}

/// The place of the first entry from `from` on that has the key; the number
/// of entries where none has it.
pub open spec fn position_from(entries: Seq<(Seq<char>, Json)>, key: Seq<char>, from: int) -> int
    decreases entries.len() - from,
{
    if from < 0 || from >= entries.len() {
        entries.len() as int
    } else if entries[from].0 == key {
        from
    } else {
        position_from(entries, key, from + 1)
    }
}

/// A node with the value one step below it replaced; the node itself where
/// the step finds nothing.
pub open spec fn with_child(node: Json, segment: Seq<char>, value: Json) -> Json {
    match node {
        Json::Object(entries) => {
            let at = position_from(entries, segment, 0);
            if at < entries.len() {
                Json::Object(entries.update(at, (segment, value)))
            } else {
                node
            }
        },
        Json::Array(items) => match item_position(segment, items.len()) {
            Some(i) => Json::Array(items.update(i as int, value)),
            None => node,
        },
        _ => node,
    }
}

/// A tree with the value at the end of a path replaced; the tree itself
/// where the path leads nowhere.
pub open spec fn with_value_at(root: Json, segments: Seq<Seq<char>>, value: Json) -> Json
    decreases segments.len(),
{
    if segments.len() == 0 {
        value
    } else {
        match child(root, segments[0]) {
            Some(c) => with_child(
                root,
                segments[0],
                with_value_at(c, segments.drop_first(), value),
            ),
            None => root,
        }
    }
}

/// A state with the part under a key replaced: the value itself for the
/// empty key, else the state with the value at the end of the key's segments.
pub open spec fn with_state_at(state: Json, key: Seq<char>, value: Json) -> Json {
    if key.len() == 0 {
        value
    } else {
        with_value_at(state, split_path(key), value)
    }
}

proof fn lemma_position_found(entries: Seq<(Seq<char>, Json)>, key: Seq<char>, from: int)
    requires
        0 <= from,
        lookup_from(entries, key, from) is Some,
    ensures
        from <= position_from(entries, key, from) < entries.len(),
        entries[position_from(entries, key, from)] == (
            key,
            lookup_from(entries, key, from).unwrap(),
        ),
    decreases entries.len() - from,
{
    if entries[from].0 != key {
        lemma_position_found(entries, key, from + 1);
    }
}

/// Putting back what a path leads to leaves the tree as it is.
pub proof fn lemma_put_back_same_tree(root: Json, segments: Seq<Seq<char>>)
    requires
        resolve(root, segments) is Some,
    ensures
        with_value_at(root, segments, resolve(root, segments).unwrap()) == root,
    decreases segments.len(),
{
    if segments.len() > 0 {
        let c = child(root, segments[0]).unwrap();
        let rest = segments.drop_first();
        lemma_put_back_same_tree(c, rest);
        match root {
            Json::Object(entries) => {
                lemma_position_found(entries, segments[0], 0);
                let at = position_from(entries, segments[0], 0);
                assert(entries.update(at, (segments[0], c)) =~= entries);
            },
            Json::Array(items) => {
                let i = item_position(segments[0], items.len()).unwrap();
                assert(items.update(i as int, c) =~= items);
            },
            _ => {},
        }
    }
}

/// Reading the value under a key and writing it back under the same key
/// gives a tree that is structurally equal to the one read from.
pub proof fn lemma_key_path_round_trip(state: Json, key: Seq<char>)
    requires
        state.well_formed(),
        state_at(state, key) is Some,
    ensures
        with_state_at(state, key, state_at(state, key).unwrap()) == state,
        structurally_equal(with_state_at(state, key, state_at(state, key).unwrap()), state),
{
    if key.len() > 0 {
        lemma_put_back_same_tree(state, split_path(key));
    }
    lemma_structural_equality_reflexive(state);
}

/// Splits a key into its segments.
pub fn split_key(key: &str) -> (parts: Vec<String>)
    ensures
        texts(parts@) == split_path(key@),
{
    let n: usize = key.unicode_len();
    let mut parts: Vec<String> = Vec::new();
    let mut start: usize = 0;
    let mut i: usize = 0;
    let mut rest = key.chars();
    proof {
        assert(key@.take(0) =~= Seq::<char>::empty());
        assert(texts(parts@).push(key@.subrange(0, 0)) =~= seq![Seq::<char>::empty()]);
        assert(key@.skip(0) =~= key@);
    }
    loop
        invariant
            n == key@.len(),
            start <= i <= n,
            rest.remaining() == key@.skip(i as int),
            split_path(key@.take(i as int)) == texts(parts@).push(
                key@.subrange(start as int, i as int),
            ),
        ensures
            i == n,
        decreases n - i,
    {
        match rest.next() {
            None => {
                break;
            },
            Some(c) => {
                proof {
                    assert(key@.skip(i as int).drop_first() =~= key@.skip(i + 1));
                    let next = key@.take(i + 1);
                    assert(next.drop_last() =~= key@.take(i as int));
                    assert(next.last() == c);
                }
                if c == '.' {
                    let part: String = String::from_str(key.substring_char(start, i));
                    let ghost before = texts(parts@);
                    parts.push(part);
                    proof {
                        assert(texts(parts@) =~= before.push(
                            key@.subrange(start as int, i as int),
                        ));
                        assert(key@.subrange(i + 1, i + 1) =~= Seq::<char>::empty());
                    }
                    start = i + 1;
                } else {
                    proof {
                        let before = texts(parts@).push(key@.subrange(start as int, i as int));
                        assert(before.drop_last() =~= texts(parts@));
                        assert(key@.subrange(start as int, i as int).push(c) =~= key@.subrange(
                            start as int,
                            i + 1,
                        ));
                    }
                }
                i = i + 1;
            },
        }
    }
    let part: String = String::from_str(key.substring_char(start, n));
    let ghost before = texts(parts@);
    parts.push(part);
    proof {
        assert(key@.take(n as int) =~= key@);
        assert(texts(parts@) =~= before.push(key@.subrange(start as int, n as int)));
    }
    parts
}

proof fn lemma_decimal_value_grows(s: Seq<char>)
    requires
        s.len() > 0,
    ensures
        decimal_value(s) >= decimal_value(s.drop_last()),
{
    let v = decimal_value(s.drop_last());
    assert(v * 10 >= v) by (nonlinear_arith)
        requires
            v >= 0,
    ;
}

/// The position of an array of `limit` items that a segment names, if any.
pub fn index_below(segment: &String, limit: usize) -> (r: Option<usize>)
    ensures
        match r {
            Some(i) => item_position(segment@, limit as nat) == Some(i as nat),
            None => item_position(segment@, limit as nat) is None,
        },
{
    let text: &str = segment.as_str();
    let n: usize = text.unicode_len();
    if n == 0 {
        return None;
    }
    let mut value: usize = 0;
    let mut too_large: bool = false;
    let mut i: usize = 0;
    let mut rest = text.chars();
    proof {
        assert(segment@.take(0) =~= Seq::<char>::empty());
        assert(segment@.skip(0) =~= segment@);
    }
    loop
        invariant
            n == segment@.len(),
            text@ == segment@,
            i <= n,
            rest.remaining() == segment@.skip(i as int),
            forall|j: int| 0 <= j < i ==> is_digit(#[trigger] segment@[j]),
            i > 0 && n > 1 ==> segment@[0] != '0',
            too_large ==> decimal_value(segment@.take(i as int)) >= limit,
            !too_large ==> decimal_value(segment@.take(i as int)) == value && (value < limit || i
                == 0),
            i == 0 ==> value == 0,
        ensures
            i == n,
        decreases n - i,
    {
        match rest.next() {
            None => {
                break;
            },
            Some(c) => {
                if !(c >= '0' && c <= '9') {
                    return None;
                }
                if i == 0 && c == '0' && n > 1 {
                    return None;
                }
                let digit: u32 = c as u32 - 48;
                proof {
                    assert(segment@.skip(i as int).drop_first() =~= segment@.skip(i + 1));
                    let next = segment@.take(i + 1);
                    assert(next.drop_last() =~= segment@.take(i as int));
                    assert(next.last() == c);
                    lemma_decimal_value_grows(next);
                }
                if !too_large {
                    let wide: u128 = (value as u128) * 10 + (digit as u128);
                    if wide >= limit as u128 {
                        too_large = true;
                    } else {
                        value = wide as usize;
                    }
                }
                i = i + 1;
            },
        }
    }
    proof {
        assert(segment@.take(n as int) =~= segment@);
    }
    if too_large {
        None
    } else {
        Some(value)
    }
}

/// Follows the segments from the root, one step for each.
pub fn resolve_path<'a>(root: &'a JsonValue, segments: &Vec<String>) -> (r: Option<&'a JsonValue>)
    ensures
        match r {
            Some(v) => resolve(root@, texts(segments@)) == Some(v@),
            None => resolve(root@, texts(segments@)) is None,
        },
{
    let mut current: &JsonValue = root;
    let mut i: usize = 0;
    proof {
        assert(texts(segments@).skip(0) =~= texts(segments@));
    }
    while i < segments.len()
        invariant
            i <= segments.len(),
            resolve(root@, texts(segments@)) == resolve(current@, texts(segments@).skip(i as int)),
        decreases segments.len() - i,
    {
        let ghost rest = texts(segments@).skip(i as int);
        proof {
            assert(rest[0] == segments@[i as int]@);
            assert(rest.drop_first() =~= texts(segments@).skip(i + 1));
        }
        let next: Option<&JsonValue> = match current {
            JsonValue::Object(entries) => {
                proof {
                    lemma_object_view(*entries);
                }
                find_entry(entries, &segments[i])
            },
            JsonValue::Array(items) => {
                proof {
                    lemma_array_view(*items);
                }
                match index_below(&segments[i], items.len()) {
                    Some(k) => Some(&items[k]),
                    None => None,
                }
            },
            _ => None,
        };
        match next {
            Some(c) => {
                current = c;
            },
            None => {
                return None;
            },
        }
        i = i + 1;
    }
    Some(current)
}

} // verus!
