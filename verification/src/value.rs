//! The JSON tree in which a store reports its state and an action carries
//! its payload.

use vstd::prelude::*;
use crate::number::JsonNumber;

verus! {

/// A JSON value. An object keeps its entries in the order in which they were
/// written; its keys are meant to differ from one another.
#[derive(Debug, PartialEq)]
pub enum JsonValue {
    Null,
    Bool(bool),
    Number(JsonNumber),
    String(String),
    Array(Vec<JsonValue>),
    Object(Vec<(String, JsonValue)>),
}

/// The mathematical value of a [`JsonValue`]: texts and lists as sequences.
pub ghost enum Json {
    Null,
    Bool(bool),
    Number(JsonNumber),
    String(Seq<char>),
    Array(Seq<Json>),
    Object(Seq<(Seq<char>, Json)>),
}

impl View for JsonValue {
    type V = Json;

    open spec fn view(&self) -> Json {
        json_of(*self)
    }
}

/// The mathematical value of a JSON value.
pub open spec fn json_of(value: JsonValue) -> Json
    decreases value, 1int,
{
    match value {
        JsonValue::Null => Json::Null,
        JsonValue::Bool(b) => Json::Bool(b),
        JsonValue::Number(n) => Json::Number(n),
        JsonValue::String(s) => Json::String(s@),
        JsonValue::Array(items) => Json::Array(items_view(items@)),
        JsonValue::Object(entries) => Json::Object(entries_view(entries@)),
    }
}

/// The views of the items of an array, in their order.
pub open spec fn items_view(items: Seq<JsonValue>) -> Seq<Json>
    decreases items, 0int,
{
    if items.len() == 0 {
        Seq::empty()
    } else {
        items_view(items.drop_last()).push(json_of(items.last()))
    }
}

/// The views of the entries of an object, in their order.
pub open spec fn entries_view(entries: Seq<(String, JsonValue)>) -> Seq<(Seq<char>, Json)>
    decreases entries, 0int,
{
    if entries.len() == 0 {
        Seq::empty()
    } else {
        entries_view(entries.drop_last()).push((entries.last().0@, json_of(entries.last().1)))
    }
}

/// The view of a list of items has their views, place by place.
pub proof fn lemma_items_view(items: Seq<JsonValue>)
    ensures
        items_view(items).len() == items.len(),
        forall|i: int| 0 <= i < items.len() ==> (#[trigger] items_view(items)[i]) == items[i]@,
    decreases items.len(),
{
    if items.len() > 0 {
        lemma_items_view(items.drop_last());
    }
}

/// The view of a list of entries has their keys and the views of their
/// values, place by place.
pub proof fn lemma_entries_view(entries: Seq<(String, JsonValue)>)
    ensures
        entries_view(entries).len() == entries.len(),
        forall|i: int|
            0 <= i < entries.len() ==> (#[trigger] entries_view(entries)[i]) == (
                entries[i].0@,
                entries[i].1@,
            ),
    decreases entries.len(),
{
    if entries.len() > 0 {
        lemma_entries_view(entries.drop_last());
    }
}

/// The view of an array: item by item.
pub proof fn lemma_array_view(items: Vec<JsonValue>)
    ensures
        JsonValue::Array(items)@ is Array,
        JsonValue::Array(items)@->Array_0.len() == items@.len(),
        forall|i: int|
            0 <= i < items@.len() ==> (#[trigger] JsonValue::Array(items)@->Array_0[i])
                == items@[i]@,
{
    lemma_items_view(items@);
}

/// The view of an object: entry by entry.
pub proof fn lemma_object_view(entries: Vec<(String, JsonValue)>)
    ensures
        JsonValue::Object(entries)@ is Object,
        JsonValue::Object(entries)@->Object_0.len() == entries@.len(),
        forall|i: int|
            0 <= i < entries@.len() ==> (#[trigger] JsonValue::Object(entries)@->Object_0[i]) == (
                entries@[i].0@,
                entries@[i].1@,
            ),
{
    lemma_entries_view(entries@);
}

/// The value of the first entry from position `from` on that has the key.
pub open spec fn lookup_from(entries: Seq<(Seq<char>, Json)>, key: Seq<char>, from: int) -> Option<
    Json,
>
    decreases entries.len() - from,
{
    if from < 0 || from >= entries.len() {
        None
    } else if entries[from].0 == key {
        Some(entries[from].1)
    } else {
        lookup_from(entries, key, from + 1)
    }
}

/// The value under a key: that of the first entry that has it.
pub open spec fn lookup(entries: Seq<(Seq<char>, Json)>, key: Seq<char>) -> Option<Json> {
    lookup_from(entries, key, 0)
}

/// No two entries have the same key.
pub open spec fn distinct_keys(entries: Seq<(Seq<char>, Json)>) -> bool {
    forall|i: int, j: int|
        0 <= i < entries.len() && 0 <= j < entries.len() && i != j ==> entries[i].0
            != entries[j].0
}

impl Json {
    /// The tree is one that a JSON document can hold: every number is well
    /// formed, and in every object the keys differ.
    pub open spec fn well_formed(self) -> bool
        decreases self,
    {
        match self {
            Json::Null => true,
            Json::Bool(_) => true,
            Json::Number(n) => n.well_formed(),
            Json::String(_) => true,
            Json::Array(items) => forall|i: int|
                0 <= i < items.len() ==> (#[trigger] items[i]).well_formed(),
            Json::Object(entries) => distinct_keys(entries) && forall|i: int|
                0 <= i < entries.len() ==> (#[trigger] entries[i]).1.well_formed(),
        }
    }
}

/// Where distinct keys hold, the entry at a position is the one that its key finds.
pub proof fn lemma_lookup_finds(entries: Seq<(Seq<char>, Json)>, at: int)
    requires
        distinct_keys(entries),
        0 <= at < entries.len(),
    ensures
        lookup(entries, entries[at].0) == Some(entries[at].1),
{
    lemma_lookup_from_finds(entries, at, 0);
}

proof fn lemma_lookup_from_finds(entries: Seq<(Seq<char>, Json)>, at: int, from: int)
    requires
        distinct_keys(entries),
        0 <= from <= at < entries.len(),
    ensures
        lookup_from(entries, entries[at].0, from) == Some(entries[at].1),
    decreases at - from,
{
    if from < at {
        lemma_lookup_from_finds(entries, at, from + 1);
    }
}

/// A key that is found belongs to some entry, and the value is that entry's.
pub proof fn lemma_lookup_found(entries: Seq<(Seq<char>, Json)>, key: Seq<char>, from: int) -> (at:
    int)
    requires
        0 <= from,
        lookup_from(entries, key, from) is Some,
    ensures
        from <= at < entries.len(),
        entries[at].0 == key,
        lookup_from(entries, key, from) == Some(entries[at].1),
    decreases entries.len() - from,
{
    if entries[from].0 == key {
        from
    } else {
        lemma_lookup_found(entries, key, from + 1)
    }
}

/// The value of the first entry that has the key.
pub fn find_entry<'a>(entries: &'a Vec<(String, JsonValue)>, key: &String) -> (r: Option<
    &'a JsonValue,
>)
    ensures
        match r {
            Some(v) => lookup(entries_view(entries@), key@) == Some(v@),
            None => lookup(entries_view(entries@), key@) is None,
        },
{
    let mut i: usize = 0;
    proof {
        lemma_entries_view(entries@);
    }
    while i < entries.len()
        invariant
            i <= entries.len(),
            entries_view(entries@).len() == entries@.len(),
            forall|j: int|
                0 <= j < entries@.len() ==> (#[trigger] entries_view(entries@)[j]) == (
                    entries@[j].0@,
                    entries@[j].1@,
                ),
            lookup(entries_view(entries@), key@) == lookup_from(
                entries_view(entries@),
                key@,
                i as int,
            ),
        decreases entries.len() - i,
    {
        if entries[i].0 == *key {
            return Some(&entries[i].1);
        }
        i = i + 1;
    }
    None
}

impl JsonValue {
    /// The JSON value for a signed integer.
    pub fn from_i64(n: i64) -> (r: Self)
        ensures
            r@ == Json::Number(JsonNumber::from_i64_spec(n)),
    {
        JsonValue::Number(JsonNumber::from_i64(n))
    }

    /// The JSON value for an unsigned integer.
    pub fn from_u64(n: u64) -> (r: Self)
        ensures
            r@ == Json::Number(JsonNumber::PosInt(n)),
    {
        JsonValue::Number(JsonNumber::from_u64(n))
    }

    /// The JSON value for a text.
    pub fn from_str(s: &str) -> (r: Self)
        ensures
            r@ == Json::String(s@),
    {
        JsonValue::String(s.to_owned())
    }

    /// Whether the value is `null`.
    pub fn is_null(&self) -> (r: bool)
        ensures
            r == (self@ is Null),
    {
        match self {
            JsonValue::Null => true,
            _ => false,
        }
    }

    /// The entry of an object under a key: the first that has it. `None`
    /// for a key that is absent, and for a value that is no object.
    pub fn get(&self, key: &str) -> (r: Option<&JsonValue>)
        ensures
            match r {
                Some(v) => self@ is Object && lookup(self@->Object_0, key@) == Some(v@),
                None => !(self@ is Object) || lookup(self@->Object_0, key@) is None,
            },
    {
        match self {
            JsonValue::Object(entries) => {
                let wanted: String = key.to_owned();
                find_entry(entries, &wanted)
            },
            _ => None,
        }
    }

    /// The item of an array at a position; `None` past its end, and for a
    /// value that is no array.
    pub fn item(&self, index: usize) -> (r: Option<&JsonValue>)
        ensures
            match r {
                Some(v) => self@ is Array && index < self@->Array_0.len() && self@->Array_0[index as int]
                    == v@,
                None => !(self@ is Array) || index >= self@->Array_0.len(),
            },
    {
        match self {
            JsonValue::Array(items) => {
                proof {
                    lemma_array_view(*items);
                }
                if index < items.len() {
                    Some(&items[index])
                } else {
                    None
                }
            },
            _ => None,
        }
    }
}

/// Whether the key at a position differs from every key before it.
fn key_is_new(entries: &Vec<(String, JsonValue)>, at: usize) -> (r: bool)
    requires
        at < entries.len(),
    ensures
        r == forall|j: int| 0 <= j < at ==> entries@[j].0@ != entries@[at as int].0@,
{
    let mut j: usize = 0;
    while j < at
        invariant
            j <= at < entries.len(),
            forall|k: int| 0 <= k < j ==> entries@[k].0@ != entries@[at as int].0@,
        decreases at - j,
    {
        if entries[j].0 == entries[at].0 {
            return false;
        }
        j = j + 1;
    }
    true
}

impl JsonValue {
    /// Whether the tree is one that a JSON document can hold: every number
    /// is well formed, and in every object the keys differ.
    pub fn is_well_formed(&self) -> (r: bool)
        ensures
            r == self@.well_formed(),
        decreases self,
    {
        match self {
            JsonValue::Null => true,
            JsonValue::Bool(_) => true,
            JsonValue::Number(n) => n.is_well_formed(),
            JsonValue::String(_) => true,
            JsonValue::Array(items) => {
                proof {
                    lemma_array_view(*items);
                }
                let mut i: usize = 0;
                while i < items.len()
                    invariant
                        i <= items.len(),
                        *self == JsonValue::Array(*items),
                        self@ is Array,
                        self@->Array_0.len() == items@.len(),
                        forall|j: int|
                            0 <= j < items@.len() ==> (#[trigger] self@->Array_0[j]) == items@[j]@,
                        forall|j: int| 0 <= j < i ==> (#[trigger] self@->Array_0[j]).well_formed(),
                    decreases items.len() - i,
                {
                    proof {
                        assert(self->Array_0 == *items);
                        assert(decreases_to!(*self => self->Array_0));
                        assert(decreases_to!(*items => items[i as int]));
                    }
                    if !items[i].is_well_formed() {
                        proof {
                            assert(!self@->Array_0[i as int].well_formed());
                        }
                        return false;
                    }
                    i = i + 1;
                }
                true
            },
            JsonValue::Object(entries) => {
                proof {
                    lemma_object_view(*entries);
                }
                let mut i: usize = 0;
                while i < entries.len()
                    invariant
                        i <= entries.len(),
                        *self == JsonValue::Object(*entries),
                        self@ is Object,
                        self@->Object_0.len() == entries@.len(),
                        forall|j: int|
                            0 <= j < entries@.len() ==> (#[trigger] self@->Object_0[j]) == (
                                entries@[j].0@,
                                entries@[j].1@,
                            ),
                        forall|j: int|
                            0 <= j < i ==> (#[trigger] self@->Object_0[j]).1.well_formed(),
                        forall|j: int, k: int|
                            0 <= j < k < i ==> (#[trigger] self@->Object_0[j]).0 != (
                            #[trigger] self@->Object_0[k]).0,
                    decreases entries.len() - i,
                {
                    proof {
                        assert(self->Object_0 == *entries);
                        assert(decreases_to!(*self => self->Object_0));
                        assert(decreases_to!(*entries => entries[i as int]));
                        assert(decreases_to!(entries[i as int] => entries[i as int].1));
                    }
                    if !entries[i].1.is_well_formed() {
                        proof {
                            assert(!self@->Object_0[i as int].1.well_formed());
                        }
                        return false;
                    }
                    if !key_is_new(entries, i) {
                        proof {
                            let j = choose|j: int|
                                0 <= j < i && entries@[j].0@ == entries@[i as int].0@;
                            assert(self@->Object_0[j].0 == self@->Object_0[i as int].0);
                        }
                        return false;
                    }
                    proof {
                        assert forall|j: int, k: int| 0 <= j < k < i + 1 implies (
                        #[trigger] self@->Object_0[j]).0 != (#[trigger] self@->Object_0[k]).0 by {
                            if k == i {
                                assert(entries@[j].0@ != entries@[i as int].0@);
                            }
                        }
                    }
                    i = i + 1;
                }
                proof {
                    assert forall|j: int, k: int|
                        0 <= j < entries@.len() && 0 <= k < entries@.len() && j != k implies (
                    #[trigger] self@->Object_0[j]).0 != (#[trigger] self@->Object_0[k]).0 by {
                        if j < k {
                        } else {
                            assert(self@->Object_0[k].0 != self@->Object_0[j].0);
                        }
                    }
                }
                true
            },
        }
    }

    /// A copy of the whole tree.
    fn duplicate(&self) -> (r: Self)
        ensures
            r@ == self@,
        decreases self,
    {
        match self {
            JsonValue::Null => JsonValue::Null,
            JsonValue::Bool(b) => JsonValue::Bool(*b),
            JsonValue::Number(n) => JsonValue::Number(*n),
            JsonValue::String(s) => JsonValue::String(s.clone()),
            JsonValue::Array(items) => {
                let mut copy: Vec<JsonValue> = Vec::new();
                let mut i: usize = 0;
                while i < items.len()
                    invariant
                        i <= items.len(),
                        copy@.len() == i,
                        *self == JsonValue::Array(*items),
                        forall|j: int| 0 <= j < i ==> (#[trigger] copy@[j])@ == items@[j]@,
                    decreases items.len() - i,
                {
                    proof {
                        assert(self->Array_0 == *items);
                        assert(decreases_to!(*self => self->Array_0));
                        assert(decreases_to!(*items => items[i as int]));
                    }
                    let item = items[i].duplicate();
                    copy.push(item);
                    i = i + 1;
                }
                let r = JsonValue::Array(copy);
                proof {
                    lemma_array_view(*items);
                    lemma_array_view(copy);
                    assert(r@->Array_0 =~= self@->Array_0);
                }
                r
            },
            JsonValue::Object(entries) => {
                let mut copy: Vec<(String, JsonValue)> = Vec::new();
                let mut i: usize = 0;
                while i < entries.len()
                    invariant
                        i <= entries.len(),
                        copy@.len() == i,
                        *self == JsonValue::Object(*entries),
                        forall|j: int|
                            0 <= j < i ==> (#[trigger] copy@[j]).0@ == entries@[j].0@ && copy@[j].1@
                                == entries@[j].1@,
                    decreases entries.len() - i,
                {
                    proof {
                        assert(self->Object_0 == *entries);
                        assert(decreases_to!(*self => self->Object_0));
                        assert(decreases_to!(*entries => entries[i as int]));
                        assert(decreases_to!(entries[i as int] => entries[i as int].1));
                    }
                    let key = entries[i].0.clone();
                    let value = entries[i].1.duplicate();
                    copy.push((key, value));
                    i = i + 1;
                }
                let r = JsonValue::Object(copy);
                proof {
                    lemma_object_view(*entries);
                    lemma_object_view(copy);
                    assert(r@->Object_0 =~= self@->Object_0);
                }
                r
            },
        }
    }
}

impl Clone for JsonValue {
    /// A copy of the whole tree.
    fn clone(&self) -> (r: Self)
        ensures
            r@ == self@,
    {
        self.duplicate()
    }
}

} // verus!
