//! How values of other types become JSON trees and come back from them.

use vstd::prelude::*;
use vstd::string::StringExecFns;
use crate::number::JsonNumber;
use crate::value::{Json, JsonValue};

verus! {

/// A type whose values can be written as JSON trees.
pub trait ToJson {
    /// The JSON tree for the value, or why it has none.
    fn to_json(&self) -> Result<JsonValue, String>;
}

/// A type whose values can be read from JSON trees.
pub trait FromJson: Sized {
    /// The value that the JSON tree stands for, or why it stands for none.
    fn from_json(value: &JsonValue) -> Result<Self, String>;
}

/// Whether `T` reads back the value `v` from every tree that it writes for it.
pub open spec fn reads_back<T: ToJson + FromJson>(v: T) -> bool {
    forall|tree: JsonValue, read: Result<T, String>|
        call_ensures(T::to_json, (&v,), Ok::<JsonValue, String>(tree)) && call_ensures(
            T::from_json,
            (&tree,),
            read,
        ) ==> read == Ok::<T, String>(v)
}

impl ToJson for JsonValue {
    fn to_json(&self) -> (r: Result<JsonValue, String>)
        ensures
            r is Ok,
            r.unwrap()@ == self@,
    {
        Ok(self.clone())
    }
}

impl FromJson for JsonValue {
    fn from_json(value: &JsonValue) -> (r: Result<Self, String>)
        ensures
            r is Ok,
            r.unwrap()@ == value@,
    {
        Ok(value.clone())
    }
}

impl ToJson for bool {
    fn to_json(&self) -> (r: Result<JsonValue, String>)
        ensures
            r == Ok::<JsonValue, String>(JsonValue::Bool(*self)),
    {
        Ok(JsonValue::Bool(*self))
    }
}

impl FromJson for bool {
    fn from_json(value: &JsonValue) -> (r: Result<Self, String>)
        ensures
            match *value {
                JsonValue::Bool(b) => r == Ok::<bool, String>(b),
                _ => r is Err && r->Err_0@ == "invalid type: expected a boolean"@,
            },
    {
        match value {
            JsonValue::Bool(b) => Ok(*b),
            _ => Err(String::from_str("invalid type: expected a boolean")),
        }
    }
}

impl ToJson for i64 {
    fn to_json(&self) -> (r: Result<JsonValue, String>)
        ensures
            r == Ok::<JsonValue, String>(JsonValue::Number(JsonNumber::from_i64_spec(*self))),
    {
        Ok(JsonValue::Number(JsonNumber::from_i64(*self)))
    }
}

impl FromJson for i64 {
    fn from_json(value: &JsonValue) -> (r: Result<Self, String>)
        ensures
            match *value {
                JsonValue::Number(n) => match n.int_value() {
                    Some(v) => r == Ok::<i64, String>(v),
                    None => r is Err && r->Err_0@ == "invalid value: expected i64"@,
                },
                _ => r is Err && r->Err_0@ == "invalid type: expected i64"@,
            },
    {
        match value {
            JsonValue::Number(n) => match n.as_i64() {
                Some(v) => Ok(v),
                None => Err(String::from_str("invalid value: expected i64")),
            },
            _ => Err(String::from_str("invalid type: expected i64")),
        }
    }
}

impl ToJson for i32 {
    fn to_json(&self) -> (r: Result<JsonValue, String>)
        ensures
            r == Ok::<JsonValue, String>(
                JsonValue::Number(JsonNumber::from_i64_spec(*self as i64)),
            ),
    {
        Ok(JsonValue::Number(JsonNumber::from_i64(*self as i64)))
    }
}

impl FromJson for i32 {
    fn from_json(value: &JsonValue) -> (r: Result<Self, String>)
        ensures
            match *value {
                JsonValue::Number(n) => match n.int_value() {
                    Some(v) => if i32::MIN <= v <= i32::MAX {
                        r == Ok::<i32, String>(v as i32)
                    } else {
                        r is Err && r->Err_0@ == "invalid value: expected i32"@
                    },
                    None => r is Err && r->Err_0@ == "invalid value: expected i32"@,
                },
                _ => r is Err && r->Err_0@ == "invalid type: expected i32"@,
            },
    {
        match value {
            JsonValue::Number(n) => match n.as_i64() {
                Some(v) => if v >= i32::MIN as i64 && v <= i32::MAX as i64 {
                    Ok(v as i32)
                } else {
                    Err(String::from_str("invalid value: expected i32"))
                },
                None => Err(String::from_str("invalid value: expected i32")),
            },
            _ => Err(String::from_str("invalid type: expected i32")),
        }
    }
}

impl ToJson for u64 {
    fn to_json(&self) -> (r: Result<JsonValue, String>)
        ensures
            r == Ok::<JsonValue, String>(JsonValue::Number(JsonNumber::PosInt(*self))),
    {
        Ok(JsonValue::Number(JsonNumber::from_u64(*self)))
    }
}

impl FromJson for u64 {
    fn from_json(value: &JsonValue) -> (r: Result<Self, String>)
        ensures
            match *value {
                JsonValue::Number(JsonNumber::PosInt(v)) => r == Ok::<u64, String>(v),
                JsonValue::Number(JsonNumber::NegInt(v)) => if v >= 0 {
                    r == Ok::<u64, String>(v as u64)
                } else {
                    r is Err && r->Err_0@ == "invalid value: expected u64"@
                },
                JsonValue::Number(JsonNumber::Float(_)) => r is Err && r->Err_0@
                    == "invalid value: expected u64"@,
                _ => r is Err && r->Err_0@ == "invalid type: expected u64"@,
            },
    {
        match value {
            JsonValue::Number(n) => match n.as_u64() {
                Some(v) => Ok(v),
                None => Err(String::from_str("invalid value: expected u64")),
            },
            _ => Err(String::from_str("invalid type: expected u64")),
        }
    }
}

impl ToJson for String {
    fn to_json(&self) -> (r: Result<JsonValue, String>)
        ensures
            r is Ok,
            r.unwrap()@ == Json::String(self@),
    {
        Ok(JsonValue::String(self.clone()))
    }
}

impl FromJson for String {
    fn from_json(value: &JsonValue) -> (r: Result<Self, String>)
        ensures
            match *value {
                JsonValue::String(s) => r is Ok && r.unwrap()@ == s@,
                _ => r is Err && r->Err_0@ == "invalid type: expected a string"@,
            },
    {
        match value {
            JsonValue::String(s) => Ok(s.clone()),
            _ => Err(String::from_str("invalid type: expected a string")),
        }
    }
}

impl<'a> ToJson for &'a str {
    fn to_json(&self) -> (r: Result<JsonValue, String>)
        ensures
            r is Ok,
            r.unwrap()@ == Json::String(self@),
    {
        Ok(JsonValue::String(String::from_str(*self)))
    }
}

/// A boolean comes back from the tree written for it.
pub proof fn lemma_bool_reads_back(v: bool)
    ensures
        reads_back::<bool>(v),
{
}

/// A signed 64-bit integer comes back from the tree written for it.
pub proof fn lemma_i64_reads_back(v: i64)
    ensures
        reads_back::<i64>(v),
{
}

/// A signed 32-bit integer comes back from the tree written for it.
pub proof fn lemma_i32_reads_back(v: i32)
    ensures
        reads_back::<i32>(v),
{
}

/// An unsigned 64-bit integer comes back from the tree written for it.
pub proof fn lemma_u64_reads_back(v: u64)
    ensures
        reads_back::<u64>(v),
{
}

} // verus!
