use vstd::prelude::*;

use crate::option::FloatText;
use crate::string_map::StringMap;

verus! {

/// A JSON number as the library reads it: the integer it is, where it is one
/// that fits in an `i64`, and the renderings of its floating-point value.
#[derive(Debug, Clone, PartialEq, Eq)]
pub struct JsonNumber {
    pub as_i64: Option<i64>,
    pub as_f64: Option<FloatText>,
}

/// A JSON document, as `nix eval --json` prints one; an object keeps its
/// members in the order in which they were read.
#[derive(Debug, PartialEq)]
pub enum JsonValue {
    Null,
    Bool(bool),
    Number(JsonNumber),
    String(String),
    Array(Vec<JsonValue>),
    Object(StringMap<JsonValue>),
}

impl JsonValue {
    /// The member `k` of an object; nothing for any other value.
    pub open spec fn field(self, k: Seq<char>) -> Option<JsonValue> {
        match self {
            JsonValue::Object(m) => m.lookup(k),
            _ => None,
        }
    }

    /// The characters of a string value.
    pub open spec fn text(self) -> Option<Seq<char>> {
        match self {
            JsonValue::String(s) => Some(s@),
            _ => None,
        }
    }

    /// A member of an object is smaller than the object.
    pub proof fn lemma_field_decreases(self, k: Seq<char>)
        ensures
            self.field(k) matches Some(e) ==> decreases_to!(self => e),
    {
        if let JsonValue::Object(m) = self {
            if let Some(i) = m.index_of(k) {
                crate::string_map::lemma_position_from(m.keys(), k, 0);
                m.lemma_value_decreases(i);
                assert(decreases_to!(self => self->Object_0));
            }
        }
    }

    /// The member `key` of an object.
    pub fn get(&self, key: &str) -> (r: Option<&JsonValue>)
        ensures
            match r {
                Some(x) => self.field(key@) == Some(*x),
                None => self.field(key@) is None,
            },
    {
        match self {
            JsonValue::Object(m) => m.get(key),
            _ => None,
        }
    }

    /// The string of a string value.
    pub fn as_str(&self) -> (r: Option<&str>)
        ensures
            match r {
                Some(s) => self.text() == Some(s@),
                None => self.text() is None,
            },
    {
        match self {
            JsonValue::String(s) => Some(s.as_str()),
            _ => None,
        }
    }

    /// The elements of an array.
    pub fn as_array(&self) -> (r: Option<&Vec<JsonValue>>)
        ensures
            match r {
                Some(a) => *self == JsonValue::Array(*a),
                None => !(*self is Array),
            },
    {
        match self {
            JsonValue::Array(a) => Some(a),
            _ => None,
        }
    }

    /// The members of an object.
    pub fn as_object(&self) -> (r: Option<&StringMap<JsonValue>>)
        ensures
            match r {
                Some(m) => *self == JsonValue::Object(*m),
                None => !(*self is Object),
            },
    {
        match self {
            JsonValue::Object(m) => Some(m),
            _ => None,
        }
    }
}

} // verus!
