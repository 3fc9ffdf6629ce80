//! The JSON values that records and patches carry.
//!
//! Documents have no fixed schema, so a value is a tagged union.  A number
//! that is not an integer is kept as its decimal text: the compiler and the
//! store only carry values through, they never do arithmetic on them.

use vstd::prelude::*;

verus! {

/// One JSON value.  `Num` holds the decimal text of a non-integer number.
#[derive(Debug, PartialEq, Eq)]
pub enum JsonValue {
    Null,
    Bool(bool),
    Int(i64),
    Num(String),
    Str(String),
    Arr(Vec<JsonValue>),
    Obj(Vec<(String, JsonValue)>),
}

/// A stored document: a flat list of (attribute name, value) fields.
pub type Record = Vec<(String, JsonValue)>;

impl JsonValue {
    /// True exactly on JSON `null`: the marker that a patch removes a field.
    pub fn is_null(&self) -> (r: bool)
        ensures
            r == (*self is Null),
    {
        match self {
            JsonValue::Null => true,
            _ => false,
        }
    }
}

} // verus!
