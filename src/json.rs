use vstd::prelude::*;

verus! {

/// A JSON document as a closed sum of its six kinds of value.
#[derive(Debug)]
pub enum JsonValue {
    Null,
    Bool(bool),
    /// A number, held as the exact text that denotes it, so that no digit is lost.
    Number(String),
    Str(String),
    Array(Vec<JsonValue>),
    /// The fields of an object, in the order the parser hands them over.
    Object(Vec<(String, JsonValue)>),
}

} // verus!
