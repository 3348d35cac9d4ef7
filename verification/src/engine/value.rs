//! The values of the plain key-value store.

use vstd::prelude::*;

verus! {

/// A stored value: only strings so far.
#[derive(Debug)]
pub enum Value {
    String(Vec<u8>),
}

impl Value {
    /// The bytes of a string value.
    pub fn as_string(&self) -> (r: Option<&Vec<u8>>)
        ensures
            match self {
                Value::String(b) => r == Some(b),
            },
    {
        match self {
            Value::String(b) => Some(b),
        }
    }

    /// The bytes the value holds.
    pub fn get_bytes(&self) -> (r: &Vec<u8>)
        ensures
            match self {
                Value::String(b) => r == b,
            },
    {
        match self {
            Value::String(b) => b,
        }
    }

    pub fn value_type_name(&self) -> (r: &'static str)
        ensures
            r@ == "string"@,
    {
        match self {
            Value::String(_) => "string",
        }
    }
}

} // verus!
