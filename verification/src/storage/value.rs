//! The values that keys hold.

use vstd::prelude::*;

use crate::storage::error::{StorageError, StorageResult};

verus! {

/// A stored value.
#[derive(Debug)]
pub enum Value {
    String(Vec<u8>),
    Hash,
}

/// The abstract value of a `Value`.
pub enum ValueView {
    String(Seq<u8>),
    Hash,
}

impl View for Value {
    type V = ValueView;

    open spec fn view(&self) -> ValueView {
        match self {
            Value::String(b) => ValueView::String(b@),
            Value::Hash => ValueView::Hash,
        }
    }
}

impl Value {
    pub fn value_type_name(&self) -> (r: &'static str)
        ensures
            self is String ==> r@ == "string"@,
            self is Hash ==> r@ == "hash"@,
    {
        match self {
            Value::String(_) => "string",
            Value::Hash => "hash",
        }
    }

    /// The bytes of a string value; `WrongType` for any other value.
    pub fn as_string(&self) -> (r: StorageResult<&Vec<u8>>)
        ensures
            match self@ {
                ValueView::String(b) => r matches Ok(v) && v@ == b,
                ValueView::Hash => r == Err::<&Vec<u8>, StorageError>(StorageError::WrongType),
            },
    {
        if let Value::String(bytes) = self {
            Ok(bytes)
        } else {
            Err(StorageError::WrongType)
        }
    }

    /// The bytes of a string value, to change in place; `WrongType` for any
    /// other value.
    pub fn as_string_mut(&mut self) -> (r: StorageResult<&mut Vec<u8>>)
        ensures
            *old(self) is Hash ==> (r matches Err(e) && e == StorageError::WrongType && *final(self)
                == *old(self)),
            *old(self) is String ==> (r matches Ok(v) && (*v)@ == (*old(self))->String_0@ && *final(self)
                == Value::String(*final(v))),
    {
        if let Value::String(bytes) = self {
            Ok(bytes)
        } else {
            Err(StorageError::WrongType)
        }
    }
}

} // verus!
