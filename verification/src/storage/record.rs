//! A stored value with its optional expiry.

use vstd::prelude::*;

use crate::storage::value::{Value, ValueView};

verus! {

/// A value and the time, in milliseconds, at which it expires.
#[derive(Debug)]
pub struct Record {
    pub value: Value,
    pub expire_at: Option<u64>,
}

/// The abstract value of a `Record`.
pub struct RecordView {
    pub value: ValueView,
    pub expire_at: Option<u64>,
}

impl View for Record {
    type V = RecordView;

    open spec fn view(&self) -> RecordView {
        RecordView { value: self.value@, expire_at: self.expire_at }
    }
}

/// A record has expired once its expiry time is not after `now`.
pub open spec fn expired(r: RecordView, now: u64) -> bool {
    r.expire_at matches Some(at) && at <= now
}

impl Record {
    pub fn new(value: Value, expire_at: Option<u64>) -> (r: Record)
        ensures
            r@ == (RecordView { value: value@, expire_at }),
    {
        Record { value, expire_at }
    }

    pub fn is_expired(&self, now: u64) -> (r: bool)
        ensures
            r == expired(self@, now),
    {
        match self.expire_at {
            Some(ex) => ex <= now,
            None => false,
        }
    }
}

} // verus!
