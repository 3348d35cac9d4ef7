//! Operations on keys, whatever their values.

use vstd::prelude::*;

use crate::storage::record::RecordView;
use crate::storage::storage::{StorageEngine, evict, live};

verus! {

/// What TTL reports of `k` at `now`: `None` for no live key, `Some(None)` for
/// a key without expiry, else the milliseconds left.
pub open spec fn ttl_spec(m: Map<Seq<u8>, RecordView>, k: Seq<u8>, now: u64) -> Option<Option<u64>> {
    match live(m, k, now) {
        None => None,
        Some(r) => Some(
            match r.expire_at {
                None => None,
                Some(at) => Some((at - now) as u64),
            },
        ),
    }
}

pub trait KeyOps {
    fn del(&mut self, key: &Vec<u8>, now: u64) -> bool;

    fn exists_key(&mut self, key: &Vec<u8>, now: u64) -> bool;

    fn ttl(&mut self, key: &Vec<u8>, now: u64) -> Option<Option<u64>>;
}

impl KeyOps for StorageEngine {
    /// Removes `key`; true when it was live at `now`.
    fn del(&mut self, key: &Vec<u8>, now: u64) -> (r: bool)
        ensures
            final(self)@ == old(self)@.remove(key@),
            r == live(old(self)@, key@, now) is Some,
    {
        self.take_if_live(key, now).is_some()
    }

    /// Whether `key` is live at `now`; an expired record is dropped.
    fn exists_key(&mut self, key: &Vec<u8>, now: u64) -> (r: bool)
        ensures
            final(self)@ == evict(old(self)@, key@, now),
            r == live(old(self)@, key@, now) is Some,
    {
        self.peek_live(key, now).is_some()
    }

    /// The time left to `key` at `now`; an expired record is dropped.
    fn ttl(&mut self, key: &Vec<u8>, now: u64) -> (r: Option<Option<u64>>)
        ensures
            final(self)@ == evict(old(self)@, key@, now),
            r == ttl_spec(old(self)@, key@, now),
    {
        match self.peek_live(key, now) {
            Some(record) => match record.expire_at {
                Some(at) => Some(Some(at.saturating_sub(now))),
                None => Some(None),
            },
            None => None,
        }
    }
}

} // verus!
