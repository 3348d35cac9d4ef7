//! SET and GET of string values as the storage engine offers them directly,
//! with the conditions of SET decided here.

use vstd::prelude::*;

use crate::commands::options::SetOptions;
use crate::storage::error::{StorageError, StorageResult};
use crate::storage::ops::string::{bytes_result, get_spec};
use crate::storage::record::{Record, RecordView, expired};
use crate::storage::result::WriteOutcome;
use crate::storage::storage::{StorageEngine, evict};
use crate::storage::value::{Value, ValueView};
use crate::util::copy_bytes;

verus! {

/// A conditional SET of `k` to `v` at `now`: whether it wrote, with the old
/// string value, and the keyspace after. A missing or expired key counts as
/// absent (an expired one that is not replaced is dropped); NX refuses to
/// write over a live key and XX to write an absent one; KEEPTTL keeps the
/// live key's expiry.
pub open spec fn str_set_spec(
    m: Map<Seq<u8>, RecordView>,
    k: Seq<u8>,
    v: ValueView,
    o: SetOptions,
    now: u64,
) -> (Result<WriteOutcome<Option<Seq<u8>>>, StorageError>, Map<Seq<u8>, RecordView>) {
    let fresh = RecordView { value: v, expire_at: o.expires_at };
    if !m.contains_key(k) {
        if o.xx {
            (Ok(WriteOutcome::Rejected(None)), m)
        } else {
            (Ok(WriteOutcome::Applied(None)), m.insert(k, fresh))
        }
    } else if expired(m[k], now) {
        if o.xx {
            (Ok(WriteOutcome::Rejected(None)), m.remove(k))
        } else {
            (Ok(WriteOutcome::Applied(None)), m.insert(k, fresh))
        }
    } else {
        match m[k].value {
            ValueView::Hash => (Err(StorageError::WrongType), m),
            ValueView::String(old) => if o.nx {
                (Ok(WriteOutcome::Rejected(Some(old))), m)
            } else {
                let expire_at = if o.keep_ttl {
                    m[k].expire_at
                } else {
                    o.expires_at
                };
                (
                    Ok(WriteOutcome::Applied(Some(old))),
                    m.insert(k, RecordView { value: v, expire_at }),
                )
            },
        }
    }
}

/// The abstract value of a conditional SET's result.
pub open spec fn outcome_view(r: StorageResult<WriteOutcome<Option<Vec<u8>>>>) -> Result<
    WriteOutcome<Option<Seq<u8>>>,
    StorageError,
> {
    match r {
        Ok(WriteOutcome::Applied(Some(b))) => Ok(WriteOutcome::Applied(Some(b@))),
        Ok(WriteOutcome::Applied(None)) => Ok(WriteOutcome::Applied(None)),
        Ok(WriteOutcome::Rejected(Some(b))) => Ok(WriteOutcome::Rejected(Some(b@))),
        Ok(WriteOutcome::Rejected(None)) => Ok(WriteOutcome::Rejected(None)),
        Err(e) => Err(e),
    }
}

impl StorageEngine {
    /// The string value under `key` at `now`; an expired record is dropped.
    pub fn str_get(&mut self, key: &Vec<u8>, now: u64) -> (r: StorageResult<Option<Vec<u8>>>)
        ensures
            final(self)@ == evict(old(self)@, key@, now),
            bytes_result(r) == get_spec(old(self)@, key@, now),
    {
        match self.peek_live(key, now) {
            Some(record) => match record.value.as_string() {
                Ok(b) => Ok(Some(copy_bytes(b.as_slice()))),
                Err(e) => Err(e),
            },
            None => Ok(None),
        }
    }

    /// Sets `key` to `value` under the conditions of `options`.
    pub fn str_set(&mut self, key: Vec<u8>, value: Value, options: SetOptions, now: u64) -> (r: StorageResult<
        WriteOutcome<Option<Vec<u8>>>,
    >)
        ensures
            (outcome_view(r), final(self)@) == str_set_spec(old(self)@, key@, value@, options, now),
    {
        let ghost m = self@;
        let (old, kept) = match self.peek_live(&key, now) {
            None => (None, None),
            Some(record) => match record.value.as_string() {
                Ok(b) => (Some(copy_bytes(b.as_slice())), record.expire_at),
                Err(e) => return Err(e),
            },
        };
        match old {
            None => {
                if options.xx {
                    return Ok(WriteOutcome::Rejected(None));
                }
                let _ = self.put(key, Record::new(value, options.expires_at));
                assert(evict(m, key@, now).insert(key@, RecordView { value: value@, expire_at: options.expires_at }) =~= m.insert(
                    key@,
                    RecordView { value: value@, expire_at: options.expires_at },
                ));
                Ok(WriteOutcome::Applied(None))
            },
            Some(old) => {
                if options.nx {
                    return Ok(WriteOutcome::Rejected(Some(old)));
                }
                let expire_at = if options.keep_ttl {
                    kept
                } else {
                    options.expires_at
                };
                let _ = self.put(key, Record::new(value, expire_at));
                Ok(WriteOutcome::Applied(Some(old)))
            },
        }
    }
}

} // verus!
