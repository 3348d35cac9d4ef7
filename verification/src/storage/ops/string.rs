//! Operations on string values.

use vstd::prelude::*;

use crate::storage::error::{StorageError, StorageResult};
use crate::storage::record::{Record, RecordView};
use crate::storage::storage::{StorageEngine, evict, live};
use crate::storage::value::{Value, ValueView};
use crate::util::{append_bytes, bytes_to_i64, i64_to_bytes, signed_decimal, spec_bytes_to_i64};

verus! {

/// The abstract value of an optional byte-string result.
pub open spec fn bytes_result(r: StorageResult<Option<Vec<u8>>>) -> Result<Option<Seq<u8>>, StorageError> {
    match r {
        Ok(Some(v)) => Ok(Some(v@)),
        Ok(None) => Ok(None),
        Err(e) => Err(e),
    }
}

pub open spec fn string_record(v: Seq<u8>, expire_at: Option<u64>) -> RecordView {
    RecordView { value: ValueView::String(v), expire_at }
}

/// GET of `k` at `now`.
pub open spec fn get_spec(m: Map<Seq<u8>, RecordView>, k: Seq<u8>, now: u64) -> Result<Option<Seq<u8>>, StorageError> {
    match live(m, k, now) {
        None => Ok(None),
        Some(r) => match r.value {
            ValueView::String(b) => Ok(Some(b)),
            ValueView::Hash => Err(StorageError::WrongType),
        },
    }
}

/// SET of `k` to `v` with expiry `expire_at` at `now`: the old string value,
/// and the keyspace after.
pub open spec fn set_spec(
    m: Map<Seq<u8>, RecordView>,
    k: Seq<u8>,
    v: Seq<u8>,
    expire_at: Option<u64>,
    now: u64,
) -> (Result<Option<Seq<u8>>, StorageError>, Map<Seq<u8>, RecordView>) {
    let m2 = evict(m, k, now);
    match live(m, k, now) {
        None => (Ok(None), m2.insert(k, string_record(v, expire_at))),
        Some(r) => match r.value {
            ValueView::String(old) => (Ok(Some(old)), m2.insert(k, string_record(v, expire_at))),
            ValueView::Hash => (Err(StorageError::WrongType), m2),
        },
    }
}

/// APPEND of `v` to `k` at `now`: the new length, and the keyspace after. A
/// new key gets no expiry; an existing one keeps its own.
pub open spec fn append_spec(m: Map<Seq<u8>, RecordView>, k: Seq<u8>, v: Seq<u8>, now: u64) -> (
    Result<nat, StorageError>,
    Map<Seq<u8>, RecordView>,
) {
    let m2 = evict(m, k, now);
    match live(m, k, now) {
        None => (Ok(v.len()), m2.insert(k, string_record(v, None))),
        Some(r) => match r.value {
            ValueView::String(old) => (
                Ok(old.len() + v.len()),
                m2.insert(k, string_record(old + v, r.expire_at)),
            ),
            ValueView::Hash => (Err(StorageError::WrongType), m2),
        },
    }
}

/// INCRBY of `k` by `by` at `now`: the new value, and the keyspace after. A
/// new key starts from zero with no expiry; a value that is not a decimal
/// `i64`, or a sum out of range, is refused.
pub open spec fn incr_spec(m: Map<Seq<u8>, RecordView>, k: Seq<u8>, by: i64, now: u64) -> (
    Result<i64, StorageError>,
    Map<Seq<u8>, RecordView>,
) {
    let m2 = evict(m, k, now);
    match live(m, k, now) {
        None => (Ok(by), m2.insert(k, string_record(signed_decimal(by as int), None))),
        Some(r) => match r.value {
            ValueView::Hash => (Err(StorageError::WrongType), m2),
            ValueView::String(b) => match spec_bytes_to_i64(b) {
                None => (Err(StorageError::OutOfRange), m2),
                Some(old) => if i64::MIN <= old + by <= i64::MAX {
                    (
                        Ok((old + by) as i64),
                        m2.insert(k, string_record(signed_decimal(old + by), r.expire_at)),
                    )
                } else {
                    (Err(StorageError::OutOfRange), m2)
                },
            },
        },
    }
}

pub trait StringOps {
    fn get(&mut self, key: &Vec<u8>, now: u64) -> StorageResult<Option<Vec<u8>>>;

    fn set(
        &mut self,
        key: Vec<u8>,
        value: Vec<u8>,
        expire_at: Option<u64>,
        now: u64,
    ) -> StorageResult<Option<Vec<u8>>>;

    fn append(&mut self, key: Vec<u8>, value: Vec<u8>, now: u64) -> StorageResult<usize>;

    fn incr_by(&mut self, key: Vec<u8>, by: i64, now: u64) -> StorageResult<i64>;
}

impl StringOps for StorageEngine {
    fn get(&mut self, key: &Vec<u8>, now: u64) -> (r: StorageResult<Option<Vec<u8>>>)
        ensures
            final(self)@ == evict(old(self)@, key@, now),
            bytes_result(r) == get_spec(old(self)@, key@, now),
    {
        match self.peek_live(key, now) {
            Some(record) => match record.value.as_string() {
                Ok(b) => Ok(Some(crate::util::copy_bytes(b.as_slice()))),
                Err(e) => Err(e),
            },
            None => Ok(None),
        }
    }

    fn set(&mut self, key: Vec<u8>, value: Vec<u8>, expire_at: Option<u64>, now: u64) -> (r:
        StorageResult<Option<Vec<u8>>>)
        ensures
            (bytes_result(r), final(self)@) == set_spec(old(self)@, key@, value@, expire_at, now),
    {
        let is_hash = match self.peek_live(&key, now) {
            Some(record) => match record.value {
                Value::Hash => true,
                Value::String(_) => false,
            },
            None => false,
        };
        if is_hash {
            return Err(StorageError::WrongType);
        }
        let ghost m2 = self@;
        match self.put(key, Record::new(Value::String(value), expire_at)) {
            Some(old) => match old.value {
                Value::String(b) => Ok(Some(b)),
                Value::Hash => {
                    assert(false);
                    Ok(None)
                },
            },
            None => Ok(None),
        }
    }

    fn append(&mut self, key: Vec<u8>, value: Vec<u8>, now: u64) -> (r: StorageResult<usize>)
        ensures
            match (r, append_spec(old(self)@, key@, value@, now)) {
                (Ok(n), (Ok(m), s)) => n == m && final(self)@ == s,
                (Err(e), (Err(f), s)) => e == f && final(self)@ == s,
                _ => false,
            },
    {
        let is_hash = match self.peek_live(&key, now) {
            Some(record) => match record.value {
                Value::Hash => true,
                Value::String(_) => false,
            },
            None => false,
        };
        if is_hash {
            return Err(StorageError::WrongType);
        }
        let ghost m2 = self@;
        match self.take_if_live(&key, now) {
            None => {
                let len = value.len();
                let _ = self.put(key, Record::new(Value::String(value), None));
                assert(m2.remove(key@).insert(key@, string_record(value@, None)) =~= m2.insert(
                    key@,
                    string_record(value@, None),
                ));
                Ok(len)
            },
            Some(old) => {
                let expire_at = old.expire_at;
                match old.value {
                    Value::String(mut bytes) => {
                        let ghost ob = bytes@;
                        append_bytes(&mut bytes, value.as_slice());
                        let len = bytes.len();
                        let _ = self.put(key, Record::new(Value::String(bytes), expire_at));
                        assert(m2.remove(key@).insert(key@, string_record(ob + value@, expire_at))
                            =~= m2.insert(key@, string_record(ob + value@, expire_at)));
                        Ok(len)
                    },
                    Value::Hash => {
                        assert(false);
                        Err(StorageError::WrongType)
                    },
                }
            },
        }
    }

    fn incr_by(&mut self, key: Vec<u8>, by: i64, now: u64) -> (r: StorageResult<i64>)
        ensures
            match (r, incr_spec(old(self)@, key@, by, now)) {
                (Ok(n), (Ok(m), s)) => n == m && final(self)@ == s,
                (Err(e), (Err(f), s)) => e == f && final(self)@ == s,
                _ => false,
            },
    {
        let (current, expire_at) = match self.peek_live(&key, now) {
            None => (None, None),
            Some(record) => match record.value.as_string() {
                Err(e) => return Err(e),
                Ok(b) => match bytes_to_i64(b.as_slice()) {
                    None => return Err(StorageError::OutOfRange),
                    Some(n) => (Some(n), record.expire_at),
                },
            },
        };
        match current {
            None => {
                let _ = self.put(key, Record::new(Value::String(i64_to_bytes(by)), None));
                Ok(by)
            },
            Some(old_int) => {
                let new_int = match old_int.checked_add(by) {
                    Some(v) => v,
                    None => return Err(StorageError::OutOfRange),
                };
                let _ = self.put(key, Record::new(Value::String(i64_to_bytes(new_int)), expire_at));
                Ok(new_int)
            },
        }
    }
}

} // verus!
