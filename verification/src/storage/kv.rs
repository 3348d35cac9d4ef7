//! A key-value store whose records may expire, held in an `AHashMap`.
//! Expired records are dropped when a lookup meets them.

use vstd::prelude::*;

use ahash::AHashMap;

use crate::engine::value::Value;
use crate::util::copy_bytes;

verus! {

/// A value and the time, in milliseconds, at which it expires.
#[derive(Debug)]
pub struct ExpiringRecord {
    pub value: Value,
    pub expires_at: Option<u64>,
}

/// The abstract value of a record: its bytes and its expiry.
pub open spec fn expiring_view(r: ExpiringRecord) -> (Seq<u8>, Option<u64>) {
    match r.value {
        Value::String(b) => (b@, r.expires_at),
    }
}

/// A record has expired once its expiry is not after `now`.
pub open spec fn lapsed(e: (Seq<u8>, Option<u64>), now: u64) -> bool {
    e.1 matches Some(at) && at <= now
}

impl ExpiringRecord {
    pub fn is_expired(&self, now: u64) -> (r: bool)
        ensures
            r == lapsed(expiring_view(*self), now),
    {
        match self.expires_at {
            Some(expiry) => expiry <= now,
            None => false,
        }
    }
}

/// What an expiring store's map holds: each key, by its bytes, to its
/// record's bytes and expiry.
pub uninterp spec fn expiring_entries(m: AHashMap<Vec<u8>, ExpiringRecord>) -> Map<
    Seq<u8>,
    (Seq<u8>, Option<u64>),
>;

/// `AHashMap::new`: an empty map.
#[verifier::external_body]
fn expiring_map_new() -> (r: AHashMap<Vec<u8>, ExpiringRecord>)
    ensures
        expiring_entries(r).dom().is_empty(),
{
    AHashMap::new()
}

/// `AHashMap::get`: the record stored under the key equal to `k`, if any.
#[verifier::external_body]
fn expiring_map_get<'a>(m: &'a AHashMap<Vec<u8>, ExpiringRecord>, k: &Vec<u8>) -> (r: Option<&'a ExpiringRecord>)
    ensures
        match r {
            Some(rec) => expiring_entries(*m).contains_key(k@) && expiring_view(*rec) == expiring_entries(
                *m,
            )[k@],
            None => !expiring_entries(*m).contains_key(k@),
        },
{
    m.get(k)
}

/// `AHashMap::insert`: stores `v` under `k`, handing back the record it
/// replaces, if any.
#[verifier::external_body]
fn expiring_map_insert(m: &mut AHashMap<Vec<u8>, ExpiringRecord>, k: Vec<u8>, v: ExpiringRecord) -> (r:
    Option<ExpiringRecord>)
    ensures
        expiring_entries(*final(m)) == expiring_entries(*old(m)).insert(k@, expiring_view(v)),
        match r {
            Some(rec) => expiring_entries(*old(m)).contains_key(k@) && expiring_view(rec)
                == expiring_entries(*old(m))[k@],
            None => !expiring_entries(*old(m)).contains_key(k@),
        },
{
    m.insert(k, v)
}

/// `AHashMap::remove`: takes out the record stored under the key equal to
/// `k`, if any.
#[verifier::external_body]
fn expiring_map_remove(m: &mut AHashMap<Vec<u8>, ExpiringRecord>, k: &Vec<u8>) -> (r: Option<ExpiringRecord>)
    ensures
        expiring_entries(*final(m)) == expiring_entries(*old(m)).remove(k@),
        match r {
            Some(rec) => expiring_entries(*old(m)).contains_key(k@) && expiring_view(rec)
                == expiring_entries(*old(m))[k@],
            None => !expiring_entries(*old(m)).contains_key(k@),
        },
{
    m.remove(k)
}

/// The map after a lookup of `k` at `now`: an expired record is dropped.
pub open spec fn drop_lapsed(m: Map<Seq<u8>, (Seq<u8>, Option<u64>)>, k: Seq<u8>, now: u64) -> Map<
    Seq<u8>,
    (Seq<u8>, Option<u64>),
> {
    if m.contains_key(k) && lapsed(m[k], now) {
        m.remove(k)
    } else {
        m
    }
}

/// The bytes under `k` that have not expired at `now`, if any.
pub open spec fn live_bytes(m: Map<Seq<u8>, (Seq<u8>, Option<u64>)>, k: Seq<u8>, now: u64) -> Option<Seq<u8>> {
    if m.contains_key(k) && !lapsed(m[k], now) {
        Some(m[k].0)
    } else {
        None
    }
}

pub struct KvStore {
    map: AHashMap<Vec<u8>, ExpiringRecord>,
}

impl View for KvStore {
    type V = Map<Seq<u8>, (Seq<u8>, Option<u64>)>;

    closed spec fn view(&self) -> Map<Seq<u8>, (Seq<u8>, Option<u64>)> {
        expiring_entries(self.map)
    }
}

impl KvStore {
    pub fn new() -> (r: Self)
        ensures
            r@ == Map::<Seq<u8>, (Seq<u8>, Option<u64>)>::empty(),
    {
        let r = KvStore { map: expiring_map_new() };
        assert(r@ =~= Map::<Seq<u8>, (Seq<u8>, Option<u64>)>::empty());
        r
    }

    /// The record under `key` that is live at `now`; an expired one is
    /// dropped.
    fn resolve(&mut self, key: &Vec<u8>, now: u64) -> (r: Option<&ExpiringRecord>)
        ensures
            final(self)@ == drop_lapsed(old(self)@, key@, now),
            match live_bytes(old(self)@, key@, now) {
                Some(b) => r matches Some(rec) && expiring_view(*rec) == old(self)@[key@],
                None => r is None,
            },
    {
        let expired = match expiring_map_get(&self.map, key) {
            Some(record) => record.is_expired(now),
            None => return None,
        };
        if expired {
            let _ = expiring_map_remove(&mut self.map, key);
            return None;
        }
        expiring_map_get(&self.map, key)
    }

    /// The bytes under `key` at `now`; an expired record is dropped.
    pub fn get(&mut self, key: &Vec<u8>, now: u64) -> (r: Option<Vec<u8>>)
        ensures
            final(self)@ == drop_lapsed(old(self)@, key@, now),
            match live_bytes(old(self)@, key@, now) {
                Some(b) => r matches Some(v) && v@ == b,
                None => r is None,
            },
    {
        match self.resolve(key, now) {
            Some(record) => Some(copy_bytes(record.value.get_bytes().as_slice())),
            None => None,
        }
    }

    /// Stores `value` under `key` with expiry `expires_at`, or with the
    /// stored record's expiry when `keep_ttl` is set, expired or not; hands
    /// back the bytes it replaces.
    pub fn update(&mut self, key: Vec<u8>, value: Value, expires_at: Option<u64>, keep_ttl: bool) -> (r: Option<
        Vec<u8>,
    >)
        ensures
            final(self)@ == old(self)@.insert(
                key@,
                (
                    match value {
                        Value::String(b) => b@,
                    },
                    if keep_ttl {
                        if old(self)@.contains_key(key@) {
                            old(self)@[key@].1
                        } else {
                            None
                        }
                    } else {
                        expires_at
                    },
                ),
            ),
            match r {
                Some(b) => old(self)@.contains_key(key@) && b@ == old(self)@[key@].0,
                None => !old(self)@.contains_key(key@),
            },
    {
        let existing_expiry = match expiring_map_get(&self.map, &key) {
            Some(r) => r.expires_at,
            None => None,
        };
        let new_expiry = if keep_ttl {
            existing_expiry
        } else {
            expires_at
        };
        match expiring_map_insert(&mut self.map, key, ExpiringRecord { value, expires_at: new_expiry }) {
            Some(old_record) => Some(copy_bytes(old_record.value.get_bytes().as_slice())),
            None => None,
        }
    }

    /// Removes `key`; true when it was live at `now`.
    pub fn remove(&mut self, key: &Vec<u8>, now: u64) -> (r: bool)
        ensures
            final(self)@ == old(self)@.remove(key@),
            r == live_bytes(old(self)@, key@, now) is Some,
    {
        if let Some(record) = expiring_map_remove(&mut self.map, key) {
            if record.is_expired(now) {
                let _ = expiring_map_remove(&mut self.map, key);
                return false;
            }
            let _ = expiring_map_remove(&mut self.map, key);
            return true;
        }
        false
    }

    /// The expiry of the record under `key`, live or not.
    pub fn get_expiry(&self, key: &Vec<u8>) -> (r: Option<Option<u64>>)
        ensures
            r == (if self@.contains_key(key@) {
                Some(self@[key@].1)
            } else {
                None::<Option<u64>>
            }),
    {
        match expiring_map_get(&self.map, key) {
            Some(r) => Some(r.expires_at),
            None => None,
        }
    }
}

} // verus!
