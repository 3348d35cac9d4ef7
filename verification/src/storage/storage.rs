//! The keyspace of one shard, held in an `AHashMap`.

use vstd::prelude::*;

use ahash::AHashMap;

use crate::storage::record::{Record, RecordView, expired};

verus! {

/// The hash map type that holds the keyspace.
#[verifier::external_type_specification]
#[verifier::external_body]
#[verifier::reject_recursive_types(K)]
#[verifier::reject_recursive_types(V)]
#[verifier::reject_recursive_types(S)]
pub struct ExAHashMap<K, V, S>(AHashMap<K, V, S>);

/// The hasher state of an `AHashMap`.
#[verifier::external_type_specification]
#[verifier::external_body]
pub struct ExRandomState(ahash::RandomState);

/// What a keyspace map holds: each key, by its bytes, to its record.
pub uninterp spec fn keyspace_entries(m: AHashMap<Vec<u8>, Record>) -> Map<Seq<u8>, RecordView>;

/// `AHashMap::new`: an empty map (its hasher is seeded at random, which
/// changes no lookup).
#[verifier::external_body]
fn keyspace_new() -> (r: AHashMap<Vec<u8>, Record>)
    ensures
        keyspace_entries(r).dom().is_empty(),
{
    AHashMap::new()
}

/// `AHashMap::get`: the record stored under the key equal to `k`, if any.
#[verifier::external_body]
fn keyspace_get<'a>(m: &'a AHashMap<Vec<u8>, Record>, k: &Vec<u8>) -> (r: Option<&'a Record>)
    ensures
        match r {
            Some(rec) => keyspace_entries(*m).contains_key(k@) && rec@ == keyspace_entries(
                *m,
            )[k@],
            None => !keyspace_entries(*m).contains_key(k@),
        },
{
    m.get(k)
}

/// `AHashMap::insert`: stores `v` under `k`, handing back the record it
/// replaces, if any.
#[verifier::external_body]
fn keyspace_insert(m: &mut AHashMap<Vec<u8>, Record>, k: Vec<u8>, v: Record) -> (r: Option<Record>)
    ensures
        keyspace_entries(*final(m)) == keyspace_entries(*old(m)).insert(k@, v@),
        match r {
            Some(rec) => keyspace_entries(*old(m)).contains_key(k@) && rec@ == keyspace_entries(
                *old(m),
            )[k@],
            None => !keyspace_entries(*old(m)).contains_key(k@),
        },
{
    m.insert(k, v)
}

/// `AHashMap::remove`: takes out the record stored under the key equal to
/// `k`, if any.
#[verifier::external_body]
fn keyspace_remove(m: &mut AHashMap<Vec<u8>, Record>, k: &Vec<u8>) -> (r: Option<Record>)
    ensures
        keyspace_entries(*final(m)) == keyspace_entries(*old(m)).remove(k@),
        match r {
            Some(rec) => keyspace_entries(*old(m)).contains_key(k@) && rec@ == keyspace_entries(
                *old(m),
            )[k@],
            None => !keyspace_entries(*old(m)).contains_key(k@),
        },
{
    m.remove(k)
}

/// The keyspace after a lookup of `k` at time `now`: a record under `k` that
/// has expired is dropped.
pub open spec fn evict(m: Map<Seq<u8>, RecordView>, k: Seq<u8>, now: u64) -> Map<
    Seq<u8>,
    RecordView,
> {
    if m.contains_key(k) && expired(m[k], now) {
        m.remove(k)
    } else {
        m
    }
}

/// The record under `k` that has not expired at `now`, if any.
pub open spec fn live(m: Map<Seq<u8>, RecordView>, k: Seq<u8>, now: u64) -> Option<RecordView> {
    if m.contains_key(k) && !expired(m[k], now) {
        Some(m[k])
    } else {
        None
    }
}

/// Dropping an expired record changes no lookup at the same time, and a
/// second drop changes nothing.
pub proof fn lemma_evict_invisible(m: Map<Seq<u8>, RecordView>, k: Seq<u8>, now: u64)
    ensures
        forall|k2: Seq<u8>| #[trigger] live(evict(m, k, now), k2, now) == live(m, k2, now),
        evict(evict(m, k, now), k, now) == evict(m, k, now),
{
    assert forall|k2: Seq<u8>| #[trigger] live(evict(m, k, now), k2, now) == live(m, k2, now) by {
    }
}

/// The records of one shard, by key.
pub struct StorageEngine {
    keyspace: AHashMap<Vec<u8>, Record>,
}

impl View for StorageEngine {
    type V = Map<Seq<u8>, RecordView>;

    closed spec fn view(&self) -> Map<Seq<u8>, RecordView> {
        keyspace_entries(self.keyspace)
    }
}

impl StorageEngine {
    pub fn new() -> (r: Self)
        ensures
            r@ == Map::<Seq<u8>, RecordView>::empty(),
    {
        let r = StorageEngine { keyspace: keyspace_new() };
        assert(r@ =~= Map::<Seq<u8>, RecordView>::empty());
        r
    }

    fn evict_if_expired(&mut self, key: &Vec<u8>, now: u64)
        ensures
            final(self)@ == evict(old(self)@, key@, now),
    {
        let expired = match keyspace_get(&self.keyspace, key) {
            Some(r) => r.is_expired(now),
            None => false,
        };
        if expired {
            let _ = keyspace_remove(&mut self.keyspace, key);
        }
    }

    /// The record under `key` that is live at `now`, after dropping it if it
    /// has expired.
    pub(crate) fn peek_live(&mut self, key: &Vec<u8>, now: u64) -> (r: Option<&Record>)
        ensures
            final(self)@ == evict(old(self)@, key@, now),
            match live(old(self)@, key@, now) {
                Some(rec) => r matches Some(x) && x@ == rec,
                None => r is None,
            },
    {
        self.evict_if_expired(key, now);
        keyspace_get(&self.keyspace, key)
    }

    /// Takes out the record under `key` if it is live at `now`; an expired one
    /// is dropped.
    pub(crate) fn take_if_live(&mut self, key: &Vec<u8>, now: u64) -> (r: Option<Record>)
        ensures
            final(self)@ == old(self)@.remove(key@),
            match live(old(self)@, key@, now) {
                Some(rec) => r matches Some(x) && x@ == rec,
                None => r is None,
            },
    {
        self.evict_if_expired(key, now);
        let r = keyspace_remove(&mut self.keyspace, key);
        assert(evict(old(self)@, key@, now).remove(key@) =~= old(self)@.remove(key@));
        r
    }

    /// Stores `rec` under `key`, handing back the record it replaces.
    pub(crate) fn put(&mut self, key: Vec<u8>, rec: Record) -> (r: Option<Record>)
        ensures
            final(self)@ == old(self)@.insert(key@, rec@),
            match r {
                Some(x) => old(self)@.contains_key(key@) && x@ == old(self)@[key@],
                None => !old(self)@.contains_key(key@),
            },
    {
        keyspace_insert(&mut self.keyspace, key, rec)
    }

    /// The expiry of the record under `key`, live or not, without dropping it.
    pub fn get_expiry(&self, key: &Vec<u8>) -> (r: Option<Option<u64>>)
        ensures
            r == (if self@.contains_key(key@) {
                Some(self@[key@].expire_at)
            } else {
                None::<Option<u64>>
            }),
    {
        match keyspace_get(&self.keyspace, key) {
            Some(rec) => Some(rec.expire_at),
            None => None,
        }
    }
}

} // verus!
