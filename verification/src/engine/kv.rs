//! A plain key-value store without expiry, held in an `AHashMap`.

use vstd::prelude::*;

use ahash::AHashMap;

use crate::engine::value::Value;

verus! {

/// A stored value.
#[derive(Debug)]
pub struct Record {
    pub value: Value,
}

impl Record {
    pub fn new(value: Value) -> (r: Record)
        ensures
            r.value == value,
    {
        Record { value }
    }
}

/// The bytes a record holds.
pub open spec fn record_bytes(r: Record) -> Seq<u8> {
    match r.value {
        Value::String(b) => b@,
    }
}

/// What a plain store's map holds: each key, by its bytes, to its record's
/// bytes.
pub uninterp spec fn kv_entries(m: AHashMap<Vec<u8>, Record>) -> Map<Seq<u8>, Seq<u8>>;

/// `AHashMap::new`: an empty map.
#[verifier::external_body]
fn kv_map_new() -> (r: AHashMap<Vec<u8>, Record>)
    ensures
        kv_entries(r).dom().is_empty(),
{
    AHashMap::new()
}

/// `AHashMap::get`: the record stored under the key equal to `k`, if any.
#[verifier::external_body]
fn kv_map_get<'a>(m: &'a AHashMap<Vec<u8>, Record>, k: &Vec<u8>) -> (r: Option<&'a Record>)
    ensures
        match r {
            Some(rec) => kv_entries(*m).contains_key(k@) && record_bytes(*rec) == kv_entries(*m)[k@],
            None => !kv_entries(*m).contains_key(k@),
        },
{
    m.get(k)
}

/// `AHashMap::insert`: stores `v` under `k`, handing back the record it
/// replaces, if any.
#[verifier::external_body]
fn kv_map_insert(m: &mut AHashMap<Vec<u8>, Record>, k: Vec<u8>, v: Record) -> (r: Option<Record>)
    ensures
        kv_entries(*final(m)) == kv_entries(*old(m)).insert(k@, record_bytes(v)),
        match r {
            Some(rec) => kv_entries(*old(m)).contains_key(k@) && record_bytes(rec) == kv_entries(*old(m))[k@],
            None => !kv_entries(*old(m)).contains_key(k@),
        },
{
    m.insert(k, v)
}

/// `AHashMap::remove`: takes out the record stored under the key equal to
/// `k`, if any.
#[verifier::external_body]
fn kv_map_remove(m: &mut AHashMap<Vec<u8>, Record>, k: &Vec<u8>) -> (r: Option<Record>)
    ensures
        kv_entries(*final(m)) == kv_entries(*old(m)).remove(k@),
        match r {
            Some(rec) => kv_entries(*old(m)).contains_key(k@) && record_bytes(rec) == kv_entries(*old(m))[k@],
            None => !kv_entries(*old(m)).contains_key(k@),
        },
{
    m.remove(k)
}

/// `HashMap::contains_key`, through the map's `Deref`: whether a key equal
/// to `k` is stored.
#[verifier::external_body]
fn kv_map_contains(m: &AHashMap<Vec<u8>, Record>, k: &Vec<u8>) -> (r: bool)
    ensures
        r == kv_entries(*m).contains_key(k@),
{
    m.contains_key(k)
}

/// `HashMap::len`, through the map's `Deref`: how many keys are stored.
#[verifier::external_body]
fn kv_map_len(m: &AHashMap<Vec<u8>, Record>) -> (r: usize)
    ensures
        r == kv_entries(*m).len(),
{
    m.len()
}

/// A map from keys to values.
pub struct KvStore {
    pub map: AHashMap<Vec<u8>, Record>,
}

impl View for KvStore {
    type V = Map<Seq<u8>, Seq<u8>>;

    open spec fn view(&self) -> Map<Seq<u8>, Seq<u8>> {
        kv_entries(self.map)
    }
}

impl KvStore {
    pub fn new() -> (r: Self)
        ensures
            r@ == Map::<Seq<u8>, Seq<u8>>::empty(),
    {
        let r = KvStore { map: kv_map_new() };
        assert(r@ =~= Map::<Seq<u8>, Seq<u8>>::empty());
        r
    }

    pub fn get(&self, key: &Vec<u8>) -> (r: Option<&Record>)
        ensures
            match r {
                Some(rec) => self@.contains_key(key@) && record_bytes(*rec) == self@[key@],
                None => !self@.contains_key(key@),
            },
    {
        kv_map_get(&self.map, key)
    }

    /// Stores `record` under `key`, handing back the one it replaces.
    pub fn set(&mut self, key: Vec<u8>, record: Record) -> (r: Option<Record>)
        ensures
            final(self)@ == old(self)@.insert(key@, record_bytes(record)),
            match r {
                Some(rec) => old(self)@.contains_key(key@) && record_bytes(rec) == old(self)@[key@],
                None => !old(self)@.contains_key(key@),
            },
    {
        kv_map_insert(&mut self.map, key, record)
    }

    /// Takes out the record under `key`.
    pub fn del(&mut self, key: &Vec<u8>) -> (r: Option<Record>)
        ensures
            final(self)@ == old(self)@.remove(key@),
            match r {
                Some(rec) => old(self)@.contains_key(key@) && record_bytes(rec) == old(self)@[key@],
                None => !old(self)@.contains_key(key@),
            },
    {
        kv_map_remove(&mut self.map, key)
    }

    pub fn contains(&self, key: &Vec<u8>) -> (r: bool)
        ensures
            r == self@.contains_key(key@),
    {
        kv_map_contains(&self.map, key)
    }

    pub fn len(&self) -> (r: usize)
        ensures
            r == self@.len(),
    {
        kv_map_len(&self.map)
    }

    pub fn is_empty(&self) -> (r: bool)
        ensures
            r == (self@.len() == 0),
    {
        kv_map_len(&self.map) == 0
    }
}

} // verus!
