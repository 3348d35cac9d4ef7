//! Which shard owns a key, among the peers a worker can send to.

use vstd::prelude::*;

use crate::engine::coordinator::fnv1a;

verus! {

/// Where a key's commands go.
pub enum Shard<'a, T> {
    /// This worker owns it.
    Local,
    /// The peer that owns it.
    Peer(&'a T),
}

/// The hash that places keys, as a `usize`.
pub open spec fn key_hash(key: Seq<u8>) -> usize {
    fnv1a(key) as usize
}

/// The index of the shard, of `n`, that owns `key`.
pub open spec fn owner(key: Seq<u8>, n: usize) -> usize
    recommends
        n > 0,
{
    (key_hash(key) % n) as usize
}

/// A worker's view of the shards: its own index and a way to reach each
/// shard (its own included).
pub struct ShardResolver<T> {
    id: usize,
    peers: Vec<T>,
}

impl<T> ShardResolver<T> {
    pub closed spec fn id_spec(&self) -> usize {
        self.id
    }

    pub closed spec fn peers_spec(&self) -> Seq<T> {
        self.peers@
    }

    pub fn new(id: usize, peers: Vec<T>) -> (r: Self)
        ensures
            r.id_spec() == id,
            r.peers_spec() == peers@,
    {
        ShardResolver { id, peers }
    }

    /// How many shards there are.
    pub fn peer_count(&self) -> (r: usize)
        ensures
            r == self.peers_spec().len(),
    {
        self.peers.len()
    }

    /// Where `key` goes: here when this worker owns it, else to its owner.
    pub fn resolve(&self, key: &[u8]) -> (r: Shard<'_, T>)
        requires
            self.peers_spec().len() > 0,
        ensures
            owner(key@, self.peers_spec().len() as usize) == self.id_spec() ==> r is Local,
            owner(key@, self.peers_spec().len() as usize) != self.id_spec() ==> (r matches Shard::Peer(p)
                && *p == self.peers_spec()[owner(key@, self.peers_spec().len() as usize) as int]),
    {
        let target = Self::hash(key) % self.peers.len();
        if target == self.id {
            Shard::Local
        } else {
            Shard::Peer(&self.peers[target])
        }
    }

    /// The FNV-1a hash of `key`, kept to a `usize`.
    fn hash(key: &[u8]) -> (r: usize)
        ensures
            r == key_hash(key@),
    {
        let mut h: u64 = crate::engine::coordinator::FNV_OFFSET;
        let mut i: usize = 0;
        while i < key.len()
            invariant
                i <= key@.len(),
                h == fnv1a(key@.take(i as int)),
            decreases key@.len() - i,
        {
            assert(key@.take(i + 1).drop_last() =~= key@.take(i as int));
            h = (h ^ (key[i] as u64)).wrapping_mul(crate::engine::coordinator::FNV_PRIME);
            i += 1;
        }
        assert(key@.take(key@.len() as int) =~= key@);
        #[verifier::truncate]
        (h as usize)
    }
}

} // verus!
