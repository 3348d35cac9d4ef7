//! Commands on keys, whatever their values: TTL, DEL and EXISTS.

use vstd::prelude::*;

use crate::commands::exec::{arg_views, wrong_arity};
use crate::engine::shard::ShardEngine;
use crate::protocol::reply::{CommandError, Reply, ReplyView};
use crate::storage::KeyOps;
use crate::storage::ops::key::ttl_spec;
use crate::storage::record::RecordView;
use crate::storage::storage::{evict, live};

verus! {

/// TTL in whole seconds, rounded to the nearest: -2 for no live key, -1 for a
/// key without expiry.
pub open spec fn ttl_reply(m: Map<Seq<u8>, RecordView>, args: Seq<Seq<u8>>, now: u64) -> (
    ReplyView,
    Map<Seq<u8>, RecordView>,
) {
    if args.len() != 1 {
        (wrong_arity(), m)
    } else {
        let r = match ttl_spec(m, args[0], now) {
            None => ReplyView::Integer(-2i64),
            Some(None) => ReplyView::Integer(-1i64),
            Some(Some(ms)) => ReplyView::Integer(((ms + 500) / 1000) as i64),
        };
        (r, evict(m, args[0], now))
    }
}

/// DEL of `keys`, one after the other: how many were live, and the keyspace
/// after.
pub open spec fn del_count(m: Map<Seq<u8>, RecordView>, keys: Seq<Seq<u8>>, now: u64) -> (
    nat,
    Map<Seq<u8>, RecordView>,
)
    decreases keys.len(),
{
    if keys.len() == 0 {
        (0, m)
    } else {
        let (n, m2) = del_count(m, keys.drop_last(), now);
        let k = keys.last();
        (n + if live(m2, k, now) is Some { 1nat } else { 0nat }, m2.remove(k))
    }
}

/// EXISTS of `keys`, one after the other: how many are live, and the keyspace
/// after (expired records met are dropped).
pub open spec fn exists_count(m: Map<Seq<u8>, RecordView>, keys: Seq<Seq<u8>>, now: u64) -> (
    nat,
    Map<Seq<u8>, RecordView>,
)
    decreases keys.len(),
{
    if keys.len() == 0 {
        (0, m)
    } else {
        let (n, m2) = exists_count(m, keys.drop_last(), now);
        let k = keys.last();
        (n + if live(m2, k, now) is Some { 1nat } else { 0nat }, evict(m2, k, now))
    }
}

pub open spec fn del_reply(m: Map<Seq<u8>, RecordView>, args: Seq<Seq<u8>>, now: u64) -> (
    ReplyView,
    Map<Seq<u8>, RecordView>,
) {
    if args.len() == 0 {
        (wrong_arity(), m)
    } else {
        let (n, m2) = del_count(m, args, now);
        (ReplyView::Integer(n as i64), m2)
    }
}

pub open spec fn exists_reply(m: Map<Seq<u8>, RecordView>, args: Seq<Seq<u8>>, now: u64) -> (
    ReplyView,
    Map<Seq<u8>, RecordView>,
) {
    if args.len() == 0 {
        (wrong_arity(), m)
    } else {
        let (n, m2) = exists_count(m, args, now);
        (ReplyView::Integer(n as i64), m2)
    }
}

pub fn exec_ttl(shard: &mut ShardEngine, args: &[Vec<u8>]) -> (r: Reply)
    ensures
        (r@, final(shard).store()) == ttl_reply(old(shard).store(), arg_views(args@), old(shard).time()),
        final(shard).time() == old(shard).time(),
{
    if args.len() != 1 {
        return Reply::Error(CommandError::WrongArity);
    }
    let key = &args[0];
    let now = shard.get_time();
    match shard.storage().ttl(key, now) {
        None => Reply::Integer(-2),
        Some(None) => Reply::Integer(-1),
        Some(Some(ms)) => {
            let secs = ms / 1000 + if ms % 1000 >= 500 { 1 } else { 0 };
            Reply::Integer(secs as i64)
        },
    }
}

pub fn exec_del(shard: &mut ShardEngine, args: &[Vec<u8>]) -> (r: Reply)
    ensures
        (r@, final(shard).store()) == del_reply(old(shard).store(), arg_views(args@), old(shard).time()),
        final(shard).time() == old(shard).time(),
{
    if args.len() == 0 {
        return Reply::Error(CommandError::WrongArity);
    }
    let ghost keys = arg_views(args@);
    let ghost m0 = shard.store();
    let mut count: usize = 0;
    let now = shard.get_time();
    let mut i: usize = 0;
    while i < args.len()
        invariant
            i <= args.len(),
            keys == arg_views(args@),
            now == shard.time(),
            now == old(shard).time(),
            m0 == old(shard).store(),
            (count as nat, shard.store()) == del_count(m0, keys.take(i as int), now),
            count <= i,
        decreases args.len() - i,
    {
        assert(keys.take(i + 1).drop_last() =~= keys.take(i as int));
        if shard.storage().del(&args[i], now) {
            count += 1;
        }
        i += 1;
    }
    assert(keys.take(args.len() as int) =~= keys);
    Reply::Integer(count as i64)
}

pub fn exec_exists(shard: &mut ShardEngine, args: &[Vec<u8>]) -> (r: Reply)
    ensures
        (r@, final(shard).store()) == exists_reply(old(shard).store(), arg_views(args@), old(shard).time()),
        final(shard).time() == old(shard).time(),
{
    if args.len() == 0 {
        return Reply::Error(CommandError::WrongArity);
    }
    let ghost keys = arg_views(args@);
    let ghost m0 = shard.store();
    let mut count: usize = 0;
    let now = shard.get_time();
    let mut i: usize = 0;
    while i < args.len()
        invariant
            i <= args.len(),
            keys == arg_views(args@),
            now == shard.time(),
            now == old(shard).time(),
            m0 == old(shard).store(),
            (count as nat, shard.store()) == exists_count(m0, keys.take(i as int), now),
            count <= i,
        decreases args.len() - i,
    {
        assert(keys.take(i + 1).drop_last() =~= keys.take(i as int));
        if shard.storage().exists_key(&args[i], now) {
            count += 1;
        }
        i += 1;
    }
    assert(keys.take(args.len() as int) =~= keys);
    Reply::Integer(count as i64)
}

} // verus!
