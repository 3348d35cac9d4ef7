//! TTL read from the stored expiry, without dropping anything.

use vstd::prelude::*;

use crate::commands::exec::{arg_views, wrong_arity};
use crate::engine::shard::ShardEngine;
use crate::protocol::reply::{CommandError, Reply, ReplyView};
use crate::storage::record::RecordView;

verus! {

/// TTL in whole seconds, rounded up: -2 for a missing or expired key, -1 for
/// a key without expiry.
pub open spec fn expiry_ttl_reply(m: Map<Seq<u8>, RecordView>, args: Seq<Seq<u8>>, now: u64) -> ReplyView {
    if args.len() != 1 {
        wrong_arity()
    } else if !m.contains_key(args[0]) {
        ReplyView::Integer(-2i64)
    } else {
        match m[args[0]].expire_at {
            None => ReplyView::Integer(-1i64),
            Some(at) => if at <= now {
                ReplyView::Integer(-2i64)
            } else {
                ReplyView::Integer(((at - now + 999) / 1000) as i64)
            },
        }
    }
}

pub fn exec_ttl(shard_engine: &mut ShardEngine, args: &[Vec<u8>]) -> (r: Reply)
    ensures
        r@ == expiry_ttl_reply(old(shard_engine).store(), arg_views(args@), old(shard_engine).time()),
        final(shard_engine).store() == old(shard_engine).store(),
        final(shard_engine).time() == old(shard_engine).time(),
{
    if args.len() != 1 {
        return Reply::Error(CommandError::WrongArity);
    }
    let key = &args[0];
    let now = shard_engine.get_time();
    match shard_engine.storage().get_expiry(key) {
        None => Reply::Integer(-2),
        Some(None) => Reply::Integer(-1),
        Some(Some(expiry)) => {
            if expiry <= now {
                Reply::Integer(-2)
            } else {
                let rem_ms = expiry - now;
                let rem_secs = rem_ms / 1000 + if rem_ms % 1000 != 0 { 1 } else { 0 };
                Reply::Integer(rem_secs as i64)
            }
        },
    }
}

} // verus!
