//! Commands about the server itself.

use vstd::prelude::*;

use crate::commands::exec::arg_views;
use crate::engine::shard::ShardEngine;
use crate::protocol::reply::{Reply, ReplyView};
use crate::util::copy_bytes;

verus! {

/// PING: `PONG`, or its first argument echoed back.
pub open spec fn ping_reply(args: Seq<Seq<u8>>) -> ReplyView {
    if args.len() < 1 {
        ReplyView::Pong
    } else {
        ReplyView::Bulk(args[0])
    }
}

pub fn exec_ping(shard: &mut ShardEngine, args: &[Vec<u8>]) -> (r: Reply)
    ensures
        r@ == ping_reply(arg_views(args@)),
        *final(shard) == *old(shard),
{
    if args.len() < 1 {
        Reply::Pong
    } else {
        Reply::Bulk(copy_bytes(args[0].as_slice()))
    }
}

} // verus!
