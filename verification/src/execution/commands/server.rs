//! PING on the plain store.

use vstd::prelude::*;

use crate::commands::exec::arg_views;
use crate::commands::exec::server::ping_reply;
use crate::engine::kv::KvStore;
use crate::protocol::reply::Reply;
use crate::util::copy_bytes;

verus! {

pub fn cmd_ping(kv: &mut KvStore, args: &[Vec<u8>]) -> (r: Reply)
    ensures
        r@ == ping_reply(arg_views(args@)),
        final(kv)@ == old(kv)@,
{
    if args.len() < 1 {
        Reply::Pong
    } else {
        Reply::Bulk(copy_bytes(args[0].as_slice()))
    }
}

} // verus!
