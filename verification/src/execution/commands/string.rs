//! SET and GET on the plain store.

use vstd::prelude::*;

use crate::commands::exec::{arg_views, wrong_arity};
use crate::engine::kv::{KvStore, Record};
use crate::engine::value::Value;
use crate::protocol::reply::{CommandError, Reply, ReplyView};
use crate::util::copy_bytes;

verus! {

/// SET on the plain store: the first two arguments become key and value;
/// any later ones are ignored.
pub open spec fn plain_set(m: Map<Seq<u8>, Seq<u8>>, args: Seq<Seq<u8>>) -> (ReplyView, Map<Seq<u8>, Seq<u8>>) {
    if args.len() < 2 {
        (wrong_arity(), m)
    } else {
        (ReplyView::OK, m.insert(args[0], args[1]))
    }
}

/// GET on the plain store, of the first argument.
pub open spec fn plain_get(m: Map<Seq<u8>, Seq<u8>>, args: Seq<Seq<u8>>) -> ReplyView {
    if args.len() == 0 {
        wrong_arity()
    } else if m.contains_key(args[0]) {
        ReplyView::Bulk(m[args[0]])
    } else {
        ReplyView::Null
    }
}

pub fn cmd_set(kv: &mut KvStore, args: &[Vec<u8>]) -> (r: Reply)
    ensures
        (r@, final(kv)@) == plain_set(old(kv)@, arg_views(args@)),
{
    if args.len() < 2 {
        return Reply::Error(CommandError::WrongArity);
    }
    let key = copy_bytes(args[0].as_slice());
    let record = Record::new(Value::String(copy_bytes(args[1].as_slice())));
    let _ = kv.set(key, record);
    Reply::OK
}

pub fn cmd_get(kv: &mut KvStore, args: &[Vec<u8>]) -> (r: Reply)
    ensures
        r@ == plain_get(old(kv)@, arg_views(args@)),
        final(kv)@ == old(kv)@,
{
    if args.len() == 0 {
        return Reply::Error(CommandError::WrongArity);
    }
    let record = match kv.get(&args[0]) {
        Some(record) => record,
        None => return Reply::Null,
    };
    let val = record.value.get_bytes();
    Reply::Bulk(copy_bytes(val.as_slice()))
}

} // verus!
