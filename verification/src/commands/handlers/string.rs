//! SET and GET through the storage engine's conditional write.

use vstd::prelude::*;

use crate::commands::exec::string::{SetToken, classify_set_token, found_reply, set_token, with_expiry};
use crate::commands::exec::{arg_views, storage_failure, wrong_arity};
use crate::commands::options::{SetOptions, no_options};
use crate::engine::shard::ShardEngine;
use crate::protocol::reply::{CommandError, ErrorView, Reply, ReplyView};
use crate::storage::ops::string::get_spec;
use crate::storage::record::RecordView;
use crate::storage::result::WriteOutcome;
use crate::storage::storage::evict;
use crate::storage::strings::str_set_spec;
use crate::storage::value::{Value, ValueView};
use crate::util::{bytes_to_u64, copy_bytes, spec_bytes_to_u64};

verus! {

/// The options of `SET key value [token ...]` read from position `i` on,
/// with whether GET was asked for; `None` where an expiry overflows a `u64`.
/// An expiry may be given once and not together with KEEPTTL; a flag must be
/// followed by a decimal `u64`.
pub open spec fn options_from(args: Seq<Seq<u8>>, i: int, now: u64, o: SetOptions, get: bool) -> Option<
    Result<(SetOptions, bool), ErrorView>,
>
    decreases args.len() - i,
{
    if i < 0 || i >= args.len() {
        Some(Ok((o, get)))
    } else {
        match set_token(args[i]) {
            SetToken::Nx => options_from(args, i + 1, now, SetOptions { nx: true, ..o }, get),
            SetToken::Xx => options_from(args, i + 1, now, SetOptions { xx: true, ..o }, get),
            SetToken::Get => options_from(args, i + 1, now, o, true),
            SetToken::KeepTtl => if o.expires_at is Some {
                Some(Err(ErrorView::Syntax))
            } else {
                options_from(args, i + 1, now, SetOptions { keep_ttl: true, ..o }, get)
            },
            tok => if o.keep_ttl || o.expires_at is Some {
                Some(Err(ErrorView::Syntax))
            } else if i + 1 >= args.len() {
                Some(Err(ErrorView::Syntax))
            } else {
                match spec_bytes_to_u64(args[i + 1]) {
                    None => Some(Err(ErrorView::OutOfRange)),
                    Some(val) => match tok {
                        SetToken::Ex => if now + val * 1000 > u64::MAX {
                            None
                        } else {
                            options_from(args, i + 2, now, with_expiry(o, (now + val * 1000) as u64), get)
                        },
                        SetToken::Px => if now + val > u64::MAX {
                            None
                        } else {
                            options_from(args, i + 2, now, with_expiry(o, (now + val) as u64), get)
                        },
                        SetToken::ExAt => if val * 1000 > u64::MAX {
                            None
                        } else {
                            options_from(args, i + 2, now, with_expiry(o, (val * 1000) as u64), get)
                        },
                        SetToken::PxAt => options_from(args, i + 2, now, with_expiry(o, val), get),
                        _ => Some(Err(ErrorView::Syntax)),
                    },
                }
            },
        }
    }
}

/// Whether the expiry that SET's tokens ask for fits in a `u64`.
pub open spec fn expiry_fits(args: Seq<Seq<u8>>, now: u64) -> bool {
    args.len() < 2 || options_from(args, 2, now, no_options(), false) is Some
}

/// A bulk reply of an old value, or null.
pub open spec fn old_value_reply(old: Option<Seq<u8>>) -> ReplyView {
    match old {
        Some(b) => ReplyView::Bulk(b),
        None => ReplyView::Null,
    }
}

/// SET through the conditional write: `OK`, or null where NX or XX refused
/// it; with GET, the old value either way.
pub open spec fn conditional_set_reply(m: Map<Seq<u8>, RecordView>, args: Seq<Seq<u8>>, now: u64) -> (
    ReplyView,
    Map<Seq<u8>, RecordView>,
) {
    if args.len() < 2 {
        (wrong_arity(), m)
    } else {
        match options_from(args, 2, now, no_options(), false) {
            Some(Ok((o, get))) => if o.nx && o.xx {
                (ReplyView::Error(ErrorView::Syntax), m)
            } else {
                match str_set_spec(m, args[0], ValueView::String(args[1]), o, now) {
                    (Err(e), s) => (storage_failure(e), s),
                    (Ok(WriteOutcome::Applied(old)), s) => (
                        if get {
                            old_value_reply(old)
                        } else {
                            ReplyView::OK
                        },
                        s,
                    ),
                    (Ok(WriteOutcome::Rejected(old)), s) => (
                        if get {
                            old_value_reply(old)
                        } else {
                            ReplyView::Null
                        },
                        s,
                    ),
                }
            },
            Some(Err(e)) => (ReplyView::Error(e), m),
            None => (ReplyView::Null, m),
        }
    }
}

pub fn exec_set(shard: &mut ShardEngine, args: &[Vec<u8>]) -> (r: Reply)
    requires
        expiry_fits(arg_views(args@), old(shard).time()),
    ensures
        (r@, final(shard).store()) == conditional_set_reply(old(shard).store(), arg_views(args@), old(shard).time()),
        final(shard).time() == old(shard).time(),
{
    if args.len() < 2 {
        return Reply::Error(CommandError::WrongArity);
    }
    let ghost a = arg_views(args@);
    let key = copy_bytes(args[0].as_slice());
    let value = Value::String(copy_bytes(args[1].as_slice()));
    let now = shard.get_time();
    let mut options = SetOptions::default();
    let mut get = false;
    let mut i: usize = 2;
    while i < args.len()
        invariant
            a == arg_views(args@),
            2 <= i <= args@.len(),
            *shard == *old(shard),
            now == old(shard).time(),
            options_from(a, 2, now, no_options(), false) == options_from(a, i as int, now, options, get),
            options_from(a, 2, now, no_options(), false) is Some,
        decreases args@.len() - i,
    {
        let tok = classify_set_token(args[i].as_slice());
        match tok {
            SetToken::Nx => {
                options.nx = true;
            },
            SetToken::Xx => {
                options.xx = true;
            },
            SetToken::Get => {
                get = true;
            },
            SetToken::KeepTtl => {
                if options.expires_at.is_some() {
                    return Reply::Error(CommandError::Syntax);
                }
                options.keep_ttl = true;
            },
            _ => {
                if options.keep_ttl || options.expires_at.is_some() {
                    return Reply::Error(CommandError::Syntax);
                }
                if i >= args.len() - 1 {
                    return Reply::Error(CommandError::Syntax);
                }
                let val = match bytes_to_u64(args[i + 1].as_slice()) {
                    Some(v) => v,
                    None => return Reply::Error(CommandError::OutOfRange),
                };
                let at = match tok {
                    SetToken::Ex => now + val * 1000,
                    SetToken::Px => now + val,
                    SetToken::ExAt => val * 1000,
                    SetToken::PxAt => val,
                    _ => return Reply::Error(CommandError::Syntax),
                };
                options.expires_at = Some(at);
                i += 1;
            },
        }
        i += 1;
    }
    if options.nx && options.xx {
        return Reply::Error(CommandError::Syntax);
    }
    match shard.storage().str_set(key, value, options, now) {
        Ok(WriteOutcome::Applied(old)) => {
            if get {
                match old {
                    Some(b) => Reply::Bulk(b),
                    None => Reply::Null,
                }
            } else {
                Reply::OK
            }
        },
        Ok(WriteOutcome::Rejected(old)) => {
            if get {
                match old {
                    Some(b) => Reply::Bulk(b),
                    None => Reply::Null,
                }
            } else {
                Reply::Null
            }
        },
        Err(e) => Reply::Error(CommandError::from_storage(e)),
    }
}

/// GET of the first argument; later arguments are ignored.
pub open spec fn first_key_get_reply(m: Map<Seq<u8>, RecordView>, args: Seq<Seq<u8>>, now: u64) -> (
    ReplyView,
    Map<Seq<u8>, RecordView>,
) {
    if args.len() == 0 {
        (wrong_arity(), m)
    } else {
        (found_reply(get_spec(m, args[0], now)), evict(m, args[0], now))
    }
}

pub fn exec_get(shard: &mut ShardEngine, args: &[Vec<u8>]) -> (r: Reply)
    ensures
        (r@, final(shard).store()) == first_key_get_reply(old(shard).store(), arg_views(args@), old(shard).time()),
        final(shard).time() == old(shard).time(),
{
    if args.len() == 0 {
        return Reply::Error(CommandError::WrongArity);
    }
    let key = &args[0];
    let now = shard.get_time();
    match shard.storage().str_get(key, now) {
        Ok(Some(v)) => Reply::Bulk(v),
        Ok(None) => Reply::Null,
        Err(e) => Reply::Error(CommandError::from_storage(e)),
    }
}

} // verus!
