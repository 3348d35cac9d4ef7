//! Commands on string values: GET, SET, APPEND, MSET, MGET and the counters.

use vstd::prelude::*;

use crate::commands::exec::{arg_views, storage_failure, wrong_arity};
use crate::commands::options::{SetOptions, no_options};
use crate::engine::shard::ShardEngine;
use crate::protocol::reply::{CommandError, ErrorView, Reply, ReplyView, lemma_array_view, replies_view};
use crate::protocol::resp2::decoder::{upper, upper_byte};
use crate::storage::StringOps;
use crate::storage::KeyOps;
use crate::storage::StorageError;
use crate::storage::ops::string::{append_spec, get_spec, incr_spec, set_spec};
use crate::storage::record::RecordView;
use crate::storage::storage::{evict, lemma_evict_invisible, live};
use crate::util::{bytes_to_i64, copy_bytes, spec_bytes_to_i64};

verus! {

/// The reply for what GET found.
pub open spec fn found_reply(r: Result<Option<Seq<u8>>, StorageError>) -> ReplyView {
    match r {
        Ok(Some(v)) => ReplyView::Bulk(v),
        Ok(None) => ReplyView::Null,
        Err(e) => storage_failure(e),
    }
}

pub open spec fn get_reply(m: Map<Seq<u8>, RecordView>, args: Seq<Seq<u8>>, now: u64) -> (
    ReplyView,
    Map<Seq<u8>, RecordView>,
) {
    if args.len() != 1 {
        (wrong_arity(), m)
    } else {
        (found_reply(get_spec(m, args[0], now)), evict(m, args[0], now))
    }
}

pub fn exec_get(shard: &mut ShardEngine, args: &[Vec<u8>]) -> (r: Reply)
    ensures
        (r@, final(shard).store()) == get_reply(old(shard).store(), arg_views(args@), old(shard).time()),
        final(shard).time() == old(shard).time(),
{
    if args.len() != 1 {
        return Reply::Error(CommandError::WrongArity);
    }
    let now = shard.get_time();
    match shard.storage().get(&args[0], now) {
        Ok(Some(v)) => Reply::Bulk(v),
        Ok(None) => Reply::Null,
        Err(e) => Reply::Error(CommandError::from_storage(e)),
    }
}

/// The tokens that SET understands after its key and value.
#[derive(Debug, Clone, Copy, PartialEq, Eq, Structural)]
pub enum SetToken {
    Nx,
    Xx,
    Get,
    KeepTtl,
    Ex,
    Px,
    ExAt,
    PxAt,
    Unknown,
}

/// What a token means, its letters compared without regard to ASCII case.
pub open spec fn set_token(t: Seq<u8>) -> SetToken {
    let u = upper(t);
    if u == seq![78u8, 88] {
        // NX
        SetToken::Nx
    } else if u == seq![88u8, 88] {
        // XX
        SetToken::Xx
    } else if u == seq![71u8, 69, 84] {
        // GET
        SetToken::Get
    } else if u == seq![75u8, 69, 69, 80, 84, 84, 76] {
        // KEEPTTL
        SetToken::KeepTtl
    } else if u == seq![69u8, 88] {
        // EX
        SetToken::Ex
    } else if u == seq![80u8, 88] {
        // PX
        SetToken::Px
    } else if u == seq![69u8, 88, 65, 84] {
        // EXAT
        SetToken::ExAt
    } else if u == seq![80u8, 88, 65, 84] {
        // PXAT
        SetToken::PxAt
    } else {
        SetToken::Unknown
    }
}

/// Whether `t`, with its ASCII letters made upper-case, is `word`.
fn upper_eq(t: &[u8], word: &[u8]) -> (r: bool)
    ensures
        r == (upper(t@) == word@),
{
    if t.len() != word.len() {
        return false;
    }
    let mut i: usize = 0;
    while i < t.len()
        invariant
            t@.len() == word@.len(),
            i <= t@.len(),
            forall|j: int| 0 <= j < i ==> upper_byte(t@[j]) == word@[j],
        decreases t@.len() - i,
    {
        let c = t[i];
        let u = if 97 <= c && c <= 122 {
            c - 32
        } else {
            c
        };
        if u != word[i] {
            assert(upper(t@)[i as int] != word@[i as int]);
            return false;
        }
        i += 1;
    }
    assert(upper(t@) =~= word@);
    true
}

pub fn classify_set_token(t: &[u8]) -> (r: SetToken)
    ensures
        r == set_token(t@),
{
    // NX
    let word: [u8; 2] = [78, 88];
    if upper_eq(t, &word) {
        return SetToken::Nx;
    }
    // XX
    let word: [u8; 2] = [88, 88];
    if upper_eq(t, &word) {
        return SetToken::Xx;
    }
    // GET
    let word: [u8; 3] = [71, 69, 84];
    if upper_eq(t, &word) {
        return SetToken::Get;
    }
    // KEEPTTL
    let word: [u8; 7] = [75, 69, 69, 80, 84, 84, 76];
    if upper_eq(t, &word) {
        return SetToken::KeepTtl;
    }
    // EX
    let word: [u8; 2] = [69, 88];
    if upper_eq(t, &word) {
        return SetToken::Ex;
    }
    // PX
    let word: [u8; 2] = [80, 88];
    if upper_eq(t, &word) {
        return SetToken::Px;
    }
    // EXAT
    let word: [u8; 4] = [69, 88, 65, 84];
    if upper_eq(t, &word) {
        return SetToken::ExAt;
    }
    // PXAT
    let word: [u8; 4] = [80, 88, 65, 84];
    if upper_eq(t, &word) {
        return SetToken::PxAt;
    }
    SetToken::Unknown
}

/// `a + b`, or `u64::MAX` where the sum does not fit.
pub open spec fn sat_add(a: u64, b: u64) -> u64 {
    if a + b > u64::MAX {
        u64::MAX
    } else {
        (a + b) as u64
    }
}

/// `a * b`, or `u64::MAX` where the product does not fit.
pub open spec fn sat_mul(a: u64, b: u64) -> u64 {
    if a * b > u64::MAX {
        u64::MAX
    } else {
        (a * b) as u64
    }
}

/// A negative time counts as zero.
pub open spec fn non_negative(n: i64) -> u64 {
    if n < 0 {
        0
    } else {
        n as u64
    }
}

/// The number that follows the flag at `i`: `Syntax` when there is none,
/// `OutOfRange` when it is not a decimal `i64`.
pub open spec fn flag_value(args: Seq<Seq<u8>>, i: int) -> Result<i64, ErrorView> {
    if i + 1 >= args.len() {
        Err(ErrorView::Syntax)
    } else {
        match spec_bytes_to_i64(args[i + 1]) {
            None => Err(ErrorView::OutOfRange),
            Some(n) => Ok(n),
        }
    }
}

pub open spec fn with_expiry(o: SetOptions, at: u64) -> SetOptions {
    SetOptions { expires_at: Some(at), ..o }
}

/// The options given by the tokens from `i` on, added to `o`; a later token
/// overrides an earlier one.
pub open spec fn parse_set_from(args: Seq<Seq<u8>>, i: int, now: u64, o: SetOptions) -> Result<
    SetOptions,
    ErrorView,
>
    decreases args.len() - i,
{
    if i < 0 || i >= args.len() {
        Ok(o)
    } else {
        match set_token(args[i]) {
            SetToken::Nx => parse_set_from(args, i + 1, now, SetOptions { nx: true, ..o }),
            SetToken::Xx => parse_set_from(args, i + 1, now, SetOptions { xx: true, ..o }),
            SetToken::Get => parse_set_from(args, i + 1, now, SetOptions { get: true, ..o }),
            SetToken::KeepTtl => parse_set_from(args, i + 1, now, SetOptions { keep_ttl: true, ..o }),
            SetToken::Unknown => Err(ErrorView::Syntax),
            tok => match flag_value(args, i) {
                Err(e) => Err(e),
                Ok(n) => {
                    let v = non_negative(n);
                    let at = match tok {
                        SetToken::Ex => sat_add(now, sat_mul(v, 1000)),
                        SetToken::Px => sat_add(now, v),
                        SetToken::ExAt => sat_mul(v, 1000),
                        _ => v,
                    };
                    parse_set_from(args, i + 2, now, with_expiry(o, at))
                },
            },
        }
    }
}

/// The options of `SET key value [token ...]` at `now`.
pub open spec fn parse_set(args: Seq<Seq<u8>>, now: u64) -> Result<SetOptions, ErrorView> {
    if args.len() < 2 {
        Err(ErrorView::WrongArity)
    } else {
        parse_set_from(args, 2, now, no_options())
    }
}

fn next_i64(args: &[Vec<u8>], flag_index: usize) -> (r: Result<i64, CommandError>)
    requires
        flag_index < args@.len(),
    ensures
        match (r, flag_value(arg_views(args@), flag_index as int)) {
            (Ok(a), Ok(b)) => a == b,
            (Err(a), Err(b)) => a@ == b,
            _ => false,
        },
{
    if flag_index >= args.len() - 1 {
        return Err(CommandError::Syntax);
    }
    match bytes_to_i64(args[flag_index + 1].as_slice()) {
        Some(n) => Ok(n),
        None => Err(CommandError::OutOfRange),
    }
}

fn saturating_mul_u64(a: u64, b: u64) -> (r: u64)
    ensures
        r == sat_mul(a, b),
{
    match a.checked_mul(b) {
        Some(p) => p,
        None => u64::MAX,
    }
}

/// The key, the value and the options of a SET.
fn parse_set_args(args: &[Vec<u8>], now: u64) -> (r: Result<(Vec<u8>, Vec<u8>, SetOptions), CommandError>)
    ensures
        match (r, parse_set(arg_views(args@), now)) {
            (Ok((k, v, o)), Ok(p)) => k@ == args@[0]@ && v@ == args@[1]@ && o == p,
            (Err(a), Err(b)) => a@ == b,
            _ => false,
        },
{
    if args.len() < 2 {
        return Err(CommandError::WrongArity);
    }
    let ghost a = arg_views(args@);
    let key = copy_bytes(args[0].as_slice());
    let value = copy_bytes(args[1].as_slice());
    let mut options = SetOptions::default();
    let mut i: usize = 2;
    while i < args.len()
        invariant
            a == arg_views(args@),
            2 <= i <= args@.len(),
            parse_set(a, now) == parse_set_from(a, i as int, now, options),
        decreases args@.len() - i,
    {
        match classify_set_token(args[i].as_slice()) {
            SetToken::Nx => {
                options.nx = true;
                i += 1;
            },
            SetToken::Xx => {
                options.xx = true;
                i += 1;
            },
            SetToken::Get => {
                options.get = true;
                i += 1;
            },
            SetToken::KeepTtl => {
                options.keep_ttl = true;
                i += 1;
            },
            SetToken::Ex => {
                let n = match next_i64(args, i) {
                    Ok(n) => n,
                    Err(e) => return Err(e),
                };
                let seconds: u64 = if n < 0 { 0 } else { n as u64 };
                options.expires_at = Some(now.saturating_add(saturating_mul_u64(seconds, 1000)));
                i += 2;
            },
            SetToken::Px => {
                let n = match next_i64(args, i) {
                    Ok(n) => n,
                    Err(e) => return Err(e),
                };
                let millis: u64 = if n < 0 { 0 } else { n as u64 };
                options.expires_at = Some(now.saturating_add(millis));
                i += 2;
            },
            SetToken::ExAt => {
                let n = match next_i64(args, i) {
                    Ok(n) => n,
                    Err(e) => return Err(e),
                };
                let seconds: u64 = if n < 0 { 0 } else { n as u64 };
                options.expires_at = Some(saturating_mul_u64(seconds, 1000));
                i += 2;
            },
            SetToken::PxAt => {
                let n = match next_i64(args, i) {
                    Ok(n) => n,
                    Err(e) => return Err(e),
                };
                let millis: u64 = if n < 0 { 0 } else { n as u64 };
                options.expires_at = Some(millis);
                i += 2;
            },
            SetToken::Unknown => {
                return Err(CommandError::Syntax);
            },
        }
    }
    Ok((key, value, options))
}

/// The reply of a SET that does not write: nothing, or the current value
/// when GET was asked for.
pub open spec fn no_write_reply_spec(m: Map<Seq<u8>, RecordView>, k: Seq<u8>, now: u64, get: bool) -> ReplyView {
    if !get {
        ReplyView::Null
    } else {
        found_reply(get_spec(m, k, now))
    }
}

/// The expiry that a SET gives: the current one with KEEPTTL, else the one
/// its options name.
pub open spec fn set_expiry(m: Map<Seq<u8>, RecordView>, k: Seq<u8>, now: u64, o: SetOptions) -> Option<u64> {
    if o.keep_ttl {
        match live(m, k, now) {
            Some(r) => r.expire_at,
            None => None,
        }
    } else {
        o.expires_at
    }
}

/// SET at `now`: the reply and the keyspace after.
pub open spec fn set_reply(m: Map<Seq<u8>, RecordView>, args: Seq<Seq<u8>>, now: u64) -> (
    ReplyView,
    Map<Seq<u8>, RecordView>,
) {
    match parse_set(args, now) {
        Err(e) => (ReplyView::Error(e), m),
        Ok(o) => if o.nx && o.xx {
            (ReplyView::Error(ErrorView::Syntax), m)
        } else if o.keep_ttl && o.expires_at is Some {
            (ReplyView::Error(ErrorView::Syntax), m)
        } else {
            let k = args[0];
            let present = live(m, k, now) is Some;
            if (o.nx && present) || (o.xx && !present) {
                (no_write_reply_spec(m, k, now, o.get), evict(m, k, now))
            } else {
                match set_spec(m, k, args[1], set_expiry(m, k, now, o), now) {
                    (Err(e), s) => (storage_failure(e), s),
                    (Ok(old), s) => if o.get {
                        (
                            match old {
                                Some(b) => ReplyView::Bulk(b),
                                None => ReplyView::Null,
                            },
                            s,
                        )
                    } else {
                        (ReplyView::OK, s)
                    },
                }
            }
        },
    }
}

fn no_write_reply(shard: &mut ShardEngine, key: &Vec<u8>, now: u64, get: bool) -> (r: Reply)
    ensures
        r@ == no_write_reply_spec(old(shard).store(), key@, now, get),
        final(shard).store() == (if get { evict(old(shard).store(), key@, now) } else { old(shard).store() }),
        final(shard).time() == old(shard).time(),
{
    if !get {
        return Reply::Null;
    }
    match shard.storage().get(key, now) {
        Ok(Some(v)) => Reply::Bulk(v),
        Ok(None) => Reply::Null,
        Err(e) => Reply::Error(CommandError::from_storage(e)),
    }
}

pub fn exec_set(shard: &mut ShardEngine, args: &[Vec<u8>]) -> (r: Reply)
    ensures
        (r@, final(shard).store()) == set_reply(old(shard).store(), arg_views(args@), old(shard).time()),
        final(shard).time() == old(shard).time(),
{
    let now = shard.get_time();
    let ghost m = shard.store();
    let ghost a = arg_views(args@);
    let (key, value, options) = match parse_set_args(args, now) {
        Ok(parsed) => parsed,
        Err(e) => return Reply::Error(e),
    };
    if options.nx && options.xx {
        return Reply::Error(CommandError::Syntax);
    }
    if options.keep_ttl && options.expires_at.is_some() {
        return Reply::Error(CommandError::Syntax);
    }
    proof {
        lemma_evict_invisible(m, key@, now);
    }
    if options.nx && shard.storage().exists_key(&key, now) {
        return no_write_reply(shard, &key, now, options.get);
    }
    if options.xx && !shard.storage().exists_key(&key, now) {
        return no_write_reply(shard, &key, now, options.get);
    }
    let expire_at = if options.keep_ttl {
        match shard.storage().ttl(&key, now) {
            Some(Some(remaining)) => Some(now + remaining),
            _ => None,
        }
    } else {
        options.expires_at
    };
    let old = match shard.storage().set(key, value, expire_at, now) {
        Ok(old) => old,
        Err(e) => return Reply::Error(CommandError::from_storage(e)),
    };
    if options.get {
        match old {
            Some(b) => Reply::Bulk(b),
            None => Reply::Null,
        }
    } else {
        Reply::OK
    }
}

/// MSET of the first `n` pairs of `args`, one after the other: the error of
/// the first refused pair, if any, and the keyspace after. Nothing is written
/// after a refusal.
pub open spec fn mset_pairs(m: Map<Seq<u8>, RecordView>, args: Seq<Seq<u8>>, n: nat, now: u64) -> (
    Option<ErrorView>,
    Map<Seq<u8>, RecordView>,
)
    decreases n,
{
    if n == 0 {
        (None, m)
    } else {
        let (e, m2) = mset_pairs(m, args, (n - 1) as nat, now);
        if e is Some {
            (e, m2)
        } else {
            let i = 2 * (n - 1);
            match set_spec(m2, args[i], args[i + 1], None, now) {
                (Err(x), s) => (Some(crate::protocol::reply::storage_error_view(x)), s),
                (Ok(_), s) => (None, s),
            }
        }
    }
}

pub open spec fn mset_reply(m: Map<Seq<u8>, RecordView>, args: Seq<Seq<u8>>, now: u64) -> (
    ReplyView,
    Map<Seq<u8>, RecordView>,
) {
    if args.len() == 0 || args.len() % 2 != 0 {
        (wrong_arity(), m)
    } else {
        match mset_pairs(m, args, args.len() / 2, now) {
            (None, s) => (ReplyView::OK, s),
            (Some(e), s) => (ReplyView::Error(e), s),
        }
    }
}

/// Once a pair is refused, the later pairs change nothing.
proof fn lemma_mset_stops(m: Map<Seq<u8>, RecordView>, args: Seq<Seq<u8>>, n: nat, k: nat, now: u64)
    requires
        n <= k,
        mset_pairs(m, args, n, now).0 is Some,
    ensures
        mset_pairs(m, args, k, now) == mset_pairs(m, args, n, now),
    decreases k - n,
{
    if n < k {
        lemma_mset_stops(m, args, n, (k - 1) as nat, now);
    }
}

pub fn exec_mset(shard: &mut ShardEngine, args: &[Vec<u8>]) -> (r: Reply)
    ensures
        (r@, final(shard).store()) == mset_reply(old(shard).store(), arg_views(args@), old(shard).time()),
        final(shard).time() == old(shard).time(),
{
    if args.len() == 0 || args.len() % 2 != 0 {
        return Reply::Error(CommandError::WrongArity);
    }
    let now = shard.get_time();
    let ghost m = shard.store();
    let ghost a = arg_views(args@);
    let mut i: usize = 0;
    while i < args.len()
        invariant
            a == arg_views(args@),
            m == old(shard).store(),
            now == old(shard).time(),
            now == shard.time(),
            args@.len() % 2 == 0,
            i % 2 == 0,
            i <= args@.len(),
            mset_pairs(m, a, (i / 2) as nat, now) == (None::<ErrorView>, shard.store()),
        decreases args@.len() - i,
    {
        let key = copy_bytes(args[i].as_slice());
        let value = copy_bytes(args[i + 1].as_slice());
        assert(2 * ((i + 2) / 2 - 1) == i);
        if let Err(e) = shard.storage().set(key, value, None, now) {
            proof {
                lemma_mset_stops(m, a, ((i + 2) / 2) as nat, a.len() / 2, now);
            }
            return Reply::Error(CommandError::from_storage(e));
        }
        i += 2;
    }
    Reply::OK
}

/// MGET of `keys`, one after the other: the replies and the keyspace after.
pub open spec fn mget_items(m: Map<Seq<u8>, RecordView>, keys: Seq<Seq<u8>>, now: u64) -> (
    Seq<ReplyView>,
    Map<Seq<u8>, RecordView>,
)
    decreases keys.len(),
{
    if keys.len() == 0 {
        (Seq::empty(), m)
    } else {
        let (rs, m2) = mget_items(m, keys.drop_last(), now);
        let k = keys.last();
        let r = match get_spec(m2, k, now) {
            Ok(Some(v)) => ReplyView::Bulk(v),
            _ => ReplyView::Null,
        };
        (rs.push(r), evict(m2, k, now))
    }
}

/// MGET: one reply per key, in the order of the keys; a value that is not a
/// string reads as null.
pub open spec fn mget_reply(m: Map<Seq<u8>, RecordView>, args: Seq<Seq<u8>>, now: u64) -> (
    ReplyView,
    Map<Seq<u8>, RecordView>,
) {
    let (rs, s) = mget_items(m, args, now);
    (ReplyView::Array(rs), s)
}

pub fn exec_mget(shard: &mut ShardEngine, args: &[Vec<u8>]) -> (r: Reply)
    ensures
        (r@, final(shard).store()) == mget_reply(old(shard).store(), arg_views(args@), old(shard).time()),
        final(shard).time() == old(shard).time(),
{
    let now = shard.get_time();
    let ghost m = shard.store();
    let ghost a = arg_views(args@);
    let mut out: Vec<Reply> = Vec::new();
    let mut i: usize = 0;
    while i < args.len()
        invariant
            a == arg_views(args@),
            m == old(shard).store(),
            now == old(shard).time(),
            now == shard.time(),
            i <= args@.len(),
            out@.len() == i,
            mget_items(m, a.take(i as int), now).1 == shard.store(),
            forall|j: int| 0 <= j < i ==> (#[trigger] out@[j])@ == mget_items(m, a.take(i as int), now).0[j],
            mget_items(m, a.take(i as int), now).0.len() == i,
        decreases args@.len() - i,
    {
        assert(a.take(i + 1).drop_last() =~= a.take(i as int));
        let ghost before = mget_items(m, a.take(i as int), now).0;
        let r = match shard.storage().get(&args[i], now) {
            Ok(Some(v)) => Reply::Bulk(v),
            Ok(None) => Reply::Null,
            Err(_) => Reply::Null,
        };
        let ghost prev = out@;
        out.push(r);
        i += 1;
        assert forall|j: int| 0 <= j < i implies (#[trigger] out@[j])@ == mget_items(m, a.take(i as int), now).0[j] by {
            if j < i - 1 {
                assert(out@[j] == prev[j]);
            }
        }
    }
    assert(a.take(args@.len() as int) =~= a);
    proof {
        lemma_array_view(out);
        assert(replies_view(out@) =~= mget_items(m, a, now).0);
    }
    Reply::Array(out)
}

/// The reply and keyspace of adding `by` to the counter under `k`.
pub open spec fn incr_result(m: Map<Seq<u8>, RecordView>, k: Seq<u8>, by: i64, now: u64) -> (
    ReplyView,
    Map<Seq<u8>, RecordView>,
) {
    match incr_spec(m, k, by, now) {
        (Ok(n), s) => (ReplyView::Integer(n), s),
        (Err(e), s) => (storage_failure(e), s),
    }
}

/// INCR and DECR: add `by` to the counter named by the one argument.
pub open spec fn incr_reply(m: Map<Seq<u8>, RecordView>, args: Seq<Seq<u8>>, by: i64, now: u64) -> (
    ReplyView,
    Map<Seq<u8>, RecordView>,
) {
    if args.len() != 1 {
        (wrong_arity(), m)
    } else {
        incr_result(m, args[0], by, now)
    }
}

/// INCRBY and DECRBY: add the second argument, times `sign`, to the counter
/// named by the first; an amount that is not a decimal `i64`, or whose
/// product with `sign` is not one, is out of range.
pub open spec fn incr_by_reply(m: Map<Seq<u8>, RecordView>, args: Seq<Seq<u8>>, sign: i64, now: u64) -> (
    ReplyView,
    Map<Seq<u8>, RecordView>,
) {
    if args.len() != 2 {
        (wrong_arity(), m)
    } else {
        match spec_bytes_to_i64(args[1]) {
            None => (ReplyView::Error(ErrorView::OutOfRange), m),
            Some(amount) => if i64::MIN <= amount * sign <= i64::MAX {
                incr_result(m, args[0], (amount * sign) as i64, now)
            } else {
                (ReplyView::Error(ErrorView::OutOfRange), m)
            },
        }
    }
}

fn incr_reply_exec(shard: &mut ShardEngine, args: &[Vec<u8>], by: i64) -> (r: Reply)
    ensures
        (r@, final(shard).store()) == incr_reply(old(shard).store(), arg_views(args@), by, old(shard).time()),
        final(shard).time() == old(shard).time(),
{
    if args.len() != 1 {
        return Reply::Error(CommandError::WrongArity);
    }
    let now = shard.get_time();
    match shard.storage().incr_by(copy_bytes(args[0].as_slice()), by, now) {
        Ok(n) => Reply::Integer(n),
        Err(e) => Reply::Error(CommandError::from_storage(e)),
    }
}

fn incr_by_reply_exec(shard: &mut ShardEngine, args: &[Vec<u8>], sign: i64) -> (r: Reply)
    ensures
        (r@, final(shard).store()) == incr_by_reply(old(shard).store(), arg_views(args@), sign, old(shard).time()),
        final(shard).time() == old(shard).time(),
{
    if args.len() != 2 {
        return Reply::Error(CommandError::WrongArity);
    }
    let amount = match bytes_to_i64(args[1].as_slice()) {
        Some(v) => v,
        None => return Reply::Error(CommandError::OutOfRange),
    };
    let by = match amount.checked_mul(sign) {
        Some(v) => v,
        None => return Reply::Error(CommandError::OutOfRange),
    };
    let now = shard.get_time();
    match shard.storage().incr_by(copy_bytes(args[0].as_slice()), by, now) {
        Ok(n) => Reply::Integer(n),
        Err(e) => Reply::Error(CommandError::from_storage(e)),
    }
}

pub fn exec_str_incr(shard: &mut ShardEngine, args: &[Vec<u8>]) -> (r: Reply)
    ensures
        (r@, final(shard).store()) == incr_reply(old(shard).store(), arg_views(args@), 1, old(shard).time()),
        final(shard).time() == old(shard).time(),
{
    incr_reply_exec(shard, args, 1)
}

pub fn exec_str_decr(shard: &mut ShardEngine, args: &[Vec<u8>]) -> (r: Reply)
    ensures
        (r@, final(shard).store()) == incr_reply(old(shard).store(), arg_views(args@), -1i64, old(shard).time()),
        final(shard).time() == old(shard).time(),
{
    incr_reply_exec(shard, args, -1)
}

pub fn exec_str_incr_by(shard: &mut ShardEngine, args: &[Vec<u8>]) -> (r: Reply)
    ensures
        (r@, final(shard).store()) == incr_by_reply(old(shard).store(), arg_views(args@), 1, old(shard).time()),
        final(shard).time() == old(shard).time(),
{
    incr_by_reply_exec(shard, args, 1)
}

pub fn exec_str_decr_by(shard: &mut ShardEngine, args: &[Vec<u8>]) -> (r: Reply)
    ensures
        (r@, final(shard).store()) == incr_by_reply(old(shard).store(), arg_views(args@), -1i64, old(shard).time()),
        final(shard).time() == old(shard).time(),
{
    incr_by_reply_exec(shard, args, -1)
}

/// APPEND: the length of the value after appending the second argument to
/// the first argument's value.
pub open spec fn append_reply(m: Map<Seq<u8>, RecordView>, args: Seq<Seq<u8>>, now: u64) -> (
    ReplyView,
    Map<Seq<u8>, RecordView>,
) {
    if args.len() != 2 {
        (wrong_arity(), m)
    } else {
        match append_spec(m, args[0], args[1], now) {
            (Ok(n), s) => (ReplyView::Integer(n as i64), s),
            (Err(e), s) => (storage_failure(e), s),
        }
    }
}

pub fn exec_append(shard: &mut ShardEngine, args: &[Vec<u8>]) -> (r: Reply)
    ensures
        (r@, final(shard).store()) == append_reply(old(shard).store(), arg_views(args@), old(shard).time()),
        final(shard).time() == old(shard).time(),
{
    if args.len() != 2 {
        return Reply::Error(CommandError::WrongArity);
    }
    let now = shard.get_time();
    let key = copy_bytes(args[0].as_slice());
    let value = copy_bytes(args[1].as_slice());
    match shard.storage().append(key, value, now) {
        Ok(n) => Reply::Integer(n as i64),
        Err(e) => Reply::Error(CommandError::from_storage(e)),
    }
}

} // verus!
