//! Laws of the commands, stated over what the shard engine runs.

use vstd::prelude::*;

use crate::commands::exec::key::del_count;
use crate::commands::exec::key::exists_count;
use crate::commands::exec::string::{
    SetToken, flag_value, mget_items, parse_set, parse_set_from, sat_add, sat_mul, set_token,
    with_expiry,
};
use crate::commands::registry::command_meta;
use crate::storage::laws::{law_append_keeps_expiry, law_incr_counts};
use crate::storage::storage::lemma_evict_invisible;
use crate::util::{law_i64_text_round_trip, signed_decimal};
use crate::commands::options::{SetOptions, no_options};
use crate::engine::shard::command_spec;
use crate::commands::registry::CommandId;
use crate::protocol::reply::ReplyView;
use crate::protocol::resp2::decoder::upper;
use crate::storage::record::RecordView;
use crate::storage::storage::{evict, live};
use crate::storage::value::ValueView;

verus! {

/// The token `NX`.
pub open spec fn word_nx() -> Seq<u8> {
    seq![78u8, 88]
}

/// The token `XX`.
pub open spec fn word_xx() -> Seq<u8> {
    seq![88u8, 88]
}

/// The token `GET`.
pub open spec fn word_get() -> Seq<u8> {
    seq![71u8, 69, 84]
}

/// The token `KEEPTTL`.
pub open spec fn word_keepttl() -> Seq<u8> {
    seq![75u8, 69, 69, 80, 84, 84, 76]
}

/// No live value under `k`, or a string one: SET may write there.
pub open spec fn writable(m: Map<Seq<u8>, RecordView>, k: Seq<u8>, now: u64) -> bool {
    !(live(m, k, now) matches Some(r) && r.value is Hash)
}

proof fn lemma_tokens()
    ensures
        set_token(word_nx()) == SetToken::Nx,
        set_token(word_xx()) == SetToken::Xx,
        set_token(word_get()) == SetToken::Get,
        set_token(word_keepttl()) == SetToken::KeepTtl,
{
    assert(upper(word_nx()) =~= word_nx());
    assert(upper(word_xx()) =~= word_xx());
    assert(upper(word_get()) =~= word_get());
    assert(upper(word_keepttl()) =~= word_keepttl());
}

/// SET's arguments with one flag after the key and value.
proof fn lemma_one_flag(k: Seq<u8>, v: Seq<u8>, w: Seq<u8>, now: u64)
    ensures
        w == word_nx() ==> parse_set(seq![k, v, w], now) == Ok::<SetOptions, crate::protocol::reply::ErrorView>(
            SetOptions { nx: true, ..no_options() },
        ),
        w == word_xx() ==> parse_set(seq![k, v, w], now) == Ok::<SetOptions, crate::protocol::reply::ErrorView>(
            SetOptions { xx: true, ..no_options() },
        ),
        w == word_get() ==> parse_set(seq![k, v, w], now) == Ok::<SetOptions, crate::protocol::reply::ErrorView>(
            SetOptions { get: true, ..no_options() },
        ),
        w == word_keepttl() ==> parse_set(seq![k, v, w], now) == Ok::<SetOptions, crate::protocol::reply::ErrorView>(
            SetOptions { keep_ttl: true, ..no_options() },
        ),
{
    lemma_tokens();
    let args = seq![k, v, w];
    assert(args[2] == w);
    assert(parse_set_from(args, 3, now, SetOptions { nx: true, ..no_options() }) is Ok);
    assert(parse_set_from(args, 3, now, SetOptions { xx: true, ..no_options() }) is Ok);
    assert(parse_set_from(args, 3, now, SetOptions { get: true, ..no_options() }) is Ok);
    assert(parse_set_from(args, 3, now, SetOptions { keep_ttl: true, ..no_options() }) is Ok);
}

/// Law: a plain SET of `k` to `v` where SET may write replies OK, and GET of
/// `k` at the same time reads `v`.
pub proof fn law_set_then_get(m: Map<Seq<u8>, RecordView>, k: Seq<u8>, v: Seq<u8>, now: u64)
    requires
        writable(m, k, now),
    ensures
        command_spec(CommandId::SetKey, m, seq![k, v], now).0 == ReplyView::OK,
        command_spec(CommandId::Get, command_spec(CommandId::SetKey, m, seq![k, v], now).1, seq![k], now).0
            == ReplyView::Bulk(v),
{
}

/// Law: SET NX over a live string value writes nothing and replies null;
/// GET then still reads the old value.
pub proof fn law_set_nx_keeps_live_value(m: Map<Seq<u8>, RecordView>, k: Seq<u8>, v: Seq<u8>, old: Seq<u8>, now: u64)
    requires
        live(m, k, now) matches Some(r) && r.value == ValueView::String(old),
    ensures
        command_spec(CommandId::SetKey, m, seq![k, v, word_nx()], now) == (ReplyView::Null, evict(m, k, now)),
        command_spec(CommandId::Get, evict(m, k, now), seq![k], now).0 == ReplyView::Bulk(old),
{
    lemma_one_flag(k, v, word_nx(), now);
}

/// Law: SET XX of a key with no live value writes nothing and replies null;
/// GET then reads nothing.
pub proof fn law_set_xx_skips_absent(m: Map<Seq<u8>, RecordView>, k: Seq<u8>, v: Seq<u8>, now: u64)
    requires
        live(m, k, now) is None,
    ensures
        command_spec(CommandId::SetKey, m, seq![k, v, word_xx()], now) == (ReplyView::Null, evict(m, k, now)),
        command_spec(CommandId::Get, evict(m, k, now), seq![k], now).0 == ReplyView::Null,
{
    lemma_one_flag(k, v, word_xx(), now);
}

/// Law: SET with GET over a live string value replies with that value, and
/// GET then reads the new one.
pub proof fn law_set_get_returns_old(m: Map<Seq<u8>, RecordView>, k: Seq<u8>, v: Seq<u8>, old: Seq<u8>, now: u64)
    requires
        live(m, k, now) matches Some(r) && r.value == ValueView::String(old),
    ensures
        command_spec(CommandId::SetKey, m, seq![k, v, word_get()], now).0 == ReplyView::Bulk(old),
        command_spec(
            CommandId::Get,
            command_spec(CommandId::SetKey, m, seq![k, v, word_get()], now).1,
            seq![k],
            now,
        ).0 == ReplyView::Bulk(v),
{
    lemma_one_flag(k, v, word_get(), now);
}

/// Law: SET with KEEPTTL over a live string value leaves what TTL reports
/// unchanged.
pub proof fn law_keepttl_keeps_ttl(m: Map<Seq<u8>, RecordView>, k: Seq<u8>, v: Seq<u8>, now: u64)
    requires
        live(m, k, now) matches Some(r) && r.value is String,
    ensures
        command_spec(CommandId::SetKey, m, seq![k, v, word_keepttl()], now).0 == ReplyView::OK,
        command_spec(
            CommandId::Ttl,
            command_spec(CommandId::SetKey, m, seq![k, v, word_keepttl()], now).1,
            seq![k],
            now,
        ).0 == command_spec(CommandId::Ttl, m, seq![k], now).0,
{
    lemma_one_flag(k, v, word_keepttl(), now);
}

/// Law: DEL of one key counts it when it was live, and GET then reads
/// nothing.
pub proof fn law_del_then_get(m: Map<Seq<u8>, RecordView>, k: Seq<u8>, now: u64)
    ensures
        command_spec(CommandId::Del, m, seq![k], now).0 == ReplyView::Integer(
            if live(m, k, now) is Some {
                1i64
            } else {
                0i64
            },
        ),
        command_spec(CommandId::Get, command_spec(CommandId::Del, m, seq![k], now).1, seq![k], now).0
            == ReplyView::Null,
{
    assert(seq![k].drop_last() =~= Seq::<Seq<u8>>::empty());
    assert(del_count(m, Seq::<Seq<u8>>::empty(), now) == (0nat, m));
    assert(del_count(m, seq![k], now) == (if live(m, k, now) is Some { 1nat } else { 0nat }, m.remove(k)));
}

/// Law: a SET whose tokens do not parse replies with the error and writes
/// nothing.
pub proof fn law_refused_set_writes_nothing(m: Map<Seq<u8>, RecordView>, args: Seq<Seq<u8>>, now: u64)
    requires
        parse_set(args, now) is Err,
    ensures
        command_spec(CommandId::SetKey, m, args, now) == (
            ReplyView::Error(parse_set(args, now)->Err_0),
            m,
        ),
{
}

/// The token `EX`.
pub open spec fn word_ex() -> Seq<u8> {
    seq![69u8, 88]
}

/// Law: after `SET k v EX s` with `s` positive, TTL at the same time
/// reports `s`, GET before the `s` seconds have passed reads `v`, and GET
/// once they have passed reads nothing.
pub proof fn law_set_ex_expires(m: Map<Seq<u8>, RecordView>, k: Seq<u8>, v: Seq<u8>, s: i64, now: u64, later: u64)
    requires
        writable(m, k, now),
        0 < s,
        now + s * 1000 <= u64::MAX,
    ensures
        command_spec(CommandId::SetKey, m, seq![k, v, word_ex(), signed_decimal(s as int)], now).0 == ReplyView::OK,
        command_spec(
            CommandId::Ttl,
            command_spec(CommandId::SetKey, m, seq![k, v, word_ex(), signed_decimal(s as int)], now).1,
            seq![k],
            now,
        ).0 == ReplyView::Integer(s),
        later < now + s * 1000 ==> command_spec(
            CommandId::Get,
            command_spec(CommandId::SetKey, m, seq![k, v, word_ex(), signed_decimal(s as int)], now).1,
            seq![k],
            later,
        ).0 == ReplyView::Bulk(v),
        later >= now + s * 1000 ==> command_spec(
            CommandId::Get,
            command_spec(CommandId::SetKey, m, seq![k, v, word_ex(), signed_decimal(s as int)], now).1,
            seq![k],
            later,
        ).0 == ReplyView::Null,
{
    assert(upper(word_ex()) =~= word_ex());
    law_i64_text_round_trip(s);
    let args = seq![k, v, word_ex(), signed_decimal(s as int)];
    assert(args[2] == word_ex());
    assert(args[3] == signed_decimal(s as int));
    assert(flag_value(args, 2) == Ok::<i64, crate::protocol::reply::ErrorView>(s));
    let ms = (s * 1000) as u64;
    assert(sat_mul(s as u64, 1000) == ms);
    let at = (now + ms) as u64;
    assert(sat_add(now, ms) == at);
    assert(parse_set_from(args, 4, now, with_expiry(no_options(), at)) is Ok);
    assert(parse_set(args, now) == Ok::<SetOptions, crate::protocol::reply::ErrorView>(with_expiry(no_options(), at)));
    assert((((at - now) as u64 + 500) / 1000) as i64 == s) by (nonlinear_arith)
        requires
            at == now + s * 1000,
            0 <= s,
    ;
}

/// Law: once INCR has answered `n`, GET reads the decimal text of `n` and a
/// second INCR answers `n + 1`.
pub proof fn law_incr_counts_up(m: Map<Seq<u8>, RecordView>, k: Seq<u8>, n: i64, now: u64)
    requires
        command_spec(CommandId::Incr, m, seq![k], now).0 == ReplyView::Integer(n),
        n < i64::MAX,
    ensures
        command_spec(CommandId::Get, command_spec(CommandId::Incr, m, seq![k], now).1, seq![k], now).0
            == ReplyView::Bulk(signed_decimal(n as int)),
        command_spec(CommandId::Incr, command_spec(CommandId::Incr, m, seq![k], now).1, seq![k], now).0
            == ReplyView::Integer((n + 1) as i64),
{
    law_incr_counts(m, k, 1, 1, now);
}

proof fn lemma_exists_count_reads(m: Map<Seq<u8>, RecordView>, keys: Seq<Seq<u8>>, now: u64)
    ensures
        forall|k2: Seq<u8>| #[trigger] live(exists_count(m, keys, now).1, k2, now) == live(m, k2, now),
    decreases keys.len(),
{
    if keys.len() > 0 {
        lemma_exists_count_reads(m, keys.drop_last(), now);
        lemma_evict_invisible(exists_count(m, keys.drop_last(), now).1, keys.last(), now);
    }
}

proof fn lemma_mget_items_reads(m: Map<Seq<u8>, RecordView>, keys: Seq<Seq<u8>>, now: u64)
    ensures
        forall|k2: Seq<u8>| #[trigger] live(mget_items(m, keys, now).1, k2, now) == live(m, k2, now),
    decreases keys.len(),
{
    if keys.len() > 0 {
        lemma_mget_items_reads(m, keys.drop_last(), now);
        lemma_evict_invisible(mget_items(m, keys.drop_last(), now).1, keys.last(), now);
    }
}

/// Law: a command that the table marks as not writing changes no lookup at
/// the time it runs (it may only drop records that have expired).
pub proof fn law_reads_write_nothing(
    name: Seq<u8>,
    m: Map<Seq<u8>, RecordView>,
    args: Seq<Seq<u8>>,
    now: u64,
    k2: Seq<u8>,
)
    requires
        command_meta(name) matches Some(meta) && !meta.write,
    ensures
        live(command_spec(command_meta(name)->Some_0.id, m, args, now).1, k2, now) == live(m, k2, now),
{
    let id = command_meta(name)->Some_0.id;
    lemma_exists_count_reads(m, args, now);
    lemma_mget_items_reads(m, args, now);
    if args.len() > 0 {
        lemma_evict_invisible(m, args[0], now);
    }
}

/// Law: a command on one key changes nothing under any other key: the
/// keyspace without that key is the same after as before.
pub proof fn law_single_key_isolated(id: CommandId, m: Map<Seq<u8>, RecordView>, args: Seq<Seq<u8>>, now: u64)
    requires
        args.len() > 0,
        id != CommandId::Mset,
        id != CommandId::Mget,
        id != CommandId::Del,
        id != CommandId::Exists,
    ensures
        command_spec(id, m, args, now).1.remove(args[0]) == m.remove(args[0]),
{
    let k = args[0];
    assert(evict(m, k, now).remove(k) =~= m.remove(k));
}

/// The token `PX`.
pub open spec fn word_px() -> Seq<u8> {
    seq![80u8, 88]
}

/// Law: after `SET k v PX n` with `n` positive, the key lives for `n`
/// milliseconds from the time of the SET: TTL at that time reports `n`
/// milliseconds rounded to the nearest second, GET before the `n`
/// milliseconds have passed reads `v`, and GET once they have passed reads
/// nothing.
pub proof fn law_set_px_expires(m: Map<Seq<u8>, RecordView>, k: Seq<u8>, v: Seq<u8>, n: i64, now: u64, later: u64)
    requires
        writable(m, k, now),
        0 < n,
        now + n <= u64::MAX,
    ensures
        command_spec(CommandId::SetKey, m, seq![k, v, word_px(), signed_decimal(n as int)], now).0 == ReplyView::OK,
        command_spec(
            CommandId::Ttl,
            command_spec(CommandId::SetKey, m, seq![k, v, word_px(), signed_decimal(n as int)], now).1,
            seq![k],
            now,
        ).0 == ReplyView::Integer(((n + 500) / 1000) as i64),
        later < now + n ==> command_spec(
            CommandId::Get,
            command_spec(CommandId::SetKey, m, seq![k, v, word_px(), signed_decimal(n as int)], now).1,
            seq![k],
            later,
        ).0 == ReplyView::Bulk(v),
        later >= now + n ==> command_spec(
            CommandId::Get,
            command_spec(CommandId::SetKey, m, seq![k, v, word_px(), signed_decimal(n as int)], now).1,
            seq![k],
            later,
        ).0 == ReplyView::Null,
{
    assert(upper(word_px()) =~= word_px());
    law_i64_text_round_trip(n);
    let args = seq![k, v, word_px(), signed_decimal(n as int)];
    assert(args[2] == word_px());
    assert(args[3] == signed_decimal(n as int));
    assert(flag_value(args, 2) == Ok::<i64, crate::protocol::reply::ErrorView>(n));
    let at = (now + n) as u64;
    assert(sat_add(now, n as u64) == at);
    assert(parse_set_from(args, 4, now, with_expiry(no_options(), at)) is Ok);
    assert(parse_set(args, now) == Ok::<SetOptions, crate::protocol::reply::ErrorView>(with_expiry(no_options(), at)));
}

/// Law: INCRBY and DECRBY take their amount as a signed decimal number. On a
/// key with no live value, INCRBY by the text of any `i64` amount `a`
/// answers `a` and GET then reads that text, and DECRBY answers `-a`. On any
/// keyspace, DECRBY by `a` does what INCRBY by `-a` does, and INCRBY by 1
/// does what INCR does.
pub proof fn law_incrby_signed_amount(m: Map<Seq<u8>, RecordView>, k: Seq<u8>, a: i64, now: u64)
    ensures
        live(m, k, now) is None ==> command_spec(CommandId::Incrby, m, seq![k, signed_decimal(a as int)], now).0
            == ReplyView::Integer(a),
        live(m, k, now) is None ==> command_spec(
            CommandId::Get,
            command_spec(CommandId::Incrby, m, seq![k, signed_decimal(a as int)], now).1,
            seq![k],
            now,
        ).0 == ReplyView::Bulk(signed_decimal(a as int)),
        live(m, k, now) is None && a != i64::MIN ==> command_spec(
            CommandId::Decrby,
            m,
            seq![k, signed_decimal(a as int)],
            now,
        ).0 == ReplyView::Integer((-a) as i64),
        a != i64::MIN ==> command_spec(CommandId::Decrby, m, seq![k, signed_decimal(a as int)], now)
            == command_spec(CommandId::Incrby, m, seq![k, signed_decimal(-a)], now),
        command_spec(CommandId::Incrby, m, seq![k, signed_decimal(1)], now) == command_spec(
            CommandId::Incr,
            m,
            seq![k],
            now,
        ),
{
    law_i64_text_round_trip(a);
    law_i64_text_round_trip(1i64);
    if a != i64::MIN {
        law_i64_text_round_trip((-a) as i64);
    }
    if live(m, k, now) is None {
        law_incr_counts(m, k, a, 0, now);
    }
}

/// Law: APPEND to a live string key keeps its expiry: TTL after it reports
/// what TTL reported before.
pub proof fn law_append_keeps_ttl(m: Map<Seq<u8>, RecordView>, k: Seq<u8>, v: Seq<u8>, now: u64)
    requires
        live(m, k, now) matches Some(r) && r.value is String,
    ensures
        command_spec(
            CommandId::Ttl,
            command_spec(CommandId::Append, m, seq![k, v], now).1,
            seq![k],
            now,
        ).0 == command_spec(CommandId::Ttl, m, seq![k], now).0,
{
    law_append_keeps_expiry(m, k, v, now, now);
}

} // verus!
