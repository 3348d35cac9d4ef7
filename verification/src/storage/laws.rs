//! Laws that relate the storage operations to one another.

use vstd::prelude::*;

use crate::storage::error::StorageError;
use crate::storage::ops::key::ttl_spec;
use crate::storage::ops::string::{append_spec, get_spec, incr_spec, set_spec};
use crate::storage::record::RecordView;
use crate::storage::storage::live;
use crate::util::{law_i64_text_round_trip, signed_decimal};

verus! {

/// Law: a successful SET of `k` to `v` is read back by GET at any time before
/// the expiry it set.
pub proof fn law_get_after_set(
    m: Map<Seq<u8>, RecordView>,
    k: Seq<u8>,
    v: Seq<u8>,
    expire_at: Option<u64>,
    now: u64,
    later: u64,
)
    requires
        set_spec(m, k, v, expire_at, now).0 is Ok,
        expire_at matches Some(at) ==> later < at,
    ensures
        get_spec(set_spec(m, k, v, expire_at, now).1, k, later) == Ok::<Option<Seq<u8>>, StorageError>(
            Some(v),
        ),
{
}

/// Law: once the expiry that a SET gave has passed, GET finds nothing.
pub proof fn law_get_after_expiry(
    m: Map<Seq<u8>, RecordView>,
    k: Seq<u8>,
    v: Seq<u8>,
    at: u64,
    now: u64,
    later: u64,
)
    requires
        set_spec(m, k, v, Some(at), now).0 is Ok,
        at <= later,
    ensures
        get_spec(set_spec(m, k, v, Some(at), now).1, k, later) == Ok::<Option<Seq<u8>>, StorageError>(
            None,
        ),
{
}

/// Law: after a key is removed, GET finds nothing under it.
pub proof fn law_get_after_del(m: Map<Seq<u8>, RecordView>, k: Seq<u8>, now: u64)
    ensures
        get_spec(m.remove(k), k, now) == Ok::<Option<Seq<u8>>, StorageError>(None),
{
}

/// Law: SET, APPEND and INCRBY of `k` leave what GET reads under every other
/// key unchanged.
pub proof fn law_other_keys_unchanged(
    m: Map<Seq<u8>, RecordView>,
    k: Seq<u8>,
    other: Seq<u8>,
    v: Seq<u8>,
    expire_at: Option<u64>,
    by: i64,
    now: u64,
    t: u64,
)
    requires
        other != k,
    ensures
        get_spec(set_spec(m, k, v, expire_at, now).1, other, t) == get_spec(m, other, t),
        get_spec(append_spec(m, k, v, now).1, other, t) == get_spec(m, other, t),
        get_spec(incr_spec(m, k, by, now).1, other, t) == get_spec(m, other, t),
{
}

/// Law: a successful APPEND leaves under `k` the string read before with `v`
/// after it (nothing before, for a key that was not live).
pub proof fn law_get_after_append(m: Map<Seq<u8>, RecordView>, k: Seq<u8>, v: Seq<u8>, now: u64)
    requires
        append_spec(m, k, v, now).0 is Ok,
    ensures
        get_spec(append_spec(m, k, v, now).1, k, now) == Ok::<Option<Seq<u8>>, StorageError>(
            Some(
                match get_spec(m, k, now) {
                    Ok(Some(b)) => b + v,
                    _ => v,
                },
            ),
        ),
{
    if get_spec(m, k, now) is Ok && get_spec(m, k, now)->Ok_0 is None {
        assert(Seq::<u8>::empty() + v =~= v);
    }
}

/// Law: after a successful INCRBY that answers `n`, GET reads the decimal
/// text of `n`, and a second INCRBY by `by2` counts on from `n`.
pub proof fn law_incr_counts(m: Map<Seq<u8>, RecordView>, k: Seq<u8>, by: i64, by2: i64, now: u64)
    requires
        incr_spec(m, k, by, now).0 is Ok,
    ensures
        get_spec(incr_spec(m, k, by, now).1, k, now) == Ok::<Option<Seq<u8>>, StorageError>(
            Some(signed_decimal(incr_spec(m, k, by, now).0->Ok_0 as int)),
        ),
        i64::MIN <= incr_spec(m, k, by, now).0->Ok_0 + by2 <= i64::MAX ==> incr_spec(
            incr_spec(m, k, by, now).1,
            k,
            by2,
            now,
        ).0 == Ok::<i64, StorageError>((incr_spec(m, k, by, now).0->Ok_0 + by2) as i64),
{
    law_i64_text_round_trip(incr_spec(m, k, by, now).0->Ok_0);
}

/// Law: after a SET with expiry `at`, TTL at an earlier time reports the
/// milliseconds left; after a SET without expiry it reports none.
pub proof fn law_ttl_after_set(
    m: Map<Seq<u8>, RecordView>,
    k: Seq<u8>,
    v: Seq<u8>,
    expire_at: Option<u64>,
    now: u64,
    later: u64,
)
    requires
        set_spec(m, k, v, expire_at, now).0 is Ok,
        expire_at matches Some(at) ==> later < at,
    ensures
        ttl_spec(set_spec(m, k, v, expire_at, now).1, k, later) == Some(
            match expire_at {
                Some(at) => Some((at - later) as u64),
                None => None::<u64>,
            },
        ),
{
}

/// Law: APPEND to a live string key keeps its expiry: TTL after it reports
/// what it reported before, and once the old expiry has passed GET finds
/// nothing under the key.
pub proof fn law_append_keeps_expiry(m: Map<Seq<u8>, RecordView>, k: Seq<u8>, v: Seq<u8>, now: u64, later: u64)
    requires
        live(m, k, now) matches Some(r) && r.value is String,
    ensures
        ttl_spec(append_spec(m, k, v, now).1, k, now) == ttl_spec(m, k, now),
        live(m, k, now)->Some_0.expire_at matches Some(at) && at <= later ==> get_spec(
            append_spec(m, k, v, now).1,
            k,
            later,
        ) == Ok::<Option<Seq<u8>>, StorageError>(None),
{
}

} // verus!
