//! Laws of the routing: how keys are split among the shards.

use vstd::prelude::*;

use crate::engine::coordinator::{indexed_on, is_placement, keys_on, labelled, pairs_on, position_taken, shard_of};
use crate::commands::exec::key::{del_count, exists_count};
use crate::commands::exec::string::{mget_items, mset_pairs};
use crate::commands::laws::writable;
use crate::protocol::reply::ErrorView;
use crate::storage::ops::string::set_spec;
use crate::storage::StorageError;
use crate::storage::ops::string::get_spec;
use crate::protocol::reply::ReplyView;
use crate::storage::record::RecordView;
use crate::storage::storage::{evict, lemma_evict_invisible, live};

verus! {

/// How many times `x` occurs in `s`.
pub open spec fn occurrences(s: Seq<Seq<u8>>, x: Seq<u8>) -> nat
    decreases s.len(),
{
    if s.len() == 0 {
        0
    } else {
        occurrences(s.drop_last(), x) + if s.last() == x {
            1nat
        } else {
            0nat
        }
    }
}

/// Law: splitting keys among `n` shards loses no key and invents none: the
/// group of a key's owner holds it as often as the keys do, every other group
/// never, and every key in a group belongs to that group's shard.
pub proof fn law_split_keys_partitions(keys: Seq<Seq<u8>>, n: usize, w: int, x: Seq<u8>)
    requires
        n > 0,
    ensures
        occurrences(keys_on(keys, w, n), x) == if shard_of(x, n) == w {
            occurrences(keys, x)
        } else {
            0
        },
        forall|t: int| 0 <= t < keys_on(keys, w, n).len() ==> shard_of(#[trigger] keys_on(keys, w, n)[t], n) == w,
    decreases keys.len(),
{
    if keys.len() > 0 {
        law_split_keys_partitions(keys.drop_last(), n, w, x);
        let rest = keys_on(keys.drop_last(), w, n);
        assert(rest.push(keys.last()).drop_last() =~= rest);
    }
}

/// Law: splitting keys for an ordered command gives each group its keys with
/// their positions, in increasing order, each owned by the group's shard,
/// and every position appears in the group of its key's owner: together the
/// groups place every key exactly once.
pub proof fn law_split_ordered_places(keys: Seq<Seq<u8>>, n: usize, w: int)
    requires
        n > 0,
        keys.len() <= usize::MAX,
    ensures
        forall|t: int|
            0 <= t < indexed_on(keys, w, n).len() ==> {
                let e = #[trigger] indexed_on(keys, w, n)[t];
                &&& e.0 < keys.len()
                &&& keys[e.0 as int] == e.1
                &&& shard_of(e.1, n) == w
            },
        forall|t1: int, t2: int|
            0 <= t1 < t2 < indexed_on(keys, w, n).len() ==> (#[trigger] indexed_on(keys, w, n)[t1]).0 < (
            #[trigger] indexed_on(keys, w, n)[t2]).0,
        forall|j: int|
            0 <= j < keys.len() && shard_of(keys[j], n) == w ==> exists|t: int|
                0 <= t < indexed_on(keys, w, n).len() && (#[trigger] indexed_on(keys, w, n)[t]).0 == j,
    decreases keys.len(),
{
    if keys.len() > 0 {
        let d = keys.drop_last();
        law_split_ordered_places(d, n, w);
        let rest = indexed_on(d, w, n);
        let g = indexed_on(keys, w, n);
        assert forall|t: int| 0 <= t < rest.len() implies (#[trigger] rest[t]).0 < keys.len() - 1 by {
        }
        assert forall|j: int| 0 <= j < keys.len() && shard_of(keys[j], n) == w implies exists|t: int|
            0 <= t < g.len() && (#[trigger] g[t]).0 == j by {
            if j < keys.len() - 1 {
                assert(d[j] == keys[j]);
                let t = choose|t: int| 0 <= t < rest.len() && (#[trigger] rest[t]).0 == j;
                assert(g[t] == rest[t]);
            } else {
                assert(g[rest.len() as int].0 == j);
            }
        }
        assert forall|t: int| 0 <= t < g.len() implies {
            let e = #[trigger] g[t];
            &&& e.0 < keys.len()
            &&& keys[e.0 as int] == e.1
            &&& shard_of(e.1, n) == w
        } by {
            if t < rest.len() {
                assert(g[t] == rest[t]);
                assert(d[rest[t].0 as int] == keys[rest[t].0 as int]);
            }
        }
    }
}

/// The positions of keys that carry them.
pub open spec fn positions_of(g: Seq<(usize, Seq<u8>)>) -> Seq<usize> {
    g.map_values(|e: (usize, Seq<u8>)| e.0)
}

/// How many keys the groups of the shards below `w` hold.
pub open spec fn group_total(keys: Seq<Seq<u8>>, n: usize, w: nat) -> nat
    decreases w,
{
    if w == 0 {
        0
    } else {
        group_total(keys, n, (w - 1) as nat) + indexed_on(keys, w - 1, n).len()
    }
}

/// The array replies of the shards below `w` (shard `v` answering
/// `values[v]`, one value per key it was sent), spread over the keys'
/// positions and gathered in shard order.
pub open spec fn gathered(keys: Seq<Seq<u8>>, n: usize, values: Seq<Seq<ReplyView>>, w: nat) -> Seq<
    (usize, ReplyView),
>
    decreases w,
{
    if w == 0 {
        Seq::empty()
    } else {
        gathered(keys, n, values, (w - 1) as nat) + labelled(
            positions_of(indexed_on(keys, w - 1, n)),
            ReplyView::Array(values[w - 1]),
        )
    }
}

proof fn lemma_group_total_step(keys: Seq<Seq<u8>>, n: usize, w: nat)
    requires
        n > 0,
        keys.len() > 0,
    ensures
        group_total(keys, n, w) == group_total(keys.drop_last(), n, w) + if shard_of(keys.last(), n) < w {
            1nat
        } else {
            0nat
        },
    decreases w,
{
    if w > 0 {
        lemma_group_total_step(keys, n, (w - 1) as nat);
    }
}

/// The groups of all `n` shards hold every key once.
proof fn lemma_group_total_all(keys: Seq<Seq<u8>>, n: usize)
    requires
        n > 0,
    ensures
        group_total(keys, n, n as nat) == keys.len(),
    decreases keys.len(),
{
    if keys.len() > 0 {
        lemma_group_total_all(keys.drop_last(), n);
        lemma_group_total_step(keys, n, n as nat);
    } else {
        lemma_group_total_empty(keys, n, n as nat);
    }
}

proof fn lemma_group_total_empty(keys: Seq<Seq<u8>>, n: usize, w: nat)
    requires
        keys.len() == 0,
    ensures
        group_total(keys, n, w) == 0,
    decreases w,
{
    if w > 0 {
        lemma_group_total_empty(keys, n, (w - 1) as nat);
    }
}

/// The entry of `gathered` that stands for position `j`: it is there, and
/// carries the value that the owner of key `j` gave for it.
pub open spec fn carries(
    keys: Seq<Seq<u8>>,
    n: usize,
    values: Seq<Seq<ReplyView>>,
    g: Seq<(usize, ReplyView)>,
    j: int,
) -> bool {
    exists|k: int, t: int|
        #![trigger g[k], indexed_on(keys, shard_of(keys[j], n) as int, n)[t]]
        0 <= k < g.len() && 0 <= t < indexed_on(keys, shard_of(keys[j], n) as int, n).len() && g[k].0 == j
            && indexed_on(keys, shard_of(keys[j], n) as int, n)[t].0 == j && g[k].1 == values[shard_of(
            keys[j],
            n,
        ) as int][t]
}

proof fn lemma_gathered(keys: Seq<Seq<u8>>, n: usize, values: Seq<Seq<ReplyView>>, w: nat)
    requires
        n > 0,
        w <= n,
        keys.len() <= usize::MAX,
        values.len() == n,
        forall|v: int| 0 <= v < n ==> (#[trigger] values[v]).len() == indexed_on(keys, v, n).len(),
    ensures
        gathered(keys, n, values, w).len() == group_total(keys, n, w),
        forall|k: int|
            0 <= k < gathered(keys, n, values, w).len() ==> (#[trigger] gathered(keys, n, values, w)[k]).0
                < keys.len() && shard_of(keys[gathered(keys, n, values, w)[k].0 as int], n) < w,
        forall|k1: int, k2: int|
            0 <= k1 < k2 < gathered(keys, n, values, w).len() ==> (#[trigger] gathered(keys, n, values, w)[k1]).0
                != (#[trigger] gathered(keys, n, values, w)[k2]).0,
        forall|j: int|
            0 <= j < keys.len() && shard_of(keys[j], n) < w ==> #[trigger] carries(
                keys,
                n,
                values,
                gathered(keys, n, values, w),
                j,
            ),
    decreases w,
{
    if w > 0 {
        let v = (w - 1) as int;
        lemma_gathered(keys, n, values, (w - 1) as nat);
        law_split_ordered_places(keys, n, v);
        let prev = gathered(keys, n, values, (w - 1) as nat);
        let grp = indexed_on(keys, v, n);
        let lab = labelled(positions_of(grp), ReplyView::Array(values[v]));
        let g = gathered(keys, n, values, w);
        assert(g == prev + lab);
        assert(lab.len() == grp.len());
        assert forall|t: int| 0 <= t < lab.len() implies #[trigger] lab[t] == (grp[t].0, values[v][t]) by {
        }
        assert forall|k: int| 0 <= k < g.len() implies (#[trigger] g[k]).0 < keys.len() && shard_of(
            keys[g[k].0 as int],
            n,
        ) < w by {
            if k >= prev.len() {
                let t = k - prev.len();
                assert(g[k] == lab[t]);
                assert(grp[t] == indexed_on(keys, v, n)[t]);
            } else {
                assert(g[k] == prev[k]);
            }
        }
        assert forall|k1: int, k2: int| 0 <= k1 < k2 < g.len() implies (#[trigger] g[k1]).0 != (
        #[trigger] g[k2]).0 by {
            if k2 < prev.len() {
                assert(g[k1] == prev[k1]);
                assert(g[k2] == prev[k2]);
            } else if k1 >= prev.len() {
                let t1 = k1 - prev.len();
                let t2 = k2 - prev.len();
                assert(g[k1] == lab[t1]);
                assert(g[k2] == lab[t2]);
                assert(grp[t1] == indexed_on(keys, v, n)[t1]);
                assert(grp[t2] == indexed_on(keys, v, n)[t2]);
            } else {
                let t2 = k2 - prev.len();
                assert(g[k1] == prev[k1]);
                assert(g[k2] == lab[t2]);
                assert(grp[t2] == indexed_on(keys, v, n)[t2]);
            }
        }
        assert forall|j: int| 0 <= j < keys.len() && shard_of(keys[j], n) < w implies #[trigger] carries(
            keys,
            n,
            values,
            g,
            j,
        ) by {
            if shard_of(keys[j], n) < v {
                assert(carries(keys, n, values, prev, j));
                let (k, t) = choose|k: int, t: int|
                    #![trigger prev[k], indexed_on(keys, shard_of(keys[j], n) as int, n)[t]]
                    0 <= k < prev.len() && 0 <= t < indexed_on(keys, shard_of(keys[j], n) as int, n).len()
                        && prev[k].0 == j && indexed_on(keys, shard_of(keys[j], n) as int, n)[t].0 == j
                        && prev[k].1 == values[shard_of(keys[j], n) as int][t];
                assert(g[k] == prev[k]);
            } else {
                let t = choose|t: int| 0 <= t < grp.len() && (#[trigger] grp[t]).0 == j;
                let k = prev.len() + t;
                assert(g[k] == lab[t]);
            }
        }
    }
}

/// Law: for an ordered multi-key command split among `n` shards, when each
/// shard answers its keys with one value each, the answers spread over the
/// keys' positions and gathered in shard order take every position exactly
/// once, and the one at position `j` carries the value that the owner of
/// key `j` gave for it: merging them with `merge_ordered_array` gives the
/// values in the order of the keys.
pub proof fn law_ordered_replies_merge_in_key_order(
    keys: Seq<Seq<u8>>,
    n: usize,
    values: Seq<Seq<ReplyView>>,
)
    requires
        n > 0,
        keys.len() <= usize::MAX,
        values.len() == n,
        forall|v: int| 0 <= v < n ==> (#[trigger] values[v]).len() == indexed_on(keys, v, n).len(),
    ensures
        is_placement(gathered(keys, n, values, n as nat)),
        gathered(keys, n, values, n as nat).len() == keys.len(),
        forall|j: int| 0 <= j < keys.len() ==> #[trigger] carries(keys, n, values, gathered(keys, n, values, n as nat), j),
{
    lemma_gathered(keys, n, values, n as nat);
    lemma_group_total_all(keys, n);
    let g = gathered(keys, n, values, n as nat);
    assert forall|j: int| 0 <= j < g.len() implies #[trigger] position_taken(g, j) by {
        assert(shard_of(keys[j], n) < n);
        assert(carries(keys, n, values, g, j));
    }
}

/// The part of a keyspace that shard `w` of `n` owns.
pub open spec fn owned(m: Map<Seq<u8>, RecordView>, w: int, n: usize) -> Map<Seq<u8>, RecordView> {
    m.restrict(Set::new(|k: Seq<u8>| shard_of(k, n) == w))
}

proof fn lemma_owned_live(m: Map<Seq<u8>, RecordView>, w: int, n: usize, k: Seq<u8>, now: u64)
    requires
        shard_of(k, n) == w,
    ensures
        live(owned(m, w, n), k, now) == live(m, k, now),
{
}

/// DEL of the keys that shard `w` owns, on the part of the keyspace it
/// owns: the part it leaves is the part of what DEL of all the keys leaves
/// on the whole keyspace.
proof fn lemma_del_split_state(m: Map<Seq<u8>, RecordView>, keys: Seq<Seq<u8>>, n: usize, w: int, now: u64)
    requires
        n > 0,
    ensures
        del_count(owned(m, w, n), keys_on(keys, w, n), now).1 == owned(del_count(m, keys, now).1, w, n),
    decreases keys.len(),
{
    if keys.len() == 0 {
        assert(keys_on(keys, w, n) =~= Seq::<Seq<u8>>::empty());
    } else {
        let d = keys.drop_last();
        let x = keys.last();
        lemma_del_split_state(m, d, n, w, now);
        let m1 = del_count(m, d, now).1;
        if shard_of(x, n) == w {
            assert(keys_on(keys, w, n).drop_last() =~= keys_on(d, w, n));
            assert(owned(m1, w, n).remove(x) =~= owned(m1.remove(x), w, n));
        } else {
            assert(owned(m1, w, n) =~= owned(m1.remove(x), w, n));
        }
    }
}

/// The counts that the shards below `w` give for DEL of their keys on
/// their parts of the keyspace, summed.
pub open spec fn del_sum(m: Map<Seq<u8>, RecordView>, keys: Seq<Seq<u8>>, n: usize, now: u64, w: nat) -> nat
    decreases w,
{
    if w == 0 {
        0
    } else {
        del_sum(m, keys, n, now, (w - 1) as nat) + del_count(owned(m, w - 1, n), keys_on(keys, w - 1, n), now).0
    }
}

proof fn lemma_del_sum_step(m: Map<Seq<u8>, RecordView>, keys: Seq<Seq<u8>>, n: usize, now: u64, w: nat)
    requires
        n > 0,
        keys.len() > 0,
    ensures
        del_sum(m, keys, n, now, w) == del_sum(m, keys.drop_last(), n, now, w) + if shard_of(keys.last(), n) < w
            && live(del_count(m, keys.drop_last(), now).1, keys.last(), now) is Some {
            1nat
        } else {
            0nat
        },
    decreases w,
{
    if w > 0 {
        let v = w - 1;
        lemma_del_sum_step(m, keys, n, now, (w - 1) as nat);
        let d = keys.drop_last();
        let x = keys.last();
        if shard_of(x, n) == v {
            assert(keys_on(keys, v, n).drop_last() =~= keys_on(d, v, n));
            lemma_del_split_state(m, d, n, v, now);
            lemma_owned_live(del_count(m, d, now).1, v, n, x, now);
        }
    }
}

proof fn lemma_del_sum_all(m: Map<Seq<u8>, RecordView>, keys: Seq<Seq<u8>>, n: usize, now: u64)
    requires
        n > 0,
    ensures
        del_sum(m, keys, n, now, n as nat) == del_count(m, keys, now).0,
    decreases keys.len(),
{
    if keys.len() == 0 {
        lemma_del_sum_empty(m, keys, n, now, n as nat);
    } else {
        lemma_del_sum_all(m, keys.drop_last(), n, now);
        lemma_del_sum_step(m, keys, n, now, n as nat);
    }
}

proof fn lemma_del_sum_empty(m: Map<Seq<u8>, RecordView>, keys: Seq<Seq<u8>>, n: usize, now: u64, w: nat)
    requires
        keys.len() == 0,
    ensures
        del_sum(m, keys, n, now, w) == 0,
    decreases w,
{
    if w > 0 {
        lemma_del_sum_empty(m, keys, n, now, (w - 1) as nat);
        assert(keys_on(keys, w - 1, n) =~= Seq::<Seq<u8>>::empty());
    }
}

/// Law: DEL split among `n` shards, each running it on the keys it owns
/// against the part of the keyspace it owns, counts as many keys, in sum, as
/// DEL of all the keys on the whole keyspace, and leaves each shard with its
/// part of what that DEL leaves.
pub proof fn law_sharded_del_matches_single(m: Map<Seq<u8>, RecordView>, keys: Seq<Seq<u8>>, n: usize, now: u64, w: int)
    requires
        n > 0,
    ensures
        del_sum(m, keys, n, now, n as nat) == del_count(m, keys, now).0,
        del_count(owned(m, w, n), keys_on(keys, w, n), now).1 == owned(del_count(m, keys, now).1, w, n),
{
    lemma_del_sum_all(m, keys, n, now);
    lemma_del_split_state(m, keys, n, w, now);
}

proof fn lemma_exists_split_state(m: Map<Seq<u8>, RecordView>, keys: Seq<Seq<u8>>, n: usize, w: int, now: u64)
    requires
        n > 0,
    ensures
        exists_count(owned(m, w, n), keys_on(keys, w, n), now).1 == owned(exists_count(m, keys, now).1, w, n),
    decreases keys.len(),
{
    if keys.len() == 0 {
        assert(keys_on(keys, w, n) =~= Seq::<Seq<u8>>::empty());
    } else {
        let d = keys.drop_last();
        let x = keys.last();
        lemma_exists_split_state(m, d, n, w, now);
        let m1 = exists_count(m, d, now).1;
        if shard_of(x, n) == w {
            assert(keys_on(keys, w, n).drop_last() =~= keys_on(d, w, n));
            assert(evict(owned(m1, w, n), x, now) =~= owned(evict(m1, x, now), w, n));
        } else {
            assert(owned(m1, w, n) =~= owned(evict(m1, x, now), w, n));
        }
    }
}

/// The counts that the shards below `w` give for EXISTS of their keys on
/// their parts of the keyspace, summed.
pub open spec fn exists_sum(m: Map<Seq<u8>, RecordView>, keys: Seq<Seq<u8>>, n: usize, now: u64, w: nat) -> nat
    decreases w,
{
    if w == 0 {
        0
    } else {
        exists_sum(m, keys, n, now, (w - 1) as nat) + exists_count(owned(m, w - 1, n), keys_on(keys, w - 1, n), now).0
    }
}

proof fn lemma_exists_sum_step(m: Map<Seq<u8>, RecordView>, keys: Seq<Seq<u8>>, n: usize, now: u64, w: nat)
    requires
        n > 0,
        keys.len() > 0,
    ensures
        exists_sum(m, keys, n, now, w) == exists_sum(m, keys.drop_last(), n, now, w) + if shard_of(keys.last(), n)
            < w && live(exists_count(m, keys.drop_last(), now).1, keys.last(), now) is Some {
            1nat
        } else {
            0nat
        },
    decreases w,
{
    if w > 0 {
        let v = w - 1;
        lemma_exists_sum_step(m, keys, n, now, (w - 1) as nat);
        let d = keys.drop_last();
        let x = keys.last();
        if shard_of(x, n) == v {
            assert(keys_on(keys, v, n).drop_last() =~= keys_on(d, v, n));
            lemma_exists_split_state(m, d, n, v, now);
            lemma_owned_live(exists_count(m, d, now).1, v, n, x, now);
        }
    }
}

proof fn lemma_exists_sum_empty(m: Map<Seq<u8>, RecordView>, keys: Seq<Seq<u8>>, n: usize, now: u64, w: nat)
    requires
        keys.len() == 0,
    ensures
        exists_sum(m, keys, n, now, w) == 0,
    decreases w,
{
    if w > 0 {
        lemma_exists_sum_empty(m, keys, n, now, (w - 1) as nat);
        assert(keys_on(keys, w - 1, n) =~= Seq::<Seq<u8>>::empty());
    }
}

proof fn lemma_exists_sum_all(m: Map<Seq<u8>, RecordView>, keys: Seq<Seq<u8>>, n: usize, now: u64)
    requires
        n > 0,
    ensures
        exists_sum(m, keys, n, now, n as nat) == exists_count(m, keys, now).0,
    decreases keys.len(),
{
    if keys.len() == 0 {
        lemma_exists_sum_empty(m, keys, n, now, n as nat);
    } else {
        lemma_exists_sum_all(m, keys.drop_last(), n, now);
        lemma_exists_sum_step(m, keys, n, now, n as nat);
    }
}

/// Law: EXISTS split among `n` shards counts, in sum, as many live keys as
/// EXISTS of all the keys on the whole keyspace.
pub proof fn law_sharded_exists_matches_single(m: Map<Seq<u8>, RecordView>, keys: Seq<Seq<u8>>, n: usize, now: u64)
    requires
        n > 0,
    ensures
        exists_sum(m, keys, n, now, n as nat) == exists_count(m, keys, now).0,
{
    lemma_exists_sum_all(m, keys, n, now);
}

/// The reply of MGET for one key, from what GET finds.
pub open spec fn item_reply(r: Result<Option<Seq<u8>>, StorageError>) -> ReplyView {
    match r {
        Ok(Some(v)) => ReplyView::Bulk(v),
        _ => ReplyView::Null,
    }
}

/// MGET replies for each key what GET finds for it on the keyspace it
/// started from: the expired records it drops on the way change no lookup.
proof fn lemma_mget_items_each(m: Map<Seq<u8>, RecordView>, keys: Seq<Seq<u8>>, now: u64)
    ensures
        mget_items(m, keys, now).0.len() == keys.len(),
        forall|j: int| 0 <= j < keys.len() ==> #[trigger] mget_items(m, keys, now).0[j] == item_reply(get_spec(m, keys[j], now)),
        forall|k2: Seq<u8>| #[trigger] live(mget_items(m, keys, now).1, k2, now) == live(m, k2, now),
    decreases keys.len(),
{
    if keys.len() > 0 {
        let d = keys.drop_last();
        lemma_mget_items_each(m, d, now);
        let m1 = mget_items(m, d, now).1;
        lemma_evict_invisible(m1, keys.last(), now);
        assert forall|j: int| 0 <= j < keys.len() implies #[trigger] mget_items(m, keys, now).0[j] == item_reply(
            get_spec(m, keys[j], now),
        ) by {
            if j < keys.len() - 1 {
                assert(keys[j] == d[j]);
            } else {
                assert(live(m1, keys.last(), now) == live(m, keys.last(), now));
            }
        }
    }
}

/// The keys of a group, without their positions.
pub open spec fn group_keys_of(g: Seq<(usize, Seq<u8>)>) -> Seq<Seq<u8>> {
    g.map_values(|e: (usize, Seq<u8>)| e.1)
}

/// What each of `n` shards replies to MGET of the keys it owns, run on the
/// part of the keyspace it owns.
pub open spec fn shard_mget_values(m: Map<Seq<u8>, RecordView>, keys: Seq<Seq<u8>>, n: usize, now: u64) -> Seq<
    Seq<ReplyView>,
> {
    Seq::new(
        n as nat,
        |w: int| mget_items(owned(m, w, n), group_keys_of(indexed_on(keys, w, n)), now).0,
    )
}

/// The reply at position `j` among replies that carry their positions is
/// `r`.
pub open spec fn placed_at(g: Seq<(usize, ReplyView)>, j: int, r: ReplyView) -> bool {
    exists|k: int| 0 <= k < g.len() && (#[trigger] g[k]).0 == j && g[k].1 == r
}

/// Law: MGET split among `n` shards, each answering the keys it owns from
/// the part of the keyspace it owns, and its replies put back in the order
/// of the keys, answers at each position what MGET of all the keys on the
/// whole keyspace answers there.
pub proof fn law_sharded_mget_matches_single(m: Map<Seq<u8>, RecordView>, keys: Seq<Seq<u8>>, n: usize, now: u64)
    requires
        n > 0,
        keys.len() <= usize::MAX,
    ensures
        is_placement(gathered(keys, n, shard_mget_values(m, keys, n, now), n as nat)),
        forall|j: int|
            0 <= j < keys.len() ==> placed_at(
                gathered(keys, n, shard_mget_values(m, keys, n, now), n as nat),
                j,
                #[trigger] mget_items(m, keys, now).0[j],
            ),
{
    let values = shard_mget_values(m, keys, n, now);
    assert forall|v: int| 0 <= v < n implies (#[trigger] values[v]).len() == indexed_on(keys, v, n).len() by {
        lemma_mget_items_each(owned(m, v, n), group_keys_of(indexed_on(keys, v, n)), now);
    }
    law_ordered_replies_merge_in_key_order(keys, n, values);
    lemma_mget_items_each(m, keys, now);
    let g = gathered(keys, n, values, n as nat);
    assert forall|j: int| 0 <= j < keys.len() implies placed_at(g, j, #[trigger] mget_items(m, keys, now).0[j]) by {
        assert(carries(keys, n, values, g, j));
        let w = shard_of(keys[j], n) as int;
        let grp = indexed_on(keys, w, n);
        let (k, t) = choose|k: int, t: int|
            #![trigger g[k], indexed_on(keys, shard_of(keys[j], n) as int, n)[t]]
            0 <= k < g.len() && 0 <= t < indexed_on(keys, shard_of(keys[j], n) as int, n).len() && g[k].0 == j
                && indexed_on(keys, shard_of(keys[j], n) as int, n)[t].0 == j && g[k].1 == values[shard_of(
                keys[j],
                n,
            ) as int][t];
        law_split_ordered_places(keys, n, w);
        assert(grp[t].1 == keys[j]);
        let gk = group_keys_of(grp);
        lemma_mget_items_each(owned(m, w, n), gk, now);
        assert(gk[t] == keys[j]);
        lemma_owned_live(m, w, n, keys[j], now);
        assert(get_spec(owned(m, w, n), keys[j], now) == get_spec(m, keys[j], now));
        assert(g[k].1 == mget_items(m, keys, now).0[j]);
    }
}

/// The keys of the first `p` pairs of `args` hold no hash at `now`.
pub open spec fn pair_keys_writable(m: Map<Seq<u8>, RecordView>, args: Seq<Seq<u8>>, p: nat, now: u64) -> bool {
    forall|q: int| 0 <= q < p ==> #[trigger] writable(m, args[2 * q], now)
}

proof fn lemma_set_keeps_writable(m: Map<Seq<u8>, RecordView>, k: Seq<u8>, v: Seq<u8>, k2: Seq<u8>, now: u64)
    requires
        writable(m, k, now),
        writable(m, k2, now),
    ensures
        set_spec(m, k, v, None, now).0 is Ok,
        writable(set_spec(m, k, v, None, now).1, k2, now),
{
    lemma_evict_invisible(m, k, now);
}

/// MSET of the first `p` pairs on one keyspace meets no hash, and the later
/// keys still hold none.
proof fn lemma_mset_single(m: Map<Seq<u8>, RecordView>, args: Seq<Seq<u8>>, p: nat, total: nat, now: u64)
    requires
        p <= total,
        2 * total <= args.len(),
        pair_keys_writable(m, args, total, now),
    ensures
        mset_pairs(m, args, p, now).0 is None,
        forall|q: int| p <= q < total ==> #[trigger] writable(mset_pairs(m, args, p, now).1, args[2 * q], now),
    decreases p,
{
    if p > 0 {
        lemma_mset_single(m, args, (p - 1) as nat, total, now);
        let m1 = mset_pairs(m, args, (p - 1) as nat, now).1;
        let i = 2 * (p - 1);
        assert(writable(m1, args[2 * (p - 1)], now));
        assert forall|q: int| p <= q < total implies #[trigger] writable(mset_pairs(m, args, p, now).1, args[2 * q], now) by {
            assert(writable(m1, args[2 * q], now));
            lemma_set_keeps_writable(m1, args[i], args[i + 1], args[2 * q], now);
        }
        lemma_set_keeps_writable(m1, args[i], args[i + 1], args[i], now);
    }
}

/// MSET of `c` pairs reads only the first `2 * c` arguments.
proof fn lemma_mset_prefix(m: Map<Seq<u8>, RecordView>, a: Seq<Seq<u8>>, b: Seq<Seq<u8>>, c: nat, now: u64)
    requires
        2 * c <= a.len(),
        2 * c <= b.len(),
        forall|i: int| 0 <= i < 2 * c ==> a[i] == b[i],
    ensures
        mset_pairs(m, a, c, now) == mset_pairs(m, b, c, now),
    decreases c,
{
    if c > 0 {
        lemma_mset_prefix(m, a, b, (c - 1) as nat, now);
    }
}

proof fn lemma_pairs_on_even(args: Seq<Seq<u8>>, p: nat, w: int, n: usize)
    ensures
        pairs_on(args, p, w, n).len() % 2 == 0,
        pairs_on(args, p, w, n).len() <= 2 * p,
    decreases p,
{
    if p > 0 {
        lemma_pairs_on_even(args, (p - 1) as nat, w, n);
    }
}

/// MSET of each shard's pairs on its part of the keyspace gives that part of
/// what MSET of all the pairs gives on the whole keyspace.
proof fn lemma_mset_split(m: Map<Seq<u8>, RecordView>, args: Seq<Seq<u8>>, p: nat, total: nat, n: usize, w: int, now: u64)
    requires
        n > 0,
        p <= total,
        2 * total <= args.len(),
        pair_keys_writable(m, args, total, now),
    ensures
        mset_pairs(owned(m, w, n), pairs_on(args, p, w, n), pairs_on(args, p, w, n).len() / 2, now) == (
            None::<ErrorView>,
            owned(mset_pairs(m, args, p, now).1, w, n),
        ),
    decreases p,
{
    lemma_pairs_on_even(args, p, w, n);
    if p == 0 {
        assert(owned(m, w, n) == owned(mset_pairs(m, args, 0, now).1, w, n));
    } else {
        let q = (p - 1) as nat;
        lemma_mset_split(m, args, q, total, n, w, now);
        lemma_mset_single(m, args, q, total, now);
        lemma_pairs_on_even(args, q, w, n);
        let m1 = mset_pairs(m, args, q, now).1;
        let i = 2 * q as int;
        let k = args[i];
        let v = args[i + 1];
        assert(writable(m1, args[2 * (q as int)], now));
        lemma_evict_invisible(m1, k, now);
        let prev = pairs_on(args, q, w, n);
        let c = (prev.len() / 2) as nat;
        if shard_of(k, n) == w {
            let g = prev.push(k).push(v);
            assert(pairs_on(args, p, w, n) == g);
            lemma_mset_prefix(owned(m, w, n), g, prev, c, now);
            lemma_owned_live(m1, w, n, k, now);
            assert(2 * c == prev.len());
            assert(g[2 * (c as int)] == k);
            assert(g[2 * (c as int) + 1] == v);
            assert(owned(set_spec(m1, k, v, None, now).1, w, n) =~= set_spec(owned(m1, w, n), k, v, None, now).1);
        } else {
            assert(owned(set_spec(m1, k, v, None, now).1, w, n) =~= owned(m1, w, n));
        }
    }
}

/// Law: MSET split among `n` shards, each writing the pairs whose keys it
/// owns to the part of the keyspace it owns, writes each shard's part as MSET
/// of all the pairs writes the whole keyspace, and every shard answers OK,
/// as the whole does, when no key holds a hash.
pub proof fn law_sharded_mset_matches_single(
    m: Map<Seq<u8>, RecordView>,
    args: Seq<Seq<u8>>,
    n: usize,
    now: u64,
    w: int,
)
    requires
        n > 0,
        args.len() % 2 == 0,
        pair_keys_writable(m, args, args.len() / 2, now),
    ensures
        mset_pairs(m, args, args.len() / 2, now).0 is None,
        mset_pairs(owned(m, w, n), pairs_on(args, args.len() / 2, w, n), pairs_on(args, args.len() / 2, w, n).len() / 2, now)
            == (None::<ErrorView>, owned(mset_pairs(m, args, args.len() / 2, now).1, w, n)),
{
    lemma_mset_single(m, args, args.len() / 2, args.len() / 2, now);
    lemma_mset_split(m, args, args.len() / 2, args.len() / 2, n, w, now);
}

} // verus!
