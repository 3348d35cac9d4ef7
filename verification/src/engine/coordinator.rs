//! The decisions of a coordinator: which shard owns a key, how a command's
//! keys are split among the shards, and how the shards' replies become one.
//! Sending the pieces to other shards and waiting for them is left to the
//! caller.

use vstd::prelude::*;

use crate::commands::exec::arg_views;
use crate::commands::registry::{ArgumentKind, CommandMeta, ExecutionPolicy, ReplyMergePolicy, command_meta, lookup};
use crate::engine::shard::{ShardEngine, command_spec};
use crate::protocol::command::{Args, Command, CommandView, arg_items, args_new, args_push, args_slice};
use crate::storage::record::RecordView;
use crate::protocol::reply::{CommandError, ErrorView, Reply, ReplyView, lemma_array_view, replies_view};
use crate::util::{copy_bytes, reverse_vec};

verus! {

pub const FNV_OFFSET: u64 = 0xcbf29ce484222325;

pub const FNV_PRIME: u64 = 0x100000001b3;

/// The 64-bit FNV-1a hash of `s`.
pub open spec fn fnv1a(s: Seq<u8>) -> u64
    decreases s.len(),
{
    if s.len() == 0 {
        FNV_OFFSET
    } else {
        (fnv1a(s.drop_last()) ^ (s.last() as u64)).wrapping_mul(FNV_PRIME)
    }
}

/// The shard, of `n`, that owns key `k`.
pub open spec fn shard_of(k: Seq<u8>, n: usize) -> usize
    recommends
        n > 0,
{
    (fnv1a(k) % (n as u64)) as usize
}

/// The keys of `keys` that shard `w` of `n` owns, in their order.
pub open spec fn keys_on(keys: Seq<Seq<u8>>, w: int, n: usize) -> Seq<Seq<u8>>
    decreases keys.len(),
{
    if keys.len() == 0 {
        Seq::empty()
    } else {
        let rest = keys_on(keys.drop_last(), w, n);
        if shard_of(keys.last(), n) == w {
            rest.push(keys.last())
        } else {
            rest
        }
    }
}

/// The pairs among the first `p` key-value pairs of `args` whose keys shard
/// `w` of `n` owns, in their order, flattened.
pub open spec fn pairs_on(args: Seq<Seq<u8>>, p: nat, w: int, n: usize) -> Seq<Seq<u8>>
    decreases p,
{
    if p == 0 {
        Seq::empty()
    } else {
        let rest = pairs_on(args, (p - 1) as nat, w, n);
        let k = args[2 * (p - 1)];
        if shard_of(k, n) == w {
            rest.push(k).push(args[2 * (p - 1) + 1])
        } else {
            rest
        }
    }
}

/// The keys of `keys` that shard `w` of `n` owns, each with its position.
pub open spec fn indexed_on(keys: Seq<Seq<u8>>, w: int, n: usize) -> Seq<(usize, Seq<u8>)>
    decreases keys.len(),
{
    if keys.len() == 0 {
        Seq::empty()
    } else {
        let rest = indexed_on(keys.drop_last(), w, n);
        if shard_of(keys.last(), n) == w {
            rest.push(((keys.len() - 1) as usize, keys.last()))
        } else {
            rest
        }
    }
}

/// The shard, of `shard_count`, that owns `key`.
pub fn shard_for_key(key: &[u8], shard_count: usize) -> (r: usize)
    requires
        shard_count > 0,
    ensures
        r == shard_of(key@, shard_count),
        r < shard_count,
{
    let mut h: u64 = FNV_OFFSET;
    let mut i: usize = 0;
    while i < key.len()
        invariant
            i <= key@.len(),
            h == fnv1a(key@.take(i as int)),
        decreases key@.len() - i,
    {
        assert(key@.take(i + 1).drop_last() =~= key@.take(i as int));
        h = (h ^ (key[i] as u64)).wrapping_mul(FNV_PRIME);
        i += 1;
    }
    assert(key@.take(key@.len() as int) =~= key@);
    (h % (shard_count as u64)) as usize
}

/// `n` empty groups.
fn empty_groups<T>(n: usize) -> (r: Vec<Vec<T>>)
    ensures
        r@.len() == n,
        forall|w: int| 0 <= w < n ==> (#[trigger] r@[w])@.len() == 0,
{
    let mut r: Vec<Vec<T>> = Vec::new();
    let mut i: usize = 0;
    while i < n
        invariant
            i <= n,
            r@.len() == i,
            forall|w: int| 0 <= w < i ==> (#[trigger] r@[w])@.len() == 0,
        decreases n - i,
    {
        r.push(Vec::new());
        i += 1;
    }
    r
}

/// The keys split by the shard that owns them: group `w` holds, in order,
/// the keys that shard `w` owns.
pub fn group_keys(keys: &[Vec<u8>], shard_count: usize) -> (r: Vec<Vec<Vec<u8>>>)
    requires
        shard_count > 0,
    ensures
        r@.len() == shard_count,
        forall|w: int| 0 <= w < shard_count ==> arg_views((#[trigger] r@[w])@) == keys_on(arg_views(keys@), w, shard_count),
{
    let ghost a = arg_views(keys@);
    let mut groups: Vec<Vec<Vec<u8>>> = empty_groups(shard_count);
    let mut i: usize = 0;
    proof {
        assert forall|w: int| 0 <= w < shard_count implies arg_views((#[trigger] groups@[w])@) == keys_on(a.take(0), w, shard_count) by {
            assert(arg_views(groups@[w]@) =~= Seq::<Seq<u8>>::empty());
        }
    }
    while i < keys.len()
        invariant
            a == arg_views(keys@),
            shard_count > 0,
            i <= keys@.len(),
            groups@.len() == shard_count,
            forall|w: int| 0 <= w < shard_count ==> arg_views((#[trigger] groups@[w])@) == keys_on(a.take(i as int), w, shard_count),
        decreases keys@.len() - i,
    {
        assert(a.take(i + 1).drop_last() =~= a.take(i as int));
        let w = shard_for_key(keys[i].as_slice(), shard_count);
        let k = copy_bytes(keys[i].as_slice());
        let ghost before = groups@;
        groups[w].push(k);
        i += 1;
        assert forall|v: int| 0 <= v < shard_count implies arg_views((#[trigger] groups@[v])@) == keys_on(a.take(i as int), v, shard_count) by {
            if v == w {
                assert(arg_views(groups@[v]@) =~= arg_views(before[v]@).push(a[i - 1]));
            } else {
                assert(groups@[v] == before[v]);
            }
        }
    }
    assert(a.take(keys@.len() as int) =~= a);
    groups
}

/// Key-value pairs split by the shard that owns each key: group `w` holds,
/// in order, the pairs whose keys shard `w` owns. An odd count of arguments
/// is refused.
pub fn group_pairs(args: &[Vec<u8>], shard_count: usize) -> (r: Result<Vec<Vec<Vec<u8>>>, CommandError>)
    requires
        shard_count > 0,
    ensures
        args@.len() % 2 != 0 <==> r is Err,
        r matches Err(e) ==> e@ == ErrorView::WrongArity,
        r matches Ok(groups) ==> groups@.len() == shard_count && forall|w: int|
            0 <= w < shard_count ==> arg_views((#[trigger] groups@[w])@) == pairs_on(
                arg_views(args@),
                args@.len() / 2,
                w,
                shard_count,
            ),
{
    if args.len() % 2 != 0 {
        return Err(CommandError::WrongArity);
    }
    let ghost a = arg_views(args@);
    let mut groups: Vec<Vec<Vec<u8>>> = empty_groups(shard_count);
    let mut i: usize = 0;
    proof {
        assert forall|w: int| 0 <= w < shard_count implies arg_views((#[trigger] groups@[w])@) == pairs_on(a, 0, w, shard_count) by {
            assert(arg_views(groups@[w]@) =~= Seq::<Seq<u8>>::empty());
        }
    }
    while i < args.len()
        invariant
            a == arg_views(args@),
            shard_count > 0,
            args@.len() % 2 == 0,
            i % 2 == 0,
            i <= args@.len(),
            groups@.len() == shard_count,
            forall|w: int| 0 <= w < shard_count ==> arg_views((#[trigger] groups@[w])@) == pairs_on(a, (i / 2) as nat, w, shard_count),
        decreases args@.len() - i,
    {
        let w = shard_for_key(args[i].as_slice(), shard_count);
        let k = copy_bytes(args[i].as_slice());
        let v = copy_bytes(args[i + 1].as_slice());
        let ghost before = groups@;
        groups[w].push(k);
        groups[w].push(v);
        assert(2 * ((i + 2) / 2 - 1) == i);
        i += 2;
        assert forall|u: int| 0 <= u < shard_count implies arg_views((#[trigger] groups@[u])@) == pairs_on(a, (i / 2) as nat, u, shard_count) by {
            if u == w {
                assert(arg_views(groups@[u]@) =~= arg_views(before[u]@).push(a[i - 2]).push(a[i - 1]));
            } else {
                assert(groups@[u] == before[u]);
            }
        }
    }
    Ok(groups)
}

/// The abstract value of keys with their positions.
pub open spec fn indexed_views(s: Seq<(usize, Vec<u8>)>) -> Seq<(usize, Seq<u8>)> {
    s.map_values(|e: (usize, Vec<u8>)| (e.0, e.1@))
}

/// The keys split by the shard that owns them, each with its position among
/// the arguments.
pub fn group_ordered(keys: &[Vec<u8>], shard_count: usize) -> (r: Vec<Vec<(usize, Vec<u8>)>>)
    requires
        shard_count > 0,
    ensures
        r@.len() == shard_count,
        forall|w: int| 0 <= w < shard_count ==> indexed_views((#[trigger] r@[w])@) == indexed_on(arg_views(keys@), w, shard_count),
{
    let ghost a = arg_views(keys@);
    let mut groups: Vec<Vec<(usize, Vec<u8>)>> = empty_groups(shard_count);
    let mut i: usize = 0;
    proof {
        assert forall|w: int| 0 <= w < shard_count implies indexed_views((#[trigger] groups@[w])@) == indexed_on(a.take(0), w, shard_count) by {
            assert(indexed_views(groups@[w]@) =~= Seq::<(usize, Seq<u8>)>::empty());
        }
    }
    while i < keys.len()
        invariant
            a == arg_views(keys@),
            shard_count > 0,
            i <= keys@.len(),
            groups@.len() == shard_count,
            forall|w: int| 0 <= w < shard_count ==> indexed_views((#[trigger] groups@[w])@) == indexed_on(a.take(i as int), w, shard_count),
        decreases keys@.len() - i,
    {
        assert(a.take(i + 1).drop_last() =~= a.take(i as int));
        let w = shard_for_key(keys[i].as_slice(), shard_count);
        let k = copy_bytes(keys[i].as_slice());
        let ghost before = groups@;
        groups[w].push((i, k));
        i += 1;
        assert forall|v: int| 0 <= v < shard_count implies indexed_views((#[trigger] groups@[v])@) == indexed_on(a.take(i as int), v, shard_count) by {
            if v == w {
                assert(indexed_views(groups@[v]@) =~= indexed_views(before[v]@).push(((i - 1) as usize, a[i - 1])));
            } else {
                assert(groups@[v] == before[v]);
            }
        }
    }
    assert(a.take(keys@.len() as int) =~= a);
    groups
}

/// Integer replies summed from the first on: the sum of the first `i`, or
/// the reply that ends the merge early (the first error, or `Internal` for a
/// reply that is not an integer).
pub open spec fn sum_prefix(rs: Seq<ReplyView>, i: nat) -> Result<int, ReplyView>
    decreases i,
{
    if i == 0 {
        Ok(0)
    } else {
        match sum_prefix(rs, (i - 1) as nat) {
            Err(r) => Err(r),
            Ok(t) => match rs[i - 1] {
                ReplyView::Integer(n) => Ok(t + n),
                ReplyView::Error(e) => Err(ReplyView::Error(e)),
                _ => Err(ReplyView::Error(ErrorView::Internal)),
            },
        }
    }
}

/// Every running total of an integer merge fits in an `i64`.
pub open spec fn sums_fit(rs: Seq<ReplyView>) -> bool {
    forall|i: nat| i <= rs.len() ==> (#[trigger] sum_prefix(rs, i) matches Ok(t) ==> i64::MIN <= t <= i64::MAX)
}

/// OK replies merged from the first on: whether the first `i` are all OK,
/// or the reply that ends the merge early.
pub open spec fn all_ok_prefix(rs: Seq<ReplyView>, i: nat) -> Option<ReplyView>
    decreases i,
{
    if i == 0 {
        None
    } else {
        match all_ok_prefix(rs, (i - 1) as nat) {
            Some(r) => Some(r),
            None => match rs[i - 1] {
                ReplyView::OK => None,
                ReplyView::Error(e) => Some(ReplyView::Error(e)),
                _ => Some(ReplyView::Error(ErrorView::Internal)),
            },
        }
    }
}

/// The one reply that the replies of several shards make under `policy`.
pub open spec fn merged(policy: ReplyMergePolicy, rs: Seq<ReplyView>) -> ReplyView {
    match policy {
        ReplyMergePolicy::IntegerSum => match sum_prefix(rs, rs.len()) {
            Ok(t) => ReplyView::Integer(t as i64),
            Err(r) => r,
        },
        _ => match all_ok_prefix(rs, rs.len()) {
            None => ReplyView::OK,
            Some(r) => r,
        },
    }
}

proof fn lemma_sum_stops(rs: Seq<ReplyView>, i: nat, k: nat)
    requires
        i <= k,
        sum_prefix(rs, i) is Err,
    ensures
        sum_prefix(rs, k) == sum_prefix(rs, i),
    decreases k - i,
{
    if i < k {
        lemma_sum_stops(rs, i, (k - 1) as nat);
    }
}

proof fn lemma_all_ok_stops(rs: Seq<ReplyView>, i: nat, k: nat)
    requires
        i <= k,
        all_ok_prefix(rs, i) is Some,
    ensures
        all_ok_prefix(rs, k) == all_ok_prefix(rs, i),
    decreases k - i,
{
    if i < k {
        lemma_all_ok_stops(rs, i, (k - 1) as nat);
    }
}

/// The replies of the shards that ran parts of a multi-key command, made
/// one: for DEL and EXISTS the sum of the counts, for MSET `OK`; the first
/// error met stops the merge.
pub fn merge_multi_key_reply(meta: &CommandMeta, replies: Vec<Reply>) -> (r: Reply)
    requires
        meta.reply_merge_policy == ReplyMergePolicy::IntegerSum || meta.reply_merge_policy
            == ReplyMergePolicy::AllOk,
        meta.reply_merge_policy == ReplyMergePolicy::IntegerSum ==> sums_fit(replies_view(replies@)),
    ensures
        r@ == merged(meta.reply_merge_policy, replies_view(replies@)),
{
    let ghost rs = replies_view(replies@);
    match meta.reply_merge_policy {
        ReplyMergePolicy::IntegerSum => {
            let mut total: i64 = 0;
            let mut i: usize = 0;
            while i < replies.len()
                invariant
                    rs == replies_view(replies@),
                    meta.reply_merge_policy == ReplyMergePolicy::IntegerSum,
                    sums_fit(rs),
                    i <= rs.len(),
                    sum_prefix(rs, i as nat) == Ok::<int, ReplyView>(total as int),
                decreases rs.len() - i,
            {
                assert(rs[i as int] == replies@[i as int]@);
                match &replies[i] {
                    Reply::Integer(n) => {
                        assert(sum_prefix(rs, (i + 1) as nat) matches Ok(t) && t == total + *n);
                        total = total + *n;
                    },
                    Reply::Error(err) => {
                        proof {
                            lemma_sum_stops(rs, (i + 1) as nat, rs.len());
                        }
                        return Reply::Error(err.duplicate());
                    },
                    _ => {
                        proof {
                            lemma_sum_stops(rs, (i + 1) as nat, rs.len());
                        }
                        return Reply::Error(CommandError::Internal);
                    },
                }
                i += 1;
            }
            Reply::Integer(total)
        },
        _ => {
            let mut i: usize = 0;
            while i < replies.len()
                invariant
                    rs == replies_view(replies@),
                    meta.reply_merge_policy == ReplyMergePolicy::AllOk,
                    i <= rs.len(),
                    all_ok_prefix(rs, i as nat) is None,
                decreases rs.len() - i,
            {
                assert(rs[i as int] == replies@[i as int]@);
                match &replies[i] {
                    Reply::OK => {},
                    Reply::Error(err) => {
                        proof {
                            lemma_all_ok_stops(rs, (i + 1) as nat, rs.len());
                        }
                        return Reply::Error(err.duplicate());
                    },
                    _ => {
                        proof {
                            lemma_all_ok_stops(rs, (i + 1) as nat, rs.len());
                        }
                        return Reply::Error(CommandError::Internal);
                    },
                }
                i += 1;
            }
            Reply::OK
        },
    }
}

/// The positions of keys that carry them.
pub open spec fn positions(keys: Seq<(usize, Vec<u8>)>) -> Seq<usize> {
    keys.map_values(|e: (usize, Vec<u8>)| e.0)
}

/// The abstract value of replies that carry their positions.
pub open spec fn placed_views(s: Seq<(usize, Reply)>) -> Seq<(usize, ReplyView)> {
    s.map_values(|e: (usize, Reply)| (e.0, e.1@))
}

/// A shard's reply to its part of an ordered multi-key command, spread over
/// the positions of its keys: the values of an array reply in turn (as many
/// as there are both keys and values), an error repeated for each key, and
/// nothing for any other reply.
pub open spec fn labelled(pos: Seq<usize>, reply: ReplyView) -> Seq<(usize, ReplyView)> {
    match reply {
        ReplyView::Array(values) => Seq::new(
            if pos.len() < values.len() {
                pos.len()
            } else {
                values.len()
            },
            |j: int| (pos[j], values[j]),
        ),
        ReplyView::Error(e) => Seq::new(pos.len(), |j: int| (pos[j], ReplyView::Error(e))),
        _ => Seq::empty(),
    }
}

pub fn label_replies(keys: &[(usize, Vec<u8>)], reply: Reply) -> (r: Vec<(usize, Reply)>)
    ensures
        placed_views(r@) == labelled(positions(keys@), reply@),
{
    let ghost pos = positions(keys@);
    let ghost rv = reply@;
    match reply {
        Reply::Array(values) => {
            proof {
                lemma_array_view(values);
            }
            let ghost vs = replies_view(values@);
            let m: usize = if keys.len() < values.len() {
                keys.len()
            } else {
                values.len()
            };
            let ghost vlen = values@.len();
            let ghost v0 = values@;
            let mut rev = reverse_vec(values);
            let mut out: Vec<(usize, Reply)> = Vec::new();
            let mut j: usize = 0;
            while j < m
                invariant
                    pos == positions(keys@),
                    m <= keys@.len(),
                    m <= vlen,
                    vlen == v0.len(),
                    vs == replies_view(v0),
                    rv == ReplyView::Array(vs),
                    j <= m,
                    rev@.len() == vlen - j,
                    forall|t: int| 0 <= t < rev@.len() ==> #[trigger] rev@[t] == v0[vlen - 1 - t],
                    out@.len() == j,
                    forall|t: int| 0 <= t < j ==> #[trigger] placed_views(out@)[t] == (pos[t], vs[t]),
                decreases m - j,
            {
                let x = rev.pop().unwrap();
                assert(x == v0[j as int]);
                let ghost prev = out@;
                let entry = (keys[j].0, x);
                assert(placed_views(prev.push(entry)).last() == (pos[j as int], vs[j as int]));
                out.push(entry);
                j += 1;
                assert forall|t: int| 0 <= t < j implies #[trigger] placed_views(out@)[t] == (pos[t], vs[t]) by {
                    assert(out@ == prev.push(entry));
                    if t < j - 1 {
                        assert(placed_views(out@)[t] == placed_views(prev)[t]);
                    } else {
                        assert(placed_views(out@)[t] == placed_views(prev.push(entry)).last());
                    }
                }
            }
            assert(placed_views(out@) =~= labelled(pos, rv));
            out
        },
        Reply::Error(err) => {
            let mut out: Vec<(usize, Reply)> = Vec::new();
            let mut j: usize = 0;
            while j < keys.len()
                invariant
                    pos == positions(keys@),
                    rv == ReplyView::Error(err@),
                    j <= keys@.len(),
                    out@.len() == j,
                    forall|t: int| 0 <= t < j ==> #[trigger] placed_views(out@)[t] == (pos[t], ReplyView::Error(err@)),
                decreases keys@.len() - j,
            {
                let ghost prev = out@;
                let entry = (keys[j].0, Reply::Error(err.duplicate()));
                assert(placed_views(prev.push(entry)).last() == (pos[j as int], ReplyView::Error(err@)));
                out.push(entry);
                j += 1;
                assert forall|t: int| 0 <= t < j implies #[trigger] placed_views(out@)[t] == (pos[t], ReplyView::Error(err@)) by {
                    assert(out@ == prev.push(entry));
                    if t < j - 1 {
                        assert(placed_views(out@)[t] == placed_views(prev)[t]);
                    } else {
                        assert(placed_views(out@)[t] == placed_views(prev.push(entry)).last());
                    }
                }
            }
            assert(placed_views(out@) =~= labelled(pos, rv));
            out
        },
        _ => {
            let out: Vec<(usize, Reply)> = Vec::new();
            assert(placed_views(out@) =~= labelled(pos, rv));
            out
        },
    }
}

/// A filled slot whose reply has the abstract value `v`.
pub open spec fn holds_view(slot: Option<Reply>, v: ReplyView) -> bool {
    slot matches Some(x) && x@ == v
}

/// Some reply has position `j`.
pub open spec fn position_taken(rs: Seq<(usize, ReplyView)>, j: int) -> bool {
    exists|k: int| 0 <= k < rs.len() && (#[trigger] rs[k]).0 == j
}

/// Every position below the count is taken by exactly one reply: what an
/// ordered merge needs.
pub open spec fn is_placement(rs: Seq<(usize, ReplyView)>) -> bool {
    &&& forall|k: int| 0 <= k < rs.len() ==> (#[trigger] rs[k]).0 < rs.len()
    &&& forall|j: int| 0 <= j < rs.len() ==> #[trigger] position_taken(rs, j)
    &&& forall|k1: int, k2: int| 0 <= k1 < k2 < rs.len() ==> (#[trigger] rs[k1]).0 != (#[trigger] rs[k2]).0
}

/// The replies put back in the order of their positions: reply `k` lands at
/// position `results[k].0`.
pub fn merge_ordered_array(results: Vec<(usize, Reply)>) -> (r: Reply)
    requires
        is_placement(placed_views(results@)),
    ensures
        r@ matches ReplyView::Array(xs) && xs.len() == results@.len() && forall|k: int|
            0 <= k < results@.len() ==> xs[(#[trigger] results@[k]).0 as int] == results@[k].1@,
{
    let ghost rs = placed_views(results@);
    let ghost r0 = results@;
    let n = results.len();
    let mut ordered: Vec<Option<Reply>> = Vec::new();
    let mut i: usize = 0;
    while i < n
        invariant
            i <= n,
            ordered@.len() == i,
            forall|j: int| 0 <= j < i ==> (#[trigger] ordered@[j]) is None,
        decreases n - i,
    {
        ordered.push(None);
        i += 1;
    }
    let mut results = results;
    while results.len() > 0
        invariant
            n == r0.len(),
            rs == placed_views(r0),
            is_placement(rs),
            results@.len() <= n,
            results@ == r0.take(results@.len() as int),
            ordered@.len() == n,
            forall|k: int| results@.len() <= k < n ==> holds_view(#[trigger] ordered@[r0[k].0 as int], r0[k].1@),
        decreases results@.len(),
    {
        let ghost len_before = results@.len();
        let ghost k0 = len_before - 1;
        let last = results.pop().unwrap();
        assert(last == r0[k0]);
        let (index, reply) = last;
        assert(rs[k0].0 == index);
        let ghost before = ordered@;
        ordered[index] = Some(reply);
        assert forall|k: int| results@.len() <= k < n implies holds_view(#[trigger] ordered@[r0[k].0 as int], r0[k].1@) by {
            if k != k0 {
                assert(rs[k].0 != rs[k0].0);
                assert(ordered@[r0[k].0 as int] == before[r0[k].0 as int]);
            }
        }
        assert(results@ =~= r0.take(results@.len() as int));
    }
    assert forall|j: int| 0 <= j < n implies (#[trigger] ordered@[j]) is Some by {
        assert(position_taken(rs, j));
        let k = choose|k: int| 0 <= k < rs.len() && (#[trigger] rs[k]).0 == j;
        assert(ordered@[r0[k].0 as int] is Some);
    }
    let mut rev: Vec<Reply> = Vec::new();
    let ghost o0 = ordered@;
    while ordered.len() > 0
        invariant
            o0.len() == n,
            forall|j: int| 0 <= j < n ==> (#[trigger] o0[j]) is Some,
            ordered@ == o0.take(ordered@.len() as int),
            rev@.len() == n - ordered@.len(),
            forall|t: int| 0 <= t < rev@.len() ==> Some(#[trigger] rev@[t]) == o0[n - 1 - t],
        decreases ordered@.len(),
    {
        let slot = ordered.pop().unwrap();
        assert(slot == o0[ordered@.len() as int]);
        let x = match slot {
            Some(x) => x,
            None => {
                assert(false);
                Reply::Null
            },
        };
        rev.push(x);
        assert(ordered@ =~= o0.take(ordered@.len() as int));
    }
    let out = reverse_vec(rev);
    proof {
        lemma_array_view(out);
        assert forall|k: int| 0 <= k < r0.len() implies replies_view(out@)[(#[trigger] r0[k]).0 as int] == r0[k].1@ by {
            let j = r0[k].0 as int;
            assert(rs[k].0 == r0[k].0);
            assert(0 <= j < n);
            assert(out@[j] == rev@[n - 1 - j]);
            assert(holds_view(o0[j], r0[k].1@));
        }
    }
    Reply::Array(out)
}

/// How a command name and its number of arguments resolve against the
/// table: the unknown command, a wrong number of arguments, or its entry.
pub open spec fn resolve_spec(name: Seq<u8>, count: nat) -> Result<CommandMeta, ErrorView> {
    match command_meta(name) {
        None => Err(ErrorView::UnknownCommand),
        Some(meta) => if count < meta.min || (meta.max matches Some(max) && count > max) {
            Err(ErrorView::WrongArity)
        } else {
            Ok(meta)
        },
    }
}

/// The table entry for a command, once its number of arguments is checked.
pub fn resolve(name: &[u8], arg_count: usize) -> (r: Result<CommandMeta, CommandError>)
    ensures
        match (r, resolve_spec(name@, arg_count as nat)) {
            (Ok(a), Ok(b)) => a == b,
            (Err(a), Err(b)) => a@ == b,
            _ => false,
        },
{
    let meta = match lookup(name) {
        Some(meta) => meta,
        None => return Err(CommandError::UnknownCommand),
    };
    if arg_count < meta.min {
        return Err(CommandError::WrongArity);
    }
    if let Some(max) = meta.max {
        if arg_count > max {
            return Err(CommandError::WrongArity);
        }
    }
    Ok(meta)
}

/// The reply of a command sent to another shard: `Internal` when it could
/// not be sent or no reply came back.
pub fn remote_reply(sent: bool, received: Option<Reply>) -> (r: Reply)
    ensures
        !sent ==> r@ == ReplyView::Error(ErrorView::Internal),
        sent && received is None ==> r@ == ReplyView::Error(ErrorView::Internal),
        sent && received is Some ==> r == received->Some_0,
{
    if !sent {
        return Reply::Error(CommandError::Internal);
    }
    match received {
        Some(reply) => reply,
        None => Reply::Error(CommandError::Internal),
    }
}

/// Where a command goes.
pub enum Route {
    /// The reply is known without running anything.
    Done(Reply),
    /// Run it on this shard.
    Local(CommandMeta, Args),
    /// Run it on the shard with this index.
    Remote(usize, CommandMeta, Args),
    /// Run each non-empty group on the shard with its index, then merge the
    /// replies with `merge_multi_key_reply`.
    Split(CommandMeta, Vec<Vec<Vec<u8>>>),
    /// Run each non-empty group of keys on the shard with its index, spread
    /// each reply over the keys' positions with `label_replies`, then put
    /// them in order with `merge_ordered_array`.
    SplitOrdered(CommandMeta, Vec<Vec<(usize, Vec<u8>)>>),
}

/// The coordinator of one shard: it owns that shard's engine and decides
/// where each command that reaches it runs.
pub struct Coordinator {
    id: usize,
    shard_count: usize,
    engine: ShardEngine,
}

impl Coordinator {
    /// This shard's index.
    pub closed spec fn id_spec(&self) -> usize {
        self.id
    }

    /// How many shards there are.
    pub closed spec fn count_spec(&self) -> usize {
        self.shard_count
    }

    /// This shard's engine.
    pub closed spec fn engine_spec(&self) -> ShardEngine {
        self.engine
    }

    /// The coordinator of shard `id` among `shard_count`, with an empty
    /// keyspace.
    pub fn new(id: usize, shard_count: usize) -> (r: Self)
        ensures
            r.id_spec() == id,
            r.count_spec() == shard_count,
            r.engine_spec().store() == Map::<Seq<u8>, RecordView>::empty(),
    {
        Coordinator { id, shard_count, engine: ShardEngine::new() }
    }

    pub fn id(&self) -> (r: usize)
        ensures
            r == self.id_spec(),
    {
        self.id
    }

    pub fn shard_count(&self) -> (r: usize)
        ensures
            r == self.count_spec(),
    {
        self.shard_count
    }

    /// The shard that owns `key`.
    pub fn shard_for(&self, key: &[u8]) -> (r: usize)
        requires
            self.count_spec() > 0,
        ensures
            r == shard_of(key@, self.count_spec()),
    {
        shard_for_key(key, self.shard_count)
    }

    /// Runs a command on this shard's engine.
    pub fn execute_local(&mut self, meta: &CommandMeta, args: Args) -> (r: Reply)
        ensures
            (r@, final(self).engine_spec().store()) == command_spec(
                meta.id,
                old(self).engine_spec().store(),
                arg_items(args),
                final(self).engine_spec().time(),
            ),
            final(self).id_spec() == old(self).id_spec(),
            final(self).count_spec() == old(self).count_spec(),
    {
        self.engine.execute(meta, args)
    }

    /// Runs this shard's part of an ordered multi-key command and spreads
    /// the reply over the keys' positions.
    pub fn execute_local_ordered(&mut self, meta: &CommandMeta, keys: Vec<(usize, Vec<u8>)>) -> (r: Vec<(usize, Reply)>)
        ensures
            placed_views(r@) == labelled(
                positions(keys@),
                command_spec(
                    meta.id,
                    old(self).engine_spec().store(),
                    keys@.map_values(|e: (usize, Vec<u8>)| e.1@),
                    final(self).engine_spec().time(),
                ).0,
            ),
            final(self).engine_spec().store() == command_spec(
                meta.id,
                old(self).engine_spec().store(),
                keys@.map_values(|e: (usize, Vec<u8>)| e.1@),
                final(self).engine_spec().time(),
            ).1,
            final(self).id_spec() == old(self).id_spec(),
            final(self).count_spec() == old(self).count_spec(),
    {
        let mut args = args_new();
        let mut i: usize = 0;
        while i < keys.len()
            invariant
                i <= keys@.len(),
                arg_items(args) == keys@.take(i as int).map_values(|e: (usize, Vec<u8>)| e.1@),
            decreases keys@.len() - i,
        {
            args_push(&mut args, copy_bytes(keys[i].1.as_slice()));
            i += 1;
            assert(arg_items(args) =~= keys@.take(i as int).map_values(|e: (usize, Vec<u8>)| e.1@));
        }
        assert(keys@.take(keys@.len() as int) =~= keys@);
        let reply = self.execute_local(meta, args);
        label_replies(keys.as_slice(), reply)
    }

    /// Where the command goes: an error reply for an unknown command or a
    /// wrong number of arguments; this shard for a local command or one whose
    /// key it owns; the owner of the key for any other single-key command;
    /// and, for a multi-key command, its keys (or key-value pairs, which must
    /// come in twos) split by the shard that owns them.
    pub fn route(&self, cmd: Command) -> (r: Route)
        requires
            self.count_spec() > 0,
        ensures
            route_matches(r, cmd@, self.id_spec(), self.count_spec()),
    {
        let ghost c = cmd@;
        let n = self.shard_count;
        let meta = match resolve(cmd.name.as_slice(), cmd.arg_len()) {
            Ok(meta) => meta,
            Err(e) => return Route::Done(Reply::Error(e)),
        };
        match meta.execution_policy {
            ExecutionPolicy::Local => Route::Local(meta, cmd.args),
            ExecutionPolicy::SingleKey => {
                let list = args_slice(&cmd.args);
                let worker = shard_for_key(list[0].as_slice(), n);
                if worker == self.id {
                    Route::Local(meta, cmd.args)
                } else {
                    Route::Remote(worker, meta, cmd.args)
                }
            },
            ExecutionPolicy::MultiKey => {
                let list = args_slice(&cmd.args);
                assert(arg_views(list@) =~= c.args);
                match meta.argument_kind {
                    ArgumentKind::Keys => Route::Split(meta, group_keys(list, n)),
                    ArgumentKind::KeyValuePairs => match group_pairs(list, n) {
                        Ok(groups) => Route::Split(meta, groups),
                        Err(e) => Route::Done(Reply::Error(e)),
                    },
                    _ => Route::SplitOrdered(meta, group_ordered(list, n)),
                }
            },
        }
    }
}

/// What `route` gives for a command `c` that reaches shard `id` of `n`.
pub open spec fn route_matches(r: Route, c: CommandView, id: usize, n: usize) -> bool {
    match resolve_spec(c.name, c.args.len()) {
        Err(e) => r matches Route::Done(x) && x@ == ReplyView::Error(e),
        Ok(meta) => match meta.execution_policy {
            ExecutionPolicy::Local => r matches Route::Local(m, a) && m == meta && arg_items(a) == c.args,
            ExecutionPolicy::SingleKey => {
                let w = shard_of(c.args[0], n);
                if w == id {
                    r matches Route::Local(m, a) && m == meta && arg_items(a) == c.args
                } else {
                    r matches Route::Remote(x, m, a) && x == w && m == meta && arg_items(a) == c.args
                }
            },
            ExecutionPolicy::MultiKey => match meta.argument_kind {
                ArgumentKind::Keys => r matches Route::Split(m, g) && m == meta && g@.len() == n
                    && forall|w: int| 0 <= w < n ==> arg_views((#[trigger] g@[w])@) == keys_on(c.args, w, n),
                ArgumentKind::KeyValuePairs => if c.args.len() % 2 != 0 {
                    r matches Route::Done(x) && x@ == ReplyView::Error(ErrorView::WrongArity)
                } else {
                    r matches Route::Split(m, g) && m == meta && g@.len() == n && forall|w: int|
                        0 <= w < n ==> arg_views((#[trigger] g@[w])@) == pairs_on(c.args, c.args.len() / 2, w, n)
                },
                _ => r matches Route::SplitOrdered(m, g) && m == meta && g@.len() == n && forall|w: int|
                    0 <= w < n ==> indexed_views((#[trigger] g@[w])@) == indexed_on(c.args, w, n),
            },
        },
    }
}

} // verus!
