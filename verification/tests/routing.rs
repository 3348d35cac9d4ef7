use voidscale::commands::registry::{
    lookup, ArgumentKind, CommandId, CommandMeta, ExecutionPolicy, ReplyKind, ReplyMergePolicy,
};
use voidscale::engine::coordinator::{
    group_keys, group_ordered, group_pairs, label_replies, merge_multi_key_reply,
    merge_ordered_array, remote_reply, resolve, shard_for_key, Coordinator, Route,
};
use voidscale::execution::registry as single;
use voidscale::protocol::command::{Args, Command};
use voidscale::protocol::reply::{CommandError, Reply};
use voidscale::runtime::dispatch::{dispatch_route, get_routing_strategy, Dispatch, Routing};
use voidscale::runtime::resolver::ShardResolver;

fn keys(ks: &[&str]) -> Vec<Vec<u8>> {
    ks.iter().map(|k| k.as_bytes().to_vec()).collect()
}

fn command(parts: &[&str]) -> Command {
    let mut args = Args::new();
    for p in &parts[1..] {
        args.push(p.as_bytes().to_vec());
    }
    Command::new(parts[0].as_bytes().to_vec(), args)
}

fn fnv(key: &[u8]) -> u64 {
    let mut h: u64 = 0xcbf29ce484222325;
    for &b in key {
        h ^= b as u64;
        h = h.wrapping_mul(0x100000001b3);
    }
    h
}

#[test]
fn shard_for_is_fnv1a_mod_count() {
    assert_eq!(fnv(b""), 0xcbf29ce484222325);
    // Published FNV-1a 64 test vector.
    assert_eq!(fnv(b"a"), 0xaf63dc4c8601ec8c);
    for k in ["a", "foo", "bar", "user:1000", ""] {
        for n in 1..9usize {
            assert_eq!(shard_for_key(k.as_bytes(), n), (fnv(k.as_bytes()) % n as u64) as usize);
        }
    }
    assert_eq!(shard_for_key(b"a", 1), 0);
}

#[test]
fn lookup_table_entries() {
    let set = lookup(b"SET").unwrap();
    assert_eq!(set.id, CommandId::SetKey);
    assert_eq!((set.min, set.max, set.write), (2, Some(8), true));
    assert_eq!(set.execution_policy, ExecutionPolicy::SingleKey);
    let mget = lookup(b"MGET").unwrap();
    assert_eq!(mget.argument_kind, ArgumentKind::OrderedKeys);
    assert_eq!(mget.reply_kind, ReplyKind::Array);
    assert_eq!(mget.reply_merge_policy, ReplyMergePolicy::OrderedArray);
    let del = lookup(b"DEL").unwrap();
    assert_eq!(del.reply_merge_policy, ReplyMergePolicy::IntegerSum);
    assert_eq!(lookup(b"PING").unwrap().execution_policy, ExecutionPolicy::Local);
    assert!(lookup(b"get").is_none());
    assert!(lookup(b"NOPE").is_none());
    let built = CommandMeta::new(
        CommandId::Ttl,
        1,
        Some(1),
        false,
        ExecutionPolicy::SingleKey,
        ArgumentKind::SingleKey,
        ReplyKind::Integer,
        ReplyMergePolicy::NoMerge,
    );
    assert_eq!(built, lookup(b"TTL").unwrap());
}

#[test]
fn resolve_checks_arity() {
    assert!(matches!(resolve(b"GET", 0), Err(CommandError::WrongArity)));
    assert!(matches!(resolve(b"GET", 2), Err(CommandError::WrongArity)));
    assert!(matches!(resolve(b"HGET", 1), Err(CommandError::UnknownCommand)));
    assert!(resolve(b"DEL", 100).is_ok());
}

#[test]
fn single_key_table_and_routing() {
    let get = single::lookup(b"GET").unwrap();
    assert_eq!(get.id, single::CommandId::Get);
    assert_eq!(get.max, Some(2));
    assert!(single::lookup(b"MSET").is_none());
    assert!(single::lookup(b"PIN").is_none());
    let ping = single::lookup(b"PING").unwrap();
    assert_eq!((ping.id, ping.min, ping.max, ping.write), (single::CommandId::Ping, 1, Some(2), false));
    let set = single::lookup(b"SET").unwrap();
    assert_eq!((set.id, set.min, set.max, set.write), (single::CommandId::SetKey, 2, Some(8), true));
    let del = single::lookup(b"DEL").unwrap();
    assert_eq!((del.id, del.min, del.max, del.write), (single::CommandId::Del, 1, None, true));
    let ttl = single::lookup(b"TTL").unwrap();
    assert_eq!((ttl.id, ttl.min, ttl.max, ttl.write), (single::CommandId::Ttl, 1, Some(1), false));
    assert!(single::lookup(b"get").is_none());
    assert_eq!(get_routing_strategy(single::CommandId::Ping), Routing::Local);
    assert_eq!(get_routing_strategy(single::CommandId::SetKey), Routing::FirstKey);
    assert_eq!(get_routing_strategy(single::CommandId::Ttl), Routing::FirstKey);
    assert_eq!(get_routing_strategy(single::CommandId::Del), Routing::Broadcast);
}

#[test]
fn group_keys_partitions_in_order() {
    let ks = keys(&["a", "b", "c", "d", "e", "a"]);
    let n = 3;
    let groups = group_keys(&ks, n);
    assert_eq!(groups.len(), n);
    let total: usize = groups.iter().map(|g| g.len()).sum();
    assert_eq!(total, ks.len());
    for (w, g) in groups.iter().enumerate() {
        let expected: Vec<Vec<u8>> = ks.iter().filter(|k| shard_for_key(k, n) == w).cloned().collect();
        assert_eq!(g, &expected);
    }
}

#[test]
fn group_pairs_keeps_pairs_together() {
    let args = keys(&["a", "1", "b", "2", "c", "3"]);
    let groups = group_pairs(&args, 2).unwrap();
    for (w, g) in groups.iter().enumerate() {
        assert_eq!(g.len() % 2, 0);
        for pair in g.chunks(2) {
            assert_eq!(shard_for_key(&pair[0], 2), w);
            let pos = args.iter().position(|a| a == &pair[0]).unwrap();
            assert_eq!(args[pos + 1], pair[1]);
        }
    }
    assert!(matches!(group_pairs(&keys(&["a", "1", "b"]), 2), Err(CommandError::WrongArity)));
}

#[test]
fn ordered_split_label_merge_restores_order() {
    let ks = keys(&["k0", "k1", "k2", "k3", "k4"]);
    let n = 3;
    let groups = group_ordered(&ks, n);
    let mut results = Vec::new();
    for g in &groups {
        let values: Vec<Reply> = g.iter().map(|(_, k)| Reply::Bulk(k.clone())).collect();
        results.extend(label_replies(g, Reply::Array(values)));
    }
    match merge_ordered_array(results) {
        Reply::Array(items) => {
            assert_eq!(items.len(), ks.len());
            for (i, item) in items.into_iter().enumerate() {
                match item {
                    Reply::Bulk(b) => assert_eq!(b, ks[i]),
                    other => panic!("unexpected reply {:?}", other),
                }
            }
        }
        other => panic!("unexpected reply {:?}", other),
    }
}

#[test]
fn label_replies_cases() {
    let g = vec![(4usize, b"x".to_vec()), (7usize, b"y".to_vec())];
    let err = label_replies(&g, Reply::Error(CommandError::WrongType));
    assert_eq!(err.len(), 2);
    assert_eq!(err[1].0, 7);
    assert!(matches!(err[0].1, Reply::Error(CommandError::WrongType)));
    let short = label_replies(&g, Reply::Array(vec![Reply::Null]));
    assert_eq!(short.len(), 1);
    assert_eq!(short[0].0, 4);
    assert!(label_replies(&g, Reply::OK).is_empty());
}

#[test]
fn merge_multi_key_replies() {
    let del = lookup(b"DEL").unwrap();
    let mset = lookup(b"MSET").unwrap();
    assert!(matches!(
        merge_multi_key_reply(&del, vec![Reply::Integer(2), Reply::Integer(3)]),
        Reply::Integer(5)
    ));
    assert!(matches!(
        merge_multi_key_reply(&del, vec![Reply::Integer(2), Reply::Error(CommandError::WrongType), Reply::OK]),
        Reply::Error(CommandError::WrongType)
    ));
    assert!(matches!(merge_multi_key_reply(&del, vec![Reply::OK]), Reply::Error(CommandError::Internal)));
    assert!(matches!(merge_multi_key_reply(&mset, vec![Reply::OK, Reply::OK]), Reply::OK));
    assert!(matches!(merge_multi_key_reply(&mset, vec![Reply::OK, Reply::Null]), Reply::Error(CommandError::Internal)));
    assert!(matches!(merge_multi_key_reply(&mset, vec![]), Reply::OK));
}

#[test]
fn route_decides_where_commands_run() {
    let n = 4;
    let here = shard_for_key(b"key", n);
    let c = Coordinator::new(here, n);
    assert!(matches!(c.route(command(&["PING", "hi"])), Route::Local(_, _)));
    assert!(matches!(c.route(command(&["PING"])), Route::Local(_, _)));
    assert!(matches!(c.route(command(&["PING", "a", "b", "c"])), Route::Done(Reply::Error(CommandError::WrongArity))));
    assert!(matches!(c.route(command(&["GET", "key"])), Route::Local(_, _)));
    let other = (0..n).find(|&w| w != here).unwrap();
    let c2 = Coordinator::new(other, n);
    match c2.route(command(&["GET", "key"])) {
        Route::Remote(w, meta, args) => {
            assert_eq!(w, here);
            assert_eq!(meta.id, CommandId::Get);
            assert_eq!(args.len(), 1);
        }
        _ => panic!("expected a remote route"),
    }
    assert!(matches!(c.route(command(&["NOPE"])), Route::Done(Reply::Error(CommandError::UnknownCommand))));
    assert!(matches!(c.route(command(&["MSET", "a", "1", "b"])), Route::Done(Reply::Error(CommandError::WrongArity))));
    assert!(matches!(c.route(command(&["DEL", "a", "b"])), Route::Split(_, _)));
    assert!(matches!(c.route(command(&["MGET", "a", "b"])), Route::SplitOrdered(_, _)));
}

#[test]
fn coordinator_runs_locally() {
    let mut c = Coordinator::new(0, 1);
    assert_eq!(c.id(), 0);
    assert_eq!(c.shard_count(), 1);
    assert_eq!(c.shard_for(b"anything"), 0);
    let set = lookup(b"SET").unwrap();
    let mut args = Args::new();
    args.push(b"k".to_vec());
    args.push(b"v".to_vec());
    assert!(matches!(c.execute_local(&set, args), Reply::OK));
    let mget = lookup(b"MGET").unwrap();
    let out = c.execute_local_ordered(&mget, vec![(3, b"k".to_vec()), (5, b"zz".to_vec())]);
    assert_eq!(out.len(), 2);
    assert_eq!(out[0].0, 3);
    assert!(matches!(&out[0].1, Reply::Bulk(b) if b == b"v"));
    assert!(matches!(out[1].1, Reply::Null));
}

fn run_on(c: &mut Coordinator, name: &str, items: Vec<Vec<u8>>) -> Reply {
    let meta = lookup(name.as_bytes()).unwrap();
    let mut args = Args::new();
    for item in items {
        args.push(item);
    }
    c.execute_local(&meta, args)
}

#[test]
fn sharded_del_and_mget_match_one_shard() {
    let n = 3;
    let mut shards: Vec<Coordinator> = (0..n).map(|w| Coordinator::new(w, n)).collect();
    let mut single = Coordinator::new(0, 1);
    let names = ["a", "b", "c", "d", "e", "f", "g"];
    for k in names {
        let w = shard_for_key(k.as_bytes(), n);
        run_on(&mut shards[w], "SET", keys(&[k, k]));
        run_on(&mut single, "SET", keys(&[k, k]));
    }

    let wanted = keys(&["g", "zz", "a", "c"]);
    let mut results = Vec::new();
    for (w, group) in group_ordered(&wanted, n).into_iter().enumerate() {
        if !group.is_empty() {
            let mget = lookup(b"MGET").unwrap();
            results.extend(shards[w].execute_local_ordered(&mget, group));
        }
    }
    let merged = merge_ordered_array(results);
    let one = run_on(&mut single, "MGET", wanted.clone());
    match (merged, one) {
        (Reply::Array(a), Reply::Array(b)) => {
            assert_eq!(a.len(), b.len());
            for (x, y) in a.into_iter().zip(b) {
                match (x, y) {
                    (Reply::Bulk(p), Reply::Bulk(q)) => assert_eq!(p, q),
                    (Reply::Null, Reply::Null) => {}
                    other => panic!("replies differ: {:?}", other),
                }
            }
        }
        other => panic!("unexpected replies {:?}", other),
    }

    let probe = keys(&["a", "zz", "c", "a"]);
    let mut counts = Vec::new();
    for (w, group) in group_keys(&probe, n).into_iter().enumerate() {
        if !group.is_empty() {
            counts.push(run_on(&mut shards[w], "EXISTS", group));
        }
    }
    let exists = lookup(b"EXISTS").unwrap();
    match (merge_multi_key_reply(&exists, counts), run_on(&mut single, "EXISTS", probe)) {
        (Reply::Integer(p), Reply::Integer(q)) => {
            assert_eq!(p, q);
            assert_eq!(p, 3);
        }
        other => panic!("unexpected replies {:?}", other),
    }

    let doomed = keys(&["a", "b", "zz", "a", "f"]);
    let mut replies = Vec::new();
    for (w, group) in group_keys(&doomed, n).into_iter().enumerate() {
        if !group.is_empty() {
            replies.push(run_on(&mut shards[w], "DEL", group));
        }
    }
    let del = lookup(b"DEL").unwrap();
    let sharded = merge_multi_key_reply(&del, replies);
    let one = run_on(&mut single, "DEL", doomed);
    match (sharded, one) {
        (Reply::Integer(p), Reply::Integer(q)) => {
            assert_eq!(p, q);
            assert_eq!(p, 3);
        }
        other => panic!("unexpected replies {:?}", other),
    }
}

#[test]
fn sharded_mset_matches_one_shard() {
    let n = 4;
    let mut shards: Vec<Coordinator> = (0..n).map(|w| Coordinator::new(w, n)).collect();
    let mut single = Coordinator::new(0, 1);
    let pairs = keys(&["a", "1", "b", "2", "a", "3", "c", "4"]);
    let groups = group_pairs(&pairs, n).unwrap();
    let mut replies = Vec::new();
    for (w, group) in groups.into_iter().enumerate() {
        if !group.is_empty() {
            replies.push(run_on(&mut shards[w], "MSET", group));
        }
    }
    let mset = lookup(b"MSET").unwrap();
    assert!(matches!(merge_multi_key_reply(&mset, replies), Reply::OK));
    assert!(matches!(run_on(&mut single, "MSET", pairs), Reply::OK));
    for k in ["a", "b", "c"] {
        let w = shard_for_key(k.as_bytes(), n);
        let sharded = run_on(&mut shards[w], "GET", keys(&[k]));
        let one = run_on(&mut single, "GET", keys(&[k]));
        match (sharded, one) {
            (Reply::Bulk(p), Reply::Bulk(q)) => assert_eq!(p, q),
            other => panic!("unexpected replies {:?}", other),
        }
    }
}

#[test]
fn remote_reply_failures() {
    assert!(matches!(remote_reply(false, None), Reply::Error(CommandError::Internal)));
    assert!(matches!(remote_reply(true, None), Reply::Error(CommandError::Internal)));
    assert!(matches!(remote_reply(true, Some(Reply::Integer(4))), Reply::Integer(4)));
}

#[test]
fn bare_ping_answers_pong() {
    let mut c = Coordinator::new(0, 2);
    match c.route(command(&["PING"])) {
        Route::Local(meta, args) => assert!(matches!(c.execute_local(&meta, args), Reply::Pong)),
        _ => panic!("a bare PING runs where it arrives"),
    }
}

#[test]
fn single_key_dispatch_decides_where_commands_run() {
    let n = 3;
    let here = shard_for_key(b"key", n);
    let peers = vec!["zero", "one", "two"];
    let r = ShardResolver::new(here, peers.clone());
    assert!(matches!(dispatch_route(&r, command(&["HGET", "k"])), Dispatch::Answer(Reply::Error(CommandError::UnknownCommand))));
    assert!(matches!(dispatch_route(&r, command(&["DEL", "a", "b"])), Dispatch::Answer(Reply::OK)));
    match dispatch_route(&r, command(&["PING"])) {
        Dispatch::Execute(id, args) => {
            assert_eq!(id, single::CommandId::Ping);
            assert_eq!(args.len(), 0);
        }
        _ => panic!("PING runs here"),
    }
    match dispatch_route(&r, command(&["GET", "key"])) {
        Dispatch::Execute(id, args) => {
            assert_eq!(id, single::CommandId::Get);
            assert_eq!(&args.as_slice()[0][..], b"key");
        }
        _ => panic!("the owner of the key runs GET"),
    }
    let other = (0..n).find(|&w| w != here).unwrap();
    let r2 = ShardResolver::new(other, peers.clone());
    match dispatch_route(&r2, command(&["SET", "key", "v"])) {
        Dispatch::Forward(p, id, args) => {
            assert_eq!(*p, peers[here]);
            assert_eq!(id, single::CommandId::SetKey);
            assert_eq!(args.len(), 2);
        }
        _ => panic!("SET goes to the owner of its key"),
    }
}
