use voidscale::commands::registry::{lookup, CommandId};
use voidscale::engine::shard::ShardEngine;
use voidscale::protocol::reply::Reply;
use voidscale::storage::StorageEngine;
use voidscale::util::{bytes_to_i64, bytes_to_u64, i64_to_bytes};

fn args(parts: &[&str]) -> Vec<Vec<u8>> {
    parts.iter().map(|p| p.as_bytes().to_vec()).collect()
}

fn get(e: &mut ShardEngine, key: &str) -> Option<Vec<u8>> {
    match e.run(CommandId::Get, &args(&[key])) {
        Reply::Bulk(b) => Some(b),
        Reply::Null => None,
        other => panic!("unexpected reply {:?}", other),
    }
}

#[test]
fn read_commands_change_no_value() {
    let mut e = ShardEngine::with_time(StorageEngine::new(), 100);
    e.run(CommandId::SetKey, &args(&["a", "1"]));
    e.run(CommandId::SetKey, &args(&["b", "2", "PX", "1000"]));
    for name in ["GET", "TTL", "EXISTS", "MGET", "PING"] {
        let meta = lookup(name.as_bytes()).unwrap();
        assert!(!meta.write);
        e.run(meta.id, &args(&["a", "b"]));
        assert_eq!(get(&mut e, "a"), Some(b"1".to_vec()));
        assert_eq!(get(&mut e, "b"), Some(b"2".to_vec()));
    }
}

#[test]
fn single_key_commands_touch_only_their_key() {
    let mut e = ShardEngine::with_time(StorageEngine::new(), 100);
    e.run(CommandId::SetKey, &args(&["other", "x"]));
    e.run(CommandId::SetKey, &args(&["k", "1"]));
    e.run(CommandId::Append, &args(&["k", "2"]));
    e.run(CommandId::Incr, &args(&["k"]));
    e.run(CommandId::Ttl, &args(&["k"]));
    assert_eq!(get(&mut e, "k"), Some(b"13".to_vec()));
    assert_eq!(get(&mut e, "other"), Some(b"x".to_vec()));
}

#[test]
fn numbers_round_trip_through_text() {
    for v in [0i64, 7, -7, 1234567890, i64::MAX, i64::MIN] {
        assert_eq!(bytes_to_i64(&i64_to_bytes(v)), Some(v));
    }
    for n in [0u64, 9, 10, u64::MAX] {
        assert_eq!(bytes_to_u64(n.to_string().as_bytes()), Some(n));
    }
}
