use voidscale::commands::registry::CommandId;
use voidscale::engine::coordinator::resolve;
use voidscale::engine::shard::ShardEngine;
use voidscale::protocol::command::Args;
use voidscale::protocol::reply::{CommandError, Reply};
use voidscale::storage::StorageEngine;

/// Runs a command at the engine's clock, as the server does.
fn run(engine: &mut ShardEngine, parts: &[&str]) -> Reply {
    let meta = match resolve(parts[0].as_bytes(), parts.len() - 1) {
        Ok(m) => m,
        Err(e) => return Reply::Error(e),
    };
    let mut args = Args::new();
    for p in &parts[1..] {
        args.push(p.as_bytes().to_vec());
    }
    engine.execute(&meta, args)
}

/// Runs a command at a given time.
fn run_at(engine: &mut ShardEngine, now: u64, parts: &[&str]) -> Reply {
    let meta = match resolve(parts[0].as_bytes(), parts.len() - 1) {
        Ok(m) => m,
        Err(e) => return Reply::Error(e),
    };
    let args: Vec<Vec<u8>> = parts[1..].iter().map(|p| p.as_bytes().to_vec()).collect();
    engine.set_time(now);
    engine.run(meta.id, &args)
}

fn engine_at(now: u64) -> ShardEngine {
    ShardEngine::with_time(StorageEngine::new(), now)
}

fn text(r: Reply) -> Option<String> {
    match r {
        Reply::Bulk(b) => Some(String::from_utf8(b).unwrap()),
        Reply::Null => None,
        Reply::OK => Some("OK".into()),
        other => panic!("unexpected reply {:?}", other),
    }
}

fn integer(r: Reply) -> i64 {
    match r {
        Reply::Integer(n) => n,
        other => panic!("unexpected reply {:?}", other),
    }
}

fn is_err(r: &Reply) -> bool {
    matches!(r, Reply::Error(_))
}

const T0: u64 = 1_700_000_000_000;

#[test]
fn ttl_non_existent() {
    let mut e = ShardEngine::new();
    assert_eq!(integer(run(&mut e, &["TTL", "non_existent_key"])), -2);
}

#[test]
fn ttl_no_expiry() {
    let mut e = ShardEngine::new();
    let k = "test_key";
    run(&mut e, &["SET", k, "v"]);
    assert_eq!(integer(run(&mut e, &["TTL", k])), -1);
}

#[test]
fn ttl_basic() {
    let mut e = ShardEngine::new();
    let k = "ttl_test";
    run(&mut e, &["SET", k, "v", "EX", "10"]);
    let res = integer(run(&mut e, &["TTL", k]));
    assert!(res > 0 && res <= 10);
}

#[test]
fn core_get_set() {
    let mut e = ShardEngine::new();
    assert_eq!(text(run(&mut e, &["GET", "core"])), None);
    run(&mut e, &["SET", "core", "a"]);
    assert_eq!(text(run(&mut e, &["GET", "core"])), Some("a".into()));
}

#[test]
fn overwrite() {
    let mut e = ShardEngine::new();
    run(&mut e, &["SET", "ovr", "a"]);
    run(&mut e, &["SET", "ovr", "b"]);
    run(&mut e, &["SET", "ovr", "c"]);
    assert_eq!(text(run(&mut e, &["GET", "ovr"])), Some("c".into()));
}

#[test]
fn ex_basic() {
    let mut e = engine_at(T0);
    run_at(&mut e, T0, &["SET", "ex", "v", "EX", "1"]);
    assert_eq!(text(run_at(&mut e, T0, &["GET", "ex"])), Some("v".into()));
    assert_eq!(text(run_at(&mut e, T0 + 2000, &["GET", "ex"])), None);
}

#[test]
fn px_basic() {
    let mut e = engine_at(T0);
    run_at(&mut e, T0, &["SET", "px", "v", "PX", "100"]);
    assert_eq!(text(run_at(&mut e, T0 + 200, &["GET", "px"])), None);
}

#[test]
fn exat_future_and_past() {
    let mut e = engine_at(T0);
    let future = (T0 / 1000 + 5).to_string();
    let past = (T0 / 1000 - 5).to_string();
    run_at(&mut e, T0, &["SET", "exat_f", "v", "EXAT", &future]);
    run_at(&mut e, T0, &["SET", "exat_p", "v", "EXAT", &past]);
    assert_eq!(text(run_at(&mut e, T0, &["GET", "exat_p"])), None);
    assert_eq!(text(run_at(&mut e, T0, &["GET", "exat_f"])), Some("v".into()));
}

#[test]
fn pxat_future_and_past() {
    let mut e = engine_at(T0);
    let future = (T0 + 5000).to_string();
    let past = (T0 - 1000).to_string();
    run_at(&mut e, T0, &["SET", "pxat_f", "v", "PXAT", &future]);
    run_at(&mut e, T0, &["SET", "pxat_p", "v", "PXAT", &past]);
    assert_eq!(text(run_at(&mut e, T0, &["GET", "pxat_p"])), None);
    assert_eq!(text(run_at(&mut e, T0, &["GET", "pxat_f"])), Some("v".into()));
}

#[test]
fn nx_basic() {
    let mut e = ShardEngine::new();
    assert_eq!(text(run(&mut e, &["SET", "nx", "a", "NX"])), Some("OK".into()));
    assert_eq!(text(run(&mut e, &["SET", "nx", "b", "NX"])), None);
}

#[test]
fn xx_basic() {
    let mut e = ShardEngine::new();
    assert_eq!(text(run(&mut e, &["SET", "xx", "a", "XX"])), None);
    run(&mut e, &["SET", "xx", "a"]);
    assert_eq!(text(run(&mut e, &["SET", "xx", "b", "XX"])), Some("OK".into()));
}

#[test]
fn get_flag() {
    let mut e = ShardEngine::new();
    run(&mut e, &["SET", "get", "a"]);
    assert_eq!(text(run(&mut e, &["SET", "get", "b", "GET"])), Some("a".into()));
}

#[test]
fn nx_get() {
    let mut e = ShardEngine::new();
    run(&mut e, &["SET", "nxget", "a"]);
    assert_eq!(text(run(&mut e, &["SET", "nxget", "b", "NX", "GET"])), Some("a".into()));
}

#[test]
fn keepttl_preserve() {
    let mut e = ShardEngine::new();
    run(&mut e, &["SET", "kt", "a", "EX", "10"]);
    let t1 = integer(run(&mut e, &["TTL", "kt"]));
    run(&mut e, &["SET", "kt", "b", "KEEPTTL"]);
    let t2 = integer(run(&mut e, &["TTL", "kt"]));
    assert_eq!(t1, t2);
}

#[test]
fn keepttl_no_reset() {
    let mut e = engine_at(T0);
    run_at(&mut e, T0, &["SET", "kt2", "a", "EX", "1"]);
    let t1 = integer(run_at(&mut e, T0, &["TTL", "kt2"]));
    run_at(&mut e, T0, &["SET", "kt2", "b", "KEEPTTL"]);
    let t2 = integer(run_at(&mut e, T0, &["TTL", "kt2"]));
    assert_eq!(t1, t2);
    assert_eq!(text(run_at(&mut e, T0 + 2000, &["GET", "kt2"])), None);
}

#[test]
fn del_single_key() {
    let mut e = ShardEngine::new();
    run(&mut e, &["SET", "del1", "a"]);
    assert_eq!(integer(run(&mut e, &["DEL", "del1"])), 1);
    assert_eq!(text(run(&mut e, &["GET", "del1"])), None);
}

#[test]
fn del_missing_key() {
    let mut e = ShardEngine::new();
    assert_eq!(integer(run(&mut e, &["DEL", "del_missing"])), 0);
}

#[test]
fn del_multiple_keys() {
    let mut e = ShardEngine::new();
    run(&mut e, &["SET", "del_m1", "a"]);
    run(&mut e, &["SET", "del_m2", "b"]);
    assert_eq!(integer(run(&mut e, &["DEL", "del_m1", "del_m2"])), 2);
    assert_eq!(text(run(&mut e, &["GET", "del_m1"])), None);
    assert_eq!(text(run(&mut e, &["GET", "del_m2"])), None);
}

#[test]
fn del_after_expiry() {
    let mut e = engine_at(T0);
    run_at(&mut e, T0, &["SET", "del_exp", "v", "EX", "1"]);
    assert_eq!(integer(run_at(&mut e, T0 + 2000, &["DEL", "del_exp"])), 0);
}

#[test]
fn syntax_error() {
    let mut e = ShardEngine::new();
    assert!(is_err(&run(&mut e, &["SET", "k", "v", "EX"])));
}

#[test]
fn incr_basic() {
    let mut e = ShardEngine::new();
    assert_eq!(integer(run(&mut e, &["INCR", "incr"])), 1);
    assert_eq!(integer(run(&mut e, &["INCR", "incr"])), 2);
    assert_eq!(text(run(&mut e, &["GET", "incr"])), Some("2".into()));
}

#[test]
fn decr_basic() {
    let mut e = ShardEngine::new();
    assert_eq!(integer(run(&mut e, &["DECR", "decr"])), -1);
    assert_eq!(integer(run(&mut e, &["DECR", "decr"])), -2);
    assert_eq!(text(run(&mut e, &["GET", "decr"])), Some("-2".into()));
}

#[test]
fn incrby_decrby() {
    let mut e = ShardEngine::new();
    assert_eq!(integer(run(&mut e, &["INCRBY", "by", "10"])), 10);
    assert_eq!(integer(run(&mut e, &["DECRBY", "by", "3"])), 7);
    assert_eq!(text(run(&mut e, &["GET", "by"])), Some("7".into()));
}

#[test]
fn incr_decr_errors() {
    let mut e = ShardEngine::new();
    run(&mut e, &["SET", "err", "not_an_int"]);
    assert!(is_err(&run(&mut e, &["INCR", "err"])));
    assert!(is_err(&run(&mut e, &["DECR", "err"])));
}

#[test]
fn incr_decr_on_expired_key() {
    let mut e = engine_at(T0);
    run_at(&mut e, T0, &["SET", "exp", "10", "EX", "1"]);
    assert_eq!(integer(run_at(&mut e, T0 + 2000, &["INCR", "exp"])), 1);
}

#[test]
fn incr_bounds_overflow() {
    let mut e = ShardEngine::new();
    run(&mut e, &["SET", "overflow", &i64::MAX.to_string()]);
    assert!(is_err(&run(&mut e, &["INCR", "overflow"])));
}

// Further scenarios.

#[test]
fn ping_and_echo() {
    let mut e = ShardEngine::new();
    // A bare PING passes the arity check and answers PONG.
    assert!(matches!(run(&mut e, &["PING"]), Reply::Pong));
    assert!(matches!(e.run(CommandId::Ping, &[]), Reply::Pong));
    assert_eq!(text(run(&mut e, &["PING", "hello"])), Some("hello".into()));
}

#[test]
fn unknown_and_arity_errors() {
    let mut e = ShardEngine::new();
    assert!(matches!(run(&mut e, &["FLY"]), Reply::Error(CommandError::UnknownCommand)));
    assert!(matches!(run(&mut e, &["GET"]), Reply::Error(CommandError::WrongArity)));
    assert!(matches!(run(&mut e, &["GET", "a", "b"]), Reply::Error(CommandError::WrongArity)));
    assert!(matches!(run(&mut e, &["MSET", "a", "1", "b"]), Reply::Error(CommandError::WrongArity)));
}

#[test]
fn set_option_errors() {
    let mut e = engine_at(T0);
    assert!(matches!(run_at(&mut e, T0, &["SET", "k", "v", "NX", "XX"]), Reply::Error(CommandError::Syntax)));
    assert!(matches!(
        run_at(&mut e, T0, &["SET", "k", "v", "EX", "10", "KEEPTTL"]),
        Reply::Error(CommandError::Syntax)
    ));
    assert!(matches!(run_at(&mut e, T0, &["SET", "k", "v", "EX", "ten"]), Reply::Error(CommandError::OutOfRange)));
    assert!(matches!(run_at(&mut e, T0, &["SET", "k", "v", "BOGUS"]), Reply::Error(CommandError::Syntax)));
    assert_eq!(text(run_at(&mut e, T0, &["GET", "k"])), None);
}

#[test]
fn set_lowercase_options_and_negative_expiry() {
    let mut e = engine_at(T0);
    assert_eq!(text(run_at(&mut e, T0, &["SET", "k", "v", "px", "-5"])), Some("OK".into()));
    // A negative time counts as zero: the key expires at once.
    assert_eq!(text(run_at(&mut e, T0, &["GET", "k"])), None);
    assert_eq!(text(run_at(&mut e, T0, &["SET", "k", "v", "ex", "3"])), Some("OK".into()));
    assert_eq!(integer(run_at(&mut e, T0 + 500, &["TTL", "k"])), 3);
    assert_eq!(integer(run_at(&mut e, T0 + 1600, &["TTL", "k"])), 1);
}

#[test]
fn append_grows_value() {
    let mut e = ShardEngine::new();
    assert_eq!(integer(run(&mut e, &["APPEND", "a", "foo"])), 3);
    assert_eq!(integer(run(&mut e, &["APPEND", "a", "bar"])), 6);
    assert_eq!(text(run(&mut e, &["GET", "a"])), Some("foobar".into()));
}

#[test]
fn mset_mget_exists() {
    let mut e = ShardEngine::new();
    assert_eq!(text(run(&mut e, &["MSET", "a", "1", "b", "2"])), Some("OK".into()));
    match run(&mut e, &["MGET", "a", "missing", "b"]) {
        Reply::Array(items) => {
            let got: Vec<Option<String>> = items.into_iter().map(text).collect();
            assert_eq!(got, vec![Some("1".into()), None, Some("2".into())]);
        }
        other => panic!("unexpected reply {:?}", other),
    }
    assert_eq!(integer(run(&mut e, &["EXISTS", "a", "b", "c", "a"])), 3);
}

#[test]
fn incrby_out_of_range_amount() {
    let mut e = ShardEngine::new();
    assert!(matches!(run(&mut e, &["INCRBY", "n", "x"]), Reply::Error(CommandError::OutOfRange)));
    assert!(matches!(
        run(&mut e, &["DECRBY", "n", "-9223372036854775808"]),
        Reply::Error(CommandError::OutOfRange)
    ));
    assert_eq!(text(run(&mut e, &["GET", "n"])), None);
}
