use voidscale::commands::handlers::{keyspace, string as conditional};
use voidscale::commands::options::SetOptions;
use voidscale::engine::shard::ShardEngine;
use voidscale::network::error::NetworkError;
use voidscale::protocol::reply::{CommandError, Reply};
use voidscale::runtime::error::RuntimeError;
use voidscale::storage::{KeyOps, StorageEngine, StorageError, StringOps, Value, WriteOutcome};
use voidscale::util::{bytes_to_i64, bytes_to_u64, i64_to_bytes};

fn k(s: &str) -> Vec<u8> {
    s.as_bytes().to_vec()
}

#[test]
fn get_set_with_expiry() {
    let mut s = StorageEngine::new();
    assert_eq!(s.set(k("a"), k("1"), Some(100), 10).unwrap(), None);
    assert_eq!(s.get(&k("a"), 99).unwrap(), Some(k("1")));
    assert_eq!(s.get(&k("a"), 100).unwrap(), None);
    assert_eq!(s.get_expiry(&k("a")), None);
}

#[test]
fn ttl_and_del() {
    let mut s = StorageEngine::new();
    s.set(k("a"), k("1"), Some(1000), 0).unwrap();
    s.set(k("b"), k("1"), None, 0).unwrap();
    assert_eq!(s.ttl(&k("a"), 250), Some(Some(750)));
    assert_eq!(s.ttl(&k("b"), 250), Some(None));
    assert_eq!(s.ttl(&k("c"), 250), None);
    assert!(s.exists_key(&k("b"), 5));
    assert!(s.del(&k("b"), 5));
    assert!(!s.del(&k("b"), 5));
    assert!(!s.del(&k("a"), 1000));
}

#[test]
fn append_and_incr() {
    let mut s = StorageEngine::new();
    assert_eq!(s.append(k("x"), k("ab"), 0).unwrap(), 2);
    assert_eq!(s.append(k("x"), k("cd"), 0).unwrap(), 4);
    assert_eq!(s.get(&k("x"), 0).unwrap(), Some(k("abcd")));
    assert_eq!(s.incr_by(k("n"), 5, 0).unwrap(), 5);
    assert_eq!(s.incr_by(k("n"), -7, 0).unwrap(), -2);
    assert_eq!(s.incr_by(k("x"), 1, 0), Err(StorageError::OutOfRange));
    s.set(k("m"), i64_to_bytes(i64::MIN), None, 0).unwrap();
    assert_eq!(s.incr_by(k("m"), -1, 0), Err(StorageError::OutOfRange));
}

#[test]
fn conditional_str_set() {
    let mut s = StorageEngine::new();
    let xx = SetOptions { xx: true, ..SetOptions::default() };
    let nx = SetOptions { nx: true, ..SetOptions::default() };
    assert_eq!(s.str_set(k("a"), Value::String(k("1")), xx, 0).unwrap(), WriteOutcome::Rejected(None));
    assert_eq!(s.str_get(&k("a"), 0).unwrap(), None);
    let timed = SetOptions { expires_at: Some(50), ..SetOptions::default() };
    assert_eq!(s.str_set(k("a"), Value::String(k("1")), timed, 0).unwrap(), WriteOutcome::Applied(None));
    assert_eq!(s.str_set(k("a"), Value::String(k("2")), nx, 0).unwrap(), WriteOutcome::Rejected(Some(k("1"))));
    let keep = SetOptions { keep_ttl: true, ..SetOptions::default() };
    assert_eq!(s.str_set(k("a"), Value::String(k("3")), keep, 0).unwrap(), WriteOutcome::Applied(Some(k("1"))));
    assert_eq!(s.get_expiry(&k("a")), Some(Some(50)));
    assert_eq!(s.str_set(k("a"), Value::String(k("4")), xx, 60).unwrap(), WriteOutcome::Rejected(None));
    assert_eq!(s.get_expiry(&k("a")), None);
}

#[test]
fn value_accessors() {
    let v = Value::String(k("hi"));
    assert_eq!(v.value_type_name(), "string");
    assert_eq!(v.as_string().unwrap(), &k("hi"));
    assert_eq!(Value::Hash.value_type_name(), "hash");
    assert_eq!(Value::Hash.as_string(), Err(StorageError::WrongType));
}

#[test]
fn text_to_numbers() {
    assert_eq!(bytes_to_i64(b"-42"), Some(-42));
    assert_eq!(bytes_to_i64(b"+7"), Some(7));
    assert_eq!(bytes_to_i64(b"9223372036854775808"), None);
    assert_eq!(bytes_to_i64(b"-9223372036854775808"), Some(i64::MIN));
    assert_eq!(bytes_to_i64(b"1x"), None);
    assert_eq!(bytes_to_i64(b""), None);
    assert_eq!(bytes_to_u64(b"18446744073709551615"), Some(u64::MAX));
    assert_eq!(bytes_to_u64(b"18446744073709551616"), None);
    assert_eq!(bytes_to_u64(b"-1"), None);
    assert_eq!(i64_to_bytes(-120), k("-120"));
    assert_eq!(i64_to_bytes(0), k("0"));
}

fn args(parts: &[&str]) -> Vec<Vec<u8>> {
    parts.iter().map(|p| p.as_bytes().to_vec()).collect()
}

#[test]
fn conditional_set_handler() {
    let mut e = ShardEngine::with_time(StorageEngine::new(), 1_000);
    assert!(matches!(conditional::exec_set(&mut e, &args(&["a", "1", "XX"])), Reply::Null));
    assert!(matches!(conditional::exec_set(&mut e, &args(&["a", "1", "PX", "500"])), Reply::OK));
    assert!(matches!(conditional::exec_set(&mut e, &args(&["a", "2", "NX", "GET"])), Reply::Bulk(b) if b == b"1"));
    assert!(matches!(keyspace::exec_ttl(&mut e, &args(&["a"])), Reply::Integer(1)));
    assert!(matches!(
        conditional::exec_set(&mut e, &args(&["a", "2", "EX", "1", "PX", "1"])),
        Reply::Error(CommandError::Syntax)
    ));
    assert!(matches!(conditional::exec_set(&mut e, &args(&["a", "2", "EX", "x"])), Reply::Error(CommandError::OutOfRange)));
    assert!(matches!(conditional::exec_set(&mut e, &args(&["a", "2", "FOO", "1"])), Reply::Error(CommandError::Syntax)));
    assert!(matches!(conditional::exec_set(&mut e, &args(&["a"])), Reply::Error(CommandError::WrongArity)));
    assert!(matches!(conditional::exec_get(&mut e, &args(&["a", "ignored"])), Reply::Bulk(b) if b == b"1"));
    e.set_time(1_500);
    assert!(matches!(keyspace::exec_ttl(&mut e, &args(&["a"])), Reply::Integer(-2)));
    assert!(matches!(conditional::exec_get(&mut e, &args(&["a"])), Reply::Null));
    assert!(matches!(keyspace::exec_ttl(&mut e, &args(&["b"])), Reply::Integer(-2)));
}

#[test]
fn error_messages() {
    let e = RuntimeError::ThreadPinFailed { id: 3, core: 12 };
    assert_eq!(e.message(), "worker 3 failed to pin to core 12");
    let e = RuntimeError::WorkerStartFailed { id: 0, reason: "no port".to_string() };
    assert_eq!(e.message(), "worker 0 failed to start: no port");
    assert_eq!(NetworkError::ConnectionReset.message(), "connection reset by peer");
    assert_eq!(NetworkError::Internal("boom".to_string()).message(), "internal network error: boom");
    let io = NetworkError::from(std::io::Error::new(std::io::ErrorKind::Other, "disk"));
    assert!(io.message().starts_with("io error: "));
    assert!(matches!(CommandError::from(StorageError::WrongType).duplicate(), CommandError::WrongType));
}
