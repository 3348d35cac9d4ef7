use voidscale::engine::kv::{KvStore, Record};
use voidscale::engine::value::Value as PlainValue;
use voidscale::execution::commands::server::cmd_ping;
use voidscale::execution::commands::string::{cmd_get, cmd_set};
use voidscale::protocol::reply::{CommandError, Reply};
use voidscale::storage::kv::KvStore as ExpiringStore;
use voidscale::storage::{StorageError, Value};

fn k(s: &str) -> Vec<u8> {
    s.as_bytes().to_vec()
}

#[test]
fn plain_store_operations() {
    let mut kv = KvStore::new();
    assert!(kv.is_empty());
    assert!(kv.set(k("a"), Record::new(PlainValue::String(k("1")))).is_none());
    assert!(kv.contains(&k("a")));
    assert_eq!(kv.len(), 1);
    assert_eq!(kv.get(&k("a")).unwrap().value.get_bytes(), &k("1"));
    let old = kv.set(k("a"), Record::new(PlainValue::String(k("2")))).unwrap();
    assert_eq!(old.value.as_string().unwrap(), &k("1"));
    assert!(kv.del(&k("a")).is_some());
    assert!(kv.del(&k("a")).is_none());
    assert!(kv.is_empty());
    assert_eq!(PlainValue::String(k("x")).value_type_name(), "string");
}

#[test]
fn plain_store_commands() {
    let mut kv = KvStore::new();
    let args = |parts: &[&str]| -> Vec<Vec<u8>> { parts.iter().map(|p| k(p)).collect() };
    assert!(matches!(cmd_ping(&mut kv, &[]), Reply::Pong));
    assert!(matches!(cmd_ping(&mut kv, &args(&["hi"])), Reply::Bulk(b) if b == b"hi"));
    assert!(matches!(cmd_set(&mut kv, &args(&["a"])), Reply::Error(CommandError::WrongArity)));
    assert!(matches!(cmd_set(&mut kv, &args(&["a", "1", "extra"])), Reply::OK));
    assert!(matches!(cmd_get(&mut kv, &args(&["a"])), Reply::Bulk(b) if b == b"1"));
    assert!(matches!(cmd_get(&mut kv, &args(&["b"])), Reply::Null));
    assert!(matches!(cmd_get(&mut kv, &[]), Reply::Error(CommandError::WrongArity)));
}

#[test]
fn expiring_store_operations() {
    let mut s = ExpiringStore::new();
    assert_eq!(s.update(k("a"), PlainValue::String(k("1")), Some(100), false), None);
    assert_eq!(s.get(&k("a"), 50), Some(k("1")));
    assert_eq!(s.update(k("a"), PlainValue::String(k("2")), None, true), Some(k("1")));
    assert_eq!(s.get_expiry(&k("a")), Some(Some(100)));
    assert_eq!(s.get(&k("a"), 100), None);
    assert_eq!(s.get_expiry(&k("a")), None);
    s.update(k("b"), PlainValue::String(k("1")), Some(10), false);
    assert!(!s.remove(&k("b"), 10));
    s.update(k("b"), PlainValue::String(k("1")), None, false);
    assert!(s.remove(&k("b"), 10));
    assert!(!s.remove(&k("b"), 10));
}

#[test]
fn value_as_string_mut() {
    let mut v = Value::String(k("ab"));
    v.as_string_mut().unwrap().push(b'c');
    assert_eq!(v.as_string().unwrap(), &k("abc"));
    let mut h = Value::Hash;
    assert_eq!(h.as_string_mut().err(), Some(StorageError::WrongType));
}

#[test]
fn command_error_messages() {
    assert_eq!(CommandError::UnknownCommand.message(), "ERR unknown command");
    assert_eq!(CommandError::Internal.message(), "ERR internal error");
    assert_eq!(CommandError::Custom(k("boom")).message(), "ERR boom");
    assert_eq!(CommandError::Custom(vec![0xff]).message(), "ERR \u{fffd}");
    assert_eq!(
        CommandError::WrongType.message(),
        "WRONGTYPE Operation against a key holding the wrong kind of value"
    );
}
