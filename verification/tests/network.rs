use voidscale::network::client::{next_step, ClientStep};
use voidscale::network::connection::{
    read_error, read_failure, read_outcome, write_error, write_failure, Buffers, IoFailure, MAX_WRITE_BUFFER,
};
use voidscale::network::error::NetworkError;
use voidscale::protocol::codec::ProtocolCodec;
use voidscale::runtime::affinity::core_index;
use voidscale::runtime::error::RuntimeError;
use voidscale::runtime::resolver::{Shard, ShardResolver};

fn io(kind: std::io::ErrorKind) -> std::io::Error {
    std::io::Error::new(kind, "test")
}

#[test]
fn read_and_write_failures() {
    assert!(matches!(read_outcome(0), Err(NetworkError::ConnectionClosed)));
    assert!(matches!(read_outcome(12), Ok(12)));
    assert!(matches!(read_error(io(std::io::ErrorKind::ConnectionReset)), NetworkError::ConnectionReset));
    assert!(matches!(read_error(io(std::io::ErrorKind::TimedOut)), NetworkError::ConnectionTimeout));
    assert!(matches!(read_error(io(std::io::ErrorKind::WouldBlock)), NetworkError::Io(_)));
    assert!(matches!(write_error(io(std::io::ErrorKind::WriteZero)), NetworkError::ConnectionClosed));
    assert!(matches!(write_error(io(std::io::ErrorKind::BrokenPipe)), NetworkError::Io(_)));
    assert!(matches!(read_failure(IoFailure::TimedOut, io(std::io::ErrorKind::Other)), NetworkError::ConnectionTimeout));
    assert!(matches!(write_failure(IoFailure::Other, io(std::io::ErrorKind::Other)), NetworkError::Io(_)));
}

#[test]
fn write_buffer_is_bounded() {
    let mut b = Buffers::new();
    assert!(b.write_buf(b"hello").is_ok());
    assert_eq!(&b.wbuf_mut()[..], b"hello");
    let big = vec![0u8; MAX_WRITE_BUFFER - 5];
    assert!(b.write_buf(&big).is_ok());
    assert!(matches!(b.write_buf(b"x"), Err(NetworkError::BufferOverflow)));
    assert_eq!(b.wbuf_mut().len(), MAX_WRITE_BUFFER);
    b.written();
    assert!(b.wbuf_mut().is_empty());
}

#[test]
fn read_room_is_bounded() {
    let mut b = Buffers::new();
    assert!(b.read_room().is_ok());
    b.rbuf_mut().resize(64 * 1024 * 1024 - 64 * 1024, 0);
    assert!(b.read_room().is_ok());
    b.rbuf_mut().push(0);
    assert!(matches!(b.read_room(), Err(NetworkError::BufferOverflow)));
}

#[test]
fn client_steps() {
    let mut codec = ProtocolCodec::new();
    let mut b = Buffers::new();
    b.rbuf_mut().extend_from_slice(b"*1\r\n$4\r\nPING\r\n*1\r\n");
    match next_step(&mut codec, &mut b) {
        ClientStep::Execute(c) => assert_eq!(c.name_str(), "PING"),
        _ => panic!("expected a command"),
    }
    assert!(matches!(next_step(&mut codec, &mut b), ClientStep::NeedMore));
    b.rbuf_mut().extend_from_slice(b"+OK\r\n");
    assert!(matches!(next_step(&mut codec, &mut b), ClientStep::Fail(_)));
    assert_eq!(&b.wbuf_mut()[..], b"-ERR syntax error\r\n");
}

#[test]
fn resolver_routes_by_fnv() {
    let r = ShardResolver::new(1, vec!["zero", "one", "two"]);
    assert_eq!(r.peer_count(), 3);
    for key in ["a", "b", "c", "d", "e", "f"] {
        let mut h: u64 = 0xcbf29ce484222325;
        for &byte in key.as_bytes() {
            h ^= byte as u64;
            h = h.wrapping_mul(0x100000001b3);
        }
        let owner = (h as usize) % 3;
        match r.resolve(key.as_bytes()) {
            Shard::Local => assert_eq!(owner, 1),
            Shard::Peer(p) => {
                assert_ne!(owner, 1);
                assert_eq!(*p, ["zero", "one", "two"][owner]);
            }
        }
    }
}

#[test]
fn core_index_wraps() {
    assert!(matches!(core_index(5, 4), Ok(1)));
    assert!(matches!(core_index(2, 0), Err(RuntimeError::ThreadPinFailed { id: 2, core: 2 })));
}
