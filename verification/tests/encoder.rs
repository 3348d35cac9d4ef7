use voidscale::protocol::codec::ProtocolCodec;
use voidscale::protocol::reply::{CommandError, Reply};
use voidscale::protocol::resp2::encode;

fn check_encode(reply: Reply) -> String {
    let mut buf: Vec<u8> = Vec::new();
    encode(&reply, &mut buf);
    String::from_utf8(buf).expect("Encoded buffer should be valid UTF-8 strings in tests")
}

fn check_encode_bytes(reply: Reply) -> Vec<u8> {
    let mut buf: Vec<u8> = Vec::new();
    encode(&reply, &mut buf);
    buf
}

#[test]
fn test_encode_ok() {
    assert_eq!(check_encode(Reply::OK), "+OK\r\n");
}

#[test]
fn test_encode_pong() {
    assert_eq!(check_encode(Reply::Pong), "+PONG\r\n");
}

#[test]
fn test_encode_null() {
    assert_eq!(check_encode(Reply::Null), "$-1\r\n");
}

#[test]
fn test_encode_null_array() {
    assert_eq!(check_encode(Reply::NullArray), "*-1\r\n");
}

#[test]
fn test_encode_simple_string() {
    assert_eq!(check_encode(Reply::simple("PING")), "+PING\r\n");
}

#[test]
fn test_encode_bulk_string() {
    assert_eq!(check_encode(Reply::bulk(b"hello")), "$5\r\nhello\r\n");
}

#[test]
fn test_encode_bulk_string_empty() {
    assert_eq!(check_encode(Reply::bulk(b"")), "$0\r\n\r\n");
}

#[test]
fn test_encode_integer() {
    assert_eq!(check_encode(Reply::Integer(0)), ":0\r\n");
    assert_eq!(check_encode(Reply::Integer(1000)), ":1000\r\n");
    assert_eq!(check_encode(Reply::Integer(-42)), ":-42\r\n");
}

#[test]
fn test_encode_empty_array() {
    assert_eq!(check_encode(Reply::Array(vec![])), "*0\r\n");
}

#[test]
fn test_encode_flat_array() {
    let array = Reply::Array(vec![Reply::bulk(b"foo"), Reply::Integer(42), Reply::OK]);
    assert_eq!(check_encode(array), "*3\r\n$3\r\nfoo\r\n:42\r\n+OK\r\n");
}

#[test]
fn test_encode_nested_array() {
    let nested = Reply::Array(vec![Reply::Array(vec![Reply::bulk(b"bar")]), Reply::Integer(1)]);
    assert_eq!(check_encode(nested), "*2\r\n*1\r\n$3\r\nbar\r\n:1\r\n");
}

#[test]
fn test_encode_error_unknown() {
    assert_eq!(check_encode(Reply::unknown()), "-ERR unknown command\r\n");
}

#[test]
fn test_encode_error_wrong_arity() {
    assert_eq!(check_encode(Reply::arity()), "-ERR wrong number of arguments\r\n");
}

#[test]
fn test_encode_error_wrong_type() {
    assert_eq!(
        check_encode(Reply::wrong_type()),
        "-WRONGTYPE Operation against a key holding the wrong kind of value\r\n"
    );
}

#[test]
fn test_encode_error_syntax() {
    assert_eq!(check_encode(Reply::syntax()), "-ERR syntax error\r\n");
}

#[test]
fn test_encode_error_out_of_range() {
    assert_eq!(check_encode(Reply::Error(CommandError::OutOfRange)), "-ERR value out of range\r\n");
}

#[test]
fn test_encode_error_custom() {
    assert_eq!(check_encode(Reply::err("something went wrong")), "-ERR something went wrong\r\n");
}

#[test]
fn test_encode_appends_to_existing_buffer() {
    let mut buf = b"EXISTING_DATA_".to_vec();
    encode(&Reply::OK, &mut buf);

    let result = String::from_utf8(buf).unwrap();
    assert_eq!(result, "EXISTING_DATA_+OK\r\n");
}

#[test]
fn test_encode_binary_safety() {
    let binary_payload = vec![0x00, 0x01, 0x02, b'\r', b'\n', 0x03];
    let reply = Reply::bulk(&binary_payload);

    let encoded = check_encode_bytes(reply);

    let mut expected = b"$6\r\n".to_vec();
    expected.extend_from_slice(&binary_payload);
    expected.extend_from_slice(b"\r\n");

    assert_eq!(encoded, expected);
}

#[test]
fn encode_internal_error_and_codec_encode() {
    let codec = ProtocolCodec::new();
    let mut buf: Vec<u8> = Vec::new();
    codec.encode(&mut buf, Reply::Error(CommandError::Internal));
    assert_eq!(buf, b"-ERR internal error\r\n".to_vec());
}

#[test]
fn encode_simple_and_bulk_from_bytes() {
    assert_eq!(check_encode(Reply::Simple(b"hi".to_vec())), "+hi\r\n");
    assert_eq!(check_encode(Reply::Bulk(b"hi".to_vec())), "$2\r\nhi\r\n");
    assert_eq!(check_encode(Reply::Integer(i64::MIN)), ":-9223372036854775808\r\n");
}
