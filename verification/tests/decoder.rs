use voidscale::protocol::codec::ProtocolCodec;
use voidscale::protocol::command::Command;
use voidscale::protocol::resp2::decoder::decode_len;
use voidscale::protocol::ProtocolError;

fn buf(s: &str) -> Vec<u8> {
    s.as_bytes().to_vec()
}

fn once(input: &str) -> voidscale::protocol::Result<Option<Command>> {
    let mut codec = ProtocolCodec::new();
    let mut b = buf(input);
    codec.decode(&mut b)
}

#[test]
fn resume_split_right_after_array_prefix() {
    let mut codec = ProtocolCodec::new();
    let mut b = buf("*");
    assert!(codec.decode(&mut b).unwrap().is_none());
    assert_eq!(&b[..], b"*");

    b.extend_from_slice(b"1\r\n$4\r\nPING\r\n");
    let c = codec.decode(&mut b).unwrap().unwrap();
    assert_eq!(c.name_str(), "PING");
}

#[test]
fn resume_split_right_after_bulk_prefix() {
    let mut codec = ProtocolCodec::new();
    let mut b = buf("*1\r\n$");
    assert!(codec.decode(&mut b).unwrap().is_none());

    b.extend_from_slice(b"4\r\nPING\r\n");
    let c = codec.decode(&mut b).unwrap().unwrap();
    assert_eq!(c.name_str(), "PING");
}

#[test]
fn byte_by_byte_never_panics_or_errors() {
    let full = b"*3\r\n$3\r\nSET\r\n$3\r\nfoo\r\n$3\r\nbar\r\n";
    let mut codec = ProtocolCodec::new();
    let mut b: Vec<u8> = Vec::new();
    let mut result = None;
    for &byte in full {
        b.extend_from_slice(&[byte]);
        if let Some(cmd) = codec.decode(&mut b).unwrap() {
            result = Some(cmd);
        }
    }
    let c = result.unwrap();
    assert_eq!(c.name_str(), "SET");
    assert_eq!(&c.arg_list()[0][..], b"foo");
    assert_eq!(&c.arg_list()[1][..], b"bar");
}

#[test]
fn split_at_every_position() {
    let full = b"*2\r\n$3\r\nGET\r\n$5\r\nhello\r\n";

    for split in 0..=full.len() {
        let mut codec = ProtocolCodec::new();
        let mut b = full[..split].to_vec();

        let first = codec.decode(&mut b).unwrap();

        if split < full.len() {
            assert!(first.is_none(), "split={split} should not yet complete");

            b.extend_from_slice(&full[split..]);

            let cmd = codec.decode(&mut b).unwrap().expect("must complete after full input");

            assert_eq!(cmd.name_str(), "GET");
            assert_eq!(&cmd.arg_list()[0][..], b"hello");
        } else {
            let cmd = first.expect("complete input should decode immediately");

            assert_eq!(cmd.name_str(), "GET");
            assert_eq!(&cmd.arg_list()[0][..], b"hello");
        }
    }
}

#[test]
fn ping() {
    let c = once("*1\r\n$4\r\nPING\r\n").unwrap().unwrap();
    assert_eq!(c.name_str(), "PING");
    assert_eq!(c.arg_len(), 0);
}

#[test]
fn case_normalized() {
    assert_eq!(once("*1\r\n$4\r\nping\r\n").unwrap().unwrap().name_str(), "PING");
}

#[test]
fn get() {
    let c = once("*2\r\n$3\r\nGET\r\n$5\r\nhello\r\n").unwrap().unwrap();
    assert_eq!(&c.arg_list()[0][..], b"hello");
}

#[test]
fn binary_safe_embedded_crlf() {
    let c = once("*2\r\n$3\r\nSET\r\n$8\r\nfoo\r\nbar\r\n").unwrap().unwrap();
    assert_eq!(&c.arg_list()[0][..], b"foo\r\nbar");
}

#[test]
fn pipelined_commands() {
    let mut codec = ProtocolCodec::new();
    let mut b = buf("*1\r\n$4\r\nPING\r\n*1\r\n$4\r\nPING\r\n");
    assert_eq!(codec.decode(&mut b).unwrap().unwrap().name_str(), "PING");
    assert_eq!(codec.decode(&mut b).unwrap().unwrap().name_str(), "PING");
    assert!(b.is_empty());
}

#[test]
fn inline_ping() {
    assert_eq!(once("PING\r\n").unwrap().unwrap().name_str(), "PING");
}

#[test]
fn inline_lowercased_and_multi_space() {
    let c = once("set   foo   bar\r\n").unwrap().unwrap();
    assert_eq!(c.name_str(), "SET");
    assert_eq!(&c.arg_list()[0][..], b"foo");
    assert_eq!(&c.arg_list()[1][..], b"bar");
}

#[test]
fn err_empty_array() {
    assert!(once("*0\r\n").is_err());
}

#[test]
fn err_wrong_bulk_prefix() {
    assert!(once("*1\r\n+OK\r\n").is_err());
}

#[test]
fn err_array_len_exceeds_limit() {
    assert!(once("*99999999999\r\n").is_err());
}

#[test]
fn err_bulk_len_exceeds_limit() {
    assert!(once(&format!("*1\r\n${}\r\n", 512 * 1024 * 1024 + 1)).is_err());
}

#[test]
fn err_negative_length_rejected() {
    assert!(once("*1\r\n$-5\r\n").is_err());
}

#[test]
fn err_bad_crlf_after_bulk_data() {
    assert!(once("*1\r\n$3\r\nfooXX").is_err());
}

#[test]
fn raw_passthrough_drains_exact_bytes_then_resumes_decoding() {
    let mut codec = ProtocolCodec::new();
    codec.begin_raw_passthrough(5);
    assert!(codec.is_in_raw_passthrough());

    let mut b = b"REDIS*1\r\n$4\r\nPING\r\n".to_vec();
    let chunk = codec.read_raw(&mut b).unwrap();
    assert_eq!(&chunk[..], b"REDIS");
    assert!(!codec.is_in_raw_passthrough());

    let cmd = codec.decode(&mut b).unwrap().unwrap();
    assert_eq!(cmd.name_str(), "PING");
}

#[test]
fn raw_passthrough_across_multiple_reads() {
    let mut codec = ProtocolCodec::new();
    codec.begin_raw_passthrough(10);

    let mut b = b"12345".to_vec();
    let c1 = codec.read_raw(&mut b).unwrap();
    assert_eq!(&c1[..], b"12345");
    assert!(codec.is_in_raw_passthrough());

    b.extend_from_slice(b"67890");
    let c2 = codec.read_raw(&mut b).unwrap();
    assert_eq!(&c2[..], b"67890");
    assert!(!codec.is_in_raw_passthrough());
}

#[test]
fn decode_returns_none_during_passthrough() {
    let mut codec = ProtocolCodec::new();
    codec.begin_raw_passthrough(3);
    let mut b = b"*1\r\n$4\r\nPING\r\n".to_vec();
    assert!(codec.decode(&mut b).unwrap().is_none());
}

#[test]
fn decode_len_reads_a_length_line() {
    assert_eq!(decode_len(b"*12\r\nrest", b'*', 100).unwrap(), Some((12, 5)));
    assert_eq!(decode_len(b"*12", b'*', 100).unwrap(), None);
    assert!(decode_len(b"$12\r\n", b'*', 100).is_err());
    assert!(decode_len(b"*101\r\n", b'*', 100).is_err());
}

#[test]
fn decode_error_variants_are_protocol_errors() {
    assert!(matches!(once("*1\r\n+OK\r\n"), Err(ProtocolError::InvalidFrame { .. })));
    assert!(matches!(once("*99999999999\r\n"), Err(ProtocolError::ConstraintViolation(_))));
}

#[test]
fn inline_get_with_argument() {
    let c = once("get key\r\n").unwrap().unwrap();
    assert_eq!(c.name_str(), "GET");
    assert_eq!(c.arg_len(), 1);
    assert_eq!(&c.arg_list()[0][..], b"key");
}

fn array_text(items: &[&[u8]]) -> Vec<u8> {
    let mut out = format!("*{}\r\n", items.len()).into_bytes();
    for item in items {
        out.extend_from_slice(format!("${}\r\n", item.len()).as_bytes());
        out.extend_from_slice(item);
        out.extend_from_slice(b"\r\n");
    }
    out
}

#[test]
fn array_command_reads_back_with_trailing_bytes() {
    let items: [&[u8]; 3] = [b"mset", b"k\r\n", b""];
    let mut b = array_text(&items);
    b.extend_from_slice(b"*1\r\n");
    let mut codec = ProtocolCodec::new();
    let c = codec.decode(&mut b).unwrap().unwrap();
    assert_eq!(c.name_str(), "MSET");
    assert_eq!(c.arg_len(), 2);
    assert_eq!(&c.arg_list()[0][..], b"k\r\n");
    assert_eq!(&c.arg_list()[1][..], b"");
    assert_eq!(&b[..], b"*1\r\n");
}

#[test]
fn empty_array_header_is_dropped_and_decoding_resumes() {
    let mut codec = ProtocolCodec::new();
    let mut b = buf("*0\r\n");
    assert!(matches!(codec.decode(&mut b), Err(ProtocolError::InvalidFrame { .. })));
    assert!(b.is_empty());
    b.extend_from_slice(b"*1\r\n$4\r\nPING\r\n");
    assert_eq!(codec.decode(&mut b).unwrap().unwrap().name_str(), "PING");
    assert!(b.is_empty());
}

#[test]
fn bad_inline_line_is_dropped_through_its_line_feed() {
    let mut codec = ProtocolCodec::new();
    let mut b = buf(" get a\r\nPING\r\n");
    assert!(matches!(codec.decode(&mut b), Err(ProtocolError::InvalidFrame { position: 7, .. })));
    assert_eq!(&b[..], b"PING\r\n");
    assert_eq!(codec.decode(&mut b).unwrap().unwrap().name_str(), "PING");

    let mut b = buf("\nPING\r\n");
    assert!(matches!(codec.decode(&mut b), Err(ProtocolError::InvalidFrame { position: 0, .. })));
    assert_eq!(&b[..], b"PING\r\n");
}

#[test]
fn bad_bulk_length_leaves_its_line_in_the_buffer() {
    let mut codec = ProtocolCodec::new();
    let mut b = buf("*2\r\n$3\r\nGET\r\n$x\r\n");
    assert!(codec.decode(&mut b).is_err());
    assert_eq!(&b[..], b"$x\r\n");
}

#[test]
fn missing_crlf_after_data_leaves_the_data_in_the_buffer() {
    let mut codec = ProtocolCodec::new();
    let mut b = buf("*1\r\n$3\r\nfooXX");
    assert!(codec.decode(&mut b).is_err());
    assert_eq!(&b[..], b"fooXX");
}

#[test]
fn fresh_codec_reads_an_inline_command_fed_byte_by_byte() {
    let mut codec = ProtocolCodec::new();
    let mut b = Vec::new();
    let text = b"ping\r\n";
    for (i, byte) in text.iter().enumerate() {
        b.push(*byte);
        let r = codec.decode(&mut b).unwrap();
        if i + 1 < text.len() {
            assert!(r.is_none());
        } else {
            assert_eq!(r.unwrap().name_str(), "PING");
        }
    }
    assert!(b.is_empty());
}
