//! RESP2 encoding of replies.

use vstd::prelude::*;

use crate::protocol::reply::{CommandError, ErrorView, Reply, ReplyView, reply_view};
use crate::util::{append_bytes, decimal, push_decimal, signed_decimal};

verus! {

broadcast use vstd::std_specs::vec::group_vec_axioms;

pub open spec fn crlf() -> Seq<u8> {
    seq![13u8, 10]
}

/// The text of an error reply after its leading `-`.
pub open spec fn error_text(e: ErrorView) -> Seq<u8> {
    match e {
        ErrorView::UnknownCommand => seq![
            69u8, 82, 82, 32, 117, 110, 107, 110, 111, 119, 110, 32, 99, 111, 109, 109, 97, 110,
            100, 13, 10,
        ],
        ErrorView::WrongArity => seq![
            69u8, 82, 82, 32, 119, 114, 111, 110, 103, 32, 110, 117, 109, 98, 101, 114, 32, 111,
            102, 32, 97, 114, 103, 117, 109, 101, 110, 116, 115, 13, 10,
        ],
        ErrorView::WrongType => seq![
            87u8, 82, 79, 78, 71, 84, 89, 80, 69, 32, 79, 112, 101, 114, 97, 116, 105, 111, 110,
            32, 97, 103, 97, 105, 110, 115, 116, 32, 97, 32, 107, 101, 121, 32, 104, 111, 108,
            100, 105, 110, 103, 32, 116, 104, 101, 32, 119, 114, 111, 110, 103, 32, 107, 105,
            110, 100, 32, 111, 102, 32, 118, 97, 108, 117, 101, 13, 10,
        ],
        ErrorView::OutOfRange => seq![
            69u8, 82, 82, 32, 118, 97, 108, 117, 101, 32, 111, 117, 116, 32, 111, 102, 32, 114,
            97, 110, 103, 101, 13, 10,
        ],
        ErrorView::Syntax => seq![
            69u8, 82, 82, 32, 115, 121, 110, 116, 97, 120, 32, 101, 114, 114, 111, 114, 13, 10,
        ],
        ErrorView::Internal => seq![
            69u8, 82, 82, 32, 105, 110, 116, 101, 114, 110, 97, 108, 32, 101, 114, 114, 111,
            114, 13, 10,
        ],
        ErrorView::Custom(msg) => seq![69u8, 82, 82, 32] + msg + crlf(),
    }
}

/// The RESP2 bytes of a reply.
pub open spec fn encode_spec(r: ReplyView) -> Seq<u8>
    decreases r,
{
    match r {
        ReplyView::OK => seq![43u8, 79, 75, 13, 10],
        ReplyView::Pong => seq![43u8, 80, 79, 78, 71, 13, 10],
        ReplyView::Null => seq![36u8, 45, 49, 13, 10],
        ReplyView::NullArray => seq![42u8, 45, 49, 13, 10],
        ReplyView::Integer(n) => seq![58u8] + signed_decimal(n as int) + crlf(),
        ReplyView::Simple(d) => seq![43u8] + d + crlf(),
        ReplyView::Bulk(d) => seq![36u8] + decimal(d.len()) + crlf() + d + crlf(),
        ReplyView::Array(items) => seq![42u8] + decimal(items.len()) + crlf() + encode_items_spec(
            items,
        ),
        ReplyView::Error(e) => seq![45u8] + error_text(e),
    }
}

/// The RESP2 bytes of several replies, one after another.
pub open spec fn encode_items_spec(items: Seq<ReplyView>) -> Seq<u8>
    decreases items,
{
    if items.len() == 0 {
        Seq::empty()
    } else {
        encode_items_spec(items.subrange(0, items.len() - 1)) + encode_spec(items[items.len() - 1])
    }
}

/// Appends `n` in decimal.
fn encode_u64(buf: &mut Vec<u8>, n: u64)
    ensures
        final(buf)@ == old(buf)@ + decimal(n as nat),
{
    push_decimal(buf, n);
}

/// Appends `n` in decimal, with a leading `-` when negative.
fn encode_i64(buf: &mut Vec<u8>, n: i64)
    ensures
        final(buf)@ == old(buf)@ + signed_decimal(n as int),
{
    if n < 0 {
        buf.push(45);
        let mag: u64 = if n == i64::MIN {
            9223372036854775808
        } else {
            (-n) as u64
        };
        encode_u64(buf, mag);
        assert(old(buf)@ + signed_decimal(n as int) =~= old(buf)@.push(45u8) + decimal(
            mag as nat,
        ));
    } else {
        encode_u64(buf, n as u64);
    }
}

fn encode_error(err: &CommandError, buf: &mut Vec<u8>)
    ensures
        final(buf)@ == old(buf)@ + error_text(err@),
{
    match err {
        CommandError::UnknownCommand => {
            let s = [
                69u8, 82, 82, 32, 117, 110, 107, 110, 111, 119, 110, 32, 99, 111, 109, 109, 97,
                110, 100, 13, 10,
            ];
            assert(s@ == error_text(err@));
            append_bytes(buf, &s);
        },
        CommandError::WrongArity => {
            let s = [
                69u8, 82, 82, 32, 119, 114, 111, 110, 103, 32, 110, 117, 109, 98, 101, 114, 32,
                111, 102, 32, 97, 114, 103, 117, 109, 101, 110, 116, 115, 13, 10,
            ];
            assert(s@ == error_text(err@));
            append_bytes(buf, &s);
        },
        CommandError::WrongType => {
            let s = [
                87u8, 82, 79, 78, 71, 84, 89, 80, 69, 32, 79, 112, 101, 114, 97, 116, 105, 111,
                110, 32, 97, 103, 97, 105, 110, 115, 116, 32, 97, 32, 107, 101, 121, 32, 104, 111,
                108, 100, 105, 110, 103, 32, 116, 104, 101, 32, 119, 114, 111, 110, 103, 32, 107,
                105, 110, 100, 32, 111, 102, 32, 118, 97, 108, 117, 101, 13, 10,
            ];
            assert(s@ == error_text(err@));
            append_bytes(buf, &s);
        },
        CommandError::OutOfRange => {
            let s = [
                69u8, 82, 82, 32, 118, 97, 108, 117, 101, 32, 111, 117, 116, 32, 111, 102, 32,
                114, 97, 110, 103, 101, 13, 10,
            ];
            assert(s@ == error_text(err@));
            append_bytes(buf, &s);
        },
        CommandError::Syntax => {
            let s = [
                69u8, 82, 82, 32, 115, 121, 110, 116, 97, 120, 32, 101, 114, 114, 111, 114, 13,
                10,
            ];
            assert(s@ == error_text(err@));
            append_bytes(buf, &s);
        },
        CommandError::Internal => {
            let s = [
                69u8, 82, 82, 32, 105, 110, 116, 101, 114, 110, 97, 108, 32, 101, 114, 114, 111,
                114, 13, 10,
            ];
            assert(s@ == error_text(err@));
            append_bytes(buf, &s);
        },
        CommandError::Custom(msg) => {
            let p = [69u8, 82, 82, 32];
            append_bytes(buf, &p);
            append_bytes(buf, msg.as_slice());
            let e = [13u8, 10];
            append_bytes(buf, &e);
            assert(final(buf)@ =~= old(buf)@ + error_text(err@));
        },
    }
}

/// Appends the RESP2 encoding of `reply` to `buf`.
pub fn encode(reply: &Reply, buf: &mut Vec<u8>)
    ensures
        final(buf)@ == old(buf)@ + encode_spec(reply@),
    decreases reply,
{
    match reply {
        Reply::OK => {
            let s = [43u8, 79, 75, 13, 10];
            append_bytes(buf, &s);
        },
        Reply::Pong => {
            let s = [43u8, 80, 79, 78, 71, 13, 10];
            append_bytes(buf, &s);
        },
        Reply::Null => {
            let s = [36u8, 45, 49, 13, 10];
            append_bytes(buf, &s);
        },
        Reply::NullArray => {
            let s = [42u8, 45, 49, 13, 10];
            append_bytes(buf, &s);
        },
        Reply::Integer(n) => {
            buf.push(58);
            encode_i64(buf, *n);
            buf.push(13);
            buf.push(10);
            assert(final(buf)@ =~= old(buf)@ + encode_spec(reply@));
        },
        Reply::Simple(data) => {
            buf.push(43);
            append_bytes(buf, data.as_slice());
            buf.push(13);
            buf.push(10);
            assert(final(buf)@ =~= old(buf)@ + encode_spec(reply@));
        },
        Reply::Bulk(data) => {
            buf.push(36);
            encode_u64(buf, data.len() as u64);
            buf.push(13);
            buf.push(10);
            append_bytes(buf, data.as_slice());
            buf.push(13);
            buf.push(10);
            assert(final(buf)@ =~= old(buf)@ + encode_spec(reply@));
        },
        Reply::Array(items) => {
            buf.push(42);
            encode_u64(buf, items.len() as u64);
            buf.push(13);
            buf.push(10);
            let ghost head = buf@;
            let ghost views = reply@->Array_0;
            assert(views.take(0) =~= Seq::<ReplyView>::empty());
            let mut i: usize = 0;
            while i < items.len()
                invariant
                    0 <= i <= items@.len(),
                    *reply is Array,
                    (*reply)->Array_0 == *items,
                    views.len() == items@.len(),
                    forall|j: int| 0 <= j < items@.len() ==> views[j] == reply_view(#[trigger] items@[j]),
                    buf@ == head + encode_items_spec(views.take(i as int)),
                decreases items@.len() - i,
            {
                proof {
                    vstd::std_specs::vec::axiom_vec_index_decreases(*items, i as int);
                    assert(decreases_to!(*reply => (*reply)->Array_0));
                }
                encode(&items[i], buf);
                i = i + 1;
                assert(views.take(i as int).subrange(0, i - 1) =~= views.take(i - 1));
            }
            assert(views.take(i as int) =~= views);
            assert(final(buf)@ =~= old(buf)@ + encode_spec(reply@));
        },
        Reply::Error(err) => {
            buf.push(45);
            encode_error(err, buf);
            assert(final(buf)@ =~= old(buf)@ + encode_spec(reply@));
        },
    }
}

} // verus!
