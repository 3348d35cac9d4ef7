//! RESP2 decoding of commands, as arrays of bulk strings or as inline lines.
//!
//! The grammar is stated over the whole byte stream from the start of a
//! command (`parse_frame`); the decoder may take that stream in pieces, and its
//! contract says that it answers as if it had read all of it at once.

use vstd::prelude::*;
use vstd::string::{StringExecFns, StringSliceAdditionalSpecFns};

use crate::protocol::command::{
    Args, Command, CommandView, arg_items, args_len, args_new, args_push, args_remove_first,
};
use crate::protocol::codec::{DecoderState, Frame};
use crate::protocol::error::{ProtocolError, ProtocolErrorView, Result};
use crate::util::{
    ascii_text, char_string, decimal, decimal_string, find_byte, find_other, index_of, index_of_or_len, index_other,
    index_other_or_len,
    lemma_index_of_extend, lemma_index_of_take, parse_u64_bytes, spec_bytes_to_u64, utf8_text,
};

verus! {

broadcast use vstd::string::group_string_axioms, vstd::std_specs::vec::group_vec_axioms;

/// Most arguments that one command may carry.
pub const MAX_ARRAY_LEN: usize = 1024 * 1024;

/// Largest bulk string that one argument may hold.
pub const MAX_BULK_LEN: usize = 512 * 1024 * 1024;

pub open spec fn upper_byte(c: u8) -> u8 {
    if 97 <= c <= 122 {
        (c - 32) as u8
    } else {
        c
    }
}

/// `s` with its ASCII lower-case letters made upper-case.
pub open spec fn upper(s: Seq<u8>) -> Seq<u8> {
    Seq::new(s.len(), |i: int| upper_byte(s[i]))
}

pub open spec fn invalid(position: int, reason: Seq<char>) -> ProtocolErrorView {
    ProtocolErrorView::InvalidFrame { position: position as nat, reason }
}

pub open spec fn expected_reason(prefix: u8) -> Seq<char> {
    "Expected '"@ + seq![prefix as char] + "'"@
}

pub open spec fn limit_reason(value: nat, max: nat) -> Seq<char> {
    "Value "@ + ascii_text(decimal(value)) + " exceeds limit "@ + ascii_text(decimal(max))
}

/// What a length line (`<prefix><digits>\r\n`) at the front of a buffer says.
pub enum LenLine {
    /// No line feed yet: more bytes are needed.
    Incomplete,
    Invalid(ProtocolErrorView),
    /// The length, and the number of bytes of the line.
    Value(nat, nat),
}

/// The length line at the front of `s`, with its limit `max`.
#[verifier::opaque]
pub open spec fn len_line(s: Seq<u8>, prefix: u8, max: nat) -> LenLine {
    if s.len() == 0 {
        LenLine::Incomplete
    } else if s[0] != prefix {
        LenLine::Invalid(invalid(0, expected_reason(prefix)))
    } else {
        match index_of(s, 10u8) {
            None => LenLine::Incomplete,
            Some(nl) => if nl < 2 || s[nl - 1] != 13u8 {
                LenLine::Invalid(invalid(nl, "Missing CR before LF"@))
            } else {
                let digits = s.subrange(1, nl - 1);
                if digits.len() == 0 {
                    LenLine::Invalid(invalid(1, "Empty length field"@))
                } else if !vstd::utf8::valid_utf8(digits) {
                    LenLine::Invalid(invalid(1, "Invalid UTF8 in length field"@))
                } else {
                    match spec_bytes_to_u64(digits) {
                        Some(v) => if v > usize::MAX {
                            LenLine::Invalid(invalid(1, "Length is not a non-negative integer"@))
                        } else if v > max {
                            LenLine::Invalid(
                                ProtocolErrorView::ConstraintViolation(
                                    limit_reason(v as nat, max),
                                ),
                            )
                        } else {
                            LenLine::Value(v as nat, (nl + 1) as nat)
                        },
                        None => LenLine::Invalid(
                            invalid(1, "Length is not a non-negative integer"@),
                        ),
                    }
                }
            },
        }
    }
}

/// One step of reading a bulk string.
pub enum BulkStep {
    Incomplete,
    Failed(ProtocolErrorView),
    /// The data, and the position just after its trailing CRLF.
    Item(Seq<u8>, int),
}

/// The data of a bulk string of length `len` that starts at `q` in `s`.
pub open spec fn data_step(s: Seq<u8>, q: int, len: nat) -> BulkStep {
    if s.len() < q + len + 2 {
        BulkStep::Incomplete
    } else if s[q + len] != 13u8 || s[q + len + 1] != 10u8 {
        BulkStep::Failed(invalid(len as int, "Missing CRLF after bulk data"@))
    } else {
        BulkStep::Item(s.subrange(q, q + len), q + len + 2)
    }
}

/// The bulk string (`$<len>\r\n<data>\r\n`) that starts at `p` in `s`.
pub open spec fn bulk_item(s: Seq<u8>, p: int) -> BulkStep {
    match len_line(s.skip(p), 36u8, MAX_BULK_LEN as nat) {
        LenLine::Incomplete => BulkStep::Incomplete,
        LenLine::Invalid(e) => BulkStep::Failed(e),
        LenLine::Value(len, n) => data_step(s, p + n, len),
    }
}

/// What a byte stream holds at its front.
pub enum Parsed {
    /// The command is not complete yet.
    Incomplete,
    Failed(ProtocolErrorView),
    /// A complete command, and the number of bytes it takes.
    Done(CommandView, nat),
}

/// The command that an array of bulk strings spells: its first item, in upper
/// case, names it.
pub open spec fn command_of(items: Seq<Seq<u8>>) -> CommandView {
    CommandView { name: upper(items[0]), args: items.drop_first() }
}

/// Reads `remaining` more bulk strings from `p`, after the `items` read so far.
pub open spec fn parse_items(s: Seq<u8>, p: int, remaining: nat, items: Seq<Seq<u8>>) -> Parsed
    decreases remaining,
{
    if remaining == 0 {
        Parsed::Done(command_of(items), p as nat)
    } else {
        match bulk_item(s, p) {
            BulkStep::Incomplete => Parsed::Incomplete,
            BulkStep::Failed(e) => Parsed::Failed(e),
            BulkStep::Item(d, q) => parse_items(s, q, (remaining - 1) as nat, items.push(d)),
        }
    }
}

/// `k` complete bulk strings from `p`: where they end, and their data.
pub open spec fn scan_items(s: Seq<u8>, p: int, k: nat) -> Option<(int, Seq<Seq<u8>>)>
    decreases k,
{
    if k == 0 {
        Some((p, Seq::empty()))
    } else {
        match scan_items(s, p, (k - 1) as nat) {
            None => None,
            Some((q, items)) => match bulk_item(s, q) {
                BulkStep::Item(d, r) => Some((r, items.push(d))),
                _ => None,
            },
        }
    }
}

/// A command sent as an array of bulk strings: `*<n>\r\n` then `n` items.
pub open spec fn parse_array(s: Seq<u8>) -> Parsed {
    match len_line(s, 42u8, MAX_ARRAY_LEN as nat) {
        LenLine::Incomplete => Parsed::Incomplete,
        LenLine::Invalid(e) => Parsed::Failed(e),
        LenLine::Value(count, n) => if count == 0 {
            Parsed::Failed(invalid(0, "Empty command (zero-length array)"@))
        } else {
            parse_items(s, n as int, count, Seq::empty())
        },
    }
}

/// The words of `s` that runs of spaces separate.
pub open spec fn split_tokens(s: Seq<u8>) -> Seq<Seq<u8>>
    decreases s.len(),
{
    let r = s.skip(index_other_or_len(s, 32u8));
    if r.len() == 0 {
        Seq::empty()
    } else {
        let e = index_of_or_len(r, 32u8);
        if e <= 0 {
            seq![r]
        } else {
            seq![r.take(e)] + split_tokens(r.skip(e))
        }
    }
}

/// `s` without one trailing carriage return.
pub open spec fn strip_cr(s: Seq<u8>) -> Seq<u8> {
    if s.len() > 0 && s.last() == 13u8 {
        s.drop_last()
    } else {
        s
    }
}

/// A command sent as one line of words.
pub open spec fn parse_inline(s: Seq<u8>) -> Parsed {
    match index_of(s, 10u8) {
        None => Parsed::Incomplete,
        Some(end) => if end == 0 {
            Parsed::Failed(invalid(0, "Empty line"@))
        } else {
            let line = strip_cr(s.take(end));
            let name_end = index_of_or_len(line, 32u8);
            if name_end == 0 {
                Parsed::Failed(invalid(end, "Empty command"@))
            } else {
                Parsed::Done(
                    CommandView {
                        name: upper(line.take(name_end)),
                        args: split_tokens(line.skip(name_end)),
                    },
                    (end + 1) as nat,
                )
            }
        },
    }
}

/// The command at the front of the stream `s`. `array_mode` says that the
/// decoder has already committed to the array form.
pub open spec fn parse_frame(s: Seq<u8>, array_mode: bool) -> Parsed {
    if array_mode || (s.len() > 0 && s[0] == 42u8) {
        parse_array(s)
    } else if s.len() == 0 {
        Parsed::Incomplete
    } else {
        parse_inline(s)
    }
}

/// The message that a limit error carries.
fn limit_message(value: usize, max: usize) -> (r: String)
    ensures
        r@ == limit_reason(value as nat, max as nat),
{
    let mut out = String::from_str("Value ");
    out.append(decimal_string(value).as_str());
    out.append(" exceeds limit ");
    out.append(decimal_string(max).as_str());
    out
}

/// The message for a wrong line prefix.
fn expected_message(prefix: u8) -> (r: String)
    ensures
        r@ == expected_reason(prefix),
{
    let mut out = String::from_str("Expected '");
    out.append(char_string(prefix).as_str());
    out.append("'");
    out
}

fn frame_error(position: usize, reason: &str) -> (r: ProtocolError)
    ensures
        r@ == invalid(position as int, reason@),
{
    ProtocolError::InvalidFrame { position, reason: reason.to_string() }
}

/// Removes the first `n` bytes of `buf` and returns them.
pub(crate) fn take_front(buf: &mut Vec<u8>, n: usize) -> (r: Vec<u8>)
    requires
        n <= old(buf)@.len(),
    ensures
        r@ == old(buf)@.take(n as int),
        final(buf)@ == old(buf)@.skip(n as int),
{
    let mut rest = buf.split_off(n);
    std::mem::swap(buf, &mut rest);
    rest
}

/// Drops the first `n` bytes of `buf`.
pub(crate) fn advance(buf: &mut Vec<u8>, n: usize)
    requires
        n <= old(buf)@.len(),
    ensures
        final(buf)@ == old(buf)@.skip(n as int),
{
    let _ = take_front(buf, n);
}

/// Reads the length line at the front of `buf`: `Ok(None)` when it is not
/// complete, else its value and its length in bytes.
pub fn decode_len(buf: &[u8], expect_prefix: u8, max_value: usize) -> (r: Result<
    Option<(usize, usize)>,
>)
    ensures
        match len_line(buf@, expect_prefix, max_value as nat) {
            LenLine::Incomplete => r matches Ok(None),
            LenLine::Invalid(e) => r matches Err(pe) && pe@ == e,
            LenLine::Value(v, n) => r matches Ok(Some((a, b))) && a == v && b == n,
        },
{
    reveal(len_line);
    if buf.len() == 0 {
        return Ok(None);
    }
    if buf[0] != expect_prefix {
        return Err(ProtocolError::InvalidFrame { position: 0, reason: expected_message(expect_prefix) });
    }
    let nl = match find_byte(buf, 10) {
        Some(p) => p,
        None => return Ok(None),
    };
    if nl < 2 || buf[nl - 1] != 13 {
        return Err(frame_error(nl, "Missing CR before LF"));
    }
    let digits = &buf[1..nl - 1];
    assert(digits@ == buf@.subrange(1, nl - 1));
    if digits.len() == 0 {
        return Err(frame_error(1, "Empty length field"));
    }
    if utf8_text(digits).is_none() {
        return Err(frame_error(1, "Invalid UTF8 in length field"));
    }
    let v = match parse_u64_bytes(digits) {
        Some(v) => v,
        None => return Err(frame_error(1, "Length is not a non-negative integer")),
    };
    if v > usize::MAX as u64 {
        return Err(frame_error(1, "Length is not a non-negative integer"));
    }
    let val = v as usize;
    if val > max_value {
        return Err(ProtocolError::ConstraintViolation(limit_message(val, max_value)));
    }
    Ok(Some((val, nl + 1)))
}

/// Makes the first `k` bytes of `line` upper-case.
fn upper_prefix(line: &mut Vec<u8>, k: usize)
    requires
        k <= old(line)@.len(),
    ensures
        final(line)@ == upper(old(line)@.take(k as int)) + old(line)@.skip(k as int),
{
    let mut i: usize = 0;
    while i < k
        invariant
            0 <= i <= k <= line@.len(),
            line@.len() == old(line)@.len(),
            forall|j: int| 0 <= j < i ==> line@[j] == upper_byte(old(line)@[j]),
            forall|j: int| i <= j < line@.len() ==> line@[j] == old(line)@[j],
        decreases k - i,
    {
        let c = line[i];
        if 97 <= c && c <= 122 {
            line[i] = c - 32;
        }
        i = i + 1;
    }
    assert(line@ =~= upper(old(line)@.take(k as int)) + old(line)@.skip(k as int));
}

proof fn lemma_split_tokens_step(s: Seq<u8>)
    ensures
        ({
            let r = s.skip(index_other_or_len(s, 32u8));
            &&& 0 <= index_other_or_len(s, 32u8) <= s.len()
            &&& r.len() > 0 ==> r[0] != 32u8
            &&& r.len() > 0 ==> 0 < index_of_or_len(r, 32u8) <= r.len()
            &&& r.len() > 0 ==> split_tokens(s) == seq![r.take(index_of_or_len(r, 32u8))]
                + split_tokens(r.skip(index_of_or_len(r, 32u8)))
            &&& r.len() == 0 ==> split_tokens(s) == Seq::<Seq<u8>>::empty()
        }),
{
    let start = index_other_or_len(s, 32u8);
    if let Some(i) = index_other(s, 32u8) {
        assert(crate::util::is_first_other(s, 32u8, i));
    } else {
        assert(!exists|i: int| crate::util::is_first_other(s, 32u8, i));
    }
    let r = s.skip(start);
    if r.len() > 0 {
        if let Some(i) = index_other(s, 32u8) {
            assert(r[0] == s[i]);
        }
        if let Some(e) = index_of(r, 32u8) {
            assert(crate::util::is_first_index(r, 32u8, e));
        }
    }
}

/// Reads one line of words from the front of `buf`: the first word, in upper
/// case, names the command.
fn decode_inline(buf: &mut Vec<u8>) -> (r: Result<Option<Command>>)
    ensures
        match parse_inline(old(buf)@) {
            Parsed::Incomplete => r matches Ok(None) && final(buf)@ == old(buf)@,
            Parsed::Failed(e) => r matches Err(pe) && pe@ == e && final(buf)@ == old(buf)@.skip(
                index_of(old(buf)@, 10u8)->Some_0 + 1,
            ),
            Parsed::Done(c, n) => r matches Ok(Some(cmd)) && cmd@ == c && final(buf)@ == old(
                buf,
            )@.skip(n as int),
        },
{
    let end = match find_byte(buf.as_slice(), 10) {
        Some(p) => p,
        None => return Ok(None),
    };
    if end == 0 {
        advance(buf, 1);
        return Err(frame_error(0, "Empty line"));
    }
    let ghost s = buf@;
    assert(crate::util::is_first_index(s, 10u8, end as int));
    let blen = buf.len();
    assert(end < blen);
    let mut line = take_front(buf, end + 1);
    let l1 = line.len() - 1;
    line.truncate(l1);
    assert(line@ =~= s.take(end as int));
    if line.len() > 0 && line[line.len() - 1] == 13 {
        let l2 = line.len() - 1;
        line.truncate(l2);
    }
    assert(line@ =~= strip_cr(s.take(end as int)));
    let ghost whole_line = line@;
    let name_end = match find_byte(line.as_slice(), 32) {
        Some(p) => p,
        None => line.len(),
    };
    if name_end == 0 {
        return Err(frame_error(end, "Empty command"));
    }
    upper_prefix(&mut line, name_end);
    let name = take_front(&mut line, name_end);
    assert(name@ =~= upper(whole_line.take(name_end as int)));
    assert(line@ =~= whole_line.skip(name_end as int));
    let ghost rest0 = line@;
    let mut tokens = args_new();
    while line.len() > 0
        invariant
            arg_items(tokens) + split_tokens(line@) == split_tokens(rest0),
        decreases line@.len(),
    {
        proof {
            lemma_split_tokens_step(line@);
        }
        let ghost before = line@;
        let start = match find_other(line.as_slice(), 32) {
            Some(p) => p,
            None => line.len(),
        };
        advance(&mut line, start);
        if line.len() > 0 {
            let e = match find_byte(line.as_slice(), 32) {
                Some(p) => p,
                None => line.len(),
            };
            let tok = take_front(&mut line, e);
            let ghost items_before = arg_items(tokens);
            args_push(&mut tokens, tok);
            assert(arg_items(tokens) + split_tokens(line@) =~= items_before + split_tokens(before));
        } else {
            assert(arg_items(tokens) + split_tokens(line@) =~= arg_items(tokens) + split_tokens(before));
        }
    }
    assert(split_tokens(line@) =~= Seq::<Seq<u8>>::empty());
    assert(arg_items(tokens) =~= split_tokens(rest0));
    Ok(Some(Command::new(name, tokens)))
}

// ---------------------------------------------------------------------------
// What the bytes already taken stand for, in each state.
// ---------------------------------------------------------------------------

pub open spec fn frame_ok(f: Frame) -> bool {
    &&& 1 <= f.expected_args <= MAX_ARRAY_LEN
    &&& f.current_index < f.expected_args
    &&& arg_items(f.args).len() == f.current_index
}

/// The decoder state `st` is the one reached after taking the bytes `c` of a
/// command: an array header and `current_index` complete bulk strings, then,
/// in `ReadingBulkData`, the length line of the next one.
pub open spec fn state_matches(st: DecoderState, c: Seq<u8>) -> bool {
    match st {
        DecoderState::ReadingBulkLength { frame } => frame_ok(frame) && match len_line(
            c,
            42u8,
            MAX_ARRAY_LEN as nat,
        ) {
            LenLine::Value(e, n0) => e == frame.expected_args && scan_items(
                c,
                n0 as int,
                frame.current_index as nat,
            ) == Some((c.len() as int, arg_items(frame.args))),
            _ => false,
        },
        DecoderState::ReadingBulkData { frame, remaining } => frame_ok(frame) && match len_line(
            c,
            42u8,
            MAX_ARRAY_LEN as nat,
        ) {
            LenLine::Value(e, n0) => e == frame.expected_args && match scan_items(
                c,
                n0 as int,
                frame.current_index as nat,
            ) {
                Some((p, items)) => items == arg_items(frame.args) && 0 <= p <= c.len()
                    && len_line(c.skip(p), 36u8, MAX_BULK_LEN as nat) == LenLine::Value(
                    remaining as nat,
                    (c.len() - p) as nat,
                ),
                None => false,
            },
            _ => false,
        },
        _ => c.len() == 0,
    }
}

/// The decoder has committed to the array form.
pub open spec fn is_array_state(st: DecoderState) -> bool {
    !(st is Idle)
}

/// The stream `s` is read as an array of bulk strings.
pub open spec fn reads_array(s: Seq<u8>, array_mode: bool) -> bool {
    array_mode || (s.len() > 0 && s[0] == 42u8)
}

/// The length of the header of an empty array (`*0\r\n`) at the front of `s`,
/// if `s` starts with one.
pub open spec fn empty_array_header(s: Seq<u8>) -> Option<nat> {
    match len_line(s, 42u8, MAX_ARRAY_LEN as nat) {
        LenLine::Value(count, n) => if count == 0 {
            Some(n)
        } else {
            None
        },
        _ => None,
    }
}

/// Where reading `remaining` bulk strings from `p` in `s` stops on an error:
/// at the start of a bulk string whose length line is wrong, or just after the
/// length line of one whose data lacks its CRLF.
pub open spec fn items_stop(s: Seq<u8>, p: int, remaining: nat) -> int
    decreases remaining,
{
    if remaining == 0 {
        p
    } else {
        match bulk_item(s, p) {
            BulkStep::Item(_, q) => items_stop(s, q, (remaining - 1) as nat),
            _ => match len_line(s.skip(p), 36u8, MAX_BULK_LEN as nat) {
                LenLine::Value(_, n) => p + n,
                _ => p,
            },
        }
    }
}

/// Where reading the array at the front of `s` stops on an error: the bytes
/// before it are the ones the decoder keeps taken.
pub open spec fn array_stop(s: Seq<u8>) -> int {
    match len_line(s, 42u8, MAX_ARRAY_LEN as nat) {
        LenLine::Value(count, n) => items_stop(s, n as int, count),
        _ => 0,
    }
}

/// What `decode` answers, and what it leaves, for the stream `total` of which
/// the bytes `pending` stay taken and `rest` stays in the buffer; `now_array`
/// and `now_idle` say whether the decoder is then committed to the array form
/// or waits for the start of a command.
///
/// On an error: a bad inline line is dropped through its line feed and the
/// decoder is idle again; so is the header of an empty array. Any other error
/// in an array leaves every byte before the faulty part taken (the header,
/// the complete bulk strings, and the length line of a bulk string whose data
/// lacks its CRLF), the rest in the buffer, and the decoder where it was.
pub open spec fn decode_outcome(
    total: Seq<u8>,
    array_mode: bool,
    r: Result<Option<Command>>,
    pending: Seq<u8>,
    rest: Seq<u8>,
    now_array: bool,
    now_idle: bool,
) -> bool {
    &&& now_idle == !now_array
    &&& match parse_frame(total, array_mode) {
        Parsed::Incomplete => r matches Ok(None) && pending + rest == total && now_array
            == reads_array(total, array_mode),
        Parsed::Failed(e) => r matches Err(pe) && pe@ == e && if !reads_array(total, array_mode) {
            pending.len() == 0 && rest == total.skip(index_of(total, 10u8)->Some_0 + 1) && now_idle
        } else if empty_array_header(total) is Some {
            pending.len() == 0 && rest == total.skip(empty_array_header(total)->Some_0 as int)
                && now_idle
        } else {
            pending == total.take(array_stop(total)) && rest == total.skip(array_stop(total))
                && now_array
        },
        Parsed::Done(c, n) => r matches Ok(Some(cmd)) && cmd@ == c && rest == total.skip(n as int)
            && pending.len() == 0 && now_idle,
    }
}

pub open spec fn state_rank(st: DecoderState) -> nat {
    match st {
        DecoderState::Idle => 3,
        DecoderState::ReadingArrayLength => 2,
        DecoderState::ReadingBulkLength { .. } => 1,
        _ => 0,
    }
}

// ---------------------------------------------------------------------------
// Bytes after a complete unit do not change how it reads.
// ---------------------------------------------------------------------------

proof fn lemma_len_line_facts(s: Seq<u8>, prefix: u8, max: nat)
    ensures
        len_line(s, prefix, max) matches LenLine::Value(v, n) ==> 3 <= n <= s.len() && v <= max
            && v <= usize::MAX,
{
    reveal(len_line);
    if let Some(nl) = index_of(s, 10u8) {
        assert(crate::util::is_first_index(s, 10u8, nl));
    }
}

pub proof fn lemma_len_line_extend(s: Seq<u8>, t: Seq<u8>, prefix: u8, max: nat)
    requires
        !(len_line(s, prefix, max) is Incomplete),
    ensures
        len_line(s + t, prefix, max) == len_line(s, prefix, max),
{
    reveal(len_line);
    assert((s + t)[0] == s[0]);
    if s[0] == prefix {
        lemma_index_of_extend(s, t, 10u8);
        let nl = index_of(s, 10u8)->Some_0;
        assert(crate::util::is_first_index(s, 10u8, nl));
        if nl >= 2 {
            assert((s + t)[nl - 1] == s[nl - 1]);
            assert((s + t).subrange(1, nl - 1) =~= s.subrange(1, nl - 1));
        }
    }
}

pub proof fn lemma_len_line_take(s: Seq<u8>, prefix: u8, max: nat, k: int)
    requires
        len_line(s, prefix, max) matches LenLine::Value(v, n) && n <= k <= s.len(),
    ensures
        len_line(s.take(k), prefix, max) == len_line(s, prefix, max),
{
    reveal(len_line);
    let nl = index_of(s, 10u8)->Some_0;
    assert(crate::util::is_first_index(s, 10u8, nl));
    lemma_index_of_take(s, 10u8, k);
    assert(s.take(k)[0] == s[0]);
    assert(s.take(k)[nl - 1] == s[nl - 1]);
    assert(s.take(k).subrange(1, nl - 1) =~= s.subrange(1, nl - 1));
}

proof fn lemma_bulk_item_facts(s: Seq<u8>, p: int)
    requires
        0 <= p <= s.len(),
    ensures
        bulk_item(s, p) matches BulkStep::Item(d, q) ==> p < q <= s.len(),
{
    lemma_len_line_facts(s.skip(p), 36u8, MAX_BULK_LEN as nat);
}

pub proof fn lemma_bulk_item_extend(s: Seq<u8>, t: Seq<u8>, p: int)
    requires
        0 <= p <= s.len(),
        !(bulk_item(s, p) is Incomplete),
    ensures
        bulk_item(s + t, p) == bulk_item(s, p),
{
    assert((s + t).skip(p) =~= s.skip(p) + t);
    lemma_len_line_extend(s.skip(p), t, 36u8, MAX_BULK_LEN as nat);
    lemma_len_line_facts(s.skip(p), 36u8, MAX_BULK_LEN as nat);
    if let LenLine::Value(len, n) = len_line(s.skip(p), 36u8, MAX_BULK_LEN as nat) {
        let q = p + n;
        if s.len() >= q + len + 2 {
            assert((s + t)[q + len] == s[q + len]);
            assert((s + t)[q + len + 1] == s[q + len + 1]);
            assert((s + t).subrange(q, q + len) =~= s.subrange(q, q + len));
        }
    }
}

pub proof fn lemma_scan_extend(s: Seq<u8>, t: Seq<u8>, p: int, k: nat)
    requires
        0 <= p <= s.len(),
        scan_items(s, p, k) is Some,
    ensures
        scan_items(s + t, p, k) == scan_items(s, p, k),
        p <= scan_items(s, p, k)->Some_0.0 <= s.len(),
        scan_items(s, p, k)->Some_0.1.len() == k,
    decreases k,
{
    if k > 0 {
        lemma_scan_extend(s, t, p, (k - 1) as nat);
        let q = scan_items(s, p, (k - 1) as nat)->Some_0.0;
        lemma_bulk_item_extend(s, t, q);
        lemma_bulk_item_facts(s, q);
    }
}

pub proof fn lemma_scan_parse(s: Seq<u8>, p: int, k: nat, m: nat, acc: Seq<Seq<u8>>)
    requires
        scan_items(s, p, k) is Some,
        k <= m,
    ensures
        parse_items(s, p, m, acc) == parse_items(
            s,
            scan_items(s, p, k)->Some_0.0,
            (m - k) as nat,
            acc + scan_items(s, p, k)->Some_0.1,
        ),
    decreases k,
{
    if k == 0 {
        assert(acc + Seq::<Seq<u8>>::empty() =~= acc);
    } else {
        lemma_scan_parse(s, p, (k - 1) as nat, m, acc);
        let (q0, its0) = scan_items(s, p, (k - 1) as nat)->Some_0;
        let (q, its) = scan_items(s, p, k)->Some_0;
        let d = bulk_item(s, q0)->Item_0;
        assert(its == its0.push(d));
        assert((acc + its0).push(d) =~= acc + its);
    }
}

/// `k` complete bulk strings from `p` do not move where reading stops.
proof fn lemma_scan_stop(s: Seq<u8>, p: int, k: nat, m: nat)
    requires
        scan_items(s, p, k) is Some,
        k <= m,
    ensures
        items_stop(s, p, m) == items_stop(s, scan_items(s, p, k)->Some_0.0, (m - k) as nat),
    decreases k,
{
    if k > 0 {
        lemma_scan_stop(s, p, (k - 1) as nat, m);
    }
}

/// Taking the array header and `k` bulk strings leaves the rest of the array to read.
proof fn lemma_resume_items(c: Seq<u8>, t: Seq<u8>)
    requires
        len_line(c, 42u8, MAX_ARRAY_LEN as nat) matches LenLine::Value(e, n0) && e >= 1,
    ensures
        ({
            let e = len_line(c, 42u8, MAX_ARRAY_LEN as nat)->Value_0;
            let n0 = len_line(c, 42u8, MAX_ARRAY_LEN as nat)->Value_1;
            &&& parse_frame(c + t, true) == parse_items(c + t, n0 as int, e, Seq::empty())
            &&& n0 <= c.len()
        }),
{
    lemma_len_line_extend(c, t, 42u8, MAX_ARRAY_LEN as nat);
    lemma_len_line_facts(c, 42u8, MAX_ARRAY_LEN as nat);
}

/// What holds between steps of `decode`: the bytes `c` taken so far and the
/// bytes `rest` still in the buffer make up `total`, and reading on from state
/// `st` gives what reading `total` from the start gives.
pub open spec fn decode_inv(
    total: Seq<u8>,
    mode0: bool,
    c: Seq<u8>,
    rest: Seq<u8>,
    st: DecoderState,
) -> bool {
    &&& c + rest == total
    &&& state_matches(st, c)
    &&& !(st is ReadingRawBytes)
    &&& parse_frame(total, mode0) == parse_frame(total, is_array_state(st))
    &&& mode0 ==> is_array_state(st)
    &&& is_array_state(st) ==> (mode0 || (total.len() > 0 && total[0] == 42u8))
}

/// The result of one step of `decode`.
pub enum Step {
    /// Go on from this state.
    Continue(DecoderState),
    /// Answer with this result and leave this state.
    Finish(Result<Option<Command>>, DecoderState),
}

pub open spec fn step_ok(
    total: Seq<u8>,
    mode0: bool,
    rest0: Seq<u8>,
    st0: DecoderState,
    step: Step,
    c: Seq<u8>,
    rest: Seq<u8>,
) -> bool {
    match step {
        Step::Continue(st) => decode_inv(total, mode0, c, rest, st) && rest.len() * 4
            + state_rank(st) < rest0.len() * 4 + state_rank(st0),
        Step::Finish(r, st) => state_matches(st, c) && !(st is ReadingRawBytes) && decode_outcome(
            total,
            mode0,
            r,
            c,
            rest,
            is_array_state(st),
            st is Idle,
        ),
    }
}

fn step_idle(buf: &mut Vec<u8>, Ghost(total): Ghost<Seq<u8>>, Ghost(mode0): Ghost<bool>, Ghost(c): Ghost<Seq<u8>>) -> (r: (Step, Ghost<Seq<u8>>))
    requires
        decode_inv(total, mode0, c, old(buf)@, DecoderState::Idle),
    ensures
        step_ok(total, mode0, old(buf)@, DecoderState::Idle, r.0, r.1@, final(buf)@),
{
    assert(c =~= Seq::<u8>::empty());
    assert(total =~= buf@);
    if buf.len() == 0 {
        return (Step::Finish(Ok(None), DecoderState::Idle), Ghost(c));
    }
    if buf[0] == 42 {
        (Step::Continue(DecoderState::ReadingArrayLength), Ghost(c))
    } else {
        let r = decode_inline(buf);
        assert(Seq::<u8>::empty() + buf@ =~= buf@);
        (Step::Finish(r, DecoderState::Idle), Ghost(Seq::empty()))
    }
}

fn step_array_length(buf: &mut Vec<u8>, Ghost(total): Ghost<Seq<u8>>, Ghost(mode0): Ghost<bool>, Ghost(c): Ghost<Seq<u8>>) -> (r: (Step, Ghost<Seq<u8>>))
    requires
        decode_inv(total, mode0, c, old(buf)@, DecoderState::ReadingArrayLength),
    ensures
        step_ok(total, mode0, old(buf)@, DecoderState::ReadingArrayLength, r.0, r.1@, final(buf)@),
{
    assert(c =~= Seq::<u8>::empty());
    assert(total =~= buf@);
    let ghost b0 = buf@;
    match decode_len(buf.as_slice(), 42, MAX_ARRAY_LEN) {
        Err(e) => {
            assert(total.take(0) =~= c);
            assert(total.skip(0) =~= total);
            (Step::Finish(Err(e), DecoderState::ReadingArrayLength), Ghost(c))
        },
        Ok(None) => (Step::Finish(Ok(None), DecoderState::ReadingArrayLength), Ghost(c)),
        Ok(Some((count, consumed))) => {
            proof {
                lemma_len_line_facts(b0, 42u8, MAX_ARRAY_LEN as nat);
                lemma_len_line_take(b0, 42u8, MAX_ARRAY_LEN as nat, consumed as int);
            }
            advance(buf, consumed);
            let ghost c2 = b0.take(consumed as int);
            assert(c2 + buf@ =~= total);
            if count == 0 {
                assert(Seq::<u8>::empty() + buf@ =~= buf@);
                return (
                    Step::Finish(
                        Err(frame_error(0, "Empty command (zero-length array)")),
                        DecoderState::Idle,
                    ),
                    Ghost(Seq::empty()),
                );
            }
            let frame = Frame { expected_args: count, current_index: 0, args: args_new() };
            (Step::Continue(DecoderState::ReadingBulkLength { frame }), Ghost(c2))
        },
    }
}

fn step_bulk_length(buf: &mut Vec<u8>, frame: Frame, Ghost(total): Ghost<Seq<u8>>, Ghost(mode0): Ghost<bool>, Ghost(c): Ghost<Seq<u8>>) -> (r: (Step, Ghost<Seq<u8>>))
    requires
        decode_inv(total, mode0, c, old(buf)@, DecoderState::ReadingBulkLength { frame }),
    ensures
        step_ok(total, mode0, old(buf)@, DecoderState::ReadingBulkLength { frame }, r.0, r.1@, final(buf)@),
{
    let ghost e = frame.expected_args as nat;
    let ghost n0 = len_line(c, 42u8, MAX_ARRAY_LEN as nat)->Value_1;
    let ghost k = frame.current_index as nat;
    let ghost items = arg_items(frame.args);
    proof {
        lemma_resume_items(c, buf@);
        lemma_scan_extend(c, buf@, n0 as int, k);
        lemma_scan_parse(total, n0 as int, k, e, Seq::empty());
        assert(Seq::<Seq<u8>>::empty() + items =~= items);
        assert(total.skip(c.len() as int) =~= buf@);
    }
    let ghost b0 = buf@;
    match decode_len(buf.as_slice(), 36, MAX_BULK_LEN) {
        Err(err) => {
            proof {
                lemma_len_line_extend(c, b0, 42u8, MAX_ARRAY_LEN as nat);
                lemma_scan_stop(total, n0 as int, k, e);
                assert(total.take(c.len() as int) =~= c);
            }
            (Step::Finish(Err(err), DecoderState::ReadingBulkLength { frame }), Ghost(c))
        },
        Ok(None) => (Step::Finish(Ok(None), DecoderState::ReadingBulkLength { frame }), Ghost(c)),
        Ok(Some((len, consumed))) => {
            proof {
                lemma_len_line_facts(b0, 36u8, MAX_BULK_LEN as nat);
                lemma_len_line_take(b0, 36u8, MAX_BULK_LEN as nat, consumed as int);
            }
            advance(buf, consumed);
            let ghost c2 = c + b0.take(consumed as int);
            proof {
                lemma_len_line_extend(c, b0.take(consumed as int), 42u8, MAX_ARRAY_LEN as nat);
                lemma_scan_extend(c, b0.take(consumed as int), n0 as int, k);
                assert(c2.skip(c.len() as int) =~= b0.take(consumed as int));
                assert(c2 + buf@ =~= total);
            }
            (Step::Continue(DecoderState::ReadingBulkData { frame, remaining: len }), Ghost(c2))
        },
    }
}

fn step_bulk_data(buf: &mut Vec<u8>, frame: Frame, remaining: usize, Ghost(total): Ghost<Seq<u8>>, Ghost(mode0): Ghost<bool>, Ghost(c): Ghost<Seq<u8>>) -> (r: (Step, Ghost<Seq<u8>>))
    requires
        decode_inv(total, mode0, c, old(buf)@, DecoderState::ReadingBulkData { frame, remaining }),
    ensures
        step_ok(total, mode0, old(buf)@, DecoderState::ReadingBulkData { frame, remaining }, r.0, r.1@, final(buf)@),
{
    let mut frame = frame;
    let ghost e = frame.expected_args as nat;
    let ghost n0 = len_line(c, 42u8, MAX_ARRAY_LEN as nat)->Value_1;
    let ghost k = frame.current_index as nat;
    let ghost items = arg_items(frame.args);
    let ghost p = scan_items(c, n0 as int, k)->Some_0.0;
    proof {
        lemma_resume_items(c, buf@);
        lemma_scan_extend(c, buf@, n0 as int, k);
        lemma_scan_parse(total, n0 as int, k, e, Seq::empty());
        assert(Seq::<Seq<u8>>::empty() + items =~= items);
        assert(total.skip(p) =~= c.skip(p) + buf@);
        lemma_len_line_extend(c.skip(p), buf@, 36u8, MAX_BULK_LEN as nat);
        lemma_len_line_facts(c.skip(p), 36u8, MAX_BULK_LEN as nat);
    }
    let total_len = remaining + 2;
    if buf.len() < total_len {
        return (Step::Finish(Ok(None), DecoderState::ReadingBulkData { frame, remaining }), Ghost(c));
    }
    assert(buf@[remaining as int] == total[c.len() + remaining]);
    assert(buf@[remaining + 1] == total[c.len() + remaining + 1]);
    if buf[remaining] != 13 || buf[remaining + 1] != 10 {
        proof {
            lemma_len_line_extend(c, buf@, 42u8, MAX_ARRAY_LEN as nat);
            lemma_scan_stop(total, n0 as int, k, e);
            assert(data_step(total, c.len() as int, remaining as nat) is Failed);
            assert(total.take(c.len() as int) =~= c);
            assert(total.skip(c.len() as int) =~= buf@);
        }
        return (
            Step::Finish(
                Err(frame_error(remaining, "Missing CRLF after bulk data")),
                DecoderState::ReadingBulkData { frame, remaining },
            ),
            Ghost(c),
        );
    }
    let ghost b0 = buf@;
    let data = take_front(buf, remaining);
    advance(buf, 2);
    let ghost d = data@;
    assert(d =~= total.subrange(c.len() as int, c.len() + remaining));
    args_push(&mut frame.args, data);
    frame.current_index = frame.current_index + 1;
    let ghost c2 = c + b0.take(remaining + 2);
    proof {
        assert(c2 + buf@ =~= total);
        lemma_scan_extend(c, b0.take(remaining + 2), n0 as int, k);
        assert(c2.skip(p) =~= c.skip(p) + b0.take(remaining + 2));
        lemma_len_line_extend(c.skip(p), b0.take(remaining + 2), 36u8, MAX_BULK_LEN as nat);
        lemma_len_line_extend(c, b0.take(remaining + 2), 42u8, MAX_ARRAY_LEN as nat);
        assert(c2.subrange(c.len() as int, c.len() + remaining) =~= d);
        assert(c2[c.len() + remaining] == 13u8);
        assert(c2[c.len() + remaining + 1] == 10u8);
        assert(bulk_item(c2, p) == BulkStep::Item(d, c2.len() as int));
        assert(scan_items(c2, n0 as int, k + 1) == Some((c2.len() as int, items.push(d))));
        assert(total.subrange(c.len() as int, c.len() + remaining) =~= d);
        assert(data_step(total, c.len() as int, remaining as nat) == BulkStep::Item(
            d,
            c2.len() as int,
        ));
        assert(bulk_item(total, p) == BulkStep::Item(d, c2.len() as int));
        assert(parse_items(total, p, (e - k) as nat, items) == parse_items(
            total,
            c2.len() as int,
            (e - k - 1) as nat,
            items.push(d),
        ));
    }
    if frame.current_index == frame.expected_args {
        let Frame { expected_args, current_index, mut args } = frame;
        let mut name = args_remove_first(&mut args);
        let nlen = name.len();
        upper_prefix(&mut name, nlen);
        assert(name@ =~= upper(items.push(d)[0]));
        let cmd = Command::new(name, args);
        assert(cmd@ == command_of(items.push(d)));
        assert(buf@ =~= total.skip(c2.len() as int));
        return (Step::Finish(Ok(Some(cmd)), DecoderState::Idle), Ghost(Seq::empty()));
    }
    (Step::Continue(DecoderState::ReadingBulkLength { frame }), Ghost(c2))
}

// ---------------------------------------------------------------------------
// Laws of the grammar.
// ---------------------------------------------------------------------------

proof fn lemma_len_line_cut(s: Seq<u8>, prefix: u8, max: nat, k: int)
    requires
        len_line(s, prefix, max) matches LenLine::Value(v, n) && 0 <= k < n,
    ensures
        len_line(s.take(k), prefix, max) is Incomplete,
{
    reveal(len_line);
    let nl = index_of(s, 10u8)->Some_0;
    assert(crate::util::is_first_index(s, 10u8, nl));
    if k > 0 {
        assert(s.take(k)[0] == s[0]);
        assert(!exists|i: int| crate::util::is_first_index(s.take(k), 10u8, i)) by {
            if exists|i: int| crate::util::is_first_index(s.take(k), 10u8, i) {
                let i = choose|i: int| crate::util::is_first_index(s.take(k), 10u8, i);
                assert(s[i] == 10u8);
            }
        }
    }
}

proof fn lemma_bulk_item_take(s: Seq<u8>, p: int, k: int)
    requires
        0 <= p <= s.len(),
        bulk_item(s, p) matches BulkStep::Item(d, q) && q <= k <= s.len(),
    ensures
        bulk_item(s.take(k), p) == bulk_item(s, p),
{
    let q = bulk_item(s, p)->Item_1;
    assert(s.take(k).skip(p) =~= s.skip(p).take(k - p));
    lemma_len_line_facts(s.skip(p), 36u8, MAX_BULK_LEN as nat);
    lemma_len_line_take(s.skip(p), 36u8, MAX_BULK_LEN as nat, k - p);
    let len = len_line(s.skip(p), 36u8, MAX_BULK_LEN as nat)->Value_0;
    let n = len_line(s.skip(p), 36u8, MAX_BULK_LEN as nat)->Value_1;
    assert(s.take(k)[p + n + len] == s[p + n + len]);
    assert(s.take(k)[p + n + len + 1] == s[p + n + len + 1]);
    assert(s.take(k).subrange(p + n, p + n + len) =~= s.subrange(p + n, p + n + len));
}

proof fn lemma_bulk_item_cut(s: Seq<u8>, p: int, k: int)
    requires
        0 <= p <= k <= s.len(),
        bulk_item(s, p) matches BulkStep::Item(d, q) && k < q,
    ensures
        bulk_item(s.take(k), p) is Incomplete,
{
    assert(s.take(k).skip(p) =~= s.skip(p).take(k - p));
    lemma_len_line_facts(s.skip(p), 36u8, MAX_BULK_LEN as nat);
    let n = len_line(s.skip(p), 36u8, MAX_BULK_LEN as nat)->Value_1;
    if k - p < n {
        lemma_len_line_cut(s.skip(p), 36u8, MAX_BULK_LEN as nat, k - p);
    } else {
        lemma_len_line_take(s.skip(p), 36u8, MAX_BULK_LEN as nat, k - p);
    }
}

proof fn lemma_parse_items_extend(s: Seq<u8>, t: Seq<u8>, p: int, r: nat, acc: Seq<Seq<u8>>)
    requires
        0 <= p <= s.len(),
        !(parse_items(s, p, r, acc) is Incomplete),
    ensures
        parse_items(s + t, p, r, acc) == parse_items(s, p, r, acc),
    decreases r,
{
    if r > 0 {
        lemma_bulk_item_extend(s, t, p);
        lemma_bulk_item_facts(s, p);
        if let BulkStep::Item(d, q) = bulk_item(s, p) {
            lemma_parse_items_extend(s, t, q, (r - 1) as nat, acc.push(d));
        }
    }
}

proof fn lemma_parse_items_bound(s: Seq<u8>, p: int, r: nat, acc: Seq<Seq<u8>>)
    requires
        0 <= p <= s.len(),
    ensures
        parse_items(s, p, r, acc) matches Parsed::Done(c, n) ==> p <= n <= s.len(),
    decreases r,
{
    if r > 0 {
        lemma_bulk_item_facts(s, p);
        if let BulkStep::Item(d, q) = bulk_item(s, p) {
            lemma_parse_items_bound(s, q, (r - 1) as nat, acc.push(d));
        }
    }
}

proof fn lemma_parse_items_cut(s: Seq<u8>, p: int, r: nat, acc: Seq<Seq<u8>>, k: int)
    requires
        0 <= p <= k <= s.len(),
        parse_items(s, p, r, acc) matches Parsed::Done(c, n) && k < n,
    ensures
        parse_items(s.take(k), p, r, acc) is Incomplete,
    decreases r,
{
    if r > 0 {
        lemma_bulk_item_facts(s, p);
        let q = bulk_item(s, p)->Item_1;
        let d = bulk_item(s, p)->Item_0;
        if k < q {
            lemma_bulk_item_cut(s, p, k);
        } else {
            lemma_bulk_item_take(s, p, k);
            lemma_parse_items_cut(s, q, (r - 1) as nat, acc.push(d), k);
            assert(s.take(k) =~= s.take(k).take(k));
        }
    }
}

/// Law: once the front of the stream reads as a complete command or as an
/// error, bytes that arrive after it do not change how it reads. So a decoder
/// never consumes part of a command and pipelined commands read one by one.
pub proof fn law_parse_frame_extends(s: Seq<u8>, t: Seq<u8>, array_mode: bool)
    requires
        !(parse_frame(s, array_mode) is Incomplete),
    ensures
        parse_frame(s + t, array_mode) == parse_frame(s, array_mode),
{
    if s.len() > 0 {
        assert((s + t)[0] == s[0]);
    } else {
        reveal(len_line);
    }
    if array_mode || (s.len() > 0 && s[0] == 42u8) {
        lemma_len_line_extend(s, t, 42u8, MAX_ARRAY_LEN as nat);
        lemma_len_line_facts(s, 42u8, MAX_ARRAY_LEN as nat);
        if let LenLine::Value(count, n) = len_line(s, 42u8, MAX_ARRAY_LEN as nat) {
            if count > 0 {
                lemma_parse_items_extend(s, t, n as int, count, Seq::empty());
            }
        }
    } else {
        lemma_index_of_extend(s, t, 10u8);
        let end = index_of(s, 10u8)->Some_0;
        assert(crate::util::is_first_index(s, 10u8, end));
        assert((s + t).take(end) =~= s.take(end));
    }
}

/// Law: a command that takes `n` bytes reads as incomplete from every shorter
/// front of the stream, so a decoder that has only part of it waits for more.
pub proof fn law_parse_frame_cut(s: Seq<u8>, array_mode: bool, k: int)
    requires
        parse_frame(s, array_mode) matches Parsed::Done(c, n) && 0 <= k < n,
    ensures
        parse_frame(s.take(k), array_mode) is Incomplete,
{
    if k == 0 {
        reveal(len_line);
        assert(s.take(0).len() == 0);
    } else if array_mode || (s.len() > 0 && s[0] == 42u8) {
        lemma_len_line_facts(s, 42u8, MAX_ARRAY_LEN as nat);
        let count = len_line(s, 42u8, MAX_ARRAY_LEN as nat)->Value_0;
        let n0 = len_line(s, 42u8, MAX_ARRAY_LEN as nat)->Value_1;
        lemma_parse_items_bound(s, n0 as int, count, Seq::empty());
        if k < n0 {
            lemma_len_line_cut(s, 42u8, MAX_ARRAY_LEN as nat, k);
        } else {
            lemma_len_line_take(s, 42u8, MAX_ARRAY_LEN as nat, k);
            lemma_parse_items_cut(s, n0 as int, count, Seq::empty(), k);
        }
    } else {
        let end = index_of(s, 10u8)->Some_0;
        assert(crate::util::is_first_index(s, 10u8, end));
        assert(s.take(k)[0] == s[0]);
        assert(!exists|i: int| crate::util::is_first_index(s.take(k), 10u8, i)) by {
            if exists|i: int| crate::util::is_first_index(s.take(k), 10u8, i) {
                let i = choose|i: int| crate::util::is_first_index(s.take(k), 10u8, i);
                assert(s[i] == 10u8);
            }
        }
    }
}

/// Decodes the next complete command, if any, from the bytes `pending` already
/// taken (whose progress `state` records) followed by `buf`. Answers as the
/// grammar does on that whole stream (`decode_outcome`): `Ok(None)` when more
/// bytes are needed, with no byte lost between `buf` and the new pending bytes.
/// The second result is the bytes that stay taken.
pub fn decode(buf: &mut Vec<u8>, state: &mut DecoderState, pending: Ghost<Seq<u8>>) -> (r: (
    Result<Option<Command>>,
    Ghost<Seq<u8>>,
))
    requires
        state_matches(*old(state), pending@),
        !(*old(state) is ReadingRawBytes),
    ensures
        state_matches(*final(state), r.1@),
        !(*final(state) is ReadingRawBytes),
        decode_outcome(
            pending@ + old(buf)@,
            is_array_state(*old(state)),
            r.0,
            r.1@,
            final(buf)@,
            is_array_state(*final(state)),
            *final(state) is Idle,
        ),
{
    let ghost total = pending@ + buf@;
    let ghost mode0 = is_array_state(*state);
    let ghost mut c = pending@;
    let mut st = DecoderState::Idle;
    std::mem::swap(&mut st, state);
    loop
        invariant
            total == pending@ + old(buf)@,
            mode0 == is_array_state(*old(state)),
            decode_inv(total, mode0, c, buf@, st),
        decreases buf@.len() * 4 + state_rank(st),
    {
        let (step, Ghost(c2)) = match st {
            DecoderState::Idle => step_idle(buf, Ghost(total), Ghost(mode0), Ghost(c)),
            DecoderState::ReadingArrayLength => step_array_length(buf, Ghost(total), Ghost(mode0), Ghost(c)),
            DecoderState::ReadingBulkLength { frame } => step_bulk_length(buf, frame, Ghost(total), Ghost(mode0), Ghost(c)),
            DecoderState::ReadingBulkData { frame, remaining } => step_bulk_data(buf, frame, remaining, Ghost(total), Ghost(mode0), Ghost(c)),
            DecoderState::ReadingRawBytes { remaining } => (Step::Finish(Ok(None), DecoderState::ReadingRawBytes { remaining }), Ghost(c)),
        };
        proof {
            c = c2;
        }
        match step {
            Step::Continue(next) => {
                st = next;
            },
            Step::Finish(r, next) => {
                *state = next;
                return (r, Ghost(c));
            },
        }
    }
}

} // verus!
