//! Laws of the RESP2 grammar: what a client writes reads back.

use vstd::prelude::*;

use crate::protocol::command::CommandView;
use crate::protocol::reply::ReplyView;
use crate::protocol::resp2::decoder::{
    LenLine, MAX_ARRAY_LEN, MAX_BULK_LEN, Parsed, BulkStep, bulk_item, command_of, len_line,
    parse_array, parse_frame, parse_items, split_tokens, upper,
};
use crate::protocol::resp2::encoder::{crlf, encode_items_spec, encode_spec};
use crate::util::{
    decimal, index_of, index_of_or_len, index_other, index_other_or_len, is_first_index,
    is_first_other, lemma_decimal_digits, lemma_index_of_unique, lemma_index_other_unique,
    law_u64_text_round_trip,
};

verus! {

/// The RESP2 bulk string that carries `d`: `$<len>\r\n<d>\r\n`.
pub open spec fn bulk_text(d: Seq<u8>) -> Seq<u8> {
    seq![36u8] + decimal(d.len()) + crlf() + d + crlf()
}

/// Bulk strings for each of `items`, one after another.
pub open spec fn bulks_text(items: Seq<Seq<u8>>) -> Seq<u8>
    decreases items.len(),
{
    if items.len() == 0 {
        Seq::empty()
    } else {
        bulk_text(items[0]) + bulks_text(items.drop_first())
    }
}

/// A command as a client sends it: an array of bulk strings,
/// `*<n>\r\n` followed by the `n` bulk strings.
pub open spec fn array_text(items: Seq<Seq<u8>>) -> Seq<u8> {
    seq![42u8] + decimal(items.len()) + crlf() + bulks_text(items)
}

/// A length line `<prefix><digits of v>\r\n` reads as `v`, whatever follows.
proof fn lemma_len_line_of(v: nat, prefix: u8, max: nat, rest: Seq<u8>)
    requires
        v <= max,
        v <= usize::MAX,
        prefix == 42u8 || prefix == 36u8,
    ensures
        len_line(seq![prefix] + decimal(v) + crlf() + rest, prefix, max) == LenLine::Value(
            v,
            decimal(v).len() + 3,
        ),
{
    reveal(len_line);
    lemma_decimal_digits(v);
    let dv = decimal(v);
    let s = seq![prefix] + dv + crlf() + rest;
    let nl = dv.len() + 2;
    assert(s[0] == prefix);
    assert forall|j: int| 0 <= j < nl implies s[j] != 10u8 by {
        if 1 <= j <= dv.len() {
            assert(s[j] == dv[j - 1]);
            assert(crate::util::is_digit(dv[j - 1]));
        }
    }
    assert(s[nl as int] == 10u8);
    assert(is_first_index(s, 10u8, nl as int));
    lemma_index_of_unique(s, 10u8, nl as int);
    assert(s[nl - 1] == 13u8);
    let digits = s.subrange(1, nl - 1);
    assert(digits =~= dv);
    assert(vstd::utf8::valid_utf8(dv)) by {
        assert forall|i: int| 0 <= i < dv.len() implies #[trigger] vstd::utf8::is_leading_byte_width_1(
            dv[i],
        ) by {
            assert(crate::util::is_digit(dv[i]));
        }
        assert(dv.subrange(0, 0) =~= Seq::<u8>::empty());
        vstd::utf8::partial_valid_utf8_extend_ascii_block(dv, 0, dv.len() as int);
        assert(dv.subrange(0, dv.len() as int) =~= dv);
    }
    law_u64_text_round_trip(v as u64);
}

/// A bulk string for `d` at `p` reads as `d`, and ends after its text.
proof fn lemma_bulk_item_of(s: Seq<u8>, p: int, d: Seq<u8>)
    requires
        0 <= p,
        p + bulk_text(d).len() <= s.len(),
        s.subrange(p, p + bulk_text(d).len()) == bulk_text(d),
        d.len() <= MAX_BULK_LEN,
    ensures
        bulk_item(s, p) == BulkStep::Item(d, p + bulk_text(d).len()),
{
    let t = s.skip(p);
    let rest = d + crlf() + s.skip(p + bulk_text(d).len());
    assert(t =~= seq![36u8] + decimal(d.len()) + crlf() + rest) by {
        assert(t =~= s.subrange(p, p + bulk_text(d).len()) + s.skip(p + bulk_text(d).len()));
    }
    lemma_len_line_of(d.len(), 36u8, MAX_BULK_LEN as nat, rest);
    let n = (decimal(d.len()).len() + 3) as int;
    assert(bulk_text(d).len() == n + d.len() + 2);
    let q = p + n;
    assert(s[q + d.len()] == bulk_text(d)[n + d.len()]);
    assert(s[q + d.len() + 1] == bulk_text(d)[n + d.len() + 1]);
    assert(s.subrange(q, q + d.len()) =~= d) by {
        assert forall|i: int| 0 <= i < d.len() implies s.subrange(q, q + d.len())[i] == d[i] by {
            assert(s[q + i] == bulk_text(d)[n + i]);
        }
    }
}

/// Bulk strings for `items` at `p`, after `acc` read already, complete the
/// command of `acc` followed by `items`.
proof fn lemma_parse_bulks(s: Seq<u8>, p: int, items: Seq<Seq<u8>>, acc: Seq<Seq<u8>>)
    requires
        0 <= p,
        p + bulks_text(items).len() <= s.len(),
        s.subrange(p, p + bulks_text(items).len()) == bulks_text(items),
        forall|i: int| 0 <= i < items.len() ==> (#[trigger] items[i]).len() <= MAX_BULK_LEN,
        acc.len() + items.len() > 0,
    ensures
        parse_items(s, p, items.len(), acc) == Parsed::Done(command_of(acc + items), (p + bulks_text(items).len()) as nat),
    decreases items.len(),
{
    if items.len() == 0 {
        assert(acc + items =~= acc);
    } else {
        let d = items[0];
        let b = bulk_text(d);
        let rest = bulks_text(items.drop_first());
        assert(bulks_text(items) == b + rest);
        assert(s.subrange(p, p + b.len()) =~= b) by {
            assert forall|i: int| 0 <= i < b.len() implies s.subrange(p, p + b.len())[i] == b[i] by {
                assert(s[p + i] == bulks_text(items)[i]);
            }
        }
        lemma_bulk_item_of(s, p, d);
        let q = p + b.len();
        assert(s.subrange(q, q + rest.len()) =~= rest) by {
            assert forall|i: int| 0 <= i < rest.len() implies s.subrange(q, q + rest.len())[i] == rest[i] by {
                assert(s[q + i] == bulks_text(items)[b.len() + i]);
            }
        }
        assert forall|i: int| 0 <= i < items.drop_first().len() implies (#[trigger] items.drop_first()[i]).len()
            <= MAX_BULK_LEN by {
            assert(items.drop_first()[i] == items[i + 1]);
        }
        lemma_parse_bulks(s, q, items.drop_first(), acc.push(d));
        assert(acc.push(d) + items.drop_first() =~= acc + items);
    }
}

/// Law: a command sent as an array of bulk strings (at least one, within
/// the limits on their number and sizes) reads back as that command, its
/// first item in upper case naming it, whatever bytes follow it.
pub proof fn law_array_command_reads_back(items: Seq<Seq<u8>>, rest: Seq<u8>, array_mode: bool)
    requires
        1 <= items.len() <= MAX_ARRAY_LEN,
        forall|i: int| 0 <= i < items.len() ==> (#[trigger] items[i]).len() <= MAX_BULK_LEN,
    ensures
        parse_frame(array_text(items) + rest, array_mode) == Parsed::Done(
            command_of(items),
            array_text(items).len(),
        ),
{
    let s = array_text(items) + rest;
    let tail = bulks_text(items) + rest;
    assert(s =~= seq![42u8] + decimal(items.len()) + crlf() + tail);
    lemma_len_line_of(items.len(), 42u8, MAX_ARRAY_LEN as nat, tail);
    let h = (decimal(items.len()).len() + 3) as int;
    let bl = bulks_text(items).len() as int;
    assert(s.subrange(h, h + bl) =~= bulks_text(items)) by {
        assert forall|i: int| 0 <= i < bl implies s.subrange(h, h + bl)[i] == bulks_text(items)[i] by {
            assert(s[h + i] == array_text(items)[h + i]);
        }
    }
    lemma_parse_bulks(s, h, items, Seq::empty());
    assert(Seq::<Seq<u8>>::empty() + items =~= items);
    assert(s[0] == 42u8);
}

/// Law: the encoding of a bulk reply reads back, through the decoder's bulk
/// grammar, as its data, whatever follows it; its length line carries the
/// length of the data in decimal, most significant digit first.
pub proof fn law_bulk_reply_reads_back(d: Seq<u8>, rest: Seq<u8>)
    requires
        d.len() <= MAX_BULK_LEN,
    ensures
        bulk_item(encode_spec(ReplyView::Bulk(d)) + rest, 0) == BulkStep::Item(
            d,
            encode_spec(ReplyView::Bulk(d)).len() as int,
        ),
        len_line(encode_spec(ReplyView::Bulk(d)) + rest, 36u8, MAX_BULK_LEN as nat) == LenLine::Value(
            d.len(),
            decimal(d.len()).len() + 3,
        ),
{
    let e = encode_spec(ReplyView::Bulk(d));
    assert(e =~= bulk_text(d));
    let s = e + rest;
    assert(s.subrange(0, e.len() as int) =~= e);
    lemma_bulk_item_of(s, 0, d);
    assert(s =~= seq![36u8] + decimal(d.len()) + crlf() + (d + crlf() + rest));
    lemma_len_line_of(d.len(), 36u8, MAX_BULK_LEN as nat, d + crlf() + rest);
}

/// The bulk replies that carry `items`.
pub open spec fn bulk_replies(items: Seq<Seq<u8>>) -> Seq<ReplyView> {
    items.map_values(|d: Seq<u8>| ReplyView::Bulk(d))
}

proof fn lemma_bulks_text_push(items: Seq<Seq<u8>>, d: Seq<u8>)
    ensures
        bulks_text(items.push(d)) == bulks_text(items) + bulk_text(d),
    decreases items.len(),
{
    if items.len() == 0 {
        assert(items.push(d).drop_first() =~= Seq::<Seq<u8>>::empty());
        assert(items.push(d)[0] == d);
        assert(bulks_text(Seq::<Seq<u8>>::empty()) =~= Seq::<u8>::empty());
        assert(bulks_text(items) =~= Seq::<u8>::empty());
        assert(bulks_text(items.push(d)) =~= bulk_text(d) + Seq::<u8>::empty());
        assert(bulk_text(d) + Seq::<u8>::empty() =~= bulk_text(d));
    } else {
        lemma_bulks_text_push(items.drop_first(), d);
        assert(items.push(d).drop_first() =~= items.drop_first().push(d));
        assert(bulks_text(items.push(d)) =~= bulks_text(items) + bulk_text(d));
    }
}

proof fn lemma_encode_bulks(items: Seq<Seq<u8>>)
    ensures
        encode_items_spec(bulk_replies(items)) == bulks_text(items),
    decreases items.len(),
{
    if items.len() > 0 {
        let init = items.drop_last();
        lemma_encode_bulks(init);
        assert(bulk_replies(items).subrange(0, items.len() - 1) =~= bulk_replies(init));
        assert(encode_spec(ReplyView::Bulk(items.last())) =~= bulk_text(items.last()));
        lemma_bulks_text_push(init, items.last());
        assert(init.push(items.last()) =~= items);
    } else {
        assert(bulks_text(items) =~= Seq::<u8>::empty());
    }
}

/// Law: an array reply of bulk strings, as the encoder writes it, reads back
/// through the decoder as the command those strings spell, whatever follows
/// it (so a client of this server and the server agree on the wire form).
pub proof fn law_bulk_array_reply_reads_back(items: Seq<Seq<u8>>, rest: Seq<u8>)
    requires
        1 <= items.len() <= MAX_ARRAY_LEN,
        forall|i: int| 0 <= i < items.len() ==> (#[trigger] items[i]).len() <= MAX_BULK_LEN,
    ensures
        parse_frame(encode_spec(ReplyView::Array(bulk_replies(items))) + rest, false) == Parsed::Done(
            command_of(items),
            encode_spec(ReplyView::Array(bulk_replies(items))).len(),
        ),
{
    lemma_encode_bulks(items);
    assert(encode_spec(ReplyView::Array(bulk_replies(items))) =~= array_text(items));
    law_array_command_reads_back(items, rest, false);
}

/// A word of an inline command: not empty, with no space, CR or LF in it.
pub open spec fn plain_word(w: Seq<u8>) -> bool {
    &&& w.len() > 0
    &&& forall|i: int| 0 <= i < w.len() ==> w[i] != 32u8 && w[i] != 13u8 && w[i] != 10u8
}

/// Words, each after one space: ` w1 w2 ...`.
pub open spec fn spaced(ws: Seq<Seq<u8>>) -> Seq<u8>
    decreases ws.len(),
{
    if ws.len() == 0 {
        Seq::empty()
    } else {
        seq![32u8] + ws[0] + spaced(ws.drop_first())
    }
}

proof fn lemma_spaced_bytes(ws: Seq<Seq<u8>>)
    requires
        forall|i: int| 0 <= i < ws.len() ==> plain_word(#[trigger] ws[i]),
    ensures
        forall|j: int| 0 <= j < spaced(ws).len() ==> #[trigger] spaced(ws)[j] != 13u8 && spaced(ws)[j] != 10u8,
        ws.len() > 0 ==> spaced(ws).len() > 0 && spaced(ws)[0] == 32u8,
    decreases ws.len(),
{
    if ws.len() > 0 {
        let t = ws.drop_first();
        assert forall|i: int| 0 <= i < t.len() implies plain_word(#[trigger] t[i]) by {
            assert(t[i] == ws[i + 1]);
        }
        lemma_spaced_bytes(t);
        let w = ws[0];
        assert(plain_word(w));
        let s = spaced(ws);
        assert forall|j: int| 0 <= j < s.len() implies #[trigger] s[j] != 13u8 && s[j] != 10u8 by {
            if 1 <= j < 1 + w.len() {
                assert(s[j] == w[j - 1]);
            } else if j >= 1 + w.len() {
                assert(s[j] == spaced(t)[j - 1 - w.len()]);
            }
        }
    }
}

/// A plain word followed by spaced words: its first space is where the word ends.
proof fn lemma_word_end(w: Seq<u8>, ws: Seq<Seq<u8>>)
    requires
        plain_word(w),
        forall|i: int| 0 <= i < ws.len() ==> plain_word(#[trigger] ws[i]),
    ensures
        index_of_or_len(w + spaced(ws), 32u8) == w.len(),
{
    lemma_spaced_bytes(ws);
    let line = w + spaced(ws);
    if ws.len() > 0 {
        assert(is_first_index(line, 32u8, w.len() as int));
        lemma_index_of_unique(line, 32u8, w.len() as int);
    } else {
        assert(line =~= w);
        assert(!exists|i: int| is_first_index(line, 32u8, i));
    }
}

proof fn lemma_split_spaced(ws: Seq<Seq<u8>>)
    requires
        forall|i: int| 0 <= i < ws.len() ==> plain_word(#[trigger] ws[i]),
    ensures
        split_tokens(spaced(ws)) == ws,
    decreases ws.len(),
{
    let s = spaced(ws);
    if ws.len() == 0 {
        assert(!exists|i: int| is_first_other(s, 32u8, i));
        assert(s.skip(0) =~= s);
        assert(split_tokens(s) =~= ws);
    } else {
        let w = ws[0];
        let t = ws.drop_first();
        assert(plain_word(w));
        assert forall|i: int| 0 <= i < t.len() implies plain_word(#[trigger] t[i]) by {
            assert(t[i] == ws[i + 1]);
        }
        assert(s[1] == w[0]);
        assert(is_first_other(s, 32u8, 1));
        lemma_index_other_unique(s, 32u8, 1);
        let r = s.skip(1);
        assert(r =~= w + spaced(t));
        lemma_word_end(w, t);
        assert(r.take(w.len() as int) =~= w);
        assert(r.skip(w.len() as int) =~= spaced(t));
        lemma_split_spaced(t);
        assert(split_tokens(s) == seq![w] + split_tokens(spaced(t)));
        assert(seq![w] + t =~= ws);
    }
}

/// A stream whose first line, without a CR just before its LF, is `w`
/// followed by spaced words reads as the command those words spell.
proof fn lemma_inline_reads(w: Seq<u8>, ws: Seq<Seq<u8>>, s: Seq<u8>, end: int)
    requires
        plain_word(w),
        w[0] != 42u8,
        forall|i: int| 0 <= i < ws.len() ==> plain_word(#[trigger] ws[i]),
        index_of(s, 10u8) == Some(end),
        end > 0,
        s[0] == w[0],
        crate::protocol::resp2::decoder::strip_cr(s.take(end)) == w + spaced(ws),
    ensures
        parse_frame(s, false) == Parsed::Done(CommandView { name: upper(w), args: ws }, (end + 1) as nat),
{
    lemma_word_end(w, ws);
    lemma_split_spaced(ws);
    let line = w + spaced(ws);
    assert(line.take(w.len() as int) =~= w);
    assert(line.skip(w.len() as int) =~= spaced(ws));
    assert(is_first_index(s, 10u8, end));
}

/// Law: an inline command line, its words separated by single spaces, reads
/// back as the command that its first word, in upper case, names, with the
/// other words as its arguments, as they are. The line may end with CRLF or
/// with a bare LF: only a CR just before the LF is dropped.
pub proof fn law_inline_command_reads_back(w: Seq<u8>, ws: Seq<Seq<u8>>, rest: Seq<u8>)
    requires
        plain_word(w),
        w[0] != 42u8,
        forall|i: int| 0 <= i < ws.len() ==> plain_word(#[trigger] ws[i]),
    ensures
        parse_frame(w + spaced(ws) + seq![10u8] + rest, false) == Parsed::Done(
            CommandView { name: upper(w), args: ws },
            (w.len() + spaced(ws).len() + 1) as nat,
        ),
        parse_frame(w + spaced(ws) + seq![13u8, 10u8] + rest, false) == Parsed::Done(
            CommandView { name: upper(w), args: ws },
            (w.len() + spaced(ws).len() + 2) as nat,
        ),
{
    let line = w + spaced(ws);
    let n = line.len() as int;
    assert forall|j: int| 0 <= j < line.len() implies #[trigger] line[j] != 13u8 && line[j] != 10u8 by {
        lemma_spaced_bytes(ws);
        if j >= w.len() {
            assert(line[j] == spaced(ws)[j - w.len()]);
        }
    }
    let s1 = line + seq![10u8] + rest;
    assert(index_of(s1, 10u8) == Some(n)) by {
        assert(is_first_index(s1, 10u8, n));
        lemma_index_of_unique(s1, 10u8, n);
    }
    assert(crate::protocol::resp2::decoder::strip_cr(s1.take(n)) == line) by {
        assert(s1.take(n) =~= line);
    }
    assert(s1[0] == w[0]);
    lemma_inline_reads(w, ws, s1, n);
    let s2 = line + seq![13u8, 10u8] + rest;
    assert(index_of(s2, 10u8) == Some(n + 1)) by {
        assert(is_first_index(s2, 10u8, n + 1));
        lemma_index_of_unique(s2, 10u8, n + 1);
    }
    assert(crate::protocol::resp2::decoder::strip_cr(s2.take(n + 1)) == line) by {
        assert(s2.take(n + 1) =~= line.push(13u8));
        assert(line.push(13u8).drop_last() =~= line);
    }
    assert(s2[0] == w[0]);
    lemma_inline_reads(w, ws, s2, n + 1);
}

} // verus!
