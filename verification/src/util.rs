//! Byte-string helpers: searching, copying and reversing, UTF-8 text, and
//! decimal conversions between integers and byte strings.

use vstd::prelude::*;
use vstd::string::{StringExecFns, StringSliceAdditionalSpecFns};

verus! {

/// `i` is the first position in `s` that holds `b`.
pub open spec fn is_first_index(s: Seq<u8>, b: u8, i: int) -> bool {
    &&& 0 <= i < s.len()
    &&& s[i] == b
    &&& forall|j: int| 0 <= j < i ==> s[j] != b
}

/// The first position in `s` that holds `b`, if any.
pub open spec fn index_of(s: Seq<u8>, b: u8) -> Option<int> {
    if exists|i: int| is_first_index(s, b, i) {
        Some(choose|i: int| is_first_index(s, b, i))
    } else {
        None
    }
}

/// `i` is the first position in `s` that holds a byte other than `b`.
pub open spec fn is_first_other(s: Seq<u8>, b: u8, i: int) -> bool {
    &&& 0 <= i < s.len()
    &&& s[i] != b
    &&& forall|j: int| 0 <= j < i ==> s[j] == b
}

/// The first position in `s` that holds a byte other than `b`, if any.
pub open spec fn index_other(s: Seq<u8>, b: u8) -> Option<int> {
    if exists|i: int| is_first_other(s, b, i) {
        Some(choose|i: int| is_first_other(s, b, i))
    } else {
        None
    }
}

/// The first position of `b` in `s`, or the length of `s` when there is none.
pub open spec fn index_of_or_len(s: Seq<u8>, b: u8) -> int {
    match index_of(s, b) {
        Some(i) => i,
        None => s.len() as int,
    }
}

/// The first position of a byte other than `b`, or the length of `s`.
pub open spec fn index_other_or_len(s: Seq<u8>, b: u8) -> int {
    match index_other(s, b) {
        Some(i) => i,
        None => s.len() as int,
    }
}

pub proof fn lemma_index_of_unique(s: Seq<u8>, b: u8, i: int)
    requires
        is_first_index(s, b, i),
    ensures
        index_of(s, b) == Some(i),
{
    let k = choose|k: int| is_first_index(s, b, k);
    assert(is_first_index(s, b, k));
    if k < i {
        assert(s[k] != b);
    }
    if i < k {
        assert(s[i] != b);
    }
}

pub proof fn lemma_index_other_unique(s: Seq<u8>, b: u8, i: int)
    requires
        is_first_other(s, b, i),
    ensures
        index_other(s, b) == Some(i),
{
    let k = choose|k: int| is_first_other(s, b, k);
    assert(is_first_other(s, b, k));
    if k < i {
        assert(s[k] == b);
    }
    if i < k {
        assert(s[i] == b);
    }
}

/// Appending bytes after the first `b` does not move it.
pub proof fn lemma_index_of_extend(s: Seq<u8>, t: Seq<u8>, b: u8)
    requires
        index_of(s, b) is Some,
    ensures
        index_of(s + t, b) == index_of(s, b),
{
    let i = index_of(s, b)->Some_0;
    assert(is_first_index(s, b, i));
    assert(is_first_index(s + t, b, i));
    lemma_index_of_unique(s + t, b, i);
}

/// Cutting `s` after its first `b` does not move it.
pub proof fn lemma_index_of_take(s: Seq<u8>, b: u8, k: int)
    requires
        index_of(s, b) is Some,
        index_of(s, b)->Some_0 < k <= s.len(),
    ensures
        index_of(s.take(k), b) == index_of(s, b),
{
    let i = index_of(s, b)->Some_0;
    assert(is_first_index(s, b, i));
    assert(is_first_index(s.take(k), b, i));
    lemma_index_of_unique(s.take(k), b, i);
}

/// The first position of `b` in `s`.
pub fn find_byte(s: &[u8], b: u8) -> (r: Option<usize>)
    ensures
        match r {
            Some(i) => index_of(s@, b) == Some(i as int),
            None => index_of(s@, b) is None,
        },
{
    let mut i: usize = 0;
    while i < s.len()
        invariant
            0 <= i <= s@.len(),
            forall|j: int| 0 <= j < i ==> s@[j] != b,
        decreases s@.len() - i,
    {
        if s[i] == b {
            proof {
                lemma_index_of_unique(s@, b, i as int);
            }
            return Some(i);
        }
        i = i + 1;
    }
    assert(!exists|k: int| is_first_index(s@, b, k));
    None
}

/// The first position in `s` of a byte other than `b`.
pub fn find_other(s: &[u8], b: u8) -> (r: Option<usize>)
    ensures
        match r {
            Some(i) => index_other(s@, b) == Some(i as int),
            None => index_other(s@, b) is None,
        },
{
    let mut i: usize = 0;
    while i < s.len()
        invariant
            0 <= i <= s@.len(),
            forall|j: int| 0 <= j < i ==> s@[j] == b,
        decreases s@.len() - i,
    {
        if s[i] != b {
            proof {
                lemma_index_other_unique(s@, b, i as int);
            }
            return Some(i);
        }
        i = i + 1;
    }
    assert(!exists|k: int| is_first_other(s@, b, k));
    None
}

/// Appends the bytes of `s` to `buf`.
pub fn append_bytes(buf: &mut Vec<u8>, s: &[u8])
    ensures
        final(buf)@ == old(buf)@ + s@,
{
    let mut i: usize = 0;
    while i < s.len()
        invariant
            0 <= i <= s@.len(),
            buf@ == old(buf)@ + s@.take(i as int),
        decreases s@.len() - i,
    {
        buf.push(s[i]);
        i = i + 1;
        assert(s@.take(i as int) =~= s@.take(i - 1).push(s@[i - 1]));
    }
    assert(s@.take(i as int) =~= s@);
}

/// A vector that holds the bytes of `s`.
pub fn copy_bytes(s: &[u8]) -> (r: Vec<u8>)
    ensures
        r@ == s@,
{
    let mut out: Vec<u8> = Vec::new();
    let mut i: usize = 0;
    while i < s.len()
        invariant
            0 <= i <= s@.len(),
            out@ == s@.take(i as int),
        decreases s@.len() - i,
    {
        out.push(s[i]);
        i = i + 1;
        assert(out@ =~= s@.take(i as int));
    }
    assert(s@.take(i as int) =~= s@);
    out
}

/// The text of `b` when it is valid UTF-8, from `std::str::from_utf8`; the
/// contract claims that `from_utf8` accepts exactly the byte strings that
/// `vstd::utf8::valid_utf8` describes and hands back the same bytes as text.
#[verifier::external_body]
pub(crate) fn utf8_text(b: &[u8]) -> (r: Option<&str>)
    ensures
        r is Some <==> vstd::utf8::valid_utf8(b@),
        r matches Some(t) ==> t.spec_bytes() == b@,
{
    std::str::from_utf8(b).ok()
}

/// An ASCII decimal digit.
pub open spec fn is_digit(c: u8) -> bool {
    48 <= c <= 57
}

pub open spec fn all_digits(s: Seq<u8>) -> bool {
    forall|i: int| 0 <= i < s.len() ==> is_digit(#[trigger] s[i])
}

/// The number that a run of decimal digits denotes (most significant first).
pub open spec fn digits_value(s: Seq<u8>) -> nat
    decreases s.len(),
{
    if s.len() == 0 {
        0
    } else {
        digits_value(s.drop_last()) * 10 + (s.last() - 48) as nat
    }
}

/// The value of an optional `+` followed by at least one digit: the grammar
/// that `str::parse` accepts for unsigned integers.
pub open spec fn parse_unsigned(s: Seq<u8>) -> Option<nat> {
    if s.len() > 0 && s[0] == 43u8 {
        let d = s.drop_first();
        if d.len() > 0 && all_digits(d) {
            Some(digits_value(d))
        } else {
            None
        }
    } else if s.len() > 0 && all_digits(s) {
        Some(digits_value(s))
    } else {
        None
    }
}

/// The value of an optional `+` or `-` followed by at least one digit: the
/// grammar that `str::parse` accepts for signed integers.
pub open spec fn parse_signed(s: Seq<u8>) -> Option<int> {
    if s.len() > 0 && s[0] == 45u8 {
        let d = s.drop_first();
        if d.len() > 0 && all_digits(d) {
            Some(-digits_value(d))
        } else {
            None
        }
    } else {
        match parse_unsigned(s) {
            Some(v) => Some(v as int),
            None => None,
        }
    }
}

/// Decimal digits of `n`, most significant first, without leading zeros.
pub open spec fn decimal(n: nat) -> Seq<u8>
    decreases n,
{
    if n < 10 {
        seq![(48 + n) as u8]
    } else {
        decimal(n / 10).push((48 + n % 10) as u8)
    }
}

/// Decimal text of a signed number, with a leading `-` when negative.
pub open spec fn signed_decimal(v: int) -> Seq<u8> {
    if v < 0 {
        seq![45u8] + decimal((-v) as nat)
    } else {
        decimal(v as nat)
    }
}

pub open spec fn spec_bytes_to_i64(s: Seq<u8>) -> Option<i64> {
    match parse_signed(s) {
        Some(v) => if i64::MIN <= v <= i64::MAX { Some(v as i64) } else { None },
        None => None,
    }
}

pub open spec fn spec_bytes_to_u64(s: Seq<u8>) -> Option<u64> {
    match parse_unsigned(s) {
        Some(v) => if v <= u64::MAX { Some(v as u64) } else { None },
        None => None,
    }
}

proof fn lemma_digits_value_take(s: Seq<u8>, i: int)
    requires
        0 <= i < s.len(),
    ensures
        digits_value(s.take(i + 1)) == digits_value(s.take(i)) * 10 + (s[i] - 48) as nat,
{
    assert(s.take(i + 1).drop_last() =~= s.take(i));
}

proof fn lemma_digits_value_monotone(s: Seq<u8>, i: int, j: int)
    requires
        0 <= i <= j <= s.len(),
        all_digits(s),
    ensures
        digits_value(s.take(i)) <= digits_value(s.take(j)),
    decreases j - i,
{
    if i < j {
        lemma_digits_value_monotone(s, i, j - 1);
        lemma_digits_value_take(s, j - 1);
    }
}

/// Reads the digits `s[start..]` as a `u64`; `None` when the value does not fit.
fn read_digits(s: &[u8], start: usize) -> (r: Option<u64>)
    requires
        start <= s@.len(),
        all_digits(s@.skip(start as int)),
    ensures
        r == (if digits_value(s@.skip(start as int)) <= u64::MAX {
            Some(digits_value(s@.skip(start as int)) as u64)
        } else {
            None::<u64>
        }),
{
    let ghost d = s@.skip(start as int);
    let mut acc: u64 = 0;
    let mut i: usize = start;
    assert(d.take(0) =~= Seq::<u8>::empty());
    while i < s.len()
        invariant
            start <= i <= s@.len(),
            d == s@.skip(start as int),
            all_digits(d),
            acc == digits_value(d.take(i - start)),
        decreases s@.len() - i,
    {
        let c = s[i];
        assert(d[i - start] == c);
        proof {
            lemma_digits_value_take(d, i - start);
        }
        let m = acc.checked_mul(10);
        match m {
            None => {
                proof {
                    lemma_digits_value_monotone(d, i - start + 1, d.len() as int);
                    assert(d.take(d.len() as int) =~= d);
                }
                return None;
            },
            Some(m) => {
                let a = m.checked_add((c - 48) as u64);
                match a {
                    None => {
                        proof {
                            lemma_digits_value_monotone(d, i - start + 1, d.len() as int);
                            assert(d.take(d.len() as int) =~= d);
                        }
                        return None;
                    },
                    Some(a) => {
                        acc = a;
                    },
                }
            },
        }
        i = i + 1;
    }
    assert(d.take(i - start) =~= d);
    Some(acc)
}

/// Whether every byte from `start` on is an ASCII digit.
fn digits_from(s: &[u8], start: usize) -> (r: bool)
    requires
        start <= s@.len(),
    ensures
        r == all_digits(s@.skip(start as int)),
{
    let mut i = start;
    while i < s.len()
        invariant
            start <= i <= s@.len(),
            forall|j: int| start <= j < i ==> is_digit(#[trigger] s@[j]),
        decreases s@.len() - i,
    {
        if s[i] < 48 || s[i] > 57 {
            assert(!is_digit(s@.skip(start as int)[i - start]));
            return false;
        }
        i = i + 1;
    }
    assert forall|j: int| 0 <= j < s@.skip(start as int).len() implies is_digit(
        #[trigger] s@.skip(start as int)[j],
    ) by {
        assert(s@.skip(start as int)[j] == s@[start + j]);
    }
    true
}

/// Parses an unsigned decimal value as `str::parse::<u64>` does.
pub(crate) fn parse_u64_bytes(b: &[u8]) -> (r: Option<u64>)
    ensures
        r == spec_bytes_to_u64(b@),
{
    let start: usize = if b.len() > 0 && b[0] == 43 { 1 } else { 0 };
    if b.len() <= start {
        return None;
    }
    if !digits_from(b, start) {
        assert(start == 0 ==> b@.skip(0) =~= b@);
        assert(start == 1 ==> b@.skip(1) =~= b@.drop_first());
        return None;
    }
    assert(start == 0 ==> b@.skip(0) =~= b@);
    assert(start == 1 ==> b@.skip(1) =~= b@.drop_first());
    read_digits(b, start)
}

/// Parses `b` as a signed decimal `i64`, as `str::parse::<i64>` does on the
/// UTF-8 text of `b`; `None` when it is not such a number or does not fit.
pub fn bytes_to_i64(b: &[u8]) -> (r: Option<i64>)
    ensures
        r == spec_bytes_to_i64(b@),
{
    if b.len() > 0 && b[0] == 45 {
        if b.len() == 1 {
            return None;
        }
        if !digits_from(b, 1) {
            assert(b@.skip(1) =~= b@.drop_first());
            return None;
        }
        assert(b@.skip(1) =~= b@.drop_first());
        match read_digits(b, 1) {
            None => None,
            Some(mag) => {
                if mag <= 9223372036854775807 {
                    Some(-(mag as i64))
                } else if mag == 9223372036854775808 {
                    Some(i64::MIN)
                } else {
                    None
                }
            },
        }
    } else {
        match parse_u64_bytes(b) {
            None => None,
            Some(v) => {
                if v <= 9223372036854775807 {
                    Some(v as i64)
                } else {
                    None
                }
            },
        }
    }
}

/// Parses `b` as an unsigned decimal `u64`, as `str::parse::<u64>` does on the
/// UTF-8 text of `b`; `None` when it is not such a number or does not fit.
pub fn bytes_to_u64(b: &[u8]) -> (r: Option<u64>)
    ensures
        r == spec_bytes_to_u64(b@),
{
    parse_u64_bytes(b)
}

/// Appends the decimal digits of `n` to `buf`.
pub fn push_decimal(buf: &mut Vec<u8>, n: u64)
    ensures
        final(buf)@ == old(buf)@ + decimal(n as nat),
    decreases n,
{
    if n >= 10 {
        push_decimal(buf, n / 10);
    }
    buf.push(48 + (n % 10) as u8);
    assert(n >= 10 ==> decimal(n as nat) == decimal((n / 10) as nat).push((48 + n % 10) as u8));
}

/// The decimal text of `val`, as `val.to_string()` writes it.
pub fn i64_to_bytes(val: i64) -> (r: Vec<u8>)
    ensures
        r@ == signed_decimal(val as int),
{
    let mut out: Vec<u8> = Vec::new();
    if val < 0 {
        out.push(45);
        let mag: u64 = if val == i64::MIN {
            9223372036854775808
        } else {
            (-val) as u64
        };
        push_decimal(&mut out, mag);
    } else {
        push_decimal(&mut out, val as u64);
    }
    out
}

/// The decimal text of `n` is a run of digits that reads back as `n`.
pub proof fn lemma_decimal_digits(n: nat)
    ensures
        decimal(n).len() > 0,
        all_digits(decimal(n)),
        digits_value(decimal(n)) == n,
    decreases n,
{
    if n >= 10 {
        lemma_decimal_digits(n / 10);
        let d = decimal(n);
        assert(d.drop_last() =~= decimal(n / 10));
        assert(d.last() == (48 + n % 10) as u8);
        assert(0 <= n % 10 < 10);
        assert(((48 + n % 10) as u8) as int == 48 + n % 10);
        assert(digits_value(d) == digits_value(d.drop_last()) * 10 + (d.last() - 48) as nat);
        assert(digits_value(d.drop_last()) == n / 10);
        assert(digits_value(d) == n);
        assert((n / 10) * 10 + n % 10 == n);
        assert forall|i: int| 0 <= i < d.len() implies is_digit(#[trigger] d[i]) by {
            if i < d.len() - 1 {
                assert(d[i] == decimal(n / 10)[i]);
            }
        }
    } else {
        assert(decimal(n).drop_last() =~= Seq::<u8>::empty());
        assert(((48 + n) as u8) as int == 48 + n);
        assert(digits_value(Seq::<u8>::empty()) == 0);
        assert(digits_value(decimal(n)) == digits_value(decimal(n).drop_last()) * 10 + (decimal(n).last() - 48) as nat);
        assert(decimal(n).last() == (48 + n) as u8);
    }
}

/// Law: the text that `i64_to_bytes` writes is read back by `bytes_to_i64`
/// as the same number, for every `i64`.
pub proof fn law_i64_text_round_trip(v: i64)
    ensures
        spec_bytes_to_i64(signed_decimal(v as int)) == Some(v),
{
    if v < 0 {
        let m = (-(v as int)) as nat;
        lemma_decimal_digits(m);
        let s = signed_decimal(v as int);
        assert(s.drop_first() =~= decimal(m));
    } else {
        lemma_decimal_digits(v as nat);
        let s = decimal(v as nat);
        assert(is_digit(s[0]));
    }
}

/// Law: the text that `push_decimal` writes is read back by `bytes_to_u64`
/// as the same number, for every `u64`.
pub proof fn law_u64_text_round_trip(n: u64)
    ensures
        spec_bytes_to_u64(decimal(n as nat)) == Some(n),
{
    lemma_decimal_digits(n as nat);
    assert(is_digit(decimal(n as nat)[0]));
}

/// The items of `v` in the opposite order.
pub fn reverse_vec<T>(v: Vec<T>) -> (r: Vec<T>)
    ensures
        r@ == v@.reverse(),
{
    let ghost s = v@;
    let mut v = v;
    let mut r: Vec<T> = Vec::new();
    while v.len() > 0
        invariant
            v@ == s.take(v@.len() as int),
            v@.len() <= s.len(),
            r@.len() == s.len() - v@.len(),
            forall|t: int| 0 <= t < r@.len() ==> #[trigger] r@[t] == s[s.len() - 1 - t],
        decreases v@.len(),
    {
        let x = v.pop().unwrap();
        r.push(x);
        assert(v@ =~= s.take(v@.len() as int));
    }
    assert(r@ =~= s.reverse());
    r
}

/// The text of a byte string that is all ASCII, one `char` per byte.
pub open spec fn ascii_text(s: Seq<u8>) -> Seq<char> {
    s.map_values(|b: u8| b as char)
}

/// `c as char` written by `char`'s `Display`: that one character.
#[verifier::external_body]
pub(crate) fn char_string(c: u8) -> (r: String)
    ensures
        r@ == seq![c as char],
{
    (c as char).to_string()
}

/// The decimal digits of `n` as text, as `usize`'s `Display` writes them (no
/// sign, no leading zeros).
pub(crate) fn decimal_string(n: usize) -> (r: String)
    ensures
        r@ == ascii_text(decimal(n as nat)),
{
    let mut digits: Vec<u8> = Vec::new();
    push_decimal(&mut digits, n as u64);
    assert(digits@ =~= decimal(n as nat));
    let mut out = String::new();
    let mut i: usize = 0;
    while i < digits.len()
        invariant
            i <= digits@.len(),
            out@ == ascii_text(digits@.take(i as int)),
        decreases digits@.len() - i,
    {
        out.append(char_string(digits[i]).as_str());
        i = i + 1;
        assert(ascii_text(digits@.take(i as int)) =~= ascii_text(digits@.take(i - 1)) + seq![
            digits@[i - 1] as char,
        ]);
    }
    assert(digits@.take(i as int) =~= digits@);
    out
}

} // verus!
