//! Decimal text of 64-bit signed integers: parsing (as `i64::from_str` does)
//! and formatting (as `i64::to_string` does).

use vstd::prelude::*;
use vstd::string::*;
use vstd::utf8::encode_utf8;
use vstd::utf8::is_ascii_chars;

verus! {

/// The byte of an ASCII decimal digit.
pub open spec fn is_digit_byte(b: u8) -> bool {
    48 <= b <= 57
}

/// Every byte is an ASCII decimal digit.
pub open spec fn all_digit_bytes(s: Seq<u8>) -> bool {
    forall|i: int| 0 <= i < s.len() ==> is_digit_byte(#[trigger] s[i])
}

/// The number that a sequence of decimal digit bytes denotes (most significant first).
pub open spec fn digits_value(s: Seq<u8>) -> nat
    decreases s.len(),
{
    if s.len() == 0 {
        0
    } else {
        digits_value(s.drop_last()) * 10 + (s.last() - 48) as nat
    }
}

/// What `i64::from_str` accepts: an optional `+` or `-` followed by at least one
/// ASCII digit and nothing else, denoting a value within the range of `i64`.
pub open spec fn parse_i64_spec(s: Seq<u8>) -> Option<i64> {
    if s.len() == 0 {
        None
    } else {
        let signed = s[0] == 45u8 || s[0] == 43u8;
        let digits = if signed { s.drop_first() } else { s };
        let v = digits_value(digits);
        if digits.len() == 0 || !all_digit_bytes(digits) {
            None
        } else if s[0] == 45u8 {
            if v <= 9223372036854775808 { Some((-v) as i64) } else { None }
        } else {
            if v <= 9223372036854775807 { Some(v as i64) } else { None }
        }
    }
}

/// The character of a decimal digit.
pub open spec fn digit_char(d: nat) -> char {
    ((48 + d) as u32) as char
}

/// The decimal digits of a natural number, without leading zeros.
pub open spec fn decimal_digits(m: nat) -> Seq<char>
    decreases m,
{
    if m < 10 {
        seq![digit_char(m)]
    } else {
        decimal_digits(m / 10).push(digit_char(m % 10))
    }
}

/// The decimal text of an integer: a `-` for negative numbers, then its digits.
pub open spec fn decimal_text(n: int) -> Seq<char> {
    if n < 0 {
        seq!['-'] + decimal_digits((-n) as nat)
    } else {
        decimal_digits(n as nat)
    }
}

/// Extending a run of digits never makes the number it denotes smaller.
proof fn lemma_digits_value_prefix(s: Seq<u8>, k: int)
    requires
        all_digit_bytes(s),
        0 <= k <= s.len(),
    ensures
        digits_value(s.take(k)) <= digits_value(s),
    decreases s.len() - k,
{
    if k < s.len() {
        lemma_digits_value_prefix(s, k + 1);
        assert(s.take(k + 1).drop_last() =~= s.take(k));
        assert(is_digit_byte(s[k]));
    } else {
        assert(s.take(k) =~= s);
    }
}

/// The bytes of an ASCII text, one per character.
pub open spec fn ascii_bytes(t: Seq<char>) -> Seq<u8> {
    t.map_values(|c: char| c as u8)
}

/// The digits of a number are decimal digit characters, at least one of them.
proof fn lemma_decimal_digits_shape(m: nat)
    ensures
        decimal_digits(m).len() > 0,
        forall|i: int|
            0 <= i < decimal_digits(m).len() ==> '0' <= #[trigger] decimal_digits(m)[i] <= '9',
    decreases m,
{
    if m >= 10 {
        lemma_decimal_digits_shape(m / 10);
    }
}

/// The digits of a number, read back as bytes, denote that number.
proof fn lemma_decimal_digits_value(m: nat)
    ensures
        all_digit_bytes(ascii_bytes(decimal_digits(m))),
        digits_value(ascii_bytes(decimal_digits(m))) == m,
    decreases m,
{
    lemma_decimal_digits_shape(m);
    let t = decimal_digits(m);
    let bs = ascii_bytes(t);
    assert forall|i: int| 0 <= i < bs.len() implies is_digit_byte(#[trigger] bs[i]) by {
        assert('0' <= t[i] <= '9');
    }
    let k = m % 10;
    assert(digit_char(k) as u32 == 48 + k);
    assert(digit_char(k) as u8 == 48 + k);
    assert(bs.last() == t.last() as u8);
    assert(t.last() == digit_char(k));
    assert(bs.last() - 48 == k);
    if m < 10 {
        assert(bs.drop_last() =~= Seq::<u8>::empty());
        assert(digits_value(bs) == digits_value(bs.drop_last()) * 10 + k);
    } else {
        lemma_decimal_digits_value(m / 10);
        assert(bs.drop_last() =~= ascii_bytes(decimal_digits(m / 10)));
        assert(digits_value(bs) == (m / 10) * 10 + k);
    }
}

/// The UTF-8 bytes of an ASCII text are its characters' codes.
proof fn lemma_encode_ascii(t: Seq<char>)
    requires
        is_ascii_chars(t),
    ensures
        encode_utf8(t) == ascii_bytes(t),
{
    vstd::utf8::is_ascii_chars_encode_utf8(t);
    assert(encode_utf8(t) =~= ascii_bytes(t));
}

/// Reading back the decimal text of an `i64` gives the same `i64`: formatting
/// and parsing are inverse, so the text written for a number always parses.
pub proof fn lemma_parse_format_roundtrip(n: i64)
    ensures
        parse_i64_spec(encode_utf8(decimal_text(n as int))) == Some(n),
{
    let m: nat = if n < 0 { (-n) as nat } else { n as nat };
    let d = decimal_digits(m);
    lemma_decimal_digits_shape(m);
    lemma_decimal_digits_value(m);
    let t = decimal_text(n as int);
    assert(is_ascii_chars(t)) by {
        if n < 0 {
            assert forall|i: int| 0 <= i < t.len() implies '\0' <= #[trigger] t[i] <= '\u{7f}' by {
                if i > 0 {
                    assert(t[i] == d[i - 1]);
                }
            }
        }
    }
    lemma_encode_ascii(t);
    let bs = ascii_bytes(t);
    if n < 0 {
        assert(bs[0] == 45u8);
        assert(bs.drop_first() =~= ascii_bytes(d));
    } else {
        assert('0' <= d[0] <= '9');
        assert(bs =~= ascii_bytes(d));
    }
}

/// Parses decimal text as `i64::from_str` does, on the UTF-8 bytes of `s`.
pub fn parse_i64(s: &str) -> (r: Option<i64>)
    ensures
        r == parse_i64_spec(encode_utf8(s@)),
{
    let b = s.as_bytes();
    let ghost bs = encode_utf8(s@);
    assert(b@ == bs);
    if b.len() == 0 {
        return None;
    }
    let negative = b[0] == 45u8;
    let signed = negative || b[0] == 43u8;
    let start: usize = if signed { 1 } else { 0 };
    let ghost digits = if signed { bs.drop_first() } else { bs };
    assert(digits =~= bs.skip(start as int));
    if start == b.len() {
        return None;
    }
    let limit: u128 = if negative { 9223372036854775808 } else { 9223372036854775807 };
    let mut acc: u128 = 0;
    let mut i: usize = start;
    while i < b.len()
        invariant
            b@ == bs,
            bs == encode_utf8(s@),
            start <= i <= b.len(),
            start == 0 || start == 1,
            digits =~= bs.skip(start as int),
            all_digit_bytes(digits.take(i - start)),
            acc == digits_value(digits.take(i - start)),
            acc <= limit,
            limit <= 9223372036854775808,
            bs.len() > 0,
            negative == (bs[0] == 45u8),
            signed == (bs[0] == 45u8 || bs[0] == 43u8),
            start == (if signed { 1usize } else { 0usize }),
            digits == (if signed { bs.drop_first() } else { bs }),
            digits.len() > 0,
            limit == (if negative { 9223372036854775808u128 } else { 9223372036854775807u128 }),
        decreases b.len() - i,
    {
        let c = b[i];
        if c < 48u8 || c > 57u8 {
            assert(bs[i as int] == c);
            assert(digits[i - start] == bs[i as int]);
            assert(!is_digit_byte(digits[i - start]));
            assert(!all_digit_bytes(digits));
            return None;
        }
        let ghost j = i - start;
        assert(digits.take(j + 1).drop_last() =~= digits.take(j));
        assert(digits.take(j + 1).last() == c);
        assert(bs[i as int] == c);
        assert(digits[j] == bs[i as int]);
        assert(digits.take(j + 1)[j] == c);
        acc = acc * 10 + (c - 48u8) as u128;
        assert(acc == digits_value(digits.take(j + 1)));
        i = i + 1;
        if acc > limit {
            proof {
                if all_digit_bytes(digits) {
                    lemma_digits_value_prefix(digits, j + 1);
                    assert(digits_value(digits) > limit);
                }
            }
            return None;
        }
        assert(all_digit_bytes(digits.take(j + 1)));
    }
    assert(digits.take(i - start) =~= digits);
    if negative {
        if acc == 9223372036854775808 {
            Some(i64::MIN)
        } else {
            let m = acc as i64;
            Some(-m)
        }
    } else {
        Some(acc as i64)
    }
}

/// The one-character text of a decimal digit.
fn digit_str(d: u64) -> (r: &'static str)
    requires
        d < 10,
    ensures
        r@ == seq![digit_char(d as nat)],
{
    if d == 0 {
        proof { reveal_strlit("0"); }
        "0"
    } else if d == 1 {
        proof { reveal_strlit("1"); }
        "1"
    } else if d == 2 {
        proof { reveal_strlit("2"); }
        "2"
    } else if d == 3 {
        proof { reveal_strlit("3"); }
        "3"
    } else if d == 4 {
        proof { reveal_strlit("4"); }
        "4"
    } else if d == 5 {
        proof { reveal_strlit("5"); }
        "5"
    } else if d == 6 {
        proof { reveal_strlit("6"); }
        "6"
    } else if d == 7 {
        proof { reveal_strlit("7"); }
        "7"
    } else if d == 8 {
        proof { reveal_strlit("8"); }
        "8"
    } else {
        proof { reveal_strlit("9"); }
        "9"
    }
}

/// Appends the decimal digits of `m` to `out`.
fn push_digits(out: &mut String, m: u64)
    ensures
        final(out)@ == old(out)@ + decimal_digits(m as nat),
    decreases m,
{
    if m >= 10 {
        push_digits(out, m / 10);
    }
    out.append(digit_str(m % 10));
    assert(decimal_digits(m as nat) == if m < 10 {
        seq![digit_char(m as nat)]
    } else {
        decimal_digits((m / 10) as nat).push(digit_char((m % 10) as nat))
    });
    assert(old(out)@ + decimal_digits(m as nat) =~= final(out)@) by {
        if m >= 10 {
            assert(old(out)@ + decimal_digits((m / 10) as nat).push(digit_char((m % 10) as nat))
                =~= (old(out)@ + decimal_digits((m / 10) as nat)).push(digit_char((m % 10) as nat)));
        }
    }
}

/// The decimal text of `n`, as `i64::to_string` writes it.
pub fn format_i64(n: i64) -> (r: String)
    ensures
        r@ == decimal_text(n as int),
{
    let mut out = String::new();
    if n < 0 {
        out.append("-");
        proof { reveal_strlit("-"); }
        let m: u64 = if n == i64::MIN { 9223372036854775808 } else { (-n) as u64 };
        push_digits(&mut out, m);
    } else {
        push_digits(&mut out, n as u64);
    }
    out
}

} // verus!
