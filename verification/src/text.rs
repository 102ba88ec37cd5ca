//! Building text: decimal and hexadecimal numbers, UTF-8 conversion.
use vstd::prelude::*;
use vstd::string::*;
use vstd::utf8::*;

use crate::number::{all_digits, digits_value, int_text_value, is_digit, parsed_i64};

verus! {

/// `String::push`: appends the character `c`.
#[verifier::external_body]
pub(crate) fn push_char(s: &mut String, c: char)
    ensures
        final(s)@ == old(s)@.push(c),
{
    s.push(c);
}

/// `String::from_utf8`: the string that the bytes encode in UTF-8, or `None`
/// when they are not valid UTF-8 (stated with vstd's definitions of UTF-8
/// validity and decoding).
#[verifier::external_body]
pub(crate) fn string_from_utf8(bytes: Vec<u8>) -> (res: Option<String>)
    ensures
        res is Some <==> valid_utf8(bytes@),
        res matches Some(s) ==> s@ == decode_utf8(bytes@),
{
    String::from_utf8(bytes).ok()
}

/// The decimal digits of `n`, most significant first, with no leading zero.
pub open spec fn decimal(n: nat) -> Seq<char>
    decreases n,
{
    if n < 10 {
        seq![(48 + n) as char]
    } else {
        decimal(n / 10).push((48 + n % 10) as char)
    }
}

/// How `{}` writes an integer: a `-` before the digits of a negative one.
pub open spec fn signed_decimal(i: int) -> Seq<char> {
    if i < 0 {
        seq!['-'] + decimal((-i) as nat)
    } else {
        decimal(i as nat)
    }
}

/// Appends the decimal digits of `n`.
pub fn push_decimal(s: &mut String, n: u64)
    ensures
        final(s)@ == old(s)@ + decimal(n as nat),
    decreases n,
{
    if n >= 10 {
        push_decimal(s, n / 10);
    }
    let d: u8 = (n % 10) as u8;
    let c: char = (48u8 + d) as char;
    push_char(s, c);
    proof {
        assert(old(s)@ + decimal(n as nat) =~= final(s)@) by {
            if n >= 10 {
                assert(decimal(n as nat) == decimal((n / 10) as nat).push((48 + n % 10) as char));
            }
        }
    }
}

/// Appends `i` as `{}` writes it.
pub fn push_i64(s: &mut String, i: i64)
    ensures
        final(s)@ == old(s)@ + signed_decimal(i as int),
{
    if i < 0 {
        push_char(s, '-');
        let n: u64 = ((-(i + 1)) as u64) + 1;
        push_decimal(s, n);
        assert(final(s)@ =~= old(s)@ + signed_decimal(i as int));
    } else {
        push_decimal(s, i as u64);
    }
}

/// The lowercase hexadecimal digit for `d < 16`.
pub open spec fn hex_digit(d: int) -> char {
    if d < 10 {
        (48 + d) as char
    } else {
        (87 + d) as char
    }
}

/// How `{:02x}` writes each byte, for a sequence of bytes.
pub open spec fn hex_text(bytes: Seq<u8>) -> Seq<char>
    decreases bytes.len(),
{
    if bytes.len() == 0 {
        Seq::empty()
    } else {
        hex_text(bytes.drop_last()).push(hex_digit((bytes.last() / 16) as int)).push(hex_digit((bytes.last() % 16) as int))
    }
}

/// Appends the hexadecimal digit `d < 16`.
pub(crate) fn push_hex_digit(s: &mut String, d: u8)
    requires
        d < 16,
    ensures
        final(s)@ == old(s)@.push(hex_digit(d as int)),
{
    let c: char = if d < 10 { (48u8 + d) as char } else { (87u8 + d) as char };
    push_char(s, c);
}


/// The bytes of the decimal digits of `n`.
spec fn decimal_bytes(n: nat) -> Seq<u8>
    decreases n,
{
    if n < 10 {
        seq![(48 + n) as u8]
    } else {
        decimal_bytes(n / 10).push((48 + n % 10) as u8)
    }
}

proof fn lemma_decimal_bytes(n: nat)
    ensures
        decimal(n).len() == decimal_bytes(n).len(),
        decimal(n).len() >= 1,
        forall|k: int| 0 <= k < decimal(n).len() ==> (#[trigger] decimal(n)[k]) as u8 == decimal_bytes(n)[k],
        is_ascii_chars(decimal(n)),
        all_digits(decimal_bytes(n)),
        digits_value(decimal_bytes(n)) == n,
    decreases n,
{
    if n >= 10 {
        lemma_decimal_bytes(n / 10);
        let b = decimal_bytes(n / 10);
        let c = (48 + n % 10) as u8;
        assert(b.push(c).drop_last() =~= b);
        assert(digits_value(b.push(c)) == digits_value(b) * 10 + (c - 48) as nat);
        assert(all_digits(b.push(c))) by {
            assert forall|k: int| 0 <= k < b.push(c).len() implies is_digit(#[trigger] b.push(c)[k]) by {
                if k < b.len() {
                    assert(is_digit(b[k]));
                }
            }
        }
        assert(is_ascii_chars(decimal(n))) by {
            assert forall|k: int| 0 <= k < decimal(n).len() implies '\0' <= #[trigger] decimal(n)[k] <= '\u{7f}' by {
                if k < decimal(n / 10).len() {
                    assert(decimal(n)[k] == decimal(n / 10)[k]);
                }
            }
        }
    } else {
        assert(all_digits(decimal_bytes(n)));
        assert(digits_value(decimal_bytes(n)) == n) by {
            reveal_with_fuel(digits_value, 2);
            assert(decimal_bytes(n).drop_last() =~= Seq::<u8>::empty());
        }
    }
}

/// The text that `{}` writes for an `i64` reads back, with `str::parse`, as
/// the same integer: a decoded integer printed by
/// [`crate::render::render_decoded_value`] decodes to the same value.
pub proof fn lemma_decimal_parses_back(i: i64)
    ensures
        parsed_i64(encode_utf8(signed_decimal(i as int))) == Some(i),
{
    let n: nat = if i < 0 { (-(i as int)) as nat } else { i as nat };
    lemma_decimal_bytes(n);
    is_ascii_chars_encode_utf8(decimal(n));
    assert(encode_utf8(decimal(n)) =~= decimal_bytes(n));
    if i < 0 {
        let t = seq!['-'] + decimal(n);
        assert(is_ascii_chars(t));
        is_ascii_chars_encode_utf8(t);
        let e = encode_utf8(t);
        assert(e.skip(1) =~= decimal_bytes(n));
        assert(e[0] == 45u8);
        assert(int_text_value(e) == Some(-(n as int)));
    } else {
        let e = encode_utf8(decimal(n));
        assert(is_digit(e[0]));
        assert(int_text_value(e) == Some(n as int));
    }
}


/// The value of a lowercase hexadecimal digit as [`hex_digit`] writes it.
pub open spec fn hex_digit_value(c: char) -> int {
    if (c as int) < 58 {
        c as int - 48
    } else {
        c as int - 87
    }
}

proof fn lemma_hex_digit_value(d: int)
    requires
        0 <= d < 16,
    ensures
        hex_digit_value(hex_digit(d)) == d,
{
}

/// The hexadecimal text of bytes reads back as the bytes: it has two digits
/// per byte, and digits `2i` and `2i + 1` are the high and low halves of
/// byte `i`.
pub proof fn lemma_hex_text_reads_back(bytes: Seq<u8>)
    ensures
        hex_text(bytes).len() == 2 * bytes.len(),
        forall|i: int| 0 <= i < bytes.len() ==>
            hex_digit_value(#[trigger] hex_text(bytes)[2 * i]) * 16 + hex_digit_value(hex_text(bytes)[2 * i + 1]) == bytes[i],
    decreases bytes.len(),
{
    if bytes.len() > 0 {
        let init = bytes.drop_last();
        lemma_hex_text_reads_back(init);
        let b = bytes.last();
        lemma_hex_digit_value((b / 16) as int);
        lemma_hex_digit_value((b % 16) as int);
        let t = hex_text(bytes);
        assert(t == hex_text(init).push(hex_digit((b / 16) as int)).push(hex_digit((b % 16) as int)));
        assert forall|i: int| 0 <= i < bytes.len() implies
            hex_digit_value(#[trigger] t[2 * i]) * 16 + hex_digit_value(t[2 * i + 1]) == bytes[i] by {
            if i < init.len() {
                assert(t[2 * i] == hex_text(init)[2 * i]);
                assert(t[2 * i + 1] == hex_text(init)[2 * i + 1]);
                assert(bytes[i] == init[i]);
            }
        }
    }
}

/// Different bytes have different hexadecimal texts.
pub proof fn lemma_hex_text_injective(a: Seq<u8>, b: Seq<u8>)
    requires
        hex_text(a) == hex_text(b),
    ensures
        a == b,
{
    lemma_hex_text_reads_back(a);
    lemma_hex_text_reads_back(b);
    assert(a.len() == b.len());
    assert forall|i: int| 0 <= i < a.len() implies a[i] == b[i] by {
        assert(hex_text(a)[2 * i] == hex_text(b)[2 * i]);
        assert(hex_text(a)[2 * i + 1] == hex_text(b)[2 * i + 1]);
        assert(hex_digit_value(hex_text(a)[2 * i]) * 16 + hex_digit_value(hex_text(a)[2 * i + 1]) == a[i]);
        assert(hex_digit_value(hex_text(b)[2 * i]) * 16 + hex_digit_value(hex_text(b)[2 * i + 1]) == b[i]);
    }
    assert(a =~= b);
}

} // verus!
