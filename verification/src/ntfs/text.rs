//! Text that the decoders and their error messages are made of.

use vstd::prelude::*;
use vstd::string::{StrSliceExecFns, StringExecFns, StringSliceAdditionalSpecFns};
use vstd::utf8::{decode_utf8, encode_utf8, encode_utf8_decode_utf8, valid_utf8};

verus! {

/// `String::push`: appends one character.
#[verifier::external_body]
pub(crate) fn push_char(s: &mut String, c: char)
    ensures
        final(s)@ == old(s)@.push(c),
{
    s.push(c)
}

/// The text that `String::from_utf8_lossy` reads in `bytes`: their UTF-8
/// text, with a replacement character for each malformed run.
pub uninterp spec fn utf8_lossy_text(bytes: Seq<u8>) -> Seq<char>;

/// `String::from_utf8_lossy`: the text of `bytes`, which is their UTF-8
/// decoding where they are well formed.
#[verifier::external_body]
pub(crate) fn from_utf8_lossy(bytes: &[u8]) -> (r: String)
    ensures
        r@ == utf8_lossy_text(bytes@),
        valid_utf8(bytes@) ==> r@ == decode_utf8(bytes@),
{
    String::from_utf8_lossy(bytes).into_owned()
}

/// `text` without the NUL characters at its end.
pub open spec fn without_trailing_nul(text: Seq<char>) -> Seq<char>
    decreases text.len(),
{
    if text.len() > 0 && text.last() == '\0' {
        without_trailing_nul(text.drop_last())
    } else {
        text
    }
}

/// Removes every NUL character at the end of `text`.
pub fn trim_end_nul(text: &str) -> (r: String)
    ensures
        r@ == without_trailing_nul(text@),
{
    let mut k: usize = text.unicode_len();
    proof {
        assert(text@.subrange(0, k as int) =~= text@);
    }
    while k > 0 && text.get_char(k - 1) == '\0'
        invariant
            k <= text@.len(),
            without_trailing_nul(text@) == without_trailing_nul(text@.subrange(0, k as int)),
        decreases k,
    {
        proof {
            let t = text@.subrange(0, k as int);
            assert(t.drop_last() =~= text@.subrange(0, k - 1));
        }
        k = k - 1;
    }
    String::from_str(text.substring_char(0, k))
}

/// The text of a column of bounded width: `text` where its UTF-8 encoding
/// has no more than `limit` bytes, else the text of its first `keep` bytes
/// and `...`.
pub open spec fn shortened_text(text: Seq<char>, limit: int, keep: int) -> Seq<char> {
    if encode_utf8(text).len() > limit {
        decode_utf8(encode_utf8(text).subrange(0, keep)) + "..."@
    } else {
        text
    }
}

/// Cuts `text` for a column: text of more than `limit` bytes is cut after
/// `keep` bytes and gets `...`. The cut must not fall inside a character.
pub fn shorten(text: &str, limit: usize, keep: usize) -> (r: String)
    requires
        keep <= limit,
        text.spec_bytes().len() > limit ==> text.is_char_boundary(keep),
    ensures
        r@ == shortened_text(text@, limit as int, keep as int),
{
    if text.as_bytes().len() > limit {
        let (head, _) = text.split_at(keep);
        proof {
            encode_utf8_decode_utf8(head@);
        }
        let mut out = String::from_str(head);
        out.append("...");
        out
    } else {
        String::from_str(text)
    }
}

/// The lower-case hexadecimal digit for `n`.
pub open spec fn hex_digit(n: int) -> char {
    if n < 10 {
        (48 + n) as char
    } else {
        (87 + n) as char
    }
}

/// `v` in lower-case hexadecimal, in exactly `digits` digits: the low
/// `digits` digits of `v`, padded with zeros.
pub open spec fn hex_fixed(v: int, digits: nat) -> Seq<char>
    decreases digits,
{
    if digits == 0 {
        Seq::empty()
    } else {
        hex_fixed(v / 16, (digits - 1) as nat).push(hex_digit(v % 16))
    }
}

/// `v` in lower-case hexadecimal without leading zeros.
pub open spec fn hex_text(v: int) -> Seq<char>
    decreases v,
{
    if v < 16 {
        seq![hex_digit(v)]
    } else {
        hex_text(v / 16).push(hex_digit(v % 16))
    }
}

fn hex_digit_char(n: u8) -> (c: char)
    requires
        n < 16,
    ensures
        c == hex_digit(n as int),
{
    if n < 10 {
        (48 + n) as char
    } else {
        (87 + n) as char
    }
}

/// Appends `v` in exactly `digits` lower-case hexadecimal digits.
pub fn push_hex_fixed(out: &mut String, v: u64, digits: u32)
    ensures
        final(out)@ == old(out)@ + hex_fixed(v as int, digits as nat),
    decreases digits,
{
    if digits > 0 {
        push_hex_fixed(out, v / 16, digits - 1);
        push_char(out, hex_digit_char((v % 16) as u8));
        assert(out@ =~= old(out)@ + hex_fixed(v as int, digits as nat));
    } else {
        assert(out@ =~= old(out)@ + hex_fixed(v as int, digits as nat));
    }
}

/// Appends `v` in lower-case hexadecimal without leading zeros.
pub fn push_hex(out: &mut String, v: u64)
    ensures
        final(out)@ == old(out)@ + hex_text(v as int),
    decreases v,
{
    if v >= 16 {
        push_hex(out, v / 16);
    }
    push_char(out, hex_digit_char((v % 16) as u8));
    assert(out@ =~= old(out)@ + hex_text(v as int));
}

/// The lower-case hexadecimal text of `bytes`: two digits for each byte, the
/// high digit first.
pub open spec fn hex_of_bytes(bytes: Seq<u8>) -> Seq<char>
    decreases bytes.len(),
{
    if bytes.len() == 0 {
        Seq::empty()
    } else {
        hex_of_bytes(bytes.drop_last()) + hex_fixed(bytes.last() as int, 2)
    }
}

/// `hex::encode`: every byte as two lower-case hexadecimal digits, in order.
#[verifier::external_body]
pub(crate) fn hex_encode(data: &[u8]) -> (r: String)
    ensures
        r@ == hex_of_bytes(data@),
{
    hex::encode(data)
}

/// The decimal digit for `n`.
pub open spec fn decimal_digit(n: int) -> char {
    (48 + n) as char
}

/// The natural number `v` in decimal, without leading zeros.
pub open spec fn decimal_digits(v: int) -> Seq<char>
    decreases v,
{
    if v < 10 {
        seq![decimal_digit(v)]
    } else {
        decimal_digits(v / 10).push(decimal_digit(v % 10))
    }
}

/// The integer `v` in decimal, with `-` before a negative one.
pub open spec fn decimal_text(v: int) -> Seq<char> {
    if v < 0 {
        seq!['-'] + decimal_digits(-v)
    } else {
        decimal_digits(v)
    }
}

/// Appends `v` in decimal.
pub fn push_decimal(out: &mut String, v: u64)
    ensures
        final(out)@ == old(out)@ + decimal_text(v as int),
    decreases v,
{
    if v >= 10 {
        push_decimal(out, v / 10);
    }
    let digit: u8 = (v % 10) as u8;
    push_char(out, (48 + digit) as char);
    assert(out@ =~= old(out)@ + decimal_digits(v as int));
}

/// Appends `v` in decimal, with `-` before a negative one.
pub fn push_signed_decimal(out: &mut String, v: i64)
    ensures
        final(out)@ == old(out)@ + decimal_text(v as int),
{
    if v < 0 {
        let magnitude: u64 = (-(v + 1)) as u64 + 1;
        push_char(out, '-');
        push_decimal(out, magnitude);
        assert(out@ =~= old(out)@ + decimal_text(v as int));
    } else {
        push_decimal(out, v as u64);
    }
}

} // verus!
