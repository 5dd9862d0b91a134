//! UTF-16LE text, as NTFS stores file names.

use crate::ntfs::reader::{le_u16, read_u16};
use crate::ntfs::text::push_char;
use vstd::prelude::*;
use vstd::string::StringExecFns;
use vstd::utf8::{char_is_scalar, char_u32_cast};

verus! {

/// The number of whole code units in `bytes`; a trailing odd byte is ignored.
pub open spec fn unit_count(bytes: Seq<u8>) -> int {
    bytes.len() as int / 2
}

/// The `i`-th little-endian code unit of `bytes`.
pub open spec fn unit_at(bytes: Seq<u8>, i: int) -> int {
    le_u16(bytes, 2 * i)
}

/// Whether `u` is the first code unit of a surrogate pair.
pub open spec fn is_high_surrogate(u: int) -> bool {
    0xD800 <= u <= 0xDBFF
}

/// Whether `u` is the second code unit of a surrogate pair.
pub open spec fn is_low_surrogate(u: int) -> bool {
    0xDC00 <= u <= 0xDFFF
}

/// The scalar value that a surrogate pair stands for.
pub open spec fn pair_scalar(high: int, low: int) -> int {
    0x1_0000 + (high - 0xD800) * 0x400 + (low - 0xDC00)
}

/// The text that the code units of `bytes` from unit `i` on encode, or `None`
/// where a surrogate stands without its partner.
pub open spec fn decode_from(bytes: Seq<u8>, i: int) -> Option<Seq<char>>
    decreases unit_count(bytes) - i,
{
    if i < 0 || i >= unit_count(bytes) {
        Some(Seq::empty())
    } else {
        let u = unit_at(bytes, i);
        if !is_high_surrogate(u) && !is_low_surrogate(u) {
            match decode_from(bytes, i + 1) {
                Some(rest) => Some(seq![u as char] + rest),
                None => None,
            }
        } else if is_high_surrogate(u) && i + 1 < unit_count(bytes) && is_low_surrogate(
            unit_at(bytes, i + 1),
        ) {
            match decode_from(bytes, i + 2) {
                Some(rest) => Some(seq![pair_scalar(u, unit_at(bytes, i + 1)) as char] + rest),
                None => None,
            }
        } else {
            None
        }
    }
}

/// The text that `bytes` encodes as UTF-16LE, if it is well formed.
pub open spec fn decode_utf16le(bytes: Seq<u8>) -> Option<Seq<char>> {
    decode_from(bytes, 0)
}

/// `char::from_u32`: the character with scalar value `v`; none for a
/// surrogate or a value above `0x10FFFF`.
#[verifier::external_body]
fn char_from_u32(v: u32) -> (r: Option<char>)
    ensures
        r == if v < 0xD800 || 0xE000 <= v <= 0x10_FFFF {
            Some(v as char)
        } else {
            None
        },
{
    char::from_u32(v)
}

/// Decodes `bytes` as UTF-16LE into its characters. A trailing odd byte is
/// ignored. Returns `None` exactly when a surrogate code unit stands without
/// its partner.
pub fn chars_from_utf16le(bytes: &[u8]) -> (r: Option<Vec<char>>)
    ensures
        match r {
            Some(chars) => decode_utf16le(bytes@) == Some(chars@),
            None => decode_utf16le(bytes@) is None,
        },
{
    let n: usize = bytes.len() / 2;
    let mut out: Vec<char> = Vec::new();
    let mut i: usize = 0;
    while i < n
        invariant
            n == unit_count(bytes@),
            2 * n <= usize::MAX,
            i <= n,
            decode_utf16le(bytes@) == match decode_from(bytes@, i as int) {
                Some(rest) => Some(out@ + rest),
                None => None,
            },
        decreases n - i,
    {
        let u: u16 = read_u16(bytes, 2 * i);
        if u < 0xD800 || u > 0xDFFF {
            match char_from_u32(u as u32) {
                Some(c) => {
                    proof {
                        let rest = decode_from(bytes@, i + 1);
                        if rest is Some {
                            assert(out@.push(c) + rest->0 =~= out@ + (seq![c] + rest->0));
                        }
                    }
                    out.push(c);
                },
                None => {
                    return None;
                },
            }
            i = i + 1;
        } else if u <= 0xDBFF && i + 1 < n {
            let low: u16 = read_u16(bytes, 2 * (i + 1));
            if low < 0xDC00 || low > 0xDFFF {
                return None;
            }
            let scalar: u32 = 0x1_0000 + (u as u32 - 0xD800) * 0x400 + (low as u32 - 0xDC00);
            match char_from_u32(scalar) {
                Some(c) => {
                    proof {
                        let rest = decode_from(bytes@, i + 2);
                        if rest is Some {
                            assert(out@.push(c) + rest->0 =~= out@ + (seq![c] + rest->0));
                        }
                    }
                    out.push(c);
                },
                None => {
                    return None;
                },
            }
            i = i + 2;
        } else {
            return None;
        }
    }
    proof {
        assert(out@ + Seq::<char>::empty() =~= out@);
    }
    Some(out)
}

/// The text of the characters of `chars` from `from` up to `to`.
fn string_from_chars(chars: &[char], from: usize, to: usize) -> (r: String)
    requires
        from <= to <= chars@.len(),
    ensures
        r@ == chars@.subrange(from as int, to as int),
{
    let mut out = String::new();
    let mut i: usize = from;
    while i < to
        invariant
            from <= i <= to <= chars@.len(),
            out@ == chars@.subrange(from as int, i as int),
        decreases to - i,
    {
        push_char(&mut out, chars[i]);
        assert(out@ =~= chars@.subrange(from as int, i + 1));
        i = i + 1;
    }
    out
}

/// Decodes `bytes` as UTF-16LE. A trailing odd byte is ignored. Returns
/// `None` exactly when a surrogate code unit stands without its partner.
pub fn string_from_utf16le(bytes: &[u8]) -> (r: Option<String>)
    ensures
        match r {
            Some(s) => decode_utf16le(bytes@) == Some(s@),
            None => decode_utf16le(bytes@) is None,
        },
{
    match chars_from_utf16le(bytes) {
        Some(chars) => {
            let n: usize = chars.len();
            assert(chars@.subrange(0, n as int) =~= chars@);
            Some(string_from_chars(chars.as_slice(), 0, n))
        },
        None => None,
    }
}

/// The position of the last `.` of `name`, or `-1` where it has none.
pub open spec fn last_dot(name: Seq<char>) -> int
    decreases name.len(),
{
    if name.len() == 0 {
        -1
    } else if name.last() == '.' {
        name.len() - 1
    } else {
        last_dot(name.drop_last())
    }
}

/// What follows the last `.` of `name`; empty where it has none.
pub open spec fn extension_of(name: Seq<char>) -> Seq<char> {
    let dot = last_dot(name);
    if dot < 0 {
        Seq::empty()
    } else {
        name.subrange(dot + 1, name.len() as int)
    }
}

/// The file name that `bytes` hold: their UTF-16LE text, or the words
/// `INVALID_NAME` where they are malformed.
pub open spec fn decoded_name(bytes: Seq<u8>) -> Seq<char> {
    match decode_utf16le(bytes) {
        Some(text) => text,
        None => "INVALID_NAME"@,
    }
}

/// The extension of the file name that `bytes` hold; a malformed name has
/// none.
pub open spec fn decoded_extension(bytes: Seq<u8>) -> Seq<char> {
    match decode_utf16le(bytes) {
        Some(text) => extension_of(text),
        None => Seq::empty(),
    }
}

/// Decodes a file name and its extension from UTF-16LE bytes. Malformed
/// bytes are no error: they give the name `INVALID_NAME`.
pub fn decode_name(bytes: &[u8]) -> (r: (String, String))
    ensures
        r.0@ == decoded_name(bytes@),
        r.1@ == decoded_extension(bytes@),
{
    match chars_from_utf16le(bytes) {
        Some(chars) => {
            let n: usize = chars.len();
            let mut k: usize = n;
            proof {
                assert(chars@.subrange(0, n as int) =~= chars@);
            }
            while k > 0 && chars[k - 1] != '.'
                invariant
                    k <= n == chars@.len(),
                    last_dot(chars@) == last_dot(chars@.subrange(0, k as int)),
                decreases k,
            {
                proof {
                    assert(chars@.subrange(0, k as int).drop_last() =~= chars@.subrange(0, k - 1));
                }
                k = k - 1;
            }
            let name = string_from_chars(chars.as_slice(), 0, n);
            let extension = if k > 0 {
                string_from_chars(chars.as_slice(), k, n)
            } else {
                String::new()
            };
            (name, extension)
        },
        None => (String::from_str("INVALID_NAME"), String::new()),
    }
}

/// The two bytes of the code unit `u`, the low byte first.
pub open spec fn unit_bytes(u: int) -> Seq<u8> {
    seq![(u % 0x100) as u8, (u / 0x100) as u8]
}

/// The UTF-16LE encoding of one character: one code unit for a scalar
/// value below `0x10000`, else a high and a low surrogate.
pub open spec fn encode_char(c: char) -> Seq<u8> {
    let v = (c as u32) as int;
    if v < 0x1_0000 {
        unit_bytes(v)
    } else {
        unit_bytes(0xD800 + (v - 0x1_0000) / 0x400) + unit_bytes(0xDC00 + (v - 0x1_0000) % 0x400)
    }
}

/// The UTF-16LE encoding of `text`.
pub open spec fn encode_utf16le(text: Seq<char>) -> Seq<u8>
    decreases text.len(),
{
    if text.len() == 0 {
        Seq::empty()
    } else {
        encode_char(text[0]) + encode_utf16le(text.skip(1))
    }
}

/// Code units before the one that decoding starts from do not matter:
/// behind `units` code units of `head`, `tail` decodes as it does alone.
pub proof fn lemma_decode_after_prefix(head: Seq<u8>, tail: Seq<u8>, i: int)
    requires
        head.len() % 2 == 0,
        0 <= i,
    ensures
        decode_from(head + tail, head.len() / 2 + i) == decode_from(tail, i),
    decreases unit_count(tail) - i,
{
    let all = head + tail;
    let k = head.len() as int / 2;
    assert(unit_count(all) == k + unit_count(tail));
    if i < unit_count(tail) {
        assert(unit_at(all, k + i) == unit_at(tail, i)) by {
            assert(all[2 * (k + i)] == tail[2 * i]);
            assert(all[2 * (k + i) + 1] == tail[2 * i + 1]);
        }
        lemma_decode_after_prefix(head, tail, i + 1);
        if i + 1 < unit_count(tail) {
            assert(unit_at(all, k + i + 1) == unit_at(tail, i + 1)) by {
                assert(all[2 * (k + i + 1)] == tail[2 * (i + 1)]);
                assert(all[2 * (k + i + 1) + 1] == tail[2 * (i + 1) + 1]);
            }
            lemma_decode_after_prefix(head, tail, i + 2);
        }
    }
}

/// UTF-16LE text decodes to the text it encodes: for every text, the bytes
/// of its encoding are of even length and decode to that text.
pub proof fn lemma_utf16le_round_trip(text: Seq<char>)
    ensures
        encode_utf16le(text).len() % 2 == 0,
        decode_utf16le(encode_utf16le(text)) == Some(text),
        decoded_name(encode_utf16le(text)) == text,
    decreases text.len(),
{
    if text.len() > 0 {
        let c = text[0];
        let v = (c as u32) as int;
        char_is_scalar(c);
        char_u32_cast(c, c as u32);
        let rest = text.skip(1);
        let head = encode_char(c);
        let tail = encode_utf16le(rest);
        let all = head + tail;
        lemma_utf16le_round_trip(rest);
        lemma_decode_after_prefix(head, tail, 0);
        assert(decode_from(tail, 0) == Some(rest));
        assert(v < 0xD800 || 0xE000 <= v <= 0x10_FFFF);
        if v < 0x1_0000 {
            assert(unit_at(all, 0) == v) by {
                assert(all[0] == head[0]);
                assert(all[1] == head[1]);
            }
            assert(v as char == c);
            assert(seq![c] + rest =~= text);
        } else {
            let high = 0xD800 + (v - 0x1_0000) / 0x400;
            let low = 0xDC00 + (v - 0x1_0000) % 0x400;
            assert(head.len() == 4);
            assert(unit_at(all, 0) == high) by {
                assert(all[0] == head[0]);
                assert(all[1] == head[1]);
            }
            assert(unit_at(all, 1) == low) by {
                assert(all[2] == head[2]);
                assert(all[3] == head[3]);
            }
            assert(pair_scalar(high, low) == v);
            assert(v as char == c);
            assert(seq![c] + rest =~= text);
        }
    }
}

/// Well-formed UTF-16LE bytes are the encoding of the text they decode to:
/// from any code unit on, the bytes of whole code units that decode to a
/// text are that text's encoding.
pub proof fn lemma_utf16le_decoded_encodes(bytes: Seq<u8>, i: int)
    requires
        0 <= i <= unit_count(bytes),
        decode_from(bytes, i) is Some,
    ensures
        encode_utf16le(decode_from(bytes, i)->0) == bytes.subrange(2 * i, 2 * unit_count(bytes)),
    decreases unit_count(bytes) - i,
{
    let n = unit_count(bytes);
    let text = decode_from(bytes, i)->0;
    if i >= n {
        assert(bytes.subrange(2 * i, 2 * n) =~= Seq::<u8>::empty());
    } else {
        let u = unit_at(bytes, i);
        if !is_high_surrogate(u) && !is_low_surrogate(u) {
            let rest = decode_from(bytes, i + 1)->0;
            lemma_utf16le_decoded_encodes(bytes, i + 1);
            let c = u as char;
            assert(text == seq![c] + rest);
            assert(text.skip(1) =~= rest);
            assert(c as u32 == u);
            assert(encode_char(c) =~= bytes.subrange(2 * i, 2 * i + 2));
            assert(bytes.subrange(2 * i, 2 * i + 2) + bytes.subrange(2 * i + 2, 2 * n)
                =~= bytes.subrange(2 * i, 2 * n));
        } else {
            let low = unit_at(bytes, i + 1);
            let rest = decode_from(bytes, i + 2)->0;
            lemma_utf16le_decoded_encodes(bytes, i + 2);
            let v = pair_scalar(u, low);
            let c = v as char;
            assert(text == seq![c] + rest);
            assert(text.skip(1) =~= rest);
            assert(0x1_0000 <= v <= 0x10_FFFF);
            assert(c as u32 == v);
            assert(0xD800 + (v - 0x1_0000) / 0x400 == u);
            assert(0xDC00 + (v - 0x1_0000) % 0x400 == low);
            assert(encode_char(c) =~= bytes.subrange(2 * i, 2 * i + 4));
            assert(bytes.subrange(2 * i, 2 * i + 4) + bytes.subrange(2 * i + 4, 2 * n)
                =~= bytes.subrange(2 * i, 2 * n));
        }
    }
}

} // verus!
