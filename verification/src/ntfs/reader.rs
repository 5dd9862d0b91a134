//! Little-endian integer fields at byte offsets of a buffer.

use byteorder::{ByteOrder, LittleEndian};
use vstd::prelude::*;
use vstd::slice::slice_subrange;

verus! {

/// The byte of `s` at `at`.
pub open spec fn u8_at(s: Seq<u8>, at: int) -> int {
    s[at] as int
}

/// The byte of `s` at `at`, read as a two's complement number.
pub open spec fn i8_at(s: Seq<u8>, at: int) -> int {
    if s[at] < 128 {
        s[at] as int
    } else {
        s[at] as int - 256
    }
}

/// The unsigned little-endian number in the two bytes of `s` from `at`.
pub open spec fn le_u16(s: Seq<u8>, at: int) -> int {
    s[at] as int + 0x100 * (s[at + 1] as int)
}

/// The unsigned little-endian number in the four bytes of `s` from `at`.
pub open spec fn le_u32(s: Seq<u8>, at: int) -> int {
    le_u16(s, at) + 0x1_0000 * le_u16(s, at + 2)
}

/// The unsigned little-endian number in the eight bytes of `s` from `at`.
pub open spec fn le_u64(s: Seq<u8>, at: int) -> int {
    le_u32(s, at) + 0x1_0000_0000 * le_u32(s, at + 4)
}

/// The part of a 64-bit file reference that the records keep of its entry
/// number. The entry number fills the low 48 bits; the records keep its low
/// 32 bits.
pub open spec fn reference_entry(reference: int) -> int {
    reference % 0x1_0000_0000
}

/// The sequence number of a 64-bit file reference: its high 16 bits.
pub open spec fn reference_sequence(reference: int) -> int {
    reference / 0x1_0000_0000_0000
}

/// `byteorder::LittleEndian::read_u16`: the first two bytes of `buf`, the
/// low byte first. The outside function panics on a shorter buffer.
#[verifier::external_body]
fn le_read_u16(buf: &[u8]) -> (r: u16)
    requires
        buf@.len() >= 2,
    ensures
        r as int == le_u16(buf@, 0),
{
    LittleEndian::read_u16(buf)
}

/// `byteorder::LittleEndian::read_u32`: the first four bytes of `buf`, the
/// low byte first. The outside function panics on a shorter buffer.
#[verifier::external_body]
fn le_read_u32(buf: &[u8]) -> (r: u32)
    requires
        buf@.len() >= 4,
    ensures
        r as int == le_u32(buf@, 0),
{
    LittleEndian::read_u32(buf)
}

/// `byteorder::LittleEndian::read_u64`: the first eight bytes of `buf`, the
/// low byte first. The outside function panics on a shorter buffer.
#[verifier::external_body]
fn le_read_u64(buf: &[u8]) -> (r: u64)
    requires
        buf@.len() >= 8,
    ensures
        r as int == le_u64(buf@, 0),
{
    LittleEndian::read_u64(buf)
}

/// Reads the byte at `at`.
pub fn read_u8(data: &[u8], at: usize) -> (r: u8)
    requires
        at < data@.len(),
    ensures
        r as int == u8_at(data@, at as int),
{
    data[at]
}

/// Reads the byte at `at` as a signed number.
pub fn read_i8(data: &[u8], at: usize) -> (r: i8)
    requires
        at < data@.len(),
    ensures
        r as int == i8_at(data@, at as int),
{
    let b: u8 = data[at];
    if b < 128 {
        b as i8
    } else {
        let low: u8 = b - 128;
        (low as i8) - 127 - 1
    }
}

/// Reads the little-endian `u16` that starts at `at`.
pub fn read_u16(data: &[u8], at: usize) -> (r: u16)
    requires
        at + 2 <= data@.len(),
    ensures
        r as int == le_u16(data@, at as int),
{
    let len: usize = data.len();
    assert(at + 2 <= len);
    le_read_u16(slice_subrange(data, at, at + 2))
}

/// Reads the little-endian `u32` that starts at `at`.
pub fn read_u32(data: &[u8], at: usize) -> (r: u32)
    requires
        at + 4 <= data@.len(),
    ensures
        r as int == le_u32(data@, at as int),
{
    let len: usize = data.len();
    assert(at + 4 <= len);
    le_read_u32(slice_subrange(data, at, at + 4))
}

/// Reads the little-endian `u64` that starts at `at`.
pub fn read_u64(data: &[u8], at: usize) -> (r: u64)
    requires
        at + 8 <= data@.len(),
    ensures
        r as int == le_u64(data@, at as int),
{
    let len: usize = data.len();
    assert(at + 8 <= len);
    le_read_u64(slice_subrange(data, at, at + 8))
}

/// The entry number of a file reference, as the records keep it.
pub fn file_reference_entry(reference: u64) -> (r: u32)
    ensures
        r as int == reference_entry(reference as int),
{
    let low: u64 = reference & 0xFFFF_FFFF_FFFF;
    assert(low % 0x1_0000_0000 == reference % 0x1_0000_0000) by (bit_vector)
        requires
            low == reference & 0xFFFF_FFFF_FFFF,
    ;
    (low % 0x1_0000_0000) as u32
}

/// The sequence number of a file reference.
pub fn file_reference_sequence(reference: u64) -> (r: u16)
    ensures
        r as int == reference_sequence(reference as int),
{
    let high: u64 = reference >> 48;
    assert(high == reference / 0x1_0000_0000_0000) by (bit_vector)
        requires
            high == reference >> 48,
    ;
    high as u16
}

} // verus!
