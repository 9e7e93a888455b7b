//! Little-endian integer fields at byte offsets of a section.
//!
//! Offsets are byte offsets: nothing here assumes that a field is aligned.

use vstd::prelude::*;

verus! {

/// The unsigned 16-bit value that the two bytes at `at` spell, low byte first.
pub open spec fn le_u16(bytes: Seq<u8>, at: int) -> int {
    bytes[at] + 0x100 * bytes[at + 1]
}

/// The unsigned 32-bit value that the four bytes at `at` spell, low byte first.
pub open spec fn le_u32(bytes: Seq<u8>, at: int) -> int {
    bytes[at] + 0x100 * bytes[at + 1] + 0x1_0000 * bytes[at + 2] + 0x100_0000 * bytes[at + 3]
}

/// The signed 16-bit value at `at`: two's complement of `le_u16`.
pub open spec fn le_i16(bytes: Seq<u8>, at: int) -> int {
    let u = le_u16(bytes, at);
    if u >= 0x8000 {
        u - 0x1_0000
    } else {
        u
    }
}

/// The signed 32-bit value at `at`: two's complement of `le_u32`.
pub open spec fn le_i32(bytes: Seq<u8>, at: int) -> int {
    let u = le_u32(bytes, at);
    if u >= 0x8000_0000 {
        u - 0x1_0000_0000
    } else {
        u
    }
}

/// Reads a signed 16-bit field, or `None` where it would end past the bytes.
pub fn read_i16_le(bytes: &[u8], at: usize) -> (r: Option<i16>)
    ensures
        r is Some <==> at + 2 <= bytes@.len(),
        r matches Some(v) ==> v == le_i16(bytes@, at as int),
{
    if bytes.len() < 2 || at > bytes.len() - 2 {
        return None;
    }
    let lo: i32 = bytes[at] as i32;
    let hi: i32 = bytes[at + 1] as i32;
    let u: i32 = lo + 0x100 * hi;
    let v: i32 = if u >= 0x8000 {
        u - 0x1_0000
    } else {
        u
    };
    Some(v as i16)
}

/// Reads a signed 32-bit field, or `None` where it would end past the bytes.
pub fn read_i32_le(bytes: &[u8], at: usize) -> (r: Option<i32>)
    ensures
        r is Some <==> at + 4 <= bytes@.len(),
        r matches Some(v) ==> v == le_i32(bytes@, at as int),
{
    if bytes.len() < 4 || at > bytes.len() - 4 {
        return None;
    }
    let b0: i64 = bytes[at] as i64;
    let b1: i64 = bytes[at + 1] as i64;
    let b2: i64 = bytes[at + 2] as i64;
    let b3: i64 = bytes[at + 3] as i64;
    let u: i64 = b0 + 0x100 * b1 + 0x1_0000 * b2 + 0x100_0000 * b3;
    let v: i64 = if u >= 0x8000_0000 {
        u - 0x1_0000_0000
    } else {
        u
    };
    Some(v as i32)
}

} // verus!
