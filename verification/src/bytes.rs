//! Integers as they lie in a byte buffer.

use vstd::prelude::*;

verus! {

/// The 32-bit integer whose little-endian bytes are the four bytes of `b`
/// that start at `at`.
pub open spec fn spec_le_u32(b: Seq<u8>, at: int) -> int {
    b[at] + b[at + 1] * 0x100 + b[at + 2] * 0x1_0000 + b[at + 3] * 0x100_0000
}

/// The 16-bit integer whose big-endian bytes are the two bytes of `b` that
/// start at `at`.
pub open spec fn spec_be_u16(b: Seq<u8>, at: int) -> int {
    b[at] * 0x100 + b[at + 1]
}

/// The 32-bit integer whose big-endian bytes are the four bytes of `b` that
/// start at `at`.
pub open spec fn spec_be_u32(b: Seq<u8>, at: int) -> int {
    b[at] * 0x100_0000 + b[at + 1] * 0x1_0000 + b[at + 2] * 0x100 + b[at + 3]
}

/// The 64-bit integer whose big-endian bytes are the eight bytes of `b` that
/// start at `at`.
pub open spec fn spec_be_u64(b: Seq<u8>, at: int) -> int {
    spec_be_u32(b, at) * 0x1_0000_0000 + spec_be_u32(b, at + 4)
}

/// The 128-bit integer whose big-endian bytes are the sixteen bytes of `b`
/// that start at `at`.
pub open spec fn spec_be_u128(b: Seq<u8>, at: int) -> int {
    spec_be_u64(b, at) * 0x1_0000_0000_0000_0000 + spec_be_u64(b, at + 8)
}

/// Reads a little-endian 32-bit integer.
pub fn le_u32(b: &[u8], at: usize) -> (r: u32)
    requires
        at + 4 <= b.len(),
    ensures
        r == spec_le_u32(b@, at as int),
{
    let b0: u32 = b[at] as u32;
    let b1: u32 = b[at + 1] as u32;
    let b2: u32 = b[at + 2] as u32;
    let b3: u32 = b[at + 3] as u32;
    b0 + b1 * 0x100 + b2 * 0x1_0000 + b3 * 0x100_0000
}

/// Reads a big-endian 16-bit integer.
pub fn be_u16(b: &[u8], at: usize) -> (r: u16)
    requires
        at + 2 <= b.len(),
    ensures
        r == spec_be_u16(b@, at as int),
{
    let b0: u16 = b[at] as u16;
    let b1: u16 = b[at + 1] as u16;
    b0 * 0x100 + b1
}

/// Reads a big-endian 32-bit integer.
pub fn be_u32(b: &[u8], at: usize) -> (r: u32)
    requires
        at + 4 <= b.len(),
    ensures
        r == spec_be_u32(b@, at as int),
{
    let b0: u32 = b[at] as u32;
    let b1: u32 = b[at + 1] as u32;
    let b2: u32 = b[at + 2] as u32;
    let b3: u32 = b[at + 3] as u32;
    b0 * 0x100_0000 + b1 * 0x1_0000 + b2 * 0x100 + b3
}

/// Reads a big-endian 128-bit integer.
pub fn be_u128(b: &[u8], at: usize) -> (r: u128)
    requires
        at + 16 <= b.len(),
    ensures
        r == spec_be_u128(b@, at as int),
{
    let w0: u128 = be_u32(b, at) as u128;
    let w1: u128 = be_u32(b, at + 4) as u128;
    let w2: u128 = be_u32(b, at + 8) as u128;
    let w3: u128 = be_u32(b, at + 12) as u128;
    let hi: u128 = w0 * 0x1_0000_0000 + w1;
    let lo: u128 = w2 * 0x1_0000_0000 + w3;
    hi * 0x1_0000_0000_0000_0000 + lo
}

} // verus!
