//! Little-endian fields in a byte sequence.
//!
//! Every multi-byte field of a C3D file is little-endian. The spec functions
//! here say what number a run of bytes stands for; the executable readers
//! return exactly that number.

use vstd::prelude::*;

verus! {

/// The byte `b` read as a signed 8-bit number.
pub open spec fn spec_i8(b: u8) -> int {
    if b < 128 {
        b as int
    } else {
        b as int - 256
    }
}

/// The unsigned 16-bit number whose low byte is at `at`.
pub open spec fn spec_u16_le(bytes: Seq<u8>, at: int) -> int {
    bytes[at] as int + 256 * (bytes[at + 1] as int)
}

/// The signed 16-bit number whose low byte is at `at`.
pub open spec fn spec_i16_le(bytes: Seq<u8>, at: int) -> int {
    let unsigned = spec_u16_le(bytes, at);
    if unsigned < 32768 {
        unsigned
    } else {
        unsigned - 65536
    }
}

/// The unsigned 32-bit number whose low byte is at `at`.
pub open spec fn spec_u32_le(bytes: Seq<u8>, at: int) -> int {
    bytes[at] as int + 256 * (bytes[at + 1] as int) + 65536 * (bytes[at + 2] as int) + 16777216 * (
    bytes[at + 3] as int)
}

/// Reads a byte as a signed number.
pub fn read_i8(bytes: &[u8], at: usize) -> (value: i8)
    requires
        at < bytes@.len(),
    ensures
        value == spec_i8(bytes@[at as int]),
{
    let b: u8 = bytes[at];
    if b < 128 {
        b as i8
    } else {
        (b as i16 - 256) as i8
    }
}

/// Reads an unsigned 16-bit little-endian number.
pub fn read_u16_le(bytes: &[u8], at: usize) -> (value: u16)
    requires
        at + 2 <= bytes@.len(),
    ensures
        value == spec_u16_le(bytes@, at as int),
{
    let lo: u16 = bytes[at] as u16;
    let hi: u16 = bytes[at + 1] as u16;
    lo + 256 * hi
}

/// Reads a signed 16-bit little-endian number.
pub fn read_i16_le(bytes: &[u8], at: usize) -> (value: i16)
    requires
        at + 2 <= bytes@.len(),
    ensures
        value == spec_i16_le(bytes@, at as int),
{
    let unsigned: u16 = read_u16_le(bytes, at);
    if unsigned < 32768 {
        unsigned as i16
    } else {
        (unsigned as i32 - 65536) as i16
    }
}

/// Reads an unsigned 32-bit little-endian number.
pub fn read_u32_le(bytes: &[u8], at: usize) -> (value: u32)
    requires
        at + 4 <= bytes@.len(),
    ensures
        value == spec_u32_le(bytes@, at as int),
{
    let b0: u32 = bytes[at] as u32;
    let b1: u32 = bytes[at + 1] as u32;
    let b2: u32 = bytes[at + 2] as u32;
    let b3: u32 = bytes[at + 3] as u32;
    b0 + 256 * b1 + 65536 * b2 + 16777216 * b3
}

/// Copies `bytes[from..to]` into a vector of its own.
pub fn copy_range(bytes: &[u8], from: usize, to: usize) -> (out: Vec<u8>)
    requires
        from <= to <= bytes@.len(),
    ensures
        out@ == bytes@.subrange(from as int, to as int),
{
    let mut out: Vec<u8> = Vec::new();
    let mut i: usize = from;
    while i < to
        invariant
            from <= i <= to <= bytes@.len(),
            out@ == bytes@.subrange(from as int, i as int),
        decreases to - i,
    {
        out.push(bytes[i]);
        i += 1;
    }
    out
}

} // verus!
