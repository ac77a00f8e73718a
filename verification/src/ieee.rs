//! Questions about a real number that can be settled on its IEEE 754
//! single-precision bit pattern alone.
//!
//! A pattern has a sign bit, eight exponent bits and twenty-three fraction
//! bits. The functions here never do arithmetic on the number itself: they
//! order it against a constant, or cut it down to a whole number.

use vstd::prelude::*;

verus! {

/// The pattern of `0.01`, the nearest single-precision number to one hundredth.
pub const HUNDREDTH: u32 = 0x3C23_D70A;

/// The pattern of positive infinity; every larger magnitude is not a number.
pub const INFINITY: u32 = 0x7F80_0000;

/// The pattern without its sign bit.
pub open spec fn spec_magnitude(bits: u32) -> int {
    bits as int % 0x8000_0000
}

/// Whether the sign bit is set.
pub open spec fn spec_sign(bits: u32) -> bool {
    bits >= 0x8000_0000u32
}

/// Whether the pattern is not a number.
pub open spec fn spec_is_nan(bits: u32) -> bool {
    spec_magnitude(bits) > INFINITY
}

/// Whether the number is zero or negative. A pattern that is not a number
/// is neither.
pub open spec fn spec_is_nonpositive(bits: u32) -> bool {
    !spec_is_nan(bits) && (spec_sign(bits) || spec_magnitude(bits) == 0)
}

/// Whether the number is at most `-0.01`.
pub open spec fn spec_is_below_threshold(bits: u32) -> bool {
    spec_sign(bits) && HUNDREDTH <= spec_magnitude(bits) <= INFINITY
}

/// The number cut towards zero and held to the range of a signed 16-bit
/// integer. A pattern that is not a number gives zero.
pub open spec fn spec_to_i16(bits: u32) -> int {
    let exponent = spec_magnitude(bits) / 0x80_0000;
    let fraction = (spec_magnitude(bits) % 0x80_0000) as u32;
    if spec_is_nan(bits) || exponent < 127 {
        0
    } else if exponent >= 142 {
        if spec_sign(bits) {
            -32768
        } else {
            32767
        }
    } else {
        let whole = ((0x80_0000 + fraction) as u32 >> ((150 - exponent) as u32)) as int;
        if spec_sign(bits) {
            -whole
        } else {
            whole
        }
    }
}

/// The pattern without its sign bit.
pub fn magnitude(bits: u32) -> (m: u32)
    ensures
        m == spec_magnitude(bits),
        m < 0x8000_0000,
{
    bits % 0x8000_0000
}

/// Whether the pattern is not a number.
pub fn is_nan(bits: u32) -> (r: bool)
    ensures
        r == spec_is_nan(bits),
{
    magnitude(bits) > INFINITY
}

/// Whether the number is zero or negative.
pub fn is_nonpositive(bits: u32) -> (r: bool)
    ensures
        r == spec_is_nonpositive(bits),
{
    let m: u32 = magnitude(bits);
    m <= INFINITY && (bits >= 0x8000_0000 || m == 0)
}

/// Whether the number is at most `-0.01`.
pub fn is_below_threshold(bits: u32) -> (r: bool)
    ensures
        r == spec_is_below_threshold(bits),
{
    let m: u32 = magnitude(bits);
    bits >= 0x8000_0000 && HUNDREDTH <= m && m <= INFINITY
}

/// The number cut towards zero and held to the range of `i16`.
pub fn to_i16(bits: u32) -> (whole: i16)
    ensures
        whole == spec_to_i16(bits),
{
    let m: u32 = magnitude(bits);
    let exponent: u32 = m / 0x80_0000;
    let fraction: u32 = m % 0x80_0000;
    let negative: bool = bits >= 0x8000_0000;
    if m > INFINITY || exponent < 127 {
        0
    } else if exponent >= 142 {
        if negative {
            -32768
        } else {
            32767
        }
    } else {
        let shift: u32 = 150 - exponent;
        let full: u32 = 0x80_0000 + fraction;
        let shifted: u32 = full >> shift;
        assert(shifted <= 32767) by (bit_vector)
            requires
                shifted == full >> shift,
                full < 0x100_0000u32,
                9 <= shift <= 23,
        ;
        if negative {
            -(shifted as i16)
        } else {
            shifted as i16
        }
    }
}

/// Where the exponent leaves a whole part of fewer than sixteen bits, the
/// cut is the floor of the magnitude: the number is its 24-bit significand
/// divided by a power of two, and the cut is the quotient.
pub proof fn lemma_cut_is_quotient(bits: u32)
    requires
        !spec_is_nan(bits),
        127 <= spec_magnitude(bits) / 0x80_0000 < 142,
    ensures
        ({
            let significand = (0x80_0000 + spec_magnitude(bits) % 0x80_0000) as u32;
            let shift = (150 - spec_magnitude(bits) / 0x80_0000) as u32;
            let whole = if spec_sign(bits) {
                -spec_to_i16(bits)
            } else {
                spec_to_i16(bits)
            };
            whole == significand / (1u32 << shift)
        }),
{
    let significand = (0x80_0000 + spec_magnitude(bits) % 0x80_0000) as u32;
    let shift = (150 - spec_magnitude(bits) / 0x80_0000) as u32;
    assert(significand >> shift == significand / (1u32 << shift)) by (bit_vector)
        requires
            9 <= shift <= 23,
    ;
}

/// Changing the sign of a number that is neither zero nor not a number
/// changes the answer to whether it is zero or negative.
pub proof fn lemma_sign_decides(bits: u32, flipped: u32)
    requires
        !spec_is_nan(bits),
        spec_magnitude(bits) != 0,
        spec_magnitude(flipped) == spec_magnitude(bits),
        spec_sign(flipped) != spec_sign(bits),
    ensures
        spec_is_nonpositive(flipped) != spec_is_nonpositive(bits),
{
}

} // verus!
