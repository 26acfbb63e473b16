//! Numbers as the library holds them.

use vstd::prelude::*;

verus! {

/// A double-precision number, held by its IEEE 754 bit pattern.
///
/// The library stores numbers, hands them to the arithmetic and takes them
/// back; it never looks inside one. Two numbers are equal when their bit
/// patterns are: a not-a-number equals itself, and the two zeros differ.
#[derive(Clone, Copy, Debug, PartialEq, Eq, Structural)]
pub struct Number {
    pub bits: u64,
}

/// The bit pattern of the double nearest to the circle constant.
pub const PI_BITS: u64 = 0x4009_21FB_5444_2D18;

/// The bit pattern of the double nearest to Euler's number.
pub const E_BITS: u64 = 0x4005_BF0A_8B14_5769;

/// The bit pattern of positive infinity.
pub const INFINITY_BITS: u64 = 0x7FF0_0000_0000_0000;

/// The bit pattern of the quiet not-a-number.
pub const NAN_BITS: u64 = 0x7FF8_0000_0000_0000;

impl Number {
    /// The number with the given bit pattern.
    pub fn from_bits(bits: u64) -> (n: Number)
        ensures
            n.bits == bits,
    {
        Number { bits }
    }

    /// The bit pattern of this number.
    pub fn to_bits(self) -> (bits: u64)
        ensures
            bits == self.bits,
    {
        self.bits
    }
}

} // verus!
