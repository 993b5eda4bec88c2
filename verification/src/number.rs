//! Numbers with a fractional part, as the documents hold them.

use vstd::prelude::*;

verus! {

/// A double-precision number, carried by its IEEE 754 bit pattern. The
/// library stores such numbers and hands them on; it never computes with them.
#[derive(Clone, Copy, Debug, PartialEq, Eq)]
pub struct Number {
    pub bits: u64,
}

impl Number {
    /// The number with the given bit pattern.
    pub fn from_bits(bits: u64) -> (number: Number)
        ensures
            number.bits == bits,
    {
        Number { bits }
    }

    /// The number's bit pattern.
    pub fn to_bits(&self) -> (bits: u64)
        ensures
            bits == self.bits,
    {
        self.bits
    }
}

} // verus!
