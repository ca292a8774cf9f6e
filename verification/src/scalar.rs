//! Single-precision scalar attributes carried by operations.
//!
//! Operations such as layer normalization and scalar multiplication carry a
//! single-precision constant. The graph never computes with these values;
//! it only stores them and checks their sign and NaN-ness, which are
//! decided exactly from the IEEE-754 binary32 encoding held here.

use vstd::prelude::*;
use vstd::std_specs::cmp::PartialEqSpecImpl;

verus! {

/// An IEEE-754 binary32 value, held by its 32-bit encoding. Two values
/// compare equal as binary32 numbers do (see [`ieee_eq_bits`]).
#[derive(Debug, Clone, Copy)]
pub struct Float32 {
    /// The binary32 encoding: sign bit, 8 exponent bits, 23 fraction bits.
    pub bits: u32,
}

/// Exponent field (8 bits) of a binary32 encoding.
pub open spec fn exponent_field(bits: u32) -> nat {
    ((bits as nat) / 0x80_0000) % 0x100
}

/// Fraction field (23 bits) of a binary32 encoding.
pub open spec fn fraction_field(bits: u32) -> nat {
    (bits as nat) % 0x80_0000
}

/// The encoding is a NaN: all exponent bits set and a non-zero fraction.
pub open spec fn is_nan_bits(bits: u32) -> bool {
    exponent_field(bits) == 0xff && fraction_field(bits) != 0
}

/// The encoded value compares `>= 0`: it is not a NaN and is either
/// positive (sign bit clear) or negative zero.
pub open spec fn is_non_negative_bits(bits: u32) -> bool {
    !is_nan_bits(bits) && (bits < 0x8000_0000 || bits == 0x8000_0000)
}

/// Binary32 equality of two encodings: neither is a NaN, and they are the
/// same encoding or both encode a zero (`0.0 == -0.0`).
pub open spec fn ieee_eq_bits(a: u32, b: u32) -> bool {
    &&& !is_nan_bits(a)
    &&& !is_nan_bits(b)
    &&& (a == b || (a % 0x8000_0000 == 0 && b % 0x8000_0000 == 0))
}

impl PartialEq for Float32 {
    fn eq(&self, other: &Self) -> (r: bool) {
        !self.is_nan() && !other.is_nan()
            && (self.bits == other.bits || (self.bits % 0x8000_0000 == 0 && other.bits % 0x8000_0000 == 0))
    }
}

impl PartialEqSpecImpl for Float32 {
    open spec fn obeys_eq_spec() -> bool {
        true
    }

    open spec fn eq_spec(&self, other: &Float32) -> bool {
        ieee_eq_bits(self.bits, other.bits)
    }
}

impl Float32 {
    /// The value with the given binary32 encoding.
    pub fn from_bits(bits: u32) -> (r: Float32)
        ensures
            r.bits == bits,
    {
        Float32 { bits }
    }

    /// The binary32 encoding of this value.
    pub fn to_bits(self) -> (r: u32)
        ensures
            r == self.bits,
    {
        self.bits
    }

    /// Whether this value is a NaN.
    pub fn is_nan(self) -> (r: bool)
        ensures
            r == is_nan_bits(self.bits),
    {
        (self.bits / 0x80_0000) % 0x100 == 0xff && self.bits % 0x80_0000 != 0
    }

    /// Whether this value compares greater than or equal to zero (false
    /// for NaN and for every negative number other than negative zero).
    pub fn is_non_negative(self) -> (r: bool)
        ensures
            r == is_non_negative_bits(self.bits),
    {
        !self.is_nan() && self.bits <= 0x8000_0000
    }
}

} // verus!
