//! Complex numbers carried as IEEE 754 binary64 bit patterns.
//!
//! A part of a number is the 64-bit pattern of a double: one sign bit, eleven
//! exponent bits, fifty-two fraction bits. Comparing two doubles needs no
//! arithmetic on them, so equality and order are decided here on the
//! patterns.

use vstd::prelude::*;
use vstd::std_specs::cmp::PartialEqSpecImpl;

verus! {

/// The sign bit of a binary64 pattern.
pub const SIGN_BIT: u64 = 0x8000_0000_0000_0000;

/// The pattern of positive infinity: all exponent bits set, no fraction bit.
pub const INFINITY_BITS: u64 = 0x7ff0_0000_0000_0000;

/// The pattern with its sign bit cleared.
pub open spec fn magnitude(bits: u64) -> u64 {
    if bits >= SIGN_BIT {
        (bits - SIGN_BIT) as u64
    } else {
        bits
    }
}

/// Whether the pattern is a NaN: exponent all ones and a fraction bit set.
pub open spec fn is_nan(bits: u64) -> bool {
    magnitude(bits) > INFINITY_BITS
}

/// Where the pattern stands among all patterns that are not NaN: patterns
/// with the sign bit clear grow with their magnitude, those with it set
/// shrink, and both zeros share rank 0.
pub open spec fn rank(bits: u64) -> int {
    if bits >= SIGN_BIT {
        -(magnitude(bits) as int)
    } else {
        bits as int
    }
}

/// Numeric equality of two patterns: neither is a NaN, and they denote the
/// same number. The two zeros are equal although their patterns differ.
pub open spec fn same_number(a: u64, b: u64) -> bool {
    !is_nan(a) && !is_nan(b) && rank(a) == rank(b)
}

/// Numeric order of two patterns: neither is a NaN, and the first denotes
/// the smaller number.
pub open spec fn smaller_number(a: u64, b: u64) -> bool {
    !is_nan(a) && !is_nan(b) && rank(a) < rank(b)
}

/// Clears the sign bit.
pub fn abs_bits(bits: u64) -> (m: u64)
    ensures
        m == magnitude(bits),
{
    if bits >= SIGN_BIT {
        bits - SIGN_BIT
    } else {
        bits
    }
}

/// Tells whether the pattern is a NaN.
pub fn bits_are_nan(bits: u64) -> (r: bool)
    ensures
        r == is_nan(bits),
{
    abs_bits(bits) > INFINITY_BITS
}

/// Compares two patterns as the numbers they denote.
pub fn bits_equal(a: u64, b: u64) -> (r: bool)
    ensures
        r == same_number(a, b),
{
    if bits_are_nan(a) || bits_are_nan(b) {
        false
    } else if a == b {
        true
    } else {
        abs_bits(a) == 0 && abs_bits(b) == 0
    }
}

/// Tells whether the first pattern denotes the smaller number.
pub fn bits_less(a: u64, b: u64) -> (r: bool)
    ensures
        r == smaller_number(a, b),
{
    if bits_are_nan(a) || bits_are_nan(b) {
        false
    } else if a >= SIGN_BIT {
        if b >= SIGN_BIT {
            abs_bits(b) < abs_bits(a)
        } else {
            abs_bits(a) > 0 || b > 0
        }
    } else {
        b < SIGN_BIT && a < b
    }
}

/// A complex number. Each part is the bit pattern of a double.
#[derive(Clone, Copy, Debug)]
pub struct ImaginaryNumber {
    pub real: u64,
    pub imaginary: u64,
}

impl ImaginaryNumber {
    /// The number with the given parts.
    pub fn new(re: u64, im: u64) -> (z: ImaginaryNumber)
        ensures
            z.real == re,
            z.imaginary == im,
    {
        ImaginaryNumber { real: re, imaginary: im }
    }

    /// Zero, with both parts positive zero: where every orbit starts.
    pub open spec fn origin() -> ImaginaryNumber {
        ImaginaryNumber { real: 0, imaginary: 0 }
    }

    /// Zero, with both parts positive zero.
    pub fn zero() -> (z: ImaginaryNumber)
        ensures
            z == Self::origin(),
    {
        ImaginaryNumber { real: 0, imaginary: 0 }
    }

    /// Numeric equality, part by part. A number with a NaN part equals
    /// nothing, not even itself.
    pub open spec fn same(self, other: ImaginaryNumber) -> bool {
        same_number(self.real, other.real) && same_number(self.imaginary, other.imaginary)
    }

    /// Whether no part is a NaN.
    pub open spec fn is_number(self) -> bool {
        !is_nan(self.real) && !is_nan(self.imaginary)
    }
}

impl PartialEq for ImaginaryNumber {
    fn eq(&self, other: &ImaginaryNumber) -> (r: bool) {
        bits_equal(self.real, other.real) && bits_equal(self.imaginary, other.imaginary)
    }
}

impl PartialEqSpecImpl for ImaginaryNumber {
    open spec fn obeys_eq_spec() -> bool {
        true
    }

    open spec fn eq_spec(&self, other: &ImaginaryNumber) -> bool {
        self.same(*other)
    }
}

/// Numeric equality is symmetric, and transitive; it is reflexive on every
/// number that has no NaN part.
pub proof fn lemma_same_is_partial_equivalence(a: ImaginaryNumber, b: ImaginaryNumber, c: ImaginaryNumber)
    ensures
        a.is_number() ==> a.same(a),
        a.same(b) ==> b.same(a),
        a.same(b) && b.same(c) ==> a.same(c),
        a.same(b) ==> a.is_number() && b.is_number(),
{
}

} // verus!
