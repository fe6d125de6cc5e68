//! Single precision numbers, held by their bit patterns.
//!
//! Tempi, beats and times are IEEE 754 `binary32` numbers. Nothing here computes with them: they
//! are read, compared and handed on, and a bit pattern is enough for that.
use vstd::prelude::*;

verus! {

/// The bits of a pattern that stand for the exponent and the fraction; the sign is above them.
pub const SIGN_UNIT: u32 = 0x8000_0000;

/// The magnitude of an infinity. A larger magnitude is that of a NaN.
pub const INFINITE_MAGNITUDE: u32 = 0x7f80_0000;

/// An IEEE 754 single precision number, by its bit pattern.
#[derive(Clone, Copy, Debug)]
pub struct Single {
    pub bits: u32,
}

impl Single {
    /// The pattern without its sign.
    pub open spec fn magnitude(self) -> int {
        if self.bits >= SIGN_UNIT {
            self.bits - SIGN_UNIT
        } else {
            self.bits as int
        }
    }

    /// The pattern stands for no number.
    pub open spec fn is_nan(self) -> bool {
        self.magnitude() > INFINITE_MAGNITUDE
    }

    /// A rank by which numbers are ordered: it grows with the number, and both zeros have rank 0.
    pub open spec fn rank(self) -> int {
        if self.bits >= SIGN_UNIT {
            -self.magnitude()
        } else {
            self.magnitude()
        }
    }

    /// The two patterns stand for equal numbers.
    pub open spec fn same(self, other: Single) -> bool {
        !self.is_nan() && !other.is_nan() && self.rank() == other.rank()
    }

    /// The number is greater than or equal to the other one.
    pub open spec fn reaches(self, other: Single) -> bool {
        !self.is_nan() && !other.is_nan() && self.rank() >= other.rank()
    }

    /// The number 0.
    pub fn zero() -> (r: Single)
        ensures
            r == (Single { bits: 0 }),
    {
        Single { bits: 0 }
    }

    /// The number 120, the tempo that is taken where none is known.
    pub fn default_tempo() -> (r: Single)
        ensures
            r == (Single { bits: DEFAULT_TEMPO }),
    {
        Single { bits: DEFAULT_TEMPO }
    }

    fn magnitude_bits(self) -> (r: u32)
        ensures
            r == self.magnitude(),
    {
        if self.bits >= SIGN_UNIT {
            self.bits - SIGN_UNIT
        } else {
            self.bits
        }
    }

    fn ranked(self) -> (r: i64)
        ensures
            r == self.rank(),
    {
        let magnitude: i64 = self.magnitude_bits() as i64;
        if self.bits >= SIGN_UNIT {
            -magnitude
        } else {
            magnitude
        }
    }

    /// Says whether the number is greater than or equal to `other`: never so if either is a NaN.
    pub fn at_least(self, other: Single) -> (r: bool)
        ensures
            r == self.reaches(other),
    {
        self.magnitude_bits() <= INFINITE_MAGNITUDE && other.magnitude_bits() <= INFINITE_MAGNITUDE
            && self.ranked() >= other.ranked()
    }
}

/// The bit pattern of 120.
pub const DEFAULT_TEMPO: u32 = 0x42f0_0000;

impl PartialEq for Single {
    fn eq(&self, other: &Single) -> (r: bool) {
        self.magnitude_bits() <= INFINITE_MAGNITUDE && other.magnitude_bits() <= INFINITE_MAGNITUDE
            && self.ranked() == other.ranked()
    }
}

impl vstd::std_specs::cmp::PartialEqSpecImpl for Single {
    open spec fn obeys_eq_spec() -> bool {
        true
    }

    open spec fn eq_spec(&self, other: &Single) -> bool {
        self.same(*other)
    }
}

/// No NaN equals anything, itself included.
pub proof fn lemma_nan_differs_from_itself(x: Single, y: Single)
    requires
        x.is_nan(),
    ensures
        !x.same(y),
        !y.same(x),
        !x.reaches(y),
        !y.reaches(x),
{
}

/// Numbers other than NaN are totally ordered, and two that reach each other are equal.
pub proof fn lemma_numbers_are_ordered(x: Single, y: Single, z: Single)
    requires
        !x.is_nan(),
        !y.is_nan(),
        !z.is_nan(),
    ensures
        x.same(x),
        x.reaches(y) || y.reaches(x),
        x.same(y) == (x.reaches(y) && y.reaches(x)),
        x.reaches(y) && y.reaches(z) ==> x.reaches(z),
{
}

/// What the bit patterns mean. A pattern above infinity, the sign bit aside, is a NaN. Two patterns
/// are equal numbers if they are the same and no NaN, or if both are zero, whatever their sign. Of
/// two positive numbers the one with the greater pattern is greater, of two negative ones the one
/// with the smaller pattern; and a positive one is greater than a negative one.
pub proof fn lemma_numbers_by_their_bits(x: Single, y: Single)
    ensures
        x.is_nan() == (0x7f80_0000 < x.bits < 0x8000_0000 || x.bits > 0xff80_0000),
        x.same(y) == (!x.is_nan() && !y.is_nan() && (x.bits == y.bits || (x.bits % 0x8000_0000 == 0
            && y.bits % 0x8000_0000 == 0))),
        x.reaches(y) == (!x.is_nan() && !y.is_nan() && {
            ||| x.bits % 0x8000_0000 == 0 && y.bits % 0x8000_0000 == 0
            ||| x.bits < 0x8000_0000 && y.bits >= 0x8000_0000
            ||| x.bits < 0x8000_0000 && y.bits < 0x8000_0000 && x.bits >= y.bits
            ||| x.bits >= 0x8000_0000 && y.bits >= 0x8000_0000 && x.bits <= y.bits
        }),
{
}

} // verus!
