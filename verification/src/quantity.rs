//! Floating-point quantities, held by their IEEE-754 bit pattern.
//!
//! Temperatures, tariffs and coordinates are double-precision numbers. The
//! monitor compares them and hands them on; it does no arithmetic on them.
use vstd::prelude::*;
use vstd::std_specs::cmp::PartialEqSpecImpl;

verus! {

/// The bit pattern of positive infinity.
pub const INFINITY_BITS: u64 = 0x7ff0_0000_0000_0000;

/// The bit that holds the sign.
pub const SIGN_BIT: u64 = 0x8000_0000_0000_0000;

/// A double-precision number, given by its IEEE-754 binary64 encoding.
#[derive(Clone, Copy, Debug)]
pub struct Quantity {
    pub bits: u64,
}

impl PartialEq for Quantity {
    /// Numbers are equal as IEEE-754 says: both zeros are, and NaN equals
    /// nothing.
    fn eq(&self, other: &Quantity) -> (res: bool) {
        !self.is_nan() && !other.is_nan() && self.key_le(*other) && other.key_le(*self)
    }
}

impl PartialEqSpecImpl for Quantity {
    open spec fn obeys_eq_spec() -> bool {
        true
    }

    open spec fn eq_spec(&self, other: &Quantity) -> bool {
        !self.nan() && !other.nan() && self.key() == other.key()
    }
}

impl Quantity {
    /// The encoding without its sign.
    pub open spec fn magnitude(self) -> int {
        if self.bits < SIGN_BIT {
            self.bits as int
        } else {
            self.bits - SIGN_BIT
        }
    }

    /// Whether the number is NaN.
    pub open spec fn nan(self) -> bool {
        self.magnitude() > INFINITY_BITS
    }

    /// An integer by which numbers other than NaN are ordered. Both zeros have
    /// the key zero.
    pub open spec fn key(self) -> int {
        if self.bits < SIGN_BIT {
            self.magnitude()
        } else {
            -self.magnitude()
        }
    }

    /// Whether `self > other`, which is false when either is NaN.
    pub open spec fn above(self, other: Quantity) -> bool {
        !self.nan() && !other.nan() && self.key() > other.key()
    }

    /// The smaller of two numbers, of which NaN counts as missing.
    pub open spec fn lesser(self, other: Quantity) -> Quantity {
        if self.nan() {
            other
        } else if other.nan() || self.key() <= other.key() {
            self
        } else {
            other
        }
    }

    fn is_nan(self) -> (res: bool)
        ensures
            res == self.nan(),
    {
        if self.bits < SIGN_BIT {
            self.bits > INFINITY_BITS
        } else {
            self.bits - SIGN_BIT > INFINITY_BITS
        }
    }

    /// Compares the keys of two numbers.
    fn key_le(self, other: Quantity) -> (res: bool)
        ensures
            res == (self.key() <= other.key()),
    {
        if self.bits < SIGN_BIT {
            if other.bits < SIGN_BIT {
                self.bits <= other.bits
            } else {
                self.bits == 0 && other.bits == SIGN_BIT
            }
        } else if other.bits < SIGN_BIT {
            true
        } else {
            self.bits >= other.bits
        }
    }

    /// Decides `self > other`.
    pub fn is_above(self, other: Quantity) -> (res: bool)
        ensures
            res == self.above(other),
    {
        !self.is_nan() && !other.is_nan() && !self.key_le(other)
    }

    /// The smaller of two numbers; NaN gives way to the other.
    pub fn min_of(self, other: Quantity) -> (res: Quantity)
        ensures
            res == self.lesser(other),
    {
        if self.is_nan() {
            other
        } else if other.is_nan() || self.key_le(other) {
            self
        } else {
            other
        }
    }
}

/// Numbers compare as IEEE-754 orders them: positive ones by their encoding,
/// negative ones the other way round, every negative one below every positive
/// one, both zeros alike, and NaN never.
pub proof fn law_above(a: Quantity, b: Quantity)
    ensures
        a.bits <= 0x7ff0_0000_0000_0000 && b.bits <= 0x7ff0_0000_0000_0000 ==> a.above(b) == (a.bits
            > b.bits),
        0x8000_0000_0000_0000 <= a.bits <= 0xfff0_0000_0000_0000 && 0x8000_0000_0000_0000 <= b.bits
            <= 0xfff0_0000_0000_0000 ==> a.above(b) == (a.bits < b.bits),
        a.bits <= 0x7ff0_0000_0000_0000 && 0x8000_0000_0000_0000 <= b.bits <= 0xfff0_0000_0000_0000
            ==> a.above(b) == (a.bits > 0 || b.bits > 0x8000_0000_0000_0000) && !b.above(a),
        0x7ff0_0000_0000_0000 < a.bits < 0x8000_0000_0000_0000 || a.bits > 0xfff0_0000_0000_0000
            ==> !a.above(b) && !b.above(a),
{
}

/// The smaller of two numbers is one of the two, and above neither; a number
/// comes before NaN.
pub proof fn law_lesser(a: Quantity, b: Quantity)
    ensures
        a.lesser(b) == a || a.lesser(b) == b,
        !a.lesser(b).above(a),
        !a.lesser(b).above(b),
        a.nan() ==> a.lesser(b) == b,
        b.nan() ==> a.lesser(b) == a || a.nan(),
        a.above(b) ==> a.lesser(b) == b,
        b.above(a) ==> a.lesser(b) == a,
        a.nan() <==> 0x7ff0_0000_0000_0000 < a.bits < 0x8000_0000_0000_0000 || a.bits
            > 0xfff0_0000_0000_0000,
{
}

/// Two numbers are equal exactly when neither is NaN and neither is above the other.
pub proof fn law_equal(a: Quantity, b: Quantity)
    ensures
        vstd::std_specs::cmp::PartialEqSpec::eq_spec(&a, &b) <==> !a.nan() && !b.nan() && !a.above(b) && !b.above(a),
{
}

} // verus!
