//! Single-precision numbers carried as their bit patterns.
use vstd::prelude::*;

verus! {

/// A single, as the bits of its IEEE 754 binary32 encoding.
#[derive(Clone, Copy, Debug, PartialEq, Eq, Structural)]
pub struct Binary32 {
    pub bits: u32,
}

/// The sign bit of a single.
pub const SIGN32: u32 = 0x8000_0000;

/// The bits of positive infinity as a single; larger magnitudes are not
/// numbers.
pub const INFINITY32: u32 = 0x7f80_0000;

impl Binary32 {
    /// The bits without the sign.
    pub open spec fn magnitude(self) -> int {
        if self.bits >= SIGN32 {
            self.bits - SIGN32
        } else {
            self.bits as int
        }
    }

    pub open spec fn is_nan(self) -> bool {
        self.magnitude() > INFINITY32
    }

    /// The place of a number in the order of the singles; the two zeros are
    /// equal.
    pub open spec fn place(self) -> int {
        if self.bits >= SIGN32 {
            -self.magnitude()
        } else {
            self.magnitude()
        }
    }

    /// `self < other`, which is false whenever either is not a number.
    pub open spec fn less(self, other: Binary32) -> bool {
        !self.is_nan() && !other.is_nan() && self.place() < other.place()
    }

    /// `self <= other`, which is false whenever either is not a number.
    pub open spec fn at_most(self, other: Binary32) -> bool {
        !self.is_nan() && !other.is_nan() && self.place() <= other.place()
    }

    /// The magnitude.
    fn unsigned(self) -> (m: u32)
        ensures
            m == self.magnitude(),
    {
        if self.bits >= SIGN32 {
            self.bits - SIGN32
        } else {
            self.bits
        }
    }

    /// The place in the order.
    fn signed(self) -> (p: i64)
        ensures
            p == self.place(),
    {
        if self.bits >= SIGN32 {
            -((self.bits - SIGN32) as i64)
        } else {
            self.bits as i64
        }
    }

    /// Whether `self < other`.
    pub fn is_less(self, other: Binary32) -> (r: bool)
        ensures
            r == self.less(other),
    {
        self.unsigned() <= INFINITY32 && other.unsigned() <= INFINITY32 && self.signed()
            < other.signed()
    }

    /// Whether `self <= other`.
    pub fn is_at_most(self, other: Binary32) -> (r: bool)
        ensures
            r == self.at_most(other),
    {
        self.unsigned() <= INFINITY32 && other.unsigned() <= INFINITY32 && self.signed()
            <= other.signed()
    }
}

/// How singles compare: above zero as their bits do, below zero the other way
/// round, a negative one lies below a positive one, the two zeros are equal, and
/// what is not a number compares with nothing.
pub proof fn law_order_of_singles(a: Binary32, b: Binary32)
    ensures
        a.is_nan() <==> INFINITY32 < a.bits < SIGN32 || a.bits > SIGN32 + INFINITY32,
        a.is_nan() || b.is_nan() ==> !a.less(b) && !a.at_most(b),
        !a.is_nan() && !b.is_nan() ==> {
            &&& a.bits < SIGN32 && b.bits < SIGN32 ==> (a.less(b) <==> a.bits < b.bits) && (
            a.at_most(b) <==> a.bits <= b.bits)
            &&& a.bits >= SIGN32 && b.bits >= SIGN32 ==> (a.less(b) <==> a.bits > b.bits) && (
            a.at_most(b) <==> a.bits >= b.bits)
            &&& a.bits >= SIGN32 && b.bits < SIGN32 ==> a.at_most(b) && (a.less(b) <==> !(a.bits
                == SIGN32 && b.bits == 0))
            &&& a.bits < SIGN32 && b.bits >= SIGN32 ==> !a.less(b) && (a.at_most(b) <==> a.bits == 0
                && b.bits == SIGN32)
        },
{
}

} // verus!
