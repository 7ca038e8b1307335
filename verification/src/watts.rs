//! Power measurements, carried by the bit patterns of 64-bit reals.
//!
//! The library stores and orders measurements but does no arithmetic on them.

use vstd::prelude::*;

verus! {

/// A power measurement, by its IEEE 754 bit pattern.
#[derive(Debug, Clone, Copy, PartialEq, Eq, Structural)]
pub struct Watts {
    pub bits: u64,
}

/// The bit pattern without its sign bit.
pub open spec fn magnitude(bits: u64) -> int {
    if bits < 0x8000_0000_0000_0000 {
        bits as int
    } else {
        bits - 0x8000_0000_0000_0000
    }
}

impl Watts {
    /// Positive zero.
    pub open spec fn spec_zero() -> Watts {
        Watts { bits: 0 }
    }

    /// Not a number: the magnitude lies beyond that of infinity.
    pub open spec fn is_nan(self) -> bool {
        magnitude(self.bits) > 0x7ff0_0000_0000_0000
    }

    /// The place of a number in the order of the reals; both zeros share one.
    pub open spec fn rank(self) -> int {
        if self.bits < 0x8000_0000_0000_0000 {
            magnitude(self.bits)
        } else {
            -magnitude(self.bits)
        }
    }

    /// The larger of two measurements; the other one where one is not a number.
    pub open spec fn larger(self, other: Watts) -> Watts {
        if self.is_nan() {
            other
        } else if other.is_nan() {
            self
        } else if self.rank() < other.rank() {
            other
        } else {
            self
        }
    }

    /// Positive zero.
    pub fn zero() -> (r: Watts)
        ensures
            r == Watts::spec_zero(),
    {
        Watts { bits: 0 }
    }

    /// The larger of two measurements; the other one where one is not a number.
    pub fn max(self, other: Watts) -> (r: Watts)
        ensures
            r == self.larger(other),
    {
        let sign: u64 = 0x8000_0000_0000_0000;
        let infinity: u64 = 0x7ff0_0000_0000_0000;
        let negative: bool = self.bits >= sign;
        let other_negative: bool = other.bits >= sign;
        let size: u64 = if negative {
            self.bits - sign
        } else {
            self.bits
        };
        let other_size: u64 = if other_negative {
            other.bits - sign
        } else {
            other.bits
        };
        if size > infinity {
            other
        } else if other_size > infinity {
            self
        } else {
            let below: bool = if negative {
                if other_negative {
                    size > other_size
                } else {
                    size > 0 || other_size > 0
                }
            } else {
                !other_negative && size < other_size
            };
            if below {
                other
            } else {
                self
            }
        }
    }
}

/// Measurements are ordered as the reals are: those without a sign by their bits, those with one
/// the other way round and below them, and zero is zero with or without one.
pub proof fn law_measurements_are_ordered(a: Watts, b: Watts)
    ensures
        a.bits < 0x8000_0000_0000_0000 && b.bits < 0x8000_0000_0000_0000 ==> (a.rank() < b.rank()
            <==> a.bits < b.bits),
        a.bits >= 0x8000_0000_0000_0000 && b.bits >= 0x8000_0000_0000_0000 ==> (a.rank() < b.rank()
            <==> a.bits > b.bits),
        a.bits > 0x8000_0000_0000_0000 && b.bits < 0x8000_0000_0000_0000 ==> a.rank() < b.rank(),
        a.bits == 0x8000_0000_0000_0000 && b.bits == 0 ==> a.rank() == b.rank(),
{
}

/// The larger of two measurements is one of them and no lower than either, whichever comes first;
/// what is not a number gives way.
pub proof fn law_larger_is_no_lower(a: Watts, b: Watts)
    ensures
        a.larger(b) == a || a.larger(b) == b,
        !a.is_nan() && !b.is_nan() ==> a.larger(b).rank() >= a.rank() && a.larger(b).rank()
            >= b.rank(),
        a.is_nan() ==> a.larger(b) == b,
        !a.is_nan() && b.is_nan() ==> a.larger(b) == a,
        a.larger(b).rank() == b.larger(a).rank() || a.is_nan() || b.is_nan(),
{
}

} // verus!
