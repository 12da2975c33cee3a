//! Real numbers that the library carries, compares and ranks.
//!
//! A number is held by the bit pattern of its IEEE 754 double. Nothing here
//! adds or divides; what a caller computed comes back bit for bit.
use vstd::prelude::*;

verus! {

/// The bit that marks a number as negative.
pub const SIGN_BIT: u64 = 0x8000_0000_0000_0000;

/// The bits of positive infinity; a larger magnitude is no number.
pub const INFINITY_BITS: u64 = 0x7ff0_0000_0000_0000;

/// A double, as its bits. `==` compares the bits: it tells the two zeros
/// apart.
#[derive(Clone, Copy, Debug, PartialEq, Eq, Structural)]
pub struct Number {
    pub bits: u64,
}

impl Number {
    /// The bits without the sign.
    pub open spec fn magnitude(self) -> int {
        if self.bits >= SIGN_BIT {
            self.bits - SIGN_BIT
        } else {
            self.bits as int
        }
    }

    /// Whether the bits stand for no number.
    pub open spec fn is_nan(self) -> bool {
        self.magnitude() > INFINITY_BITS
    }

    /// An integer that orders as the numbers do: the two zeros share 0, and
    /// what is no number lies beyond the infinities.
    pub open spec fn key(self) -> int {
        if self.bits >= SIGN_BIT {
            -self.magnitude()
        } else {
            self.magnitude()
        }
    }

    /// Whether `self > other` as numbers; never with something that is no
    /// number.
    pub open spec fn is_above(self, other: Number) -> bool {
        !self.is_nan() && !other.is_nan() && self.key() > other.key()
    }

    /// Positive zero.
    pub open spec fn spec_zero() -> Number {
        Number { bits: 0 }
    }

    /// Positive zero.
    pub fn zero() -> (r: Number)
        ensures
            r == Number::spec_zero(),
    {
        Number { bits: 0 }
    }

    /// The integer that orders as the numbers do.
    pub fn order_key(self) -> (k: i64)
        ensures
            k == self.key(),
            -i64::MAX <= k,
    {
        if self.bits >= SIGN_BIT {
            -((self.bits - SIGN_BIT) as i64)
        } else {
            self.bits as i64
        }
    }

    /// Whether `self > other` as numbers.
    pub fn exceeds(self, other: Number) -> (b: bool)
        ensures
            b == self.is_above(other),
    {
        let a: i64 = self.order_key();
        let b: i64 = other.order_key();
        let top: i64 = INFINITY_BITS as i64;
        -top <= a && a <= top && -top <= b && b <= top && a > b
    }
}

/// Being above is a strict order.
pub proof fn law_above_is_strict(a: Number, b: Number, c: Number)
    ensures
        !a.is_above(a),
        a.is_above(b) ==> !b.is_above(a),
        a.is_above(b) && b.is_above(c) ==> a.is_above(c),
{
}

/// Of two numbers one is above the other, unless they have the same key; only
/// the two zeros share a key.
pub proof fn law_above_is_total(a: Number, b: Number)
    requires
        !a.is_nan(),
        !b.is_nan(),
    ensures
        a.is_above(b) || b.is_above(a) || a.key() == b.key(),
        a.key() == b.key() ==> a == b || a.magnitude() == 0 && b.magnitude() == 0,
{
}

/// The order of the doubles, read off their bits: without the sign bit a larger
/// pattern is a larger number, with it a smaller one, and a number without it
/// is above one with it unless both are zero. What lies beyond the infinities is
/// above nothing, and nothing is above it.
pub proof fn law_above_by_bits(a: Number, b: Number)
    ensures
        a.is_nan() <==> 0x7ff0_0000_0000_0000 < a.bits < 0x8000_0000_0000_0000 || a.bits
            > 0xfff0_0000_0000_0000,
        a.is_nan() || b.is_nan() ==> !a.is_above(b),
        a.bits <= 0x7ff0_0000_0000_0000 && b.bits <= 0x7ff0_0000_0000_0000 ==> (a.is_above(b)
            <==> a.bits > b.bits),
        0x8000_0000_0000_0000 <= a.bits <= 0xfff0_0000_0000_0000 && 0x8000_0000_0000_0000 <= b.bits
            <= 0xfff0_0000_0000_0000 ==> (a.is_above(b) <==> a.bits < b.bits),
        a.bits <= 0x7ff0_0000_0000_0000 && 0x8000_0000_0000_0000 <= b.bits
            <= 0xfff0_0000_0000_0000 ==> (a.is_above(b) <==> a.bits > 0 || b.bits
            > 0x8000_0000_0000_0000) && !b.is_above(a),
{
}

/// The key of a number is its bits, counted down from zero where the sign bit
/// is set.
pub proof fn law_key_by_bits(a: Number)
    ensures
        a.bits < 0x8000_0000_0000_0000 ==> a.key() == a.bits,
        a.bits >= 0x8000_0000_0000_0000 ==> a.key() == 0x8000_0000_0000_0000 - a.bits,
        Number::spec_zero().bits == 0,
{
}

} // verus!
