use vstd::prelude::*;

verus! {

/// The bit that carries the sign in an IEEE 754 binary64 pattern.
pub const SIGN_BIT: u64 = 0x8000_0000_0000_0000;

/// A real number, held as the 64 bits of its IEEE 754 binary64 encoding.
///
/// The library never computes with the number it stands for; it only moves
/// the pattern around, flips its sign and tests it for zero, all of which
/// are exact on the encoding.
#[derive(Clone, Copy, Debug, PartialEq, Eq, Structural)]
pub struct Real {
    pub bits: u64,
}

impl Real {
    /// The pattern with the opposite sign: the sign bit is flipped and the
    /// exponent and the fraction are kept.
    pub open spec fn negation(self) -> Real {
        if self.bits >= SIGN_BIT {
            Real { bits: (self.bits - SIGN_BIT) as u64 }
        } else {
            Real { bits: (self.bits + SIGN_BIT) as u64 }
        }
    }

    /// Positive and negative zero are the two patterns whose exponent and
    /// fraction are all zero bits.
    pub open spec fn zero(self) -> bool {
        self.bits == 0 || self.bits == SIGN_BIT
    }

    /// Wraps a binary64 bit pattern.
    pub fn from_bits(bits: u64) -> (r: Real)
        ensures
            r.bits == bits,
    {
        Real { bits }
    }

    /// The binary64 bit pattern.
    pub fn to_bits(&self) -> (bits: u64)
        ensures
            bits == self.bits,
    {
        self.bits
    }

    /// Positive zero.
    pub fn new() -> (r: Real)
        ensures
            r.bits == 0,
    {
        Real { bits: 0 }
    }

    /// The same magnitude with the opposite sign.
    pub fn negated(&self) -> (r: Real)
        ensures
            r == self.negation(),
    {
        if self.bits >= SIGN_BIT {
            Real { bits: self.bits - SIGN_BIT }
        } else {
            Real { bits: self.bits + SIGN_BIT }
        }
    }

    /// Whether the number is zero, of either sign.
    pub fn is_zero(&self) -> (z: bool)
        ensures
            z == self.zero(),
    {
        self.bits == 0 || self.bits == SIGN_BIT
    }
}

/// Flipping the sign twice gives the pattern back.
pub proof fn lemma_negation_involutive(r: Real)
    ensures
        r.negation().negation() == r,
{
}

} // verus!
