//! Runtime values.
use vstd::prelude::*;

verus! {

/// The sign bit of a binary64 bit pattern.
pub const SIGN_BIT: u64 = 0x8000_0000_0000_0000;

/// A runtime value. A number is held as the bit pattern of an IEEE 754
/// binary64 value: sign in the top bit, then exponent and fraction. Two values
/// are equal when their bit patterns are.
#[derive(Debug, Clone, Copy, PartialEq, Eq, Structural)]
pub enum Value {
    Number(u64),
}

impl Value {
    /// The bit pattern of the number.
    pub open spec fn spec_to_bits(self) -> u64 {
        match self {
            Value::Number(bits) => bits,
        }
    }

    /// The value with the opposite sign: the same bit pattern but for the top
    /// bit.
    pub open spec fn spec_neg(self) -> Value {
        let bits = self.spec_to_bits();
        if bits >= SIGN_BIT {
            Value::Number((bits - SIGN_BIT) as u64)
        } else {
            Value::Number((bits + SIGN_BIT) as u64)
        }
    }

    /// The bit pattern of the number.
    #[verifier::when_used_as_spec(spec_to_bits)]
    pub fn to_bits(self) -> (bits: u64)
        ensures
            bits == self.spec_to_bits(),
    {
        match self {
            Value::Number(bits) => bits,
        }
    }

    /// Arithmetic negation. In binary64 it changes the sign and nothing else,
    /// for zeros, infinities and NaNs as for every other number.
    #[verifier::when_used_as_spec(spec_neg)]
    pub fn neg(self) -> (negated: Value)
        ensures
            negated == self.spec_neg(),
    {
        match self {
            Value::Number(bits) => {
                assert(bits ^ 0x8000_0000_0000_0000u64 == (if bits >= 0x8000_0000_0000_0000u64 {
                    (bits - 0x8000_0000_0000_0000u64) as u64
                } else {
                    (bits + 0x8000_0000_0000_0000u64) as u64
                })) by (bit_vector);
                Value::Number(bits ^ SIGN_BIT)
            },
        }
    }
}

/// Negating twice gives the value back.
pub proof fn lemma_neg_involution(value: Value)
    ensures
        value.spec_neg().spec_neg() == value,
        value.spec_neg() != value,
{
}

} // verus!
