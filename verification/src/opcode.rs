//! The instruction set and its one-byte encoding.
use vstd::prelude::*;
use vstd::string::StringSliceAdditionalSpecFns;

verus! {

/// The instructions of the machine.
#[derive(Debug, Clone, Copy, PartialEq, Eq, Structural)]
pub enum OpCode {
    /// Pushes the constant whose pool index is the operand byte.
    constant,
    /// Replaces the top of the stack by its negation.
    neg,
    /// Replaces the two topmost values by their sum.
    add,
    /// Replaces the two topmost values by their difference.
    sub,
    /// Replaces the two topmost values by their product.
    mul,
    /// Replaces the two topmost values by their quotient.
    div,
    /// Pops the top of the stack and emits it as output.
    ret,
}

impl OpCode {
    /// The byte that encodes the instruction.
    pub open spec fn spec_byte(self) -> u8 {
        match self {
            OpCode::constant => 0,
            OpCode::neg => 1,
            OpCode::add => 2,
            OpCode::sub => 3,
            OpCode::mul => 4,
            OpCode::div => 5,
            OpCode::ret => 6,
        }
    }

    /// The instruction that `byte` encodes, if it encodes one.
    pub open spec fn spec_decode(byte: u8) -> Option<OpCode> {
        match byte {
            0 => Some(OpCode::constant),
            1 => Some(OpCode::neg),
            2 => Some(OpCode::add),
            3 => Some(OpCode::sub),
            4 => Some(OpCode::mul),
            5 => Some(OpCode::div),
            6 => Some(OpCode::ret),
            _ => None,
        }
    }

    /// The number of operand bytes that follow the instruction's own byte.
    pub open spec fn spec_operand_width(self) -> usize {
        match self {
            OpCode::constant => 1,
            _ => 0,
        }
    }

    /// Whether the instruction combines the two topmost values of the stack.
    pub open spec fn spec_is_binary(self) -> bool {
        self == OpCode::add || self == OpCode::sub || self == OpCode::mul || self == OpCode::div
    }

    /// The name under which a listing shows the instruction.
    pub open spec fn name(self) -> Seq<u8> {
        match self {
            OpCode::constant => "constant".spec_bytes(),
            OpCode::neg => "neg".spec_bytes(),
            OpCode::add => "add".spec_bytes(),
            OpCode::sub => "sub".spec_bytes(),
            OpCode::mul => "mul".spec_bytes(),
            OpCode::div => "div".spec_bytes(),
            OpCode::ret => "ret".spec_bytes(),
        }
    }

    /// The byte that encodes the instruction.
    #[verifier::when_used_as_spec(spec_byte)]
    pub fn byte(self) -> (byte: u8)
        ensures
            byte == self.spec_byte(),
    {
        match self {
            OpCode::constant => 0,
            OpCode::neg => 1,
            OpCode::add => 2,
            OpCode::sub => 3,
            OpCode::mul => 4,
            OpCode::div => 5,
            OpCode::ret => 6,
        }
    }

    /// Decodes one byte. `None` is returned for exactly the bytes that encode
    /// no instruction.
    pub fn decode(byte: u8) -> (op: Option<OpCode>)
        ensures
            op == OpCode::spec_decode(byte),
    {
        match byte {
            0 => Some(OpCode::constant),
            1 => Some(OpCode::neg),
            2 => Some(OpCode::add),
            3 => Some(OpCode::sub),
            4 => Some(OpCode::mul),
            5 => Some(OpCode::div),
            6 => Some(OpCode::ret),
            _ => None,
        }
    }

    /// The number of operand bytes that follow the instruction's own byte.
    #[verifier::when_used_as_spec(spec_operand_width)]
    pub fn operand_width(self) -> (width: usize)
        ensures
            width == self.spec_operand_width(),
    {
        match self {
            OpCode::constant => 1,
            _ => 0,
        }
    }

    /// Whether the instruction combines the two topmost values of the stack.
    #[verifier::when_used_as_spec(spec_is_binary)]
    pub fn is_binary(self) -> (yes: bool)
        ensures
            yes == self.spec_is_binary(),
    {
        match self {
            OpCode::add | OpCode::sub | OpCode::mul | OpCode::div => true,
            _ => false,
        }
    }

    /// The name under which a listing shows the instruction.
    pub fn mnemonic(self) -> (name: &'static str)
        ensures
            name.spec_bytes() == self.name(),
    {
        match self {
            OpCode::constant => "constant",
            OpCode::neg => "neg",
            OpCode::add => "add",
            OpCode::sub => "sub",
            OpCode::mul => "mul",
            OpCode::div => "div",
            OpCode::ret => "ret",
        }
    }
}

/// Encoding and decoding are inverse to each other: every instruction is
/// decoded from its own byte, and a byte that decodes is the byte of the
/// instruction it decodes to.
pub proof fn lemma_encoding_reversible(op: OpCode, byte: u8)
    ensures
        OpCode::spec_decode(op.spec_byte()) == Some(op),
        OpCode::spec_decode(byte) == Some(op) ==> op.spec_byte() == byte,
        OpCode::spec_decode(byte) is Some <==> byte <= 6,
{
}

} // verus!
