use vstd::prelude::*;

verus! {

/// The instructions of the virtual machine; each is stored as one byte,
/// its position in this list.
#[derive(Debug, Clone, Copy, PartialEq, Eq, Structural)]
pub enum OpCode {
    /// Loads a constant from the constant pool onto the stack (one operand byte: pool index).
    LoadConstant,
    /// Long form of `LoadConstant` (three operand bytes, little endian).
    LoadConstantLong,
    /// Negates the number on top of the stack.
    Negate,
    /// Replaces the top of the stack with its logical negation.
    Not,
    /// Adds the top two values (numbers, or strings by concatenation).
    Add,
    /// Subtracts the top value from the one below it.
    Subtract,
    /// Multiplies the top two values.
    Multiply,
    /// Divides the second value by the top value.
    Divide,
    /// Compares the top two values for equality.
    Equal,
    /// Compares the top two values for inequality.
    NotEqual,
    /// Whether the second value is less than the top value.
    LessThan,
    /// Whether the second value is at most the top value.
    LessEqual,
    /// Whether the second value is greater than the top value.
    GreaterThan,
    /// Whether the second value is at least the top value.
    GreaterEqual,
    /// Pops and prints the top of the stack.
    Print,
    /// Removes the top of the stack.
    Pop,
    /// Defines a global named by a constant with the popped value.
    DefineGlobal,
    /// Long form of `DefineGlobal`.
    DefineGlobalLong,
    /// Pushes the value of the global named by a constant.
    GetGlobal,
    /// Long form of `GetGlobal`.
    GetGlobalLong,
    /// Assigns the top of the stack to an existing global.
    SetGlobal,
    /// Long form of `SetGlobal`.
    SetGlobalLong,
    /// Pushes the local at a frame slot.
    GetLocal,
    /// Long form of `GetLocal`.
    GetLocalLong,
    /// Assigns the top of the stack to a frame slot.
    SetLocal,
    /// Long form of `SetLocal`.
    SetLocalLong,
    /// Jumps forward by a two-byte distance.
    Jump,
    /// Jumps forward by a two-byte distance when the top of the stack is falsey.
    JumpIfFalse,
    /// Jumps backward by a two-byte distance.
    Loop,
    /// Calls the value below its one-byte argument count of arguments.
    Call,
    /// Returns the top of the stack from the current function.
    Return,
    /// Wraps the function at a heap index into a closure.
    Closure,
    /// Long form of `Closure`.
    ClosureLong,
    /// No operation; discards the byte.
    Nop,
}

/// Number of instructions; every byte below it encodes one.
pub const OPCODE_COUNT: u8 = 34u8;

/// The byte that encodes `op`.
pub open spec fn op_byte(op: OpCode) -> u8 {
    match op {
        OpCode::LoadConstant => 0u8,
        OpCode::LoadConstantLong => 1u8,
        OpCode::Negate => 2u8,
        OpCode::Not => 3u8,
        OpCode::Add => 4u8,
        OpCode::Subtract => 5u8,
        OpCode::Multiply => 6u8,
        OpCode::Divide => 7u8,
        OpCode::Equal => 8u8,
        OpCode::NotEqual => 9u8,
        OpCode::LessThan => 10u8,
        OpCode::LessEqual => 11u8,
        OpCode::GreaterThan => 12u8,
        OpCode::GreaterEqual => 13u8,
        OpCode::Print => 14u8,
        OpCode::Pop => 15u8,
        OpCode::DefineGlobal => 16u8,
        OpCode::DefineGlobalLong => 17u8,
        OpCode::GetGlobal => 18u8,
        OpCode::GetGlobalLong => 19u8,
        OpCode::SetGlobal => 20u8,
        OpCode::SetGlobalLong => 21u8,
        OpCode::GetLocal => 22u8,
        OpCode::GetLocalLong => 23u8,
        OpCode::SetLocal => 24u8,
        OpCode::SetLocalLong => 25u8,
        OpCode::Jump => 26u8,
        OpCode::JumpIfFalse => 27u8,
        OpCode::Loop => 28u8,
        OpCode::Call => 29u8,
        OpCode::Return => 30u8,
        OpCode::Closure => 31u8,
        OpCode::ClosureLong => 32u8,
        OpCode::Nop => 33u8,
    }
}

/// The instruction that byte `b` encodes, if any.
pub open spec fn byte_op(b: u8) -> Option<OpCode> {
    if b == 0u8 {
        Some(OpCode::LoadConstant)
    } else if b == 1u8 {
        Some(OpCode::LoadConstantLong)
    } else if b == 2u8 {
        Some(OpCode::Negate)
    } else if b == 3u8 {
        Some(OpCode::Not)
    } else if b == 4u8 {
        Some(OpCode::Add)
    } else if b == 5u8 {
        Some(OpCode::Subtract)
    } else if b == 6u8 {
        Some(OpCode::Multiply)
    } else if b == 7u8 {
        Some(OpCode::Divide)
    } else if b == 8u8 {
        Some(OpCode::Equal)
    } else if b == 9u8 {
        Some(OpCode::NotEqual)
    } else if b == 10u8 {
        Some(OpCode::LessThan)
    } else if b == 11u8 {
        Some(OpCode::LessEqual)
    } else if b == 12u8 {
        Some(OpCode::GreaterThan)
    } else if b == 13u8 {
        Some(OpCode::GreaterEqual)
    } else if b == 14u8 {
        Some(OpCode::Print)
    } else if b == 15u8 {
        Some(OpCode::Pop)
    } else if b == 16u8 {
        Some(OpCode::DefineGlobal)
    } else if b == 17u8 {
        Some(OpCode::DefineGlobalLong)
    } else if b == 18u8 {
        Some(OpCode::GetGlobal)
    } else if b == 19u8 {
        Some(OpCode::GetGlobalLong)
    } else if b == 20u8 {
        Some(OpCode::SetGlobal)
    } else if b == 21u8 {
        Some(OpCode::SetGlobalLong)
    } else if b == 22u8 {
        Some(OpCode::GetLocal)
    } else if b == 23u8 {
        Some(OpCode::GetLocalLong)
    } else if b == 24u8 {
        Some(OpCode::SetLocal)
    } else if b == 25u8 {
        Some(OpCode::SetLocalLong)
    } else if b == 26u8 {
        Some(OpCode::Jump)
    } else if b == 27u8 {
        Some(OpCode::JumpIfFalse)
    } else if b == 28u8 {
        Some(OpCode::Loop)
    } else if b == 29u8 {
        Some(OpCode::Call)
    } else if b == 30u8 {
        Some(OpCode::Return)
    } else if b == 31u8 {
        Some(OpCode::Closure)
    } else if b == 32u8 {
        Some(OpCode::ClosureLong)
    } else if b == 33u8 {
        Some(OpCode::Nop)
    } else {
        None
    }
}

/// The long form of an instruction that takes a pool, heap or stack index.
pub open spec fn spec_long(op: OpCode) -> OpCode {
    match op {
        OpCode::LoadConstant => OpCode::LoadConstantLong,
        OpCode::DefineGlobal => OpCode::DefineGlobalLong,
        OpCode::GetGlobal => OpCode::GetGlobalLong,
        OpCode::SetGlobal => OpCode::SetGlobalLong,
        OpCode::GetLocal => OpCode::GetLocalLong,
        OpCode::SetLocal => OpCode::SetLocalLong,
        OpCode::Closure => OpCode::ClosureLong,
        _ => op,
    }
}

impl OpCode {
    /// The byte that encodes this instruction.
    pub fn to_byte(self) -> (b: u8)
        ensures
            b == op_byte(self),
    {
        match self {
            OpCode::LoadConstant => 0u8,
            OpCode::LoadConstantLong => 1u8,
            OpCode::Negate => 2u8,
            OpCode::Not => 3u8,
            OpCode::Add => 4u8,
            OpCode::Subtract => 5u8,
            OpCode::Multiply => 6u8,
            OpCode::Divide => 7u8,
            OpCode::Equal => 8u8,
            OpCode::NotEqual => 9u8,
            OpCode::LessThan => 10u8,
            OpCode::LessEqual => 11u8,
            OpCode::GreaterThan => 12u8,
            OpCode::GreaterEqual => 13u8,
            OpCode::Print => 14u8,
            OpCode::Pop => 15u8,
            OpCode::DefineGlobal => 16u8,
            OpCode::DefineGlobalLong => 17u8,
            OpCode::GetGlobal => 18u8,
            OpCode::GetGlobalLong => 19u8,
            OpCode::SetGlobal => 20u8,
            OpCode::SetGlobalLong => 21u8,
            OpCode::GetLocal => 22u8,
            OpCode::GetLocalLong => 23u8,
            OpCode::SetLocal => 24u8,
            OpCode::SetLocalLong => 25u8,
            OpCode::Jump => 26u8,
            OpCode::JumpIfFalse => 27u8,
            OpCode::Loop => 28u8,
            OpCode::Call => 29u8,
            OpCode::Return => 30u8,
            OpCode::Closure => 31u8,
            OpCode::ClosureLong => 32u8,
            OpCode::Nop => 33u8,
        }
    }

    /// Decodes a byte; `None` for a byte that encodes no instruction.
    pub fn from_byte(b: u8) -> (op: Option<OpCode>)
        ensures
            op == byte_op(b),
    {
        if b == 0u8 {
            Some(OpCode::LoadConstant)
        } else if b == 1u8 {
            Some(OpCode::LoadConstantLong)
        } else if b == 2u8 {
            Some(OpCode::Negate)
        } else if b == 3u8 {
            Some(OpCode::Not)
        } else if b == 4u8 {
            Some(OpCode::Add)
        } else if b == 5u8 {
            Some(OpCode::Subtract)
        } else if b == 6u8 {
            Some(OpCode::Multiply)
        } else if b == 7u8 {
            Some(OpCode::Divide)
        } else if b == 8u8 {
            Some(OpCode::Equal)
        } else if b == 9u8 {
            Some(OpCode::NotEqual)
        } else if b == 10u8 {
            Some(OpCode::LessThan)
        } else if b == 11u8 {
            Some(OpCode::LessEqual)
        } else if b == 12u8 {
            Some(OpCode::GreaterThan)
        } else if b == 13u8 {
            Some(OpCode::GreaterEqual)
        } else if b == 14u8 {
            Some(OpCode::Print)
        } else if b == 15u8 {
            Some(OpCode::Pop)
        } else if b == 16u8 {
            Some(OpCode::DefineGlobal)
        } else if b == 17u8 {
            Some(OpCode::DefineGlobalLong)
        } else if b == 18u8 {
            Some(OpCode::GetGlobal)
        } else if b == 19u8 {
            Some(OpCode::GetGlobalLong)
        } else if b == 20u8 {
            Some(OpCode::SetGlobal)
        } else if b == 21u8 {
            Some(OpCode::SetGlobalLong)
        } else if b == 22u8 {
            Some(OpCode::GetLocal)
        } else if b == 23u8 {
            Some(OpCode::GetLocalLong)
        } else if b == 24u8 {
            Some(OpCode::SetLocal)
        } else if b == 25u8 {
            Some(OpCode::SetLocalLong)
        } else if b == 26u8 {
            Some(OpCode::Jump)
        } else if b == 27u8 {
            Some(OpCode::JumpIfFalse)
        } else if b == 28u8 {
            Some(OpCode::Loop)
        } else if b == 29u8 {
            Some(OpCode::Call)
        } else if b == 30u8 {
            Some(OpCode::Return)
        } else if b == 31u8 {
            Some(OpCode::Closure)
        } else if b == 32u8 {
            Some(OpCode::ClosureLong)
        } else if b == 33u8 {
            Some(OpCode::Nop)
        } else {
            None
        }
    }

    /// The long form of an instruction that takes an index operand: its
    /// operand is three bytes in place of one. Other instructions map to
    /// themselves.
    pub fn to_long(self) -> (op: OpCode)
        ensures
            op == spec_long(self),
    {
        match self {
            OpCode::LoadConstant => OpCode::LoadConstantLong,
            OpCode::DefineGlobal => OpCode::DefineGlobalLong,
            OpCode::GetGlobal => OpCode::GetGlobalLong,
            OpCode::SetGlobal => OpCode::SetGlobalLong,
            OpCode::GetLocal => OpCode::GetLocalLong,
            OpCode::SetLocal => OpCode::SetLocalLong,
            OpCode::Closure => OpCode::ClosureLong,
            _ => self,
        }
    }
}

/// What a binary instruction computes of the second value `a` and the top
/// value `b`, taken as numbers (a truth as 1 or 0; a quotient by zero as
/// 0); `None` for an instruction that is no binary operation.
pub open spec fn binary_meaning(op: OpCode, a: int, b: int) -> Option<int> {
    match op {
        OpCode::Add => Some(a + b),
        OpCode::Subtract => Some(a - b),
        OpCode::Multiply => Some(a * b),
        OpCode::Divide => Some(if b == 0 { 0 } else { a / b }),
        OpCode::Equal => Some(if a == b { 1 } else { 0 }),
        OpCode::NotEqual => Some(if a != b { 1 } else { 0 }),
        OpCode::LessThan => Some(if a < b { 1 } else { 0 }),
        OpCode::LessEqual => Some(if a <= b { 1 } else { 0 }),
        OpCode::GreaterThan => Some(if a > b { 1 } else { 0 }),
        OpCode::GreaterEqual => Some(if a >= b { 1 } else { 0 }),
        _ => None,
    }
}

/// Decoding undoes encoding: every instruction reads back from its byte.
pub proof fn lemma_byte_roundtrip(op: OpCode)
    ensures
        byte_op(op_byte(op)) == Some(op),
        op_byte(op) < OPCODE_COUNT,
{
}

/// Encoding undoes decoding: a byte decodes exactly when it is below the
/// instruction count, and then it is the byte of what it decodes to.
pub proof fn lemma_decode_exact(b: u8)
    ensures
        byte_op(b) is Some <==> b < OPCODE_COUNT,
        byte_op(b) matches Some(op) ==> op_byte(op) == b,
{
}

/// Taking the long form twice is taking it once.
pub proof fn lemma_long_idempotent(op: OpCode)
    ensures
        spec_long(spec_long(op)) == spec_long(op),
{
}

} // verus!
