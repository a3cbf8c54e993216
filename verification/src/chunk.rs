use vstd::prelude::*;

use crate::token::Token;
use crate::value::Value;

verus! {

/// The machine's instructions. An instruction is one byte, its position
/// in this list; some are followed by operand bytes.
#[derive(Clone, Copy, Debug, PartialEq, Eq, Structural)]
pub enum Instruction {
    Pop,
    Constant8,
    Constant16,
    Negate,
    Add,
    Subtract,
    Multiply,
    Divide,
    Remainder,
    Not,
    Equal,
    Greater,
    GreaterEqual,
    Less,
    LessEqual,
    Jump,
    JumpIfFalse,
    JumpIfTrue,
    Loop,
    DefineGlobal,
    SetGlobal,
    GetGlobal,
    GetLocal,
    SetLocal,
    BuildList,
    BuildObject,
    Get,
    SetItem,
    Closure,
    Call,
    GetUpValue,
    SetUpValue,
    CloseUpValue,
    Return,
    AppendHandler,
    PopHandler,
    Throw,
    Unknown,
}

/// The instruction a byte stands for; bytes past the list are `Unknown`.
pub open spec fn decode(byte: u8) -> Instruction {
    match byte {
        0 => Instruction::Pop,
        1 => Instruction::Constant8,
        2 => Instruction::Constant16,
        3 => Instruction::Negate,
        4 => Instruction::Add,
        5 => Instruction::Subtract,
        6 => Instruction::Multiply,
        7 => Instruction::Divide,
        8 => Instruction::Remainder,
        9 => Instruction::Not,
        10 => Instruction::Equal,
        11 => Instruction::Greater,
        12 => Instruction::GreaterEqual,
        13 => Instruction::Less,
        14 => Instruction::LessEqual,
        15 => Instruction::Jump,
        16 => Instruction::JumpIfFalse,
        17 => Instruction::JumpIfTrue,
        18 => Instruction::Loop,
        19 => Instruction::DefineGlobal,
        20 => Instruction::SetGlobal,
        21 => Instruction::GetGlobal,
        22 => Instruction::GetLocal,
        23 => Instruction::SetLocal,
        24 => Instruction::BuildList,
        25 => Instruction::BuildObject,
        26 => Instruction::Get,
        27 => Instruction::SetItem,
        28 => Instruction::Closure,
        29 => Instruction::Call,
        30 => Instruction::GetUpValue,
        31 => Instruction::SetUpValue,
        32 => Instruction::CloseUpValue,
        33 => Instruction::Return,
        34 => Instruction::AppendHandler,
        35 => Instruction::PopHandler,
        36 => Instruction::Throw,
        _ => Instruction::Unknown,
    }
}

impl Instruction {
    /// The instruction a byte stands for.
    pub fn from_byte(byte: u8) -> (i: Instruction)
        ensures
            i == decode(byte),
    {
        match byte {
            0 => Instruction::Pop,
            1 => Instruction::Constant8,
            2 => Instruction::Constant16,
            3 => Instruction::Negate,
            4 => Instruction::Add,
            5 => Instruction::Subtract,
            6 => Instruction::Multiply,
            7 => Instruction::Divide,
            8 => Instruction::Remainder,
            9 => Instruction::Not,
            10 => Instruction::Equal,
            11 => Instruction::Greater,
            12 => Instruction::GreaterEqual,
            13 => Instruction::Less,
            14 => Instruction::LessEqual,
            15 => Instruction::Jump,
            16 => Instruction::JumpIfFalse,
            17 => Instruction::JumpIfTrue,
            18 => Instruction::Loop,
            19 => Instruction::DefineGlobal,
            20 => Instruction::SetGlobal,
            21 => Instruction::GetGlobal,
            22 => Instruction::GetLocal,
            23 => Instruction::SetLocal,
            24 => Instruction::BuildList,
            25 => Instruction::BuildObject,
            26 => Instruction::Get,
            27 => Instruction::SetItem,
            28 => Instruction::Closure,
            29 => Instruction::Call,
            30 => Instruction::GetUpValue,
            31 => Instruction::SetUpValue,
            32 => Instruction::CloseUpValue,
            33 => Instruction::Return,
            34 => Instruction::AppendHandler,
            35 => Instruction::PopHandler,
            36 => Instruction::Throw,
            _ => Instruction::Unknown,
        }
    }
}

/// The value of two operand bytes, high byte first.
pub open spec fn spec_combine(high: u8, low: u8) -> nat {
    (high as nat) * 256 + (low as nat)
}

/// Joins two operand bytes, high byte first, into one number.
pub fn combine(high: u8, low: u8) -> (r: u16)
    ensures
        r == spec_combine(high, low),
{
    assert(((high as u16) << 8u16) | (low as u16) == (high as u16) * 256 + (low as u16)) by (bit_vector);
    ((high as u16) << 8u16) | (low as u16)
}

/// The code of a function: its bytes, the constants they refer to, and for
/// each byte the token it was compiled from.
pub struct Chunk {
    pub code: Vec<u8>,
    pub constants: Vec<Value>,
    pub tokens: Vec<Token>,
}

impl Chunk {
    /// The byte at `idx`, if the code is that long.
    pub fn get_byte(&self, idx: usize) -> (r: Option<u8>)
        ensures
            r == (if idx < self.code@.len() {
                Some(self.code@[idx as int])
            } else {
                None
            }),
    {
        if idx < self.code.len() {
            Some(self.code[idx])
        } else {
            None
        }
    }

    /// The constant at `idx`.
    pub fn get_constant(&self, idx: usize) -> (v: Value)
        requires
            idx < self.constants@.len(),
        ensures
            v@ == self.constants@[idx as int]@,
    {
        self.constants[idx].clone()
    }

    /// The token that the byte at `idx` was compiled from.
    pub fn get_token(&self, idx: usize) -> (t: Token)
        requires
            idx < self.tokens@.len(),
        ensures
            t == self.tokens@[idx as int],
    {
        self.tokens[idx]
    }
}

} // verus!
