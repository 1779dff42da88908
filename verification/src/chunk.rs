//! Bytecode: the instruction set, and the chunk that holds one function's
//! code, constants and line table.

use vstd::prelude::*;
use crate::value::Value;

verus! {

/// The instructions of the machine. Each is one byte in the code, followed by
/// its operand bytes.
#[derive(Clone, Copy, Debug, PartialEq, Eq, Structural)]
pub enum OpCode {
    Constant,
    Nil,
    True,
    False,
    Pop,
    GetLocal,
    SetLocal,
    GetGlobal,
    DefineGlobal,
    SetGlobal,
    GetUpvalue,
    SetUpvalue,
    Equal,
    Greater,
    Less,
    Add,
    Subtract,
    Multiply,
    Divide,
    Not,
    Negate,
    Print,
    Jump,
    JumpIfFalse,
    Loop,
    Call,
    Closure,
    CloseUpvalue,
    Return,
}

/// The byte that stands for an instruction.
pub open spec fn byte_of(op: OpCode) -> u8 {
    match op {
        OpCode::Constant => 0,
        OpCode::Nil => 1,
        OpCode::True => 2,
        OpCode::False => 3,
        OpCode::Pop => 4,
        OpCode::GetLocal => 5,
        OpCode::SetLocal => 6,
        OpCode::GetGlobal => 7,
        OpCode::DefineGlobal => 8,
        OpCode::SetGlobal => 9,
        OpCode::GetUpvalue => 10,
        OpCode::SetUpvalue => 11,
        OpCode::Equal => 12,
        OpCode::Greater => 13,
        OpCode::Less => 14,
        OpCode::Add => 15,
        OpCode::Subtract => 16,
        OpCode::Multiply => 17,
        OpCode::Divide => 18,
        OpCode::Not => 19,
        OpCode::Negate => 20,
        OpCode::Print => 21,
        OpCode::Jump => 22,
        OpCode::JumpIfFalse => 23,
        OpCode::Loop => 24,
        OpCode::Call => 25,
        OpCode::Closure => 26,
        OpCode::CloseUpvalue => 27,
        OpCode::Return => 28,
    }
}

/// The instruction that a byte stands for, if it stands for one.
pub open spec fn op_of(byte: u8) -> Option<OpCode> {
    if byte == 0 {
        Some(OpCode::Constant)
    } else if byte == 1 {
        Some(OpCode::Nil)
    } else if byte == 2 {
        Some(OpCode::True)
    } else if byte == 3 {
        Some(OpCode::False)
    } else if byte == 4 {
        Some(OpCode::Pop)
    } else if byte == 5 {
        Some(OpCode::GetLocal)
    } else if byte == 6 {
        Some(OpCode::SetLocal)
    } else if byte == 7 {
        Some(OpCode::GetGlobal)
    } else if byte == 8 {
        Some(OpCode::DefineGlobal)
    } else if byte == 9 {
        Some(OpCode::SetGlobal)
    } else if byte == 10 {
        Some(OpCode::GetUpvalue)
    } else if byte == 11 {
        Some(OpCode::SetUpvalue)
    } else if byte == 12 {
        Some(OpCode::Equal)
    } else if byte == 13 {
        Some(OpCode::Greater)
    } else if byte == 14 {
        Some(OpCode::Less)
    } else if byte == 15 {
        Some(OpCode::Add)
    } else if byte == 16 {
        Some(OpCode::Subtract)
    } else if byte == 17 {
        Some(OpCode::Multiply)
    } else if byte == 18 {
        Some(OpCode::Divide)
    } else if byte == 19 {
        Some(OpCode::Not)
    } else if byte == 20 {
        Some(OpCode::Negate)
    } else if byte == 21 {
        Some(OpCode::Print)
    } else if byte == 22 {
        Some(OpCode::Jump)
    } else if byte == 23 {
        Some(OpCode::JumpIfFalse)
    } else if byte == 24 {
        Some(OpCode::Loop)
    } else if byte == 25 {
        Some(OpCode::Call)
    } else if byte == 26 {
        Some(OpCode::Closure)
    } else if byte == 27 {
        Some(OpCode::CloseUpvalue)
    } else if byte == 28 {
        Some(OpCode::Return)
    } else {
        None
    }
}

impl OpCode {
    /// The byte written into the code for this instruction.
    pub fn to_byte(self) -> (b: u8)
        ensures
            b == byte_of(self),
    {
        match self {
            OpCode::Constant => 0,
            OpCode::Nil => 1,
            OpCode::True => 2,
            OpCode::False => 3,
            OpCode::Pop => 4,
            OpCode::GetLocal => 5,
            OpCode::SetLocal => 6,
            OpCode::GetGlobal => 7,
            OpCode::DefineGlobal => 8,
            OpCode::SetGlobal => 9,
            OpCode::GetUpvalue => 10,
            OpCode::SetUpvalue => 11,
            OpCode::Equal => 12,
            OpCode::Greater => 13,
            OpCode::Less => 14,
            OpCode::Add => 15,
            OpCode::Subtract => 16,
            OpCode::Multiply => 17,
            OpCode::Divide => 18,
            OpCode::Not => 19,
            OpCode::Negate => 20,
            OpCode::Print => 21,
            OpCode::Jump => 22,
            OpCode::JumpIfFalse => 23,
            OpCode::Loop => 24,
            OpCode::Call => 25,
            OpCode::Closure => 26,
            OpCode::CloseUpvalue => 27,
            OpCode::Return => 28,
        }
    }

    /// Reads a byte of code as an instruction.
    pub fn from_byte(byte: u8) -> (r: Option<OpCode>)
        ensures
            r == op_of(byte),
    {
        match byte {
            0 => Some(OpCode::Constant),
            1 => Some(OpCode::Nil),
            2 => Some(OpCode::True),
            3 => Some(OpCode::False),
            4 => Some(OpCode::Pop),
            5 => Some(OpCode::GetLocal),
            6 => Some(OpCode::SetLocal),
            7 => Some(OpCode::GetGlobal),
            8 => Some(OpCode::DefineGlobal),
            9 => Some(OpCode::SetGlobal),
            10 => Some(OpCode::GetUpvalue),
            11 => Some(OpCode::SetUpvalue),
            12 => Some(OpCode::Equal),
            13 => Some(OpCode::Greater),
            14 => Some(OpCode::Less),
            15 => Some(OpCode::Add),
            16 => Some(OpCode::Subtract),
            17 => Some(OpCode::Multiply),
            18 => Some(OpCode::Divide),
            19 => Some(OpCode::Not),
            20 => Some(OpCode::Negate),
            21 => Some(OpCode::Print),
            22 => Some(OpCode::Jump),
            23 => Some(OpCode::JumpIfFalse),
            24 => Some(OpCode::Loop),
            25 => Some(OpCode::Call),
            26 => Some(OpCode::Closure),
            27 => Some(OpCode::CloseUpvalue),
            28 => Some(OpCode::Return),
            _ => None,
        }
    }
}

/// Writing an instruction and reading it back gives the instruction, and a
/// byte that reads as an instruction is the byte written for it.
pub proof fn opcode_round_trip(op: OpCode, byte: u8)
    ensures
        op_of(byte_of(op)) == Some(op),
        op_of(byte) == Some(op) ==> byte_of(op) == byte,
{
}

/// The code of one function: instruction bytes with their operands, the
/// constants they refer to, and for every byte the source line it came from.
#[derive(Debug)]
pub struct Chunk {
    pub code: Vec<u8>,
    pub constants: Vec<Value>,
    pub lines: Vec<u32>,
}

/// A chunk as a plain value.
pub struct ChunkView {
    pub code: Seq<u8>,
    pub constants: Seq<Value>,
    pub lines: Seq<u32>,
}

impl View for Chunk {
    type V = ChunkView;

    open spec fn view(&self) -> ChunkView {
        ChunkView { code: self.code@, constants: self.constants@, lines: self.lines@ }
    }
}

impl Chunk {
    /// Every byte of code has its line.
    pub open spec fn wf(&self) -> bool {
        self.code@.len() == self.lines@.len()
    }

    /// A chunk without code or constants.
    pub fn new() -> (c: Chunk)
        ensures
            c.wf(),
            c.code@ == Seq::<u8>::empty(),
            c.constants@ == Seq::<Value>::empty(),
            c.lines@ == Seq::<u32>::empty(),
    {
        Chunk { code: Vec::new(), constants: Vec::new(), lines: Vec::new() }
    }

    /// Appends one byte of code that came from the given line.
    pub fn write(&mut self, byte: u8, line: u32)
        requires
            old(self).wf(),
        ensures
            final(self).wf(),
            final(self).code@ == old(self).code@.push(byte),
            final(self).lines@ == old(self).lines@.push(line),
            final(self).constants@ == old(self).constants@,
    {
        self.code.push(byte);
        self.lines.push(line);
    }

    /// Appends a constant and returns its index.
    pub fn add_constant(&mut self, value: Value) -> (index: usize)
        ensures
            index == old(self).constants@.len(),
            final(self).constants@ == old(self).constants@.push(value),
            final(self).code@ == old(self).code@,
            final(self).lines@ == old(self).lines@,
    {
        self.constants.push(value);
        self.constants.len() - 1
    }

    /// The source line of the byte at `offset`; 0 where there is no such byte.
    pub fn line_at(&self, offset: usize) -> (line: u32)
        ensures
            line == (if offset < self.lines@.len() { self.lines@[offset as int] } else { 0u32 }),
    {
        if offset < self.lines.len() {
            self.lines[offset]
        } else {
            0
        }
    }
}

} // verus!
