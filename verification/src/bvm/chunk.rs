//! The instructions of the bytecode virtual machine.
use vstd::prelude::*;

verus! {

/// An instruction of the virtual machine, stored in a chunk as one byte.
#[derive(Debug, Clone, Copy, PartialEq, Eq, Structural)]
pub enum OpCode {
    Constant,
    Nil,
    True,
    False,
    Pop,
    GetLocal,
    SetLocal,
    GetGlobal,
    DefineGlobal,
    SetGlobal,
    GetUpvalue,
    SetUpvalue,
    GetProperty,
    SetProperty,
    GetSuper,
    Equal,
    Greater,
    Less,
    Add,
    Subtract,
    Multiply,
    Divide,
    Not,
    Negate,
    Print,
    Jump,
    JumpIfFalse,
    Loop,
    Call,
    Invoke,
    SuperInvoke,
    Closure,
    CloseUpvalue,
    Return,
    Class,
    Inherit,
    Method,
}

/// The byte that stands for an instruction: its place in the list above.
pub open spec fn op_byte(op: OpCode) -> u8 {
    match op {
        OpCode::Constant => 0u8,
        OpCode::Nil => 1u8,
        OpCode::True => 2u8,
        OpCode::False => 3u8,
        OpCode::Pop => 4u8,
        OpCode::GetLocal => 5u8,
        OpCode::SetLocal => 6u8,
        OpCode::GetGlobal => 7u8,
        OpCode::DefineGlobal => 8u8,
        OpCode::SetGlobal => 9u8,
        OpCode::GetUpvalue => 10u8,
        OpCode::SetUpvalue => 11u8,
        OpCode::GetProperty => 12u8,
        OpCode::SetProperty => 13u8,
        OpCode::GetSuper => 14u8,
        OpCode::Equal => 15u8,
        OpCode::Greater => 16u8,
        OpCode::Less => 17u8,
        OpCode::Add => 18u8,
        OpCode::Subtract => 19u8,
        OpCode::Multiply => 20u8,
        OpCode::Divide => 21u8,
        OpCode::Not => 22u8,
        OpCode::Negate => 23u8,
        OpCode::Print => 24u8,
        OpCode::Jump => 25u8,
        OpCode::JumpIfFalse => 26u8,
        OpCode::Loop => 27u8,
        OpCode::Call => 28u8,
        OpCode::Invoke => 29u8,
        OpCode::SuperInvoke => 30u8,
        OpCode::Closure => 31u8,
        OpCode::CloseUpvalue => 32u8,
        OpCode::Return => 33u8,
        OpCode::Class => 34u8,
        OpCode::Inherit => 35u8,
        OpCode::Method => 36u8,
    }
}

/// The instruction a byte stands for, if any.
pub open spec fn op_of(b: u8) -> Option<OpCode> {
    match b {
        0u8 => Some(OpCode::Constant),
        1u8 => Some(OpCode::Nil),
        2u8 => Some(OpCode::True),
        3u8 => Some(OpCode::False),
        4u8 => Some(OpCode::Pop),
        5u8 => Some(OpCode::GetLocal),
        6u8 => Some(OpCode::SetLocal),
        7u8 => Some(OpCode::GetGlobal),
        8u8 => Some(OpCode::DefineGlobal),
        9u8 => Some(OpCode::SetGlobal),
        10u8 => Some(OpCode::GetUpvalue),
        11u8 => Some(OpCode::SetUpvalue),
        12u8 => Some(OpCode::GetProperty),
        13u8 => Some(OpCode::SetProperty),
        14u8 => Some(OpCode::GetSuper),
        15u8 => Some(OpCode::Equal),
        16u8 => Some(OpCode::Greater),
        17u8 => Some(OpCode::Less),
        18u8 => Some(OpCode::Add),
        19u8 => Some(OpCode::Subtract),
        20u8 => Some(OpCode::Multiply),
        21u8 => Some(OpCode::Divide),
        22u8 => Some(OpCode::Not),
        23u8 => Some(OpCode::Negate),
        24u8 => Some(OpCode::Print),
        25u8 => Some(OpCode::Jump),
        26u8 => Some(OpCode::JumpIfFalse),
        27u8 => Some(OpCode::Loop),
        28u8 => Some(OpCode::Call),
        29u8 => Some(OpCode::Invoke),
        30u8 => Some(OpCode::SuperInvoke),
        31u8 => Some(OpCode::Closure),
        32u8 => Some(OpCode::CloseUpvalue),
        33u8 => Some(OpCode::Return),
        34u8 => Some(OpCode::Class),
        35u8 => Some(OpCode::Inherit),
        36u8 => Some(OpCode::Method),
        _ => None,
    }
}

impl OpCode {
    /// The byte that stands for this instruction.
    pub fn byte(self) -> (b: u8)
        ensures
            b == op_byte(self),
    {
        match self {
            OpCode::Constant => 0u8,
            OpCode::Nil => 1u8,
            OpCode::True => 2u8,
            OpCode::False => 3u8,
            OpCode::Pop => 4u8,
            OpCode::GetLocal => 5u8,
            OpCode::SetLocal => 6u8,
            OpCode::GetGlobal => 7u8,
            OpCode::DefineGlobal => 8u8,
            OpCode::SetGlobal => 9u8,
            OpCode::GetUpvalue => 10u8,
            OpCode::SetUpvalue => 11u8,
            OpCode::GetProperty => 12u8,
            OpCode::SetProperty => 13u8,
            OpCode::GetSuper => 14u8,
            OpCode::Equal => 15u8,
            OpCode::Greater => 16u8,
            OpCode::Less => 17u8,
            OpCode::Add => 18u8,
            OpCode::Subtract => 19u8,
            OpCode::Multiply => 20u8,
            OpCode::Divide => 21u8,
            OpCode::Not => 22u8,
            OpCode::Negate => 23u8,
            OpCode::Print => 24u8,
            OpCode::Jump => 25u8,
            OpCode::JumpIfFalse => 26u8,
            OpCode::Loop => 27u8,
            OpCode::Call => 28u8,
            OpCode::Invoke => 29u8,
            OpCode::SuperInvoke => 30u8,
            OpCode::Closure => 31u8,
            OpCode::CloseUpvalue => 32u8,
            OpCode::Return => 33u8,
            OpCode::Class => 34u8,
            OpCode::Inherit => 35u8,
            OpCode::Method => 36u8,
        }
    }

    /// The instruction that `value` stands for, or an error for a byte that
    /// stands for none.
    pub fn from_byte(value: u8) -> (r: Result<OpCode, &'static str>)
        ensures
            match op_of(value) {
                Some(op) => r == Ok::<OpCode, &'static str>(op),
                None => r is Err,
            },
            r is Err <==> value >= 37,
            r matches Err(m) ==> m@ == "Failed to convert from u8: unknown OpCode."@,
    {
        match value {
            0u8 => Ok(OpCode::Constant),
            1u8 => Ok(OpCode::Nil),
            2u8 => Ok(OpCode::True),
            3u8 => Ok(OpCode::False),
            4u8 => Ok(OpCode::Pop),
            5u8 => Ok(OpCode::GetLocal),
            6u8 => Ok(OpCode::SetLocal),
            7u8 => Ok(OpCode::GetGlobal),
            8u8 => Ok(OpCode::DefineGlobal),
            9u8 => Ok(OpCode::SetGlobal),
            10u8 => Ok(OpCode::GetUpvalue),
            11u8 => Ok(OpCode::SetUpvalue),
            12u8 => Ok(OpCode::GetProperty),
            13u8 => Ok(OpCode::SetProperty),
            14u8 => Ok(OpCode::GetSuper),
            15u8 => Ok(OpCode::Equal),
            16u8 => Ok(OpCode::Greater),
            17u8 => Ok(OpCode::Less),
            18u8 => Ok(OpCode::Add),
            19u8 => Ok(OpCode::Subtract),
            20u8 => Ok(OpCode::Multiply),
            21u8 => Ok(OpCode::Divide),
            22u8 => Ok(OpCode::Not),
            23u8 => Ok(OpCode::Negate),
            24u8 => Ok(OpCode::Print),
            25u8 => Ok(OpCode::Jump),
            26u8 => Ok(OpCode::JumpIfFalse),
            27u8 => Ok(OpCode::Loop),
            28u8 => Ok(OpCode::Call),
            29u8 => Ok(OpCode::Invoke),
            30u8 => Ok(OpCode::SuperInvoke),
            31u8 => Ok(OpCode::Closure),
            32u8 => Ok(OpCode::CloseUpvalue),
            33u8 => Ok(OpCode::Return),
            34u8 => Ok(OpCode::Class),
            35u8 => Ok(OpCode::Inherit),
            36u8 => Ok(OpCode::Method),
            _ => Err("Failed to convert from u8: unknown OpCode."),
        }
    }
}

/// Reading back the byte of an instruction gives the instruction.
pub proof fn lemma_byte_round_trip(op: OpCode)
    ensures
        op_of(op_byte(op)) == Some(op),
{
}

/// Each byte below 37 stands for exactly one instruction, and that
/// instruction is stored as that byte.
pub proof fn lemma_of_byte_round_trip(b: u8)
    ensures
        b < 37 <==> op_of(b) is Some,
        op_of(b) matches Some(op) ==> op_byte(op) == b,
{
}

/// A chunk of bytecode: the instruction bytes, the source line of each
/// byte, and the constants the instructions refer to.
pub struct Chunk<V> {
    pub code: Vec<u8>,
    pub lines: Vec<isize>,
    pub constants: Vec<V>,
}

impl<V> Chunk<V> {
    /// An empty chunk.
    pub fn new() -> (c: Chunk<V>)
        ensures
            c.code@ == Seq::<u8>::empty(),
            c.lines@ == Seq::<isize>::empty(),
            c.constants@ == Seq::<V>::empty(),
    {
        Chunk { code: Vec::new(), lines: Vec::new(), constants: Vec::new() }
    }

    /// Appends the byte of the instruction `code`, from `line`.
    pub fn write_instruction(&mut self, code: OpCode, line: isize)
        ensures
            final(self).code@ == old(self).code@.push(op_byte(code)),
            final(self).lines@ == old(self).lines@.push(line),
            final(self).constants@ == old(self).constants@,
    {
        self.code.push(code.byte());
        self.lines.push(line);
    }

    /// Appends the byte `code`, from `line`.
    pub fn write_raw_instruction(&mut self, code: u8, line: isize)
        ensures
            final(self).code@ == old(self).code@.push(code),
            final(self).lines@ == old(self).lines@.push(line),
            final(self).constants@ == old(self).constants@,
    {
        self.code.push(code);
        self.lines.push(line);
    }

    /// Adds the constant `value` and gives its index.
    pub fn write_value(&mut self, value: V) -> (i: usize)
        ensures
            final(self).constants@ == old(self).constants@.push(value),
            i == old(self).constants@.len(),
            final(self).code@ == old(self).code@,
            final(self).lines@ == old(self).lines@,
    {
        self.constants.push(value);
        self.constants.len() - 1
    }

    /// Empties the chunk.
    pub fn free(&mut self)
        ensures
            final(self).code@ == Seq::<u8>::empty(),
            final(self).lines@ == Seq::<isize>::empty(),
            final(self).constants@ == Seq::<V>::empty(),
    {
        self.code.clear();
        self.lines.clear();
        self.constants.clear();
    }
}

impl<V> Default for Chunk<V> {
    /// The same as `Chunk::new()`.
    fn default() -> (c: Chunk<V>)
        ensures
            c.code@ == Seq::<u8>::empty(),
            c.lines@ == Seq::<isize>::empty(),
            c.constants@ == Seq::<V>::empty(),
    {
        Self::new()
    }
}

} // verus!
