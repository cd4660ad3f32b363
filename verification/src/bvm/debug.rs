//! Decoding instructions for the disassembler.
use vstd::prelude::*;
use crate::bvm::chunk::{op_of, Chunk, OpCode};

verus! {

broadcast use vstd::std_specs::vec::group_vec_axioms;

/// How the disassembler shows an instruction: 0 by name only, 1 with a
/// constant, 2 with an operand byte, 3 as a forward jump, 4 as a backward
/// jump, 5 as unknown.
pub open spec fn op_form(op: OpCode) -> u8 {
    match op {
        OpCode::Constant => 1u8,
        OpCode::Nil => 0u8,
        OpCode::True => 0u8,
        OpCode::False => 0u8,
        OpCode::Pop => 0u8,
        OpCode::GetLocal => 2u8,
        OpCode::SetLocal => 2u8,
        OpCode::GetGlobal => 1u8,
        OpCode::DefineGlobal => 1u8,
        OpCode::SetGlobal => 1u8,
        OpCode::GetUpvalue => 5u8,
        OpCode::SetUpvalue => 5u8,
        OpCode::GetProperty => 5u8,
        OpCode::SetProperty => 5u8,
        OpCode::GetSuper => 5u8,
        OpCode::Equal => 0u8,
        OpCode::Greater => 0u8,
        OpCode::Less => 0u8,
        OpCode::Add => 0u8,
        OpCode::Subtract => 0u8,
        OpCode::Multiply => 0u8,
        OpCode::Divide => 0u8,
        OpCode::Not => 0u8,
        OpCode::Negate => 0u8,
        OpCode::Print => 0u8,
        OpCode::Jump => 3u8,
        OpCode::JumpIfFalse => 3u8,
        OpCode::Loop => 4u8,
        OpCode::Call => 2u8,
        OpCode::Invoke => 5u8,
        OpCode::SuperInvoke => 5u8,
        OpCode::Closure => 5u8,
        OpCode::CloseUpvalue => 5u8,
        OpCode::Return => 0u8,
        OpCode::Class => 5u8,
        OpCode::Inherit => 5u8,
        OpCode::Method => 5u8,
    }
}

/// The name the disassembler gives an instruction (empty for one it does not know).
pub open spec fn op_label(op: OpCode) -> Seq<char> {
    match op {
        OpCode::Constant => "OP_CONSTANT"@,
        OpCode::Nil => "OP_NIL"@,
        OpCode::True => "OP_TRUE"@,
        OpCode::False => "OP_FALSE"@,
        OpCode::Pop => "OP_POP"@,
        OpCode::GetLocal => "OP_GET_LOCAL"@,
        OpCode::SetLocal => "OP_SET_LOCAL"@,
        OpCode::GetGlobal => "OP_GET_GLOBAL"@,
        OpCode::DefineGlobal => "OP_DEFINE_GLOBAL"@,
        OpCode::SetGlobal => "OP_SET_GLOBAL"@,
        OpCode::GetUpvalue => ""@,
        OpCode::SetUpvalue => ""@,
        OpCode::GetProperty => ""@,
        OpCode::SetProperty => ""@,
        OpCode::GetSuper => ""@,
        OpCode::Equal => "OP_EQUAL"@,
        OpCode::Greater => "OP_GREATER"@,
        OpCode::Less => "OP_LESS"@,
        OpCode::Add => "OP_ADD"@,
        OpCode::Subtract => "OP_SUBTRACT"@,
        OpCode::Multiply => "OP_MULTIPLY"@,
        OpCode::Divide => "OP_DIVIDE"@,
        OpCode::Not => "OP_NOT"@,
        OpCode::Negate => "OP_NEGATE"@,
        OpCode::Print => "OP_PRINT"@,
        OpCode::Jump => "OP_JUMP"@,
        OpCode::JumpIfFalse => "OP_JUMP_IF_FALSE"@,
        OpCode::Loop => "OP_LOOP"@,
        OpCode::Call => "OP_CALL"@,
        OpCode::Invoke => ""@,
        OpCode::SuperInvoke => ""@,
        OpCode::Closure => ""@,
        OpCode::CloseUpvalue => ""@,
        OpCode::Return => "OP_RETURN"@,
        OpCode::Class => ""@,
        OpCode::Inherit => ""@,
        OpCode::Method => ""@,
    }
}

fn form_and_label(op: OpCode) -> (r: (u8, &'static str))
    ensures
        r.0 == op_form(op),
        r.1@ == op_label(op),
{
    match op {
        OpCode::Constant => (1u8, "OP_CONSTANT"),
        OpCode::Nil => (0u8, "OP_NIL"),
        OpCode::True => (0u8, "OP_TRUE"),
        OpCode::False => (0u8, "OP_FALSE"),
        OpCode::Pop => (0u8, "OP_POP"),
        OpCode::GetLocal => (2u8, "OP_GET_LOCAL"),
        OpCode::SetLocal => (2u8, "OP_SET_LOCAL"),
        OpCode::GetGlobal => (1u8, "OP_GET_GLOBAL"),
        OpCode::DefineGlobal => (1u8, "OP_DEFINE_GLOBAL"),
        OpCode::SetGlobal => (1u8, "OP_SET_GLOBAL"),
        OpCode::GetUpvalue => (5u8, ""),
        OpCode::SetUpvalue => (5u8, ""),
        OpCode::GetProperty => (5u8, ""),
        OpCode::SetProperty => (5u8, ""),
        OpCode::GetSuper => (5u8, ""),
        OpCode::Equal => (0u8, "OP_EQUAL"),
        OpCode::Greater => (0u8, "OP_GREATER"),
        OpCode::Less => (0u8, "OP_LESS"),
        OpCode::Add => (0u8, "OP_ADD"),
        OpCode::Subtract => (0u8, "OP_SUBTRACT"),
        OpCode::Multiply => (0u8, "OP_MULTIPLY"),
        OpCode::Divide => (0u8, "OP_DIVIDE"),
        OpCode::Not => (0u8, "OP_NOT"),
        OpCode::Negate => (0u8, "OP_NEGATE"),
        OpCode::Print => (0u8, "OP_PRINT"),
        OpCode::Jump => (3u8, "OP_JUMP"),
        OpCode::JumpIfFalse => (3u8, "OP_JUMP_IF_FALSE"),
        OpCode::Loop => (4u8, "OP_LOOP"),
        OpCode::Call => (2u8, "OP_CALL"),
        OpCode::Invoke => (5u8, ""),
        OpCode::SuperInvoke => (5u8, ""),
        OpCode::Closure => (5u8, ""),
        OpCode::CloseUpvalue => (5u8, ""),
        OpCode::Return => (0u8, "OP_RETURN"),
        OpCode::Class => (5u8, ""),
        OpCode::Inherit => (5u8, ""),
        OpCode::Method => (5u8, ""),
    }
}

/// The operands that the instruction at `offset` reads are in the chunk.
pub open spec fn operands_present<V>(chunk: &Chunk<V>, offset: int) -> bool {
    let code = chunk.code@;
    match op_of(code[offset]) {
        Some(op) => {
            let f = op_form(op);
            &&& (f == 1 ==> offset + 1 < code.len() && (code[offset + 1] as int) < chunk.constants@.len())
            &&& (f == 2 ==> offset + 1 < code.len())
            &&& ((f == 3 || f == 4) ==> offset + 2 < code.len() && offset + 3 + 65535 <= isize::MAX)
        }
        None => false,
    }
}

/// An instruction as the disassembler shows it.
#[derive(Debug, Clone, Copy, PartialEq, Eq)]
pub enum Shown {
    /// Just its name.
    Simple(&'static str),
    /// Its name and the index of its constant.
    Constant(&'static str, u8),
    /// Its name and its operand byte.
    Byte(&'static str, u8),
    /// Its name, its offset and where it jumps to.
    Jump(&'static str, usize, isize),
    /// An instruction it does not know, by its byte.
    Unknown(u8),
}

/// Decodes the instruction at `offset`: how it is shown, whether its line is
/// that of the byte before it, and the offset of the next instruction.
pub fn disassemble_instruction<V>(chunk: &Chunk<V>, offset: usize) -> (r: (Shown, bool, usize))
    requires
        offset < chunk.code@.len(),
        offset < chunk.lines@.len(),
        operands_present(chunk, offset as int),
    ensures
        r.1 == (offset > 0 && chunk.lines@[offset as int] == chunk.lines@[offset - 1]),
        ({
            let code = chunk.code@;
            let op = op_of(code[offset as int])->0;
            let f = op_form(op);
            &&& r.2 == offset + if f == 0 || f == 5 { 1int } else if f == 1 || f == 2 { 2int } else { 3int }
            &&& match r.0 {
                Shown::Simple(n) => f == 0 && n@ == op_label(op),
                Shown::Constant(n, i) => f == 1 && n@ == op_label(op) && i == code[offset + 1],
                Shown::Byte(n, b) => f == 2 && n@ == op_label(op) && b == code[offset + 1],
                Shown::Jump(n, from, dest) => (f == 3 || f == 4) && n@ == op_label(op) && from == offset
                    && dest == if f == 3 {
                        offset + 3 + (code[offset + 1] * 256 + code[offset + 2])
                    } else {
                        offset + 3 - (code[offset + 1] * 256 + code[offset + 2])
                    },
                Shown::Unknown(b) => f == 5 && b == code[offset as int],
            }
        }),
{
    let _n = chunk.code.len();
    let same_line = offset > 0 && chunk.lines[offset] == chunk.lines[offset - 1];
    let byte = chunk.code[offset];
    let op = match OpCode::from_byte(byte) {
        Ok(op) => op,
        Err(_) => {
            proof { assert(false); }
            return (Shown::Unknown(byte), same_line, offset + 1);
        }
    };
    let (form, label) = form_and_label(op);
    assert(op == op_of(byte)->0);
    if form == 0 {
        (Shown::Simple(label), same_line, offset + 1)
    } else if form == 1 {
        (Shown::Constant(label, chunk.code[offset + 1]), same_line, offset + 2)
    } else if form == 2 {
        (Shown::Byte(label, chunk.code[offset + 1]), same_line, offset + 2)
    } else if form == 3 || form == 4 {
        let hi = chunk.code[offset + 1] as u16;
        let lo = chunk.code[offset + 2] as u16;
        assert(hi <= 255 && lo <= 255);
        let jump: u16 = hi * 256 + lo;
        assert(offset + 3 + 65535 <= isize::MAX);
        let start: isize = offset as isize;
        let j: isize = jump as isize;
        let dest: isize = if form == 3 { start + 3 + j } else { start + 3 - j };
        (Shown::Jump(label, offset, dest), same_line, offset + 3)
    } else {
        (Shown::Unknown(byte), same_line, offset + 1)
    }
}

/// Whether the instruction at `offset` can be decoded: it is inside the
/// code and its line table, it is known, and its operands are there.
pub fn can_disassemble<V>(chunk: &Chunk<V>, offset: usize) -> (b: bool)
    ensures
        b == (offset < chunk.code@.len() && offset < chunk.lines@.len() && operands_present(chunk, offset as int)),
{
    if offset >= chunk.code.len() || offset >= chunk.lines.len() {
        return false;
    }
    let byte = chunk.code[offset];
    let op = match OpCode::from_byte(byte) {
        Ok(op) => op,
        Err(_) => {
            return false;
        }
    };
    let (form, _label) = form_and_label(op);
    let len = chunk.code.len();
    if form == 1 {
        len - offset > 1 && (chunk.code[offset + 1] as usize) < chunk.constants.len()
    } else if form == 2 {
        len - offset > 1
    } else if form == 3 || form == 4 {
        len - offset > 2 && offset <= (isize::MAX as usize) - 3 - 65535
    } else {
        true
    }
}

} // verus!
