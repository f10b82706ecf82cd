//! Bytecode: the instruction set and the chunk that holds the instructions of one program
//! together with its constants and, for each instruction, the line it came from.

use vstd::prelude::*;
use crate::heap::texts_contain;
use crate::value::Value;

verus! {

/// The most constants a chunk may hold: an instruction names a constant by one byte.
pub const MAX_CONSTANTS: usize = 256;

/// One instruction. Jump offsets count instructions from the one after the jump.
#[derive(Debug, Clone, Copy, PartialEq, Eq, Structural)]
pub enum OpCode {
    Return,
    Constant { location: u8 },
    Negate,
    Nil,
    True,
    False,
    Not,
    Equal,
    Greater,
    Less,
    Add,
    Subtract,
    Multiply,
    Divide,
    Print,
    Pop,
    DefineGlobal { location: u8 },
    GetGlobal { location: u8 },
    SetGlobal { location: u8 },
    GetLocal { stack_idx: u8 },
    SetLocal { stack_idx: u8 },
    JumpIfFalse { offset: u16 },
    Jump { offset: u16 },
    Loop { offset: u16 },
}

/// The instructions of a program, each with its line, and the pool of constants.
#[derive(Debug)]
pub struct Chunk {
    pub code: Vec<(OpCode, usize)>,
    pub constants: Vec<Value>,
}

/// What instruction `i` needs of the chunk around it: a constant that it names exists, the
/// name of a global variable is a string of the heap, and a jump leads to an instruction of
/// the chunk or just behind the last one.
pub open spec fn op_ok(
    op: OpCode,
    i: int,
    length: int,
    constants: Seq<Value>,
    heap: Seq<Seq<char>>,
) -> bool {
    match op {
        OpCode::Constant { location } => location < constants.len(),
        OpCode::DefineGlobal { location }
        | OpCode::GetGlobal { location }
        | OpCode::SetGlobal { location } => location < constants.len() && (
        constants[location as int] matches Value::Object(handle) && texts_contain(heap, handle)),
        OpCode::JumpIfFalse { offset } | OpCode::Jump { offset } => i + 1 + offset <= length,
        OpCode::Loop { offset } => offset <= i + 1,
        _ => true,
    }
}

/// Every instruction finds what it names, and every string among the constants is a
/// string of the heap.
pub open spec fn chunk_ok(
    code: Seq<(OpCode, usize)>,
    constants: Seq<Value>,
    heap: Seq<Seq<char>>,
) -> bool {
    &&& forall|i: int|
        0 <= i < code.len() ==> op_ok((#[trigger] code[i]).0, i, code.len() as int, constants, heap)
    &&& forall|k: int|
        0 <= k < constants.len() ==> (#[trigger] constants[k] matches Value::Object(handle)
            ==> texts_contain(heap, handle))
}

impl Chunk {
    /// The instructions without their lines.
    pub open spec fn ops(&self) -> Seq<OpCode> {
        Seq::new(self.code@.len(), |i: int| self.code@[i].0)
    }

    /// The line of each instruction.
    pub open spec fn lines(&self) -> Seq<usize> {
        Seq::new(self.code@.len(), |i: int| self.code@[i].1)
    }

    /// A chunk without instructions or constants.
    pub fn new() -> (chunk: Chunk)
        ensures
            chunk.code@ == Seq::<(OpCode, usize)>::empty(),
            chunk.constants@ == Seq::<Value>::empty(),
    {
        Chunk { code: Vec::new(), constants: Vec::new() }
    }

    /// Appends an instruction that came from line `line`.
    pub fn write(&mut self, code: OpCode, line: usize)
        ensures
            final(self).code@ == old(self).code@.push((code, line)),
            final(self).constants@ == old(self).constants@,
    {
        self.code.push((code, line));
    }

    /// Appends a constant and returns its index. The pool must have room for it.
    pub fn add_constant(&mut self, value: Value) -> (location: u8)
        requires
            old(self).constants@.len() < MAX_CONSTANTS,
        ensures
            location == old(self).constants@.len(),
            final(self).constants@ == old(self).constants@.push(value),
            final(self).code@ == old(self).code@,
    {
        self.constants.push(value);
        (self.constants.len() - 1) as u8
    }
}

} // verus!
