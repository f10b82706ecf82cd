//! The listing of a chunk: one line of text for each instruction.
//!
//! A line may end in a constant. The constant is kept apart from the text, since a number
//! is rendered by whoever writes the listing.

use vstd::prelude::*;
use vstd::string::StrSliceExecFns;
use vstd::string::StringExecFns;
use crate::chunk::{Chunk, OpCode};
use crate::heap::Heap;
use crate::report::{decimal, spec_decimal};
use crate::value::Value;
use crate::vm::{spec_printed, Printed, PrintedView, ValuePrinter};

verus! {

/// One line of a listing: its text, and the constant that is written behind the text if
/// the instruction names one.
#[derive(Debug)]
pub struct ListingLine {
    pub text: String,
    pub value: Option<Printed>,
}

/// The abstract value of a [`ListingLine`].
pub struct ListingLineView {
    pub text: Seq<char>,
    pub value: Option<PrintedView>,
}

impl View for ListingLine {
    type V = ListingLineView;

    open spec fn view(&self) -> ListingLineView {
        ListingLineView {
            text: self.text@,
            value: match self.value {
                Some(printed) => Some(printed@),
                None => None,
            },
        }
    }
}

/// `count` blanks.
pub open spec fn blanks(count: int) -> Seq<char> {
    Seq::new(
        if count > 0 {
            count as nat
        } else {
            0nat
        },
        |i: int| ' ',
    )
}

/// A text with blanks behind it, up to `width` characters.
pub open spec fn spec_pad_right(text: Seq<char>, width: int) -> Seq<char> {
    text + blanks(width - text.len())
}

/// A text with blanks before it, up to `width` characters.
pub open spec fn spec_pad_left(text: Seq<char>, width: int) -> Seq<char> {
    blanks(width - text.len()) + text
}

/// The name under which an instruction is listed.
pub open spec fn mnemonic(op: OpCode) -> Seq<char> {
    match op {
        OpCode::Return => "OP_RETURN"@,
        OpCode::Constant { .. } => "OP_CONSTANT"@,
        OpCode::Negate => "OP_NEGATE"@,
        OpCode::Nil => "OP_NIL"@,
        OpCode::True => "OP_TRUE"@,
        OpCode::False => "OP_FALSE"@,
        OpCode::Not => "OP_NOT"@,
        OpCode::Equal => "OP_EQUAL"@,
        OpCode::Greater => "OP_GREATER"@,
        OpCode::Less => "OP_LESS    "@,
        OpCode::Add => "OP_ADD"@,
        OpCode::Subtract => "OP_SUBTRACT"@,
        OpCode::Multiply => "OP_MULTIPLY"@,
        OpCode::Divide => "OP_DIVIDE"@,
        OpCode::Print => "OP_PRINT"@,
        OpCode::Pop => "OP_POP"@,
        OpCode::DefineGlobal { .. } => "OP_DEFINE_GLOBAL"@,
        OpCode::GetGlobal { .. } => "OP_GET_GLOBAL"@,
        OpCode::SetGlobal { .. } => "OP_SET_GLOBAL"@,
        OpCode::GetLocal { .. } => "OP_GET_LOCAL"@,
        OpCode::SetLocal { .. } => "OP_SET_LOCAL"@,
        OpCode::JumpIfFalse { .. } => "OP_JUMP_IF_FALSE"@,
        OpCode::Jump { .. } => "OP_JUMP"@,
        OpCode::Loop { .. } => "OP_LOOP"@,
    }
}

/// The text of a jump: the name in a column of 16, an arrow, and the distance, negative
/// for a jump back.
pub open spec fn spec_jump_text(name: Seq<char>, count: u16, is_forward: bool) -> Seq<char> {
    spec_pad_right(name, 16) + " -> "@ + (if is_forward {
        Seq::<char>::empty()
    } else {
        "-"@
    }) + spec_decimal(count as nat)
}

/// The text of an instruction with a one-byte operand: the name in a column of 16, a
/// blank, and the operand in a column of 4.
pub open spec fn spec_byte_text(name: Seq<char>, operand: u8) -> Seq<char> {
    spec_pad_right(name, 16) + " "@ + spec_pad_right(spec_decimal(operand as nat), 4)
}

/// The line of an instruction.
pub open spec fn spec_listing(op: OpCode, constants: Seq<Value>, heap: Seq<Seq<char>>) -> ListingLineView {
    match op {
        OpCode::Constant { location }
        | OpCode::DefineGlobal { location }
        | OpCode::GetGlobal { location }
        | OpCode::SetGlobal { location } => ListingLineView {
            text: spec_byte_text(mnemonic(op), location),
            value: if location < constants.len() {
                spec_printed(heap, constants[location as int])
            } else {
                None
            },
        },
        OpCode::GetLocal { stack_idx } | OpCode::SetLocal { stack_idx } => ListingLineView {
            text: spec_byte_text(mnemonic(op), stack_idx),
            value: None,
        },
        OpCode::JumpIfFalse { offset } | OpCode::Jump { offset } => ListingLineView {
            text: spec_jump_text(mnemonic(op), offset, true),
            value: None,
        },
        OpCode::Loop { offset } => ListingLineView {
            text: spec_jump_text(mnemonic(op), offset, false),
            value: None,
        },
        _ => ListingLineView { text: mnemonic(op), value: None },
    }
}

/// What stands before an instruction in a listing: its line in a column of 4, or a bar
/// where the instruction before it came from the same line; then a blank.
pub open spec fn spec_line_column(code: Seq<(OpCode, usize)>, i: int) -> Seq<char> {
    if i > 0 && code[i - 1].1 == code[i].1 {
        "   | "@
    } else {
        spec_pad_left(spec_decimal(code[i].1 as nat), 4) + " "@
    }
}

/// Appends blanks to a text until it has `width` characters.
fn pad_right(text: &mut String, width: usize)
    ensures
        final(text)@ == spec_pad_right(old(text)@, width as int),
{
    let mut count = text.as_str().unicode_len();
    proof {
        reveal_strlit(" ");
        assert(text@ =~= old(text)@ + blanks(0));
    }
    while count < width
        invariant
            count == text@.len(),
            count >= old(text)@.len(),
            count <= width || count == old(text)@.len(),
            text@ == old(text)@ + blanks(count - old(text)@.len()),
        decreases width - count,
    {
        let ghost before = text@;
        text.append(" ");
        count += 1;
        proof {
            reveal_strlit(" ");
            assert(text@ =~= old(text)@ + blanks(count - old(text)@.len()));
        }
    }
    proof {
        assert(text@ =~= spec_pad_right(old(text)@, width as int));
    }
}

/// A text with blanks before it, up to `width` characters.
fn pad_left(text: &str, width: usize) -> (padded: String)
    ensures
        padded@ == spec_pad_left(text@, width as int),
{
    let count = text.unicode_len();
    let mut padded = String::new();
    let mut i = count;
    proof {
        assert(padded@ =~= blanks(0));
    }
    while i < width
        invariant
            count <= i,
            i <= width || i == count,
            padded@ == blanks(i - count),
        decreases width - i,
    {
        padded.append(" ");
        i += 1;
        proof {
            reveal_strlit(" ");
            assert(padded@ =~= blanks(i - count));
        }
    }
    padded.append(text);
    padded
}

impl OpCode {
    /// The name under which the instruction is listed.
    fn name(&self) -> (name: &'static str)
        ensures
            name@ == mnemonic(*self),
    {
        match self {
            OpCode::Return => "OP_RETURN",
            OpCode::Constant { .. } => "OP_CONSTANT",
            OpCode::Negate => "OP_NEGATE",
            OpCode::Nil => "OP_NIL",
            OpCode::True => "OP_TRUE",
            OpCode::False => "OP_FALSE",
            OpCode::Not => "OP_NOT",
            OpCode::Equal => "OP_EQUAL",
            OpCode::Greater => "OP_GREATER",
            OpCode::Less => "OP_LESS    ",
            OpCode::Add => "OP_ADD",
            OpCode::Subtract => "OP_SUBTRACT",
            OpCode::Multiply => "OP_MULTIPLY",
            OpCode::Divide => "OP_DIVIDE",
            OpCode::Print => "OP_PRINT",
            OpCode::Pop => "OP_POP",
            OpCode::DefineGlobal { .. } => "OP_DEFINE_GLOBAL",
            OpCode::GetGlobal { .. } => "OP_GET_GLOBAL",
            OpCode::SetGlobal { .. } => "OP_SET_GLOBAL",
            OpCode::GetLocal { .. } => "OP_GET_LOCAL",
            OpCode::SetLocal { .. } => "OP_SET_LOCAL",
            OpCode::JumpIfFalse { .. } => "OP_JUMP_IF_FALSE",
            OpCode::Jump { .. } => "OP_JUMP",
            OpCode::Loop { .. } => "OP_LOOP",
        }
    }

    /// The line of the instruction in a listing of `chunk`, whose strings live in `heap`.
    pub fn show_disassemble(&self, chunk: &Chunk, heap: &Heap) -> (line: ListingLine)
        requires
            heap.wf(),
        ensures
            line@ == spec_listing(*self, chunk.constants@, heap@),
    {
        let name = self.name();
        match self {
            OpCode::Constant { location }
            | OpCode::DefineGlobal { location }
            | OpCode::GetGlobal { location }
            | OpCode::SetGlobal { location } => self.constant_instruction(
                chunk,
                heap,
                name,
                *location,
            ),
            OpCode::GetLocal { stack_idx } | OpCode::SetLocal { stack_idx } => ListingLine {
                text: self.byte_instruction(name, *stack_idx),
                value: None,
            },
            OpCode::JumpIfFalse { offset } | OpCode::Jump { offset } => ListingLine {
                text: self.jump_instruction(name, *offset, true),
                value: None,
            },
            OpCode::Loop { offset } => ListingLine {
                text: self.jump_instruction(name, *offset, false),
                value: None,
            },
            _ => ListingLine { text: self.simple_instruction(name), value: None },
        }
    }

    /// The text of a jump.
    fn jump_instruction(&self, name: &str, count: u16, is_forward: bool) -> (text: String)
        ensures
            text@ == spec_jump_text(name@, count, is_forward),
    {
        let mut text = String::from_str(name);
        pad_right(&mut text, 16);
        text.append(" -> ");
        if !is_forward {
            text.append("-");
        } else {
            assert(text@ + Seq::<char>::empty() =~= text@);
        }
        text.append(decimal(count as usize).as_str());
        text
    }

    /// The text of an instruction with a one-byte operand.
    fn byte_instruction(&self, name: &str, idx: u8) -> (text: String)
        ensures
            text@ == spec_byte_text(name@, idx),
    {
        let mut text = String::from_str(name);
        pad_right(&mut text, 16);
        text.append(" ");
        let mut operand = decimal(idx as usize);
        pad_right(&mut operand, 4);
        text.append(operand.as_str());
        text
    }

    /// The line of an instruction that names a constant: the constant follows the text.
    fn constant_instruction(&self, chunk: &Chunk, heap: &Heap, name: &str, location: u8) -> (line:
        ListingLine)
        requires
            heap.wf(),
        ensures
            line@.text == spec_byte_text(name@, location),
            line@.value == (if location < chunk.constants@.len() {
                spec_printed(heap@, chunk.constants@[location as int])
            } else {
                None
            }),
    {
        let text = self.byte_instruction(name, location);
        let value = if (location as usize) < chunk.constants.len() {
            chunk.constants[location as usize].print(heap)
        } else {
            None
        };
        ListingLine { text, value }
    }

    /// The text of an instruction without operand.
    fn simple_instruction(&self, name: &str) -> (text: String)
        ensures
            text@ == name@,
    {
        String::from_str(name)
    }
}

/// The listing of a chunk under the heading `name`: the heading, then one line for each
/// instruction, with its line number in front.
pub fn disassemble_chunk(chunk: &Chunk, heap: &Heap, name: &str) -> (lines: Vec<ListingLine>)
    requires
        heap.wf(),
    ensures
        lines@.len() == chunk.code@.len() + 1,
        lines@[0]@ == (ListingLineView { text: "== "@ + name@ + " =="@, value: None }),
        forall|i: int|
            0 <= i < chunk.code@.len() ==> (#[trigger] lines@[i + 1])@ == (ListingLineView {
                text: spec_line_column(chunk.code@, i) + spec_listing(
                    chunk.code@[i].0,
                    chunk.constants@,
                    heap@,
                ).text,
                value: spec_listing(chunk.code@[i].0, chunk.constants@, heap@).value,
            }),
{
    let mut heading = String::from_str("== ");
    heading.append(name);
    heading.append(" ==");
    let mut lines: Vec<ListingLine> = Vec::new();
    lines.push(ListingLine { text: heading, value: None });
    let mut i: usize = 0;
    while i < chunk.code.len()
        invariant
            heap.wf(),
            i <= chunk.code@.len(),
            lines@.len() == i + 1,
            lines@[0]@ == (ListingLineView { text: "== "@ + name@ + " =="@, value: None }),
            forall|j: int|
                0 <= j < i ==> (#[trigger] lines@[j + 1])@ == (ListingLineView {
                    text: spec_line_column(chunk.code@, j) + spec_listing(
                        chunk.code@[j].0,
                        chunk.constants@,
                        heap@,
                    ).text,
                    value: spec_listing(chunk.code@[j].0, chunk.constants@, heap@).value,
                }),
        decreases chunk.code@.len() - i,
    {
        let (operation, line) = chunk.code[i];
        let mut text = if i > 0 && chunk.code[i - 1].1 == line {
            String::from_str("   | ")
        } else {
            let mut column = pad_left(decimal(line).as_str(), 4);
            column.append(" ");
            column
        };
        let ListingLine { text: rest, value } = operation.show_disassemble(chunk, heap);
        text.append(rest.as_str());
        lines.push(ListingLine { text, value });
        i += 1;
    }
    lines
}

} // verus!
