//! The texts of diagnostics and of listings.

use rlox::chunk::{Chunk, OpCode};
use rlox::debug::disassemble_chunk;
use rlox::heap::Heap;
use rlox::report::{compile_report, decimal, runtime_report};
use rlox::scanner::TokenType;
use rlox::value::Value;
use rlox::vm::Printed;

#[test]
fn decimal_digits() {
    assert_eq!(decimal(0), "0");
    assert_eq!(decimal(7), "7");
    assert_eq!(decimal(10), "10");
    assert_eq!(decimal(1234567890), "1234567890");
    assert_eq!(decimal(usize::MAX), usize::MAX.to_string());
}

#[test]
fn a_runtime_report_names_the_line() {
    assert_eq!(
        runtime_report("Operands must be numbers.", 12),
        "Operands must be numbers.\n[line 12] in script\n\n"
    );
}

#[test]
fn a_compile_report_names_the_place() {
    assert_eq!(
        compile_report(TokenType::Identifier, "x", 3, "Expect expression."),
        "[line 3] Error at 'x': Expect expression.\n"
    );
    assert_eq!(
        compile_report(TokenType::Eof, "", 4, "Expect ';' after value."),
        "[line 4] Error at end: Expect ';' after value.\n"
    );
    assert_eq!(
        compile_report(TokenType::Error, "Unterminated String", 5, "Unterminated String"),
        "[line 5] Error: Unterminated String\n"
    );
}

fn line_text(printed: &Option<Printed>) -> String {
    match printed {
        Some(Printed::Text(text)) => text.clone(),
        Some(Printed::Number(bits)) => format!("{}", f64::from_bits(*bits)),
        None => String::new(),
    }
}

#[test]
fn a_listing_has_a_line_for_each_instruction() {
    let mut heap = Heap::new();
    let name = heap.allocate_string(String::from("answer"));
    let mut chunk = Chunk::new();
    let number = chunk.add_constant(Value::Number(42f64.to_bits()));
    let global = chunk.add_constant(Value::Object(name));
    chunk.write(OpCode::Constant { location: number }, 1);
    chunk.write(OpCode::DefineGlobal { location: global }, 1);
    chunk.write(OpCode::GetLocal { stack_idx: 3 }, 2);
    chunk.write(OpCode::JumpIfFalse { offset: 7 }, 2);
    chunk.write(OpCode::Loop { offset: 4 }, 123456);
    chunk.write(OpCode::Less, 123456);
    chunk.write(OpCode::Return, 123457);
    let lines = disassemble_chunk(&chunk, &heap, "code");
    let texts: Vec<String> = lines
        .iter()
        .map(|line| format!("{}{}", line.text, line_text(&line.value)))
        .collect();
    assert_eq!(
        texts,
        vec![
            "== code ==",
            "   1 OP_CONSTANT      0   42",
            "   | OP_DEFINE_GLOBAL 1   answer",
            "   2 OP_GET_LOCAL     3   ",
            "   | OP_JUMP_IF_FALSE -> 7",
            "123456 OP_LOOP          -> -4",
            "   | OP_LESS    ",
            "123457 OP_RETURN",
        ]
    );
}

#[test]
fn the_line_of_an_instruction_alone() {
    let heap = Heap::new();
    let chunk = Chunk::new();
    let line = OpCode::Constant { location: 9 }.show_disassemble(&chunk, &heap);
    assert_eq!(line.text, "OP_CONSTANT      9   ");
    assert!(line.value.is_none());
    let line = OpCode::Add.show_disassemble(&chunk, &heap);
    assert_eq!(line.text, "OP_ADD");
    let line = OpCode::SetLocal { stack_idx: 255 }.show_disassemble(&chunk, &heap);
    assert_eq!(line.text, "OP_SET_LOCAL     255 ");
    let line = OpCode::Jump { offset: 65535 }.show_disassemble(&chunk, &heap);
    assert_eq!(line.text, "OP_JUMP          -> 65535");
}
