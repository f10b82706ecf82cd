//! The machine on chunks written by hand, and the compiler's bytecode.

use rlox::chunk::{Chunk, OpCode};
use rlox::compiler::{Compiler, ParseFn, ParseRule, Precedence};
use rlox::heap::Heap;
use rlox::scanner::TokenType;
use rlox::value::{hash_string, ObjRef, Value};
use rlox::vm::{Action, ArithOp, InterpreterError, Printed, ValuePrinter, VM};

fn chunk_of(ops: &[OpCode], constants: &[Value]) -> Chunk {
    let mut chunk = Chunk::new();
    for value in constants {
        chunk.add_constant(*value);
    }
    for (i, op) in ops.iter().enumerate() {
        chunk.write(*op, i + 1);
    }
    chunk
}

fn bits(x: f64) -> u64 {
    x.to_bits()
}

fn expect_text(action: Action, expected: &str) {
    match action {
        Action::Print(Printed::Text(text)) => assert_eq!(text, expected),
        other => panic!("expected a text, got {:?}", other),
    }
}

fn expect_number(action: Action, expected: f64) {
    match action {
        Action::Print(Printed::Number(n)) => assert_eq!(n, bits(expected)),
        other => panic!("expected a number, got {:?}", other),
    }
}

fn expect_failure(action: Action, expected: &str) {
    match action {
        Action::Fail { error, report } => {
            assert_eq!(error, InterpreterError::RuntimeError);
            assert_eq!(report, expected);
        }
        other => panic!("expected a failure, got {:?}", other),
    }
}

#[test]
fn literals_are_pushed_and_printed() {
    let chunk = chunk_of(
        &[
            OpCode::Nil,
            OpCode::Print,
            OpCode::True,
            OpCode::Print,
            OpCode::False,
            OpCode::Print,
            OpCode::Constant { location: 0 },
            OpCode::Print,
            OpCode::Return,
        ],
        &[Value::Number(bits(2.5))],
    );
    let mut vm = VM::new(chunk);
    assert!(matches!(vm.step(), Action::Continue));
    expect_text(vm.step(), "nil");
    assert!(matches!(vm.step(), Action::Continue));
    expect_text(vm.step(), "true");
    expect_text(vm.run(10), "false");
    expect_number(vm.run(10), 2.5);
    assert!(matches!(vm.run(10), Action::Halt));
}

#[test]
fn arithmetic_is_left_to_the_caller() {
    let chunk = chunk_of(
        &[
            OpCode::Constant { location: 0 },
            OpCode::Constant { location: 1 },
            OpCode::Subtract,
            OpCode::Print,
            OpCode::Return,
        ],
        &[Value::Number(bits(7.0)), Value::Number(bits(2.0))],
    );
    let mut vm = VM::new(chunk);
    assert!(!vm.complete_arithmetic(0));
    match vm.run(10) {
        Action::Arithmetic { op, lhs, rhs } => {
            assert_eq!(op, ArithOp::Subtract);
            assert_eq!(lhs, bits(7.0));
            assert_eq!(rhs, bits(2.0));
        }
        other => panic!("expected arithmetic, got {:?}", other),
    }
    assert!(matches!(vm.step(), Action::Arithmetic { .. }));
    assert!(vm.complete_arithmetic(bits(5.0)));
    assert!(!vm.complete_arithmetic(bits(5.0)));
    expect_number(vm.step(), 5.0);
    assert!(matches!(vm.step(), Action::Halt));
}

#[test]
fn each_arithmetic_instruction_names_its_operation() {
    for (op, expected) in [
        (OpCode::Add, ArithOp::Add),
        (OpCode::Subtract, ArithOp::Subtract),
        (OpCode::Multiply, ArithOp::Multiply),
        (OpCode::Divide, ArithOp::Divide),
    ] {
        let chunk = chunk_of(
            &[OpCode::Constant { location: 0 }, OpCode::Constant { location: 0 }, op],
            &[Value::Number(bits(1.0))],
        );
        let mut vm = VM::new(chunk);
        match vm.run(10) {
            Action::Arithmetic { op, .. } => assert_eq!(op, expected),
            other => panic!("expected arithmetic, got {:?}", other),
        }
    }
}

#[test]
fn negation_comparison_and_equality_stay_in_the_machine() {
    let chunk = chunk_of(
        &[
            OpCode::Constant { location: 0 },
            OpCode::Negate,
            OpCode::Print,
            OpCode::Constant { location: 0 },
            OpCode::Constant { location: 1 },
            OpCode::Less,
            OpCode::Print,
            OpCode::Constant { location: 0 },
            OpCode::Constant { location: 1 },
            OpCode::Greater,
            OpCode::Print,
            OpCode::Constant { location: 1 },
            OpCode::Constant { location: 1 },
            OpCode::Equal,
            OpCode::Not,
            OpCode::Print,
            OpCode::Return,
        ],
        &[Value::Number(bits(1.0)), Value::Number(bits(2.0))],
    );
    let mut vm = VM::new(chunk);
    expect_number(vm.run(10), -1.0);
    expect_text(vm.run(10), "true");
    expect_text(vm.run(10), "false");
    expect_text(vm.run(10), "false");
    assert!(matches!(vm.run(10), Action::Halt));
}

#[test]
fn jumps_move_the_instruction_pointer() {
    let chunk = chunk_of(
        &[
            OpCode::False,
            OpCode::JumpIfFalse { offset: 2 },
            OpCode::Nil,
            OpCode::Print,
            OpCode::Print,
            OpCode::True,
            OpCode::JumpIfFalse { offset: 1 },
            OpCode::Jump { offset: 1 },
            OpCode::Nil,
            OpCode::Print,
            OpCode::Return,
        ],
        &[],
    );
    let mut vm = VM::new(chunk);
    expect_text(vm.run(10), "false");
    expect_text(vm.run(10), "true");
    assert!(matches!(vm.run(10), Action::Halt));
}

#[test]
fn a_loop_runs_until_the_budget_is_spent() {
    let chunk = chunk_of(&[OpCode::Nil, OpCode::Pop, OpCode::Loop { offset: 3 }], &[]);
    let mut vm = VM::new(chunk);
    assert!(matches!(vm.run(1000), Action::Continue));
    assert!(matches!(vm.run(0), Action::Continue));
}

#[test]
fn locals_are_stack_slots() {
    let chunk = chunk_of(
        &[
            OpCode::True,
            OpCode::Nil,
            OpCode::GetLocal { stack_idx: 0 },
            OpCode::SetLocal { stack_idx: 1 },
            OpCode::Pop,
            OpCode::Print,
            OpCode::Print,
            OpCode::Return,
        ],
        &[],
    );
    let mut vm = VM::new(chunk);
    expect_text(vm.run(10), "true");
    expect_text(vm.run(10), "true");
    assert!(matches!(vm.run(10), Action::Halt));
}

#[test]
fn globals_are_defined_read_and_assigned() {
    let mut heap = Heap::new();
    let name = heap.allocate_string(String::from("x"));
    let chunk = chunk_of(
        &[
            OpCode::True,
            OpCode::DefineGlobal { location: 0 },
            OpCode::GetGlobal { location: 0 },
            OpCode::Print,
            OpCode::Nil,
            OpCode::SetGlobal { location: 0 },
            OpCode::Pop,
            OpCode::GetGlobal { location: 0 },
            OpCode::Print,
            OpCode::Return,
        ],
        &[Value::Object(name)],
    );
    let mut vm = VM::new_with_strings(chunk, heap);
    expect_text(vm.run(10), "true");
    expect_text(vm.run(10), "nil");
    assert!(matches!(vm.run(10), Action::Halt));
}

#[test]
fn strings_are_concatenated_and_printed() {
    let mut heap = Heap::new();
    let foo = heap.allocate_string(String::from("foo"));
    let bar = heap.allocate_string(String::from("bar"));
    let chunk = chunk_of(
        &[
            OpCode::Constant { location: 0 },
            OpCode::Constant { location: 1 },
            OpCode::Add,
            OpCode::Print,
            OpCode::Return,
        ],
        &[Value::Object(foo), Value::Object(bar)],
    );
    let mut vm = VM::new_with_strings(chunk, heap);
    expect_text(vm.run(10), "foobar");
}

#[test]
fn bytecode_that_the_compiler_never_writes_fails_the_run() {
    let malformed = "Malformed bytecode.\n[line 1] in script\n\n";
    for ops in [
        vec![OpCode::Pop],
        vec![OpCode::Print],
        vec![OpCode::Not],
        vec![OpCode::Negate],
        vec![OpCode::Equal],
        vec![OpCode::Add],
        vec![OpCode::Less],
        vec![OpCode::Constant { location: 0 }],
        vec![OpCode::GetLocal { stack_idx: 0 }],
        vec![OpCode::SetLocal { stack_idx: 0 }],
        vec![OpCode::DefineGlobal { location: 0 }],
        vec![OpCode::GetGlobal { location: 0 }],
        vec![OpCode::SetGlobal { location: 0 }],
        vec![OpCode::Jump { offset: 1 }],
        vec![OpCode::JumpIfFalse { offset: 0 }],
        vec![OpCode::Loop { offset: 2 }],
    ] {
        let mut vm = VM::new(chunk_of(&ops, &[]));
        expect_failure(vm.step(), malformed);
    }
    let mut vm = VM::empty_new();
    expect_failure(vm.step(), "Malformed bytecode.\n[line 0] in script\n\n");
    let forged = Value::Object(ObjRef { index: 5, hash: hash_string("x") });
    let mut vm = VM::new(chunk_of(&[OpCode::Constant { location: 0 }, OpCode::Print], &[forged]));
    assert!(matches!(vm.step(), Action::Continue));
    expect_failure(vm.step(), "Malformed bytecode.\n[line 2] in script\n\n");
}

#[test]
fn the_stack_takes_256_values() {
    let mut ops = vec![OpCode::Nil; 256];
    ops.push(OpCode::Nil);
    let mut vm = VM::new(chunk_of(&ops, &[]));
    assert!(matches!(vm.run(256), Action::Continue));
    expect_failure(vm.step(), "Stack overflow.\n[line 257] in script\n\n");
    assert!(matches!(vm.step(), Action::Fail { .. }));
}

#[test]
fn a_value_prints_as_text_or_number() {
    let mut heap = Heap::new();
    let hello = heap.allocate_string(String::from("hello"));
    assert!(matches!(Value::Nil.print(&heap), Some(Printed::Text(text)) if text == "nil"));
    assert!(matches!(Value::Bool(true).print(&heap), Some(Printed::Text(text)) if text == "true"));
    assert!(matches!(Value::Bool(false).print(&heap), Some(Printed::Text(text)) if text == "false"));
    assert!(matches!(Value::Number(7).print(&heap), Some(Printed::Number(7))));
    assert!(matches!(Value::Object(hello).print(&heap), Some(Printed::Text(text)) if text == "hello"));
    assert!(Value::Object(ObjRef { index: 1, hash: 0 }).print(&heap).is_none());
}

fn compile(source: &str, numbers: &[f64]) -> (Option<Chunk>, Heap, String) {
    let numbers: Vec<u64> = numbers.iter().map(|x| x.to_bits()).collect();
    let output = Compiler::compile(source, &numbers, Heap::new());
    (output.chunk, output.strings, output.diagnostics)
}

fn ops_of(chunk: &Chunk) -> Vec<OpCode> {
    chunk.code.iter().map(|(op, _)| *op).collect()
}

#[test]
fn an_empty_program_returns() {
    let (chunk, heap, diagnostics) = compile("  // nothing\n", &[]);
    let chunk = chunk.unwrap();
    assert_eq!(ops_of(&chunk), vec![OpCode::Return]);
    assert_eq!(chunk.code[0].1, 2);
    assert!(chunk.constants.is_empty());
    assert_eq!(heap.len(), 0);
    assert_eq!(diagnostics, "");
}

#[test]
fn an_expression_is_compiled_operands_first() {
    let (chunk, _, _) = compile("print 1 + 2 * 3;", &[1.0, 2.0, 3.0]);
    let chunk = chunk.unwrap();
    assert_eq!(
        ops_of(&chunk),
        vec![
            OpCode::Constant { location: 0 },
            OpCode::Constant { location: 1 },
            OpCode::Constant { location: 2 },
            OpCode::Multiply,
            OpCode::Add,
            OpCode::Print,
            OpCode::Return,
        ]
    );
    assert!(chunk.constants[0] == Value::Number(bits(1.0)));
    assert!(chunk.constants[1] == Value::Number(bits(2.0)));
    assert!(chunk.constants[2] == Value::Number(bits(3.0)));
}

#[test]
fn comparison_operators_without_an_instruction_of_their_own() {
    let (chunk, _, _) = compile("1 != 2; 1 <= 2; 1 >= 2; !-1;", &[1.0, 2.0, 1.0, 2.0, 1.0, 2.0, 1.0]);
    let ops = ops_of(&chunk.unwrap());
    let without_constants: Vec<OpCode> =
        ops.into_iter().filter(|op| !matches!(op, OpCode::Constant { .. })).collect();
    assert_eq!(
        without_constants,
        vec![
            OpCode::Equal,
            OpCode::Not,
            OpCode::Pop,
            OpCode::Greater,
            OpCode::Not,
            OpCode::Pop,
            OpCode::Less,
            OpCode::Not,
            OpCode::Pop,
            OpCode::Negate,
            OpCode::Not,
            OpCode::Pop,
            OpCode::Return,
        ]
    );
}

#[test]
fn instructions_carry_the_line_of_their_token() {
    let (chunk, _, _) = compile("print\n1\n+\n2\n;", &[1.0, 2.0]);
    let chunk = chunk.unwrap();
    let lines: Vec<usize> = chunk.code.iter().map(|(_, line)| *line).collect();
    assert_eq!(lines, vec![2, 4, 4, 5, 5]);
}

#[test]
fn lines_never_fall_and_the_return_stands_at_the_end() {
    let source = "var i = 0;\nfor (var j = 0;\n j < 3;\n j = j + 1) {\n  if (j == 1 or\n j == 2)\n { i = i + j; }\n else\n { print \"no\"; }\n}\nwhile (i > 0)\n i = i - 1;\n\n\n";
    let (chunk, _, diagnostics) =
        compile(source, &[0.0, 0.0, 3.0, 1.0, 1.0, 2.0, 0.0, 1.0]);
    assert_eq!(diagnostics, "");
    let chunk = chunk.unwrap();
    let lines: Vec<usize> = chunk.code.iter().map(|(_, line)| *line).collect();
    assert!(lines.len() > 20);
    assert_eq!(lines[0], 1);
    assert!(lines.windows(2).all(|pair| pair[0] <= pair[1]));
    let breaks = source.chars().filter(|c| *c == '\n').count();
    assert!(lines.iter().all(|line| 1 <= *line && *line <= 1 + breaks));
    assert_eq!(chunk.code.last(), Some(&(OpCode::Return, 15)));
}

#[test]
fn globals_are_named_by_interned_constants() {
    let (chunk, heap, _) = compile("var a = \"a\"; a = a;", &[]);
    let chunk = chunk.unwrap();
    assert_eq!(heap.len(), 1);
    let handle = ObjRef { index: 0, hash: hash_string("a") };
    for constant in &chunk.constants {
        assert!(*constant == Value::Object(handle));
    }
    assert_eq!(
        ops_of(&chunk),
        vec![
            OpCode::Constant { location: 1 },
            OpCode::DefineGlobal { location: 0 },
            OpCode::GetGlobal { location: 3 },
            OpCode::SetGlobal { location: 2 },
            OpCode::Pop,
            OpCode::Return,
        ]
    );
}

#[test]
fn locals_are_addressed_by_slot() {
    let (chunk, _, _) = compile("{ var a; var b = a; b = a; }", &[]);
    assert_eq!(
        ops_of(&chunk.unwrap()),
        vec![
            OpCode::Nil,
            OpCode::GetLocal { stack_idx: 0 },
            OpCode::GetLocal { stack_idx: 0 },
            OpCode::SetLocal { stack_idx: 1 },
            OpCode::Pop,
            OpCode::Pop,
            OpCode::Pop,
            OpCode::Return,
        ]
    );
}

#[test]
fn if_and_else_drop_the_condition_on_each_branch() {
    let (chunk, _, _) = compile("if (true) print nil; else print false;", &[]);
    assert_eq!(
        ops_of(&chunk.unwrap()),
        vec![
            OpCode::True,
            OpCode::JumpIfFalse { offset: 4 },
            OpCode::Pop,
            OpCode::Nil,
            OpCode::Print,
            OpCode::Jump { offset: 3 },
            OpCode::Pop,
            OpCode::False,
            OpCode::Print,
            OpCode::Return,
        ]
    );
}

#[test]
fn while_jumps_back_to_the_condition() {
    let (chunk, _, _) = compile("while (false) nil;", &[]);
    assert_eq!(
        ops_of(&chunk.unwrap()),
        vec![
            OpCode::False,
            OpCode::JumpIfFalse { offset: 4 },
            OpCode::Pop,
            OpCode::Nil,
            OpCode::Pop,
            OpCode::Loop { offset: 6 },
            OpCode::Pop,
            OpCode::Return,
        ]
    );
}

#[test]
fn for_runs_the_increment_after_the_body() {
    let (chunk, _, _) = compile("for (var i = nil; i; i = true) print i;", &[]);
    assert_eq!(
        ops_of(&chunk.unwrap()),
        vec![
            OpCode::Nil,
            OpCode::GetLocal { stack_idx: 0 },
            OpCode::JumpIfFalse { offset: 9 },
            OpCode::Pop,
            OpCode::Jump { offset: 4 },
            OpCode::True,
            OpCode::SetLocal { stack_idx: 0 },
            OpCode::Pop,
            OpCode::Loop { offset: 8 },
            OpCode::GetLocal { stack_idx: 0 },
            OpCode::Print,
            OpCode::Loop { offset: 7 },
            OpCode::Pop,
            OpCode::Pop,
            OpCode::Return,
        ]
    );
}

#[test]
fn and_and_or_jump_over_their_right_operand() {
    let (chunk, _, _) = compile("nil and true; nil or true;", &[]);
    assert_eq!(
        ops_of(&chunk.unwrap()),
        vec![
            OpCode::Nil,
            OpCode::JumpIfFalse { offset: 2 },
            OpCode::Pop,
            OpCode::True,
            OpCode::Pop,
            OpCode::Nil,
            OpCode::JumpIfFalse { offset: 1 },
            OpCode::Jump { offset: 2 },
            OpCode::Pop,
            OpCode::True,
            OpCode::Pop,
            OpCode::Return,
        ]
    );
}

#[test]
fn a_number_without_its_value_is_an_error() {
    let (chunk, _, diagnostics) = compile("print 1 + 2;", &[1.0]);
    assert!(chunk.is_none());
    assert_eq!(diagnostics, "[line 1] Error at '2': Number literal without a value.\n");
}

#[test]
fn an_error_leaves_no_chunk_but_keeps_the_heap() {
    let mut heap = Heap::new();
    let kept = heap.allocate_string(String::from("kept"));
    let output = Compiler::compile("print \"new\" +;", &Vec::new(), heap);
    assert!(output.chunk.is_none());
    assert_eq!(output.diagnostics, "[line 1] Error at ';': Expect expression.\n");
    assert_eq!(output.strings.string(kept), "kept");
    assert_eq!(output.strings.len(), 2);
}

#[test]
fn the_ladder_of_precedence() {
    let ladder = [
        Precedence::Lowest,
        Precedence::Assignment,
        Precedence::Or,
        Precedence::And,
        Precedence::Equality,
        Precedence::Comparison,
        Precedence::Term,
        Precedence::Factor,
        Precedence::Unary,
        Precedence::Call,
        Precedence::Primary,
        Precedence::PlaceHolderHighest,
    ];
    for (i, level) in ladder.iter().enumerate() {
        assert_eq!(level.rank() as usize, i);
        if i + 1 < ladder.len() {
            assert_eq!(level.get_next(), ladder[i + 1]);
        }
    }
}

#[test]
fn the_rules_of_the_tokens() {
    let rule = |prefix, infix, precedence| ParseRule { prefix, infix, precedence };
    assert_eq!(
        Compiler::get_rule(TokenType::LeftParen),
        rule(Some(ParseFn::Grouping), None, Precedence::Lowest)
    );
    assert_eq!(
        Compiler::get_rule(TokenType::Minus),
        rule(Some(ParseFn::Unary), Some(ParseFn::Binary), Precedence::Term)
    );
    assert_eq!(Compiler::get_rule(TokenType::Plus), rule(None, Some(ParseFn::Binary), Precedence::Term));
    assert_eq!(Compiler::get_rule(TokenType::Star), rule(None, Some(ParseFn::Binary), Precedence::Factor));
    assert_eq!(Compiler::get_rule(TokenType::Slash), rule(None, Some(ParseFn::Binary), Precedence::Factor));
    assert_eq!(Compiler::get_rule(TokenType::Bang), rule(Some(ParseFn::Unary), None, Precedence::Lowest));
    for ty in [TokenType::BangEqual, TokenType::EqualEqual] {
        assert_eq!(Compiler::get_rule(ty), rule(None, Some(ParseFn::Binary), Precedence::Equality));
    }
    for ty in [TokenType::Less, TokenType::LessEqual, TokenType::Greater, TokenType::GreaterEqual] {
        assert_eq!(Compiler::get_rule(ty), rule(None, Some(ParseFn::Binary), Precedence::Comparison));
    }
    assert_eq!(Compiler::get_rule(TokenType::Number), rule(Some(ParseFn::Number), None, Precedence::Lowest));
    assert_eq!(Compiler::get_rule(TokenType::String), rule(Some(ParseFn::String), None, Precedence::Lowest));
    assert_eq!(
        Compiler::get_rule(TokenType::Identifier),
        rule(Some(ParseFn::Variable), None, Precedence::Lowest)
    );
    for ty in [TokenType::True, TokenType::False, TokenType::Nil] {
        assert_eq!(Compiler::get_rule(ty), rule(Some(ParseFn::Literal), None, Precedence::Lowest));
    }
    assert_eq!(Compiler::get_rule(TokenType::And), rule(None, Some(ParseFn::And), Precedence::And));
    assert_eq!(Compiler::get_rule(TokenType::Or), rule(None, Some(ParseFn::Or), Precedence::Or));
    for ty in [
        TokenType::RightParen,
        TokenType::LeftBrace,
        TokenType::RightBrace,
        TokenType::Comma,
        TokenType::Dot,
        TokenType::Semicolon,
        TokenType::Equal,
        TokenType::Class,
        TokenType::Else,
        TokenType::For,
        TokenType::Fun,
        TokenType::If,
        TokenType::Print,
        TokenType::Return,
        TokenType::Super,
        TokenType::This,
        TokenType::Var,
        TokenType::While,
        TokenType::Error,
        TokenType::Eof,
    ] {
        assert_eq!(Compiler::get_rule(ty), rule(None, None, Precedence::Lowest));
    }
}
