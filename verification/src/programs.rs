//! Small programs, from the source to what is printed.
//!
//! `print a and b;` for two literals prints `a` where `a` is falsey and `b` where it is
//! not; `print a or b;` prints `a` where `a` is truthy and `b` where it is not; and a
//! literal prints the same whether it is printed at once or first bound to a global
//! variable that is then printed.

use vstd::prelude::*;
use crate::chunk::OpCode;
use crate::compiler::{spec_rule, ParseFn, Precedence};
use crate::heap::{lemma_interned_keeps, spec_handle_of, spec_interned, texts_contain, MAX_STRINGS};
use crate::scanner::{
    lemma_scan_progress, lemma_scan_state_bounds, number_index, scan_state, spec_scan_token,
    spec_token, TokenType,
};
use crate::semantics::{
    closer, spec_advance, spec_and, spec_compile, spec_declaration, spec_emit,
    spec_expression, spec_fresh, spec_infix_loop, spec_literal, spec_number, spec_or,
    spec_named_variable, spec_parse_precedence, spec_parse_variable, spec_patch_jump,
    spec_print_statement, spec_program, spec_run_rule, spec_skip_errors, spec_statement,
    spec_string, spec_var_declaration, spec_variable, spec_variable_ops, tokens_left, Parse,
};
use crate::value::{spec_is_falsey, ObjRef, Value};
use crate::vm::{spec_printed, spec_run, spec_step, ActionView, MachineState, PrintedView};

verus! {

/// A token that is a whole expression by itself and names no variable.
pub open spec fn is_literal(ty: TokenType) -> bool {
    ty == TokenType::Number || ty == TokenType::String || ty == TokenType::True || ty
        == TokenType::False || ty == TokenType::Nil
}

/// The text of a string token between its quotes.
pub open spec fn quoted(text: Seq<char>) -> Seq<char> {
    text.subrange(1, text.len() - 1)
}

/// The strings of the heap once the literal at token `index` has been compiled.
pub open spec fn literal_heap(src: Seq<char>, heap: Seq<Seq<char>>, index: nat) -> Seq<Seq<char>> {
    if spec_token(src, index).ty == TokenType::String {
        spec_interned(heap, quoted(spec_token(src, index).text))
    } else {
        heap
    }
}

/// The value of the literal at token `index`, compiled with the strings `heap`.
pub open spec fn literal_value(
    src: Seq<char>,
    numbers: Seq<u64>,
    heap: Seq<Seq<char>>,
    index: nat,
) -> Value {
    match spec_token(src, index).ty {
        TokenType::Number => Value::Number(numbers[number_index(src, index) as int]),
        TokenType::String => Value::Object(
            spec_handle_of(literal_heap(src, heap, index), quoted(spec_token(src, index).text)),
        ),
        TokenType::True => Value::Bool(true),
        TokenType::False => Value::Bool(false),
        _ => Value::Nil,
    }
}

/// The literal at token `index` can be compiled: a number has its value, and a string
/// finds room on the heap.
pub open spec fn literal_fits(
    src: Seq<char>,
    numbers: Seq<u64>,
    heap: Seq<Seq<char>>,
    index: nat,
) -> bool {
    &&& is_literal(spec_token(src, index).ty)
    &&& spec_token(src, index).ty == TokenType::Number ==> number_index(src, index)
        < numbers.len()
    &&& spec_token(src, index).ty == TokenType::String ==> heap.contains(
        quoted(spec_token(src, index).text),
    ) || heap.len() < MAX_STRINGS
}

/// What `print` writes for the literal at token `index`.
pub open spec fn literal_printed(src: Seq<char>, numbers: Seq<u64>, index: nat) -> PrintedView {
    match spec_token(src, index).ty {
        TokenType::Number => PrintedView::Number(numbers[number_index(src, index) as int]),
        TokenType::String => PrintedView::Text(quoted(spec_token(src, index).text)),
        TokenType::True => PrintedView::Text("true"@),
        TokenType::False => PrintedView::Text("false"@),
        _ => PrintedView::Text("nil"@),
    }
}

/// The state after the token in hand has been taken.
pub open spec fn taken(m: Parse) -> Parse {
    Parse { previous: m.current, current: m.scanned, scanned: m.scanned + 1, ..m }
}

/// Where the next token is no error token, taking a token moves each token in hand one
/// place on, and brings the end of the source closer unless it was reached.
pub proof fn lemma_advance(m: Parse)
    requires
        spec_token(m.src, m.scanned).ty != TokenType::Error,
    ensures
        spec_advance(m) == taken(m),
        taken(m).remaining() <= m.remaining(),
        m.cur().ty != TokenType::Eof ==> closer(taken(m), m),
{
    reveal(tokens_left);
    lemma_scan_state_bounds(m.src, m.scanned);
    lemma_scan_progress(m.src, scan_state(m.src, m.scanned).0, scan_state(m.src, m.scanned).1);
    let start = Parse { previous: m.current, ..m };
    assert(spec_skip_errors(start) == taken(m));
}

/// Behind the end of the source every token is `Eof`.
pub proof fn lemma_eof_stays(src: Seq<char>, index: nat)
    requires
        spec_token(src, index).ty == TokenType::Eof,
    ensures
        spec_token(src, index + 1).ty == TokenType::Eof,
{
    lemma_scan_state_bounds(src, index);
    lemma_scan_progress(src, scan_state(src, index).0, scan_state(src, index).1);
    let at_end = scan_state(src, index + 1);
    assert(at_end.0 == src.len());
    reveal(spec_scan_token);
}

/// The instruction that pushes the literal before the token in hand, and the state once it
/// is written.
pub open spec fn literal_written(m: Parse) -> Parse {
    match m.prev().ty {
        TokenType::Number => spec_number(m),
        TokenType::String => spec_string(m),
        _ => spec_literal(m),
    }
}

/// The handler of a literal writes one instruction, which pushes the value of the
/// literal, and reports nothing.
pub proof fn lemma_literal(m: Parse, can_assign: bool)
    requires
        literal_fits(m.src, m.numbers, m.heap, m.previous),
        m.constants.len() < 2,
        m.heap.len() <= MAX_STRINGS,
    ensures
        spec_rule(m.prev().ty).prefix matches Some(handler) && spec_run_rule(
            m,
            handler,
            can_assign,
        ) == literal_written(m),
        ({
            let w = literal_written(m);
            let value = literal_value(m.src, m.numbers, m.heap, m.previous);
            &&& w == (Parse { code: w.code, constants: w.constants, heap: w.heap, ..m })
            &&& w.heap == literal_heap(m.src, m.heap, m.previous)
            &&& w.code.len() == m.code.len() + 1
            &&& w.code.drop_last() == m.code
            &&& w.code.last().1 == m.prev().line
            &&& m.constants.is_prefix_of(w.constants)
            &&& w.constants.len() <= m.constants.len() + 1
            &&& pushes(w.code.last().0, w.constants, value)
            &&& printable(w.heap, value)
            &&& spec_printed(w.heap, value) == Some(literal_printed(m.src, m.numbers, m.previous))
        }),
{
    let w = literal_written(m);
    assert(w.code.drop_last() =~= m.code);
    if m.prev().ty == TokenType::String {
        let text = quoted(m.prev().text);
        let heap = spec_interned(m.heap, text);
        if !m.heap.contains(text) {
            assert(heap[m.heap.len() as int] == text);
        }
        assert(heap.contains(text));
        let i = choose|i: int| 0 <= i < heap.len() && heap[i] == text;
        assert(0 <= i < heap.len() && heap[i] == text);
    }
}

/// The instruction `op` pushes `value`, with the constants `constants`.
pub open spec fn pushes(op: OpCode, constants: Seq<Value>, value: Value) -> bool {
    match op {
        OpCode::Constant { location } => location < constants.len() && constants[location as int]
            == value,
        OpCode::True => value == Value::Bool(true),
        OpCode::False => value == Value::Bool(false),
        OpCode::Nil => value == Value::Nil,
        _ => false,
    }
}

/// The source is `print a op b;` for two literals `a` and `b` and the operator `operator`,
/// and nothing more.
pub open spec fn prints_pair(src: Seq<char>, operator: TokenType) -> bool {
    &&& spec_token(src, 0).ty == TokenType::Print
    &&& is_literal(spec_token(src, 1).ty)
    &&& spec_token(src, 2).ty == operator
    &&& is_literal(spec_token(src, 3).ty)
    &&& spec_token(src, 4).ty == TokenType::Semicolon
    &&& spec_token(src, 5).ty == TokenType::Eof
}

/// Both literals of `print a op b;` can be compiled with the strings `heap`.
pub open spec fn pair_fits(src: Seq<char>, numbers: Seq<u64>, heap: Seq<Seq<char>>) -> bool {
    &&& heap.len() <= MAX_STRINGS
    &&& literal_fits(src, numbers, heap, 1)
    &&& literal_fits(src, numbers, literal_heap(src, heap, 1), 3)
}

/// The value of the left literal of `print a op b;`.
pub open spec fn left_value(src: Seq<char>, numbers: Seq<u64>, heap: Seq<Seq<char>>) -> Value {
    literal_value(src, numbers, heap, 1)
}

/// The value of the right literal of `print a op b;`.
pub open spec fn right_value(src: Seq<char>, numbers: Seq<u64>, heap: Seq<Seq<char>>) -> Value {
    literal_value(src, numbers, literal_heap(src, heap, 1), 3)
}

/// The strings of the heap once `print a op b;` has been compiled.
pub open spec fn pair_heap(src: Seq<char>, heap: Seq<Seq<char>>) -> Seq<Seq<char>> {
    literal_heap(src, literal_heap(src, heap, 1), 3)
}

/// With the strings that the heap holds once `print a op b;` has been compiled, each of
/// the two values prints as its literal is written.
pub open spec fn pair_printed(src: Seq<char>, numbers: Seq<u64>, heap: Seq<Seq<char>>) -> bool {
    &&& spec_printed(pair_heap(src, heap), left_value(src, numbers, heap)) == Some(
        literal_printed(src, numbers, 1),
    )
    &&& spec_printed(pair_heap(src, heap), right_value(src, numbers, heap)) == Some(
        literal_printed(src, numbers, 3),
    )
}

/// A value that the machine can print with the strings `heap`.
pub open spec fn printable(heap: Seq<Seq<char>>, value: Value) -> bool {
    value matches Value::Object(handle) ==> texts_contain(heap, handle)
}

/// The chunk of `print a and b;`: the left operand, a jump over the rest of the
/// expression that is taken on a falsey value, and on the other path the left operand
/// dropped and the right one pushed.
pub open spec fn and_chunk(m: Parse, a: Value, b: Value) -> bool {
    &&& !m.had_error
    &&& m.code.len() == 6
    &&& pushes(m.code[0].0, m.constants, a)
    &&& m.code[1].0 == OpCode::JumpIfFalse { offset: 2 }
    &&& m.code[2].0 == OpCode::Pop
    &&& pushes(m.code[3].0, m.constants, b)
    &&& m.code[4].0 == OpCode::Print
    &&& m.code[5].0 == OpCode::Return
    &&& printable(m.heap, a)
    &&& printable(m.heap, b)
}

/// The tokens of `print a op b;` up to the operator: the left operand is written and the
/// operator is the previous token.
proof fn lemma_left_operand(src: Seq<char>, numbers: Seq<u64>, heap: Seq<Seq<char>>, operator: TokenType)
    requires
        prints_pair(src, operator),
        pair_fits(src, numbers, heap),
        operator == TokenType::And || operator == TokenType::Or,
    ensures
        ({
            let start = taken(spec_fresh(src, numbers, heap));
            let operand = literal_written(taken(taken(start)));
            let a = left_value(src, numbers, heap);
            &&& spec_advance(spec_fresh(src, numbers, heap)) == start
            &&& spec_advance(start) == taken(start)
            &&& start.cur().ty == TokenType::Print
            &&& closer(taken(start), start)
            &&& spec_advance(taken(start)) == taken(taken(start))
            &&& closer(taken(taken(start)), taken(start))
            &&& spec_run_rule(taken(taken(start)), spec_rule(taken(taken(start)).prev().ty).prefix->0, true) == operand
            &&& spec_rule(taken(taken(start)).prev().ty).prefix is Some
            &&& operand.remaining() == taken(taken(start)).remaining()
            &&& spec_advance(operand) == taken(operand)
            &&& closer(taken(operand), operand)
            &&& taken(operand) == (Parse {
                code: operand.code,
                constants: operand.constants,
                heap: literal_heap(src, heap, 1),
                scanned: 4,
                current: 3,
                previous: 2,
                ..spec_fresh(src, numbers, heap)
            })
            &&& operand.code.len() == 1
            &&& operand.constants.len() <= 1
            &&& pushes(operand.code[0].0, operand.constants, a)
            &&& printable(literal_heap(src, heap, 1), a)
            &&& spec_printed(literal_heap(src, heap, 1), a) == Some(
                literal_printed(src, numbers, 1),
            )
        }),
{
    let fresh = spec_fresh(src, numbers, heap);
    lemma_advance(fresh);
    let start = taken(fresh);
    lemma_advance(start);
    let first = taken(start);
    lemma_advance(first);
    let second = taken(first);
    lemma_literal(second, true);
    let operand = literal_written(second);
    lemma_advance(operand);
}

/// What is asked of the state in which the handler of `and` or `or` starts: the operator
/// has been taken after a left operand of one instruction, the right operand is a literal
/// that can be compiled, and `;` follows it.
pub open spec fn at_operator(m: Parse) -> bool {
    &&& m.scanned == m.current + 1
    &&& m.current == m.previous + 1
    &&& literal_fits(m.src, m.numbers, m.heap, m.current)
    &&& spec_token(m.src, m.scanned).ty == TokenType::Semicolon
    &&& m.code.len() == 1
    &&& m.constants.len() <= 1
    &&& m.heap.len() <= MAX_STRINGS
}

/// What the handler of `and` leaves: the right operand is taken, and four instructions
/// are written, the jump with its target.
pub open spec fn and_written(m: Parse, r: Parse) -> bool {
    &&& r == (Parse { code: r.code, constants: r.constants, heap: r.heap, ..taken(m) })
    &&& r.heap == literal_heap(m.src, m.heap, m.current)
    &&& m.constants.is_prefix_of(r.constants)
    &&& r.code.len() == 4
    &&& r.code[0] == m.code[0]
    &&& r.code[1].0 == OpCode::JumpIfFalse { offset: 2 }
    &&& r.code[2].0 == OpCode::Pop
    &&& pushes(r.code[3].0, r.constants, literal_value(m.src, m.numbers, m.heap, m.current))
    &&& printable(r.heap, literal_value(m.src, m.numbers, m.heap, m.current))
    &&& spec_printed(r.heap, literal_value(m.src, m.numbers, m.heap, m.current)) == Some(
        literal_printed(m.src, m.numbers, m.current),
    )
}

/// The handler of `and` before a literal.
proof fn lemma_and_written(m: Parse)
    requires
        at_operator(m),
    ensures
        and_written(m, spec_and(m)),
        spec_run_rule(m, ParseFn::And, true) == spec_and(m),
{
    let jump = spec_emit(m, OpCode::JumpIfFalse { offset: 0 });
    let dropped = spec_emit(jump, OpCode::Pop);
    assert(dropped.remaining() == m.remaining());
    lemma_advance(dropped);
    let first = taken(dropped);
    lemma_literal(first, false);
    let right = literal_written(first);
    assert(right.remaining() == first.remaining());
    assert(spec_infix_loop(right, Precedence::And, false) == right);
    assert(spec_parse_precedence(dropped, Precedence::And) == right);
    assert(right.code.drop_last() == first.code);
    assert(right.code[0] == first.code[0]);
    assert(right.code[1] == first.code[1]);
    assert(right.code[2] == first.code[2]);
}

/// What the handler of `or` leaves: the right operand is taken, and five instructions are
/// written, both jumps with their targets.
pub open spec fn or_written(m: Parse, r: Parse) -> bool {
    &&& r == (Parse { code: r.code, constants: r.constants, heap: r.heap, ..taken(m) })
    &&& r.heap == literal_heap(m.src, m.heap, m.current)
    &&& m.constants.is_prefix_of(r.constants)
    &&& r.code.len() == 5
    &&& r.code[0] == m.code[0]
    &&& r.code[1].0 == OpCode::JumpIfFalse { offset: 1 }
    &&& r.code[2].0 == OpCode::Jump { offset: 2 }
    &&& r.code[3].0 == OpCode::Pop
    &&& pushes(r.code[4].0, r.constants, literal_value(m.src, m.numbers, m.heap, m.current))
    &&& printable(r.heap, literal_value(m.src, m.numbers, m.heap, m.current))
    &&& spec_printed(r.heap, literal_value(m.src, m.numbers, m.heap, m.current)) == Some(
        literal_printed(m.src, m.numbers, m.current),
    )
}

/// The handler of `or` before a literal.
proof fn lemma_or_written(m: Parse)
    requires
        at_operator(m),
    ensures
        or_written(m, spec_or(m)),
        spec_run_rule(m, ParseFn::Or, true) == spec_or(m),
{
    let else_jump = spec_emit(m, OpCode::JumpIfFalse { offset: 0 });
    let end_jump = spec_emit(else_jump, OpCode::Jump { offset: 0 });
    let patched_else = spec_patch_jump(end_jump, 2);
    assert(patched_else.code[1].0 == OpCode::JumpIfFalse { offset: 1 });
    let dropped = spec_emit(patched_else, OpCode::Pop);
    assert(dropped.remaining() == m.remaining());
    lemma_advance(dropped);
    let first = taken(dropped);
    lemma_literal(first, false);
    let right = literal_written(first);
    assert(right.remaining() == first.remaining());
    assert(spec_infix_loop(right, Precedence::Or, false) == right);
    assert(spec_parse_precedence(dropped, Precedence::Or) == right);
    assert(right.code.drop_last() == first.code);
    assert(right.code[0] == first.code[0]);
    assert(right.code[1] == first.code[1]);
    assert(right.code[2] == first.code[2]);
    assert(right.code[3] == first.code[3]);
}

/// The chunk of `print a or b;`: the left operand, a jump over the rest of the expression
/// that is taken on a truthy value, and on the other path the left operand dropped and the
/// right one pushed.
pub open spec fn or_chunk(m: Parse, a: Value, b: Value) -> bool {
    &&& !m.had_error
    &&& m.code.len() == 7
    &&& pushes(m.code[0].0, m.constants, a)
    &&& m.code[1].0 == OpCode::JumpIfFalse { offset: 1 }
    &&& m.code[2].0 == OpCode::Jump { offset: 2 }
    &&& m.code[3].0 == OpCode::Pop
    &&& pushes(m.code[4].0, m.constants, b)
    &&& m.code[5].0 == OpCode::Print
    &&& m.code[6].0 == OpCode::Return
    &&& printable(m.heap, a)
    &&& printable(m.heap, b)
}

/// The scanner never goes back: after more tokens it stands no earlier in the source.
proof fn lemma_positions_rise(src: Seq<char>, fewer: nat, more: nat)
    requires
        fewer <= more,
    ensures
        scan_state(src, fewer).0 <= scan_state(src, more).0,
    decreases more,
{
    if fewer < more {
        let before = (more - 1) as nat;
        lemma_positions_rise(src, fewer, before);
        lemma_scan_state_bounds(src, before);
        lemma_scan_progress(src, scan_state(src, before).0, scan_state(src, before).1);
    }
}

/// A state with a later token in hand that is not the end of the source, or with the end
/// of the source in hand, is closer to the end than an earlier state short of the end.
proof fn lemma_closer(after: Parse, before: Parse)
    requires
        after.src == before.src,
        before.scanned == before.current + 1,
        after.scanned == after.current + 1,
        before.current < after.current,
        before.cur().ty != TokenType::Eof,
    ensures
        closer(after, before),
{
    reveal(tokens_left);
    let src = before.src;
    lemma_positions_rise(src, before.scanned, after.current);
    lemma_scan_state_bounds(src, after.current);
    lemma_scan_state_bounds(src, after.scanned);
    lemma_scan_progress(src, scan_state(src, after.current).0, scan_state(src, after.current).1);
}

/// An expression that is one literal before `;`: the literal is taken and the instruction
/// that pushes it is written.
proof fn lemma_literal_expression(m: Parse)
    requires
        m.scanned == m.current + 1,
        literal_fits(m.src, m.numbers, m.heap, m.current),
        spec_token(m.src, m.scanned).ty == TokenType::Semicolon,
        m.constants.len() < 2,
        m.heap.len() <= MAX_STRINGS,
    ensures
        spec_expression(m) == literal_written(taken(m)),
{
    lemma_advance(m);
    let first = taken(m);
    lemma_literal(first, true);
    let operand = literal_written(first);
    assert(operand.remaining() == first.remaining());
    assert(spec_infix_loop(operand, Precedence::Assignment, true) == operand);
    assert(spec_parse_precedence(m, Precedence::Assignment) == operand);
}

/// A `print` statement whose expression leaves the state `r` with `;` in hand: `;` is
/// taken and `Print` is written.
proof fn lemma_print_declared(p: Parse, r: Parse)
    requires
        p.cur().ty == TokenType::Print,
        spec_token(p.src, p.scanned).ty != TokenType::Error,
        spec_expression(taken(p)) == r,
        r.cur().ty == TokenType::Semicolon,
        spec_token(r.src, r.scanned).ty != TokenType::Error,
        !r.panic_mode,
    ensures
        spec_declaration(p) == spec_emit(taken(r), OpCode::Print),
{
    lemma_advance(p);
    lemma_advance(r);
    let printed = spec_emit(taken(r), OpCode::Print);
    assert(spec_print_statement(taken(p)) == printed);
    assert(spec_statement(p) == printed);
}

/// The end of a compilation whose declarations leave the state `last` with the end of the
/// source in hand: `Return` is written, and nothing else changes in the chunk.
proof fn lemma_compile_ends(src: Seq<char>, numbers: Seq<u64>, heap: Seq<Seq<char>>, last: Parse)
    requires
        spec_token(src, 0).ty != TokenType::Error,
        spec_program(taken(spec_fresh(src, numbers, heap))) == spec_program(last),
        last.src == src,
        last.scanned == last.current + 1,
        last.cur().ty == TokenType::Eof,
    ensures
        ({
            let m = spec_compile(src, numbers, heap);
            &&& m.had_error == last.had_error
            &&& m.heap == last.heap
            &&& m.constants == last.constants
            &&& m.code.len() == last.code.len() + 1
            &&& m.code.drop_last() == last.code
            &&& m.code.last().0 == OpCode::Return
        }),
{
    let fresh = spec_fresh(src, numbers, heap);
    lemma_advance(fresh);
    let start = taken(fresh);
    assert((Parse { previous: start.current, ..start }) == start);
    lemma_eof_stays(src, last.current);
    lemma_eof_stays(src, last.current + 1);
    lemma_advance(last);
    let ended = taken(last);
    assert(spec_program(last) == ended);
    lemma_advance(ended);
    let m = spec_compile(src, numbers, heap);
    assert(m == spec_emit(taken(ended), OpCode::Return));
    assert(m.code.drop_last() =~= last.code);
}

/// An instruction that pushes a value still pushes it when constants are added.
proof fn lemma_pushes_stays(op: OpCode, before: Seq<Value>, after: Seq<Value>, value: Value)
    requires
        pushes(op, before, value),
        before.is_prefix_of(after),
    ensures
        pushes(op, after, value),
{
    if let OpCode::Constant { location } = op {
        assert(after[location as int] == before[location as int]);
    }
}

/// A value that can be printed can still be printed after the next literal is compiled.
proof fn lemma_printable_stays(src: Seq<char>, heap: Seq<Seq<char>>, index: nat, value: Value)
    requires
        printable(heap, value),
    ensures
        printable(literal_heap(src, heap, index), value),
        spec_printed(literal_heap(src, heap, index), value) == spec_printed(heap, value),
{
    if let Value::Object(handle) = value {
        lemma_interned_keeps(heap, quoted(spec_token(src, index).text), handle);
        assert(literal_heap(src, heap, index)[handle.index as int] == heap[handle.index as int]);
    }
}

/// The chunk that is compiled for `print a and b;`.
pub proof fn lemma_and_compiled(src: Seq<char>, numbers: Seq<u64>, heap: Seq<Seq<char>>)
    requires
        prints_pair(src, TokenType::And),
        pair_fits(src, numbers, heap),
    ensures
        and_chunk(
            spec_compile(src, numbers, heap),
            left_value(src, numbers, heap),
            right_value(src, numbers, heap),
        ),
        spec_compile(src, numbers, heap).heap == pair_heap(src, heap),
        pair_printed(src, numbers, heap),
{
    lemma_left_operand(src, numbers, heap, TokenType::And);
    let first = taken(taken(spec_fresh(src, numbers, heap)));
    let operand = literal_written(taken(first));
    let m = taken(operand);
    assert(at_operator(m));
    lemma_advance(m);
    lemma_and_written(m);
    let r = spec_and(m);
    assert(spec_infix_loop(r, Precedence::Assignment, true) == r);
    assert(spec_infix_loop(operand, Precedence::Assignment, true) == r);
    assert(spec_parse_precedence(first, Precedence::Assignment) == r);
    assert(spec_expression(first) == r);
    let start = taken(spec_fresh(src, numbers, heap));
    lemma_print_declared(start, r);
    let printed = spec_emit(taken(r), OpCode::Print);
    lemma_closer(printed, start);
    assert(spec_program(start) == spec_program(printed));
    lemma_compile_ends(src, numbers, heap, printed);
    let m = spec_compile(src, numbers, heap);
    assert forall|i: int| 0 <= i < printed.code.len() implies m.code[i] == printed.code[i] by {
        assert(m.code[i] == m.code.drop_last()[i]);
    }
    assert forall|i: int| 0 <= i < r.code.len() implies printed.code[i] == r.code[i] by {
        assert(printed.code[i] == printed.code.drop_last()[i]);
        assert(printed.code.drop_last() =~= r.code);
    }
    lemma_pushes_stays(
        operand.code[0].0,
        operand.constants,
        r.constants,
        left_value(src, numbers, heap),
    );
    lemma_printable_stays(src, literal_heap(src, heap, 1), 3, left_value(src, numbers, heap));
}

/// The chunk that is compiled for `print a or b;`.
pub proof fn lemma_or_compiled(src: Seq<char>, numbers: Seq<u64>, heap: Seq<Seq<char>>)
    requires
        prints_pair(src, TokenType::Or),
        pair_fits(src, numbers, heap),
    ensures
        or_chunk(
            spec_compile(src, numbers, heap),
            left_value(src, numbers, heap),
            right_value(src, numbers, heap),
        ),
        spec_compile(src, numbers, heap).heap == pair_heap(src, heap),
        pair_printed(src, numbers, heap),
{
    lemma_left_operand(src, numbers, heap, TokenType::Or);
    let first = taken(taken(spec_fresh(src, numbers, heap)));
    let operand = literal_written(taken(first));
    let m = taken(operand);
    assert(at_operator(m));
    lemma_advance(m);
    lemma_or_written(m);
    let r = spec_or(m);
    assert(spec_infix_loop(r, Precedence::Assignment, true) == r);
    assert(spec_infix_loop(operand, Precedence::Assignment, true) == r);
    assert(spec_parse_precedence(first, Precedence::Assignment) == r);
    assert(spec_expression(first) == r);
    let start = taken(spec_fresh(src, numbers, heap));
    lemma_print_declared(start, r);
    let printed = spec_emit(taken(r), OpCode::Print);
    lemma_closer(printed, start);
    assert(spec_program(start) == spec_program(printed));
    lemma_compile_ends(src, numbers, heap, printed);
    let m = spec_compile(src, numbers, heap);
    assert forall|i: int| 0 <= i < printed.code.len() implies m.code[i] == printed.code[i] by {
        assert(m.code[i] == m.code.drop_last()[i]);
    }
    assert forall|i: int| 0 <= i < r.code.len() implies printed.code[i] == r.code[i] by {
        assert(printed.code[i] == printed.code.drop_last()[i]);
        assert(printed.code.drop_last() =~= r.code);
    }
    lemma_pushes_stays(
        operand.code[0].0,
        operand.constants,
        r.constants,
        left_value(src, numbers, heap),
    );
    lemma_printable_stays(src, literal_heap(src, heap, 1), 3, left_value(src, numbers, heap));
}

/// One step at an instruction that pushes a value.
proof fn lemma_step_push(
    code: Seq<(OpCode, usize)>,
    constants: Seq<Value>,
    s: MachineState,
    value: Value,
)
    requires
        0 <= s.ip < code.len(),
        pushes(code[s.ip].0, constants, value),
        s.stack.len() < 2,
    ensures
        spec_step(code, constants, s) == (
            MachineState { ip: s.ip + 1, stack: s.stack.push(value), ..s },
            ActionView::Continue,
        ),
{
}

/// One step at a jump that is taken on a falsey value.
proof fn lemma_step_branch(
    code: Seq<(OpCode, usize)>,
    constants: Seq<Value>,
    s: MachineState,
    offset: u16,
)
    requires
        0 <= s.ip < code.len(),
        code[s.ip].0 == (OpCode::JumpIfFalse { offset }),
        s.ip + 1 + offset <= code.len(),
        s.stack.len() >= 1,
    ensures
        spec_step(code, constants, s) == (
            MachineState {
                ip: if spec_is_falsey(s.stack.last()) {
                    s.ip + 1 + offset
                } else {
                    s.ip + 1
                },
                ..s
            },
            ActionView::Continue,
        ),
{
}

/// One step at a jump.
proof fn lemma_step_jump(
    code: Seq<(OpCode, usize)>,
    constants: Seq<Value>,
    s: MachineState,
    offset: u16,
)
    requires
        0 <= s.ip < code.len(),
        code[s.ip].0 == (OpCode::Jump { offset }),
        s.ip + 1 + offset <= code.len(),
    ensures
        spec_step(code, constants, s) == (
            MachineState { ip: s.ip + 1 + offset, ..s },
            ActionView::Continue,
        ),
{
}

/// One step at `Pop`.
proof fn lemma_step_pop(code: Seq<(OpCode, usize)>, constants: Seq<Value>, s: MachineState)
    requires
        0 <= s.ip < code.len(),
        code[s.ip].0 == OpCode::Pop,
        s.stack.len() >= 1,
    ensures
        spec_step(code, constants, s) == (
            MachineState { ip: s.ip + 1, stack: s.stack.drop_last(), ..s },
            ActionView::Continue,
        ),
{
}

/// One step at `Print`.
proof fn lemma_step_print(code: Seq<(OpCode, usize)>, constants: Seq<Value>, s: MachineState)
    requires
        0 <= s.ip < code.len(),
        code[s.ip].0 == OpCode::Print,
        s.stack.len() >= 1,
        printable(s.heap, s.stack.last()),
    ensures
        spec_printed(s.heap, s.stack.last()) matches Some(text) && spec_step(code, constants, s)
            == (
            MachineState { ip: s.ip + 1, stack: s.stack.drop_last(), ..s },
            ActionView::Print(text),
        ),
{
}

/// What the machine does with the chunk of `print a and b;`.
pub open spec fn and_runs(
    m: Parse,
    a: Value,
    b: Value,
    globals: Map<ObjRef, Value>,
    budget: nat,
) -> bool {
    let shown = if spec_is_falsey(a) {
        a
    } else {
        b
    };
    let steps = if spec_is_falsey(a) {
        2nat
    } else {
        4nat
    };
    let start = MachineState { ip: 0, stack: Seq::<Value>::empty(), globals, heap: m.heap };
    &&& !m.had_error
    &&& m.code[4].0 == OpCode::Print
    &&& spec_run(m.code, m.constants, start, steps) == (
        MachineState { ip: 4, stack: seq![shown], ..start },
        ActionView::Continue,
    )
    &&& spec_printed(m.heap, shown) matches Some(text) && spec_run(
        m.code,
        m.constants,
        start,
        budget,
    ) == (MachineState { ip: 5, ..start }, ActionView::Print(text))
}

/// What the machine does with the chunk of `print a or b;`.
pub open spec fn or_runs(
    m: Parse,
    a: Value,
    b: Value,
    globals: Map<ObjRef, Value>,
    budget: nat,
) -> bool {
    let shown = if spec_is_falsey(a) {
        b
    } else {
        a
    };
    let steps = if spec_is_falsey(a) {
        4nat
    } else {
        3nat
    };
    let start = MachineState { ip: 0, stack: Seq::<Value>::empty(), globals, heap: m.heap };
    &&& !m.had_error
    &&& m.code[5].0 == OpCode::Print
    &&& spec_run(m.code, m.constants, start, steps) == (
        MachineState { ip: 5, stack: seq![shown], ..start },
        ActionView::Continue,
    )
    &&& spec_printed(m.heap, shown) matches Some(text) && spec_run(
        m.code,
        m.constants,
        start,
        budget,
    ) == (MachineState { ip: 6, ..start }, ActionView::Print(text))
}

/// The run of the chunk of `print a and b;`, step by step.
proof fn lemma_and_runs(m: Parse, a: Value, b: Value, globals: Map<ObjRef, Value>, budget: nat)
    requires
        and_chunk(m, a, b),
        budget >= 5,
    ensures
        and_runs(m, a, b, globals, budget),
{
    let start = MachineState { ip: 0, stack: Seq::<Value>::empty(), globals, heap: m.heap };
    reveal_with_fuel(spec_run, 6);
    let one = MachineState { ip: 1, stack: seq![a], ..start };
    assert(start.stack.push(a) =~= seq![a]);
    assert(seq![a].drop_last() =~= start.stack);
    assert(seq![b].drop_last() =~= start.stack);
    assert(start.stack.push(b) =~= seq![b]);
    lemma_step_push(m.code, m.constants, start, a);
    lemma_step_branch(m.code, m.constants, one, 2);
    if spec_is_falsey(a) {
        let four = MachineState { ip: 4, stack: seq![a], ..start };
        lemma_step_print(m.code, m.constants, four);
    } else {
        let two = MachineState { ip: 2, stack: seq![a], ..start };
        let three = MachineState { ip: 3, ..start };
        let four = MachineState { ip: 4, stack: seq![b], ..start };
        lemma_step_pop(m.code, m.constants, two);
        lemma_step_push(m.code, m.constants, three, b);
        lemma_step_print(m.code, m.constants, four);
    }
}

/// The run of the chunk of `print a or b;`, step by step.
proof fn lemma_or_runs(m: Parse, a: Value, b: Value, globals: Map<ObjRef, Value>, budget: nat)
    requires
        or_chunk(m, a, b),
        budget >= 5,
    ensures
        or_runs(m, a, b, globals, budget),
{
    let start = MachineState { ip: 0, stack: Seq::<Value>::empty(), globals, heap: m.heap };
    reveal_with_fuel(spec_run, 6);
    let one = MachineState { ip: 1, stack: seq![a], ..start };
    assert(start.stack.push(a) =~= seq![a]);
    assert(seq![a].drop_last() =~= start.stack);
    assert(seq![b].drop_last() =~= start.stack);
    assert(start.stack.push(b) =~= seq![b]);
    lemma_step_push(m.code, m.constants, start, a);
    lemma_step_branch(m.code, m.constants, one, 1);
    if spec_is_falsey(a) {
        let three = MachineState { ip: 3, stack: seq![a], ..start };
        let four = MachineState { ip: 4, ..start };
        let five = MachineState { ip: 5, stack: seq![b], ..start };
        lemma_step_pop(m.code, m.constants, three);
        lemma_step_push(m.code, m.constants, four, b);
        lemma_step_print(m.code, m.constants, five);
    } else {
        let two = MachineState { ip: 2, stack: seq![a], ..start };
        let five = MachineState { ip: 5, stack: seq![a], ..start };
        lemma_step_jump(m.code, m.constants, two, 2);
        lemma_step_print(m.code, m.constants, five);
    }
}

/// `print a and b;` for two literals prints `a` where `a` is falsey and `b` where it is
/// not. The right operand is run only where `a` is truthy: on a falsey `a` the second step
/// leads to `Print` at once. When `Print` runs, the value of the expression is the one
/// value on the stack, and the stack is empty afterwards.
pub proof fn law_and_prints(
    src: Seq<char>,
    numbers: Seq<u64>,
    heap: Seq<Seq<char>>,
    globals: Map<ObjRef, Value>,
    budget: nat,
)
    requires
        prints_pair(src, TokenType::And),
        pair_fits(src, numbers, heap),
        budget >= 5,
    ensures
        and_runs(
            spec_compile(src, numbers, heap),
            left_value(src, numbers, heap),
            right_value(src, numbers, heap),
            globals,
            budget,
        ),
        spec_compile(src, numbers, heap).heap == pair_heap(src, heap),
        pair_printed(src, numbers, heap),
{
    lemma_and_compiled(src, numbers, heap);
    lemma_and_runs(
        spec_compile(src, numbers, heap),
        left_value(src, numbers, heap),
        right_value(src, numbers, heap),
        globals,
        budget,
    );
}

/// `print a or b;` for two literals prints `a` where `a` is truthy and `b` where it is
/// not. The right operand is run only where `a` is falsey: on a truthy `a` the third step
/// leads to `Print` at once. When `Print` runs, the value of the expression is the one
/// value on the stack, and the stack is empty afterwards.
pub proof fn law_or_prints(
    src: Seq<char>,
    numbers: Seq<u64>,
    heap: Seq<Seq<char>>,
    globals: Map<ObjRef, Value>,
    budget: nat,
)
    requires
        prints_pair(src, TokenType::Or),
        pair_fits(src, numbers, heap),
        budget >= 5,
    ensures
        or_runs(
            spec_compile(src, numbers, heap),
            left_value(src, numbers, heap),
            right_value(src, numbers, heap),
            globals,
            budget,
        ),
        spec_compile(src, numbers, heap).heap == pair_heap(src, heap),
        pair_printed(src, numbers, heap),
{
    lemma_or_compiled(src, numbers, heap);
    lemma_or_runs(
        spec_compile(src, numbers, heap),
        left_value(src, numbers, heap),
        right_value(src, numbers, heap),
        globals,
        budget,
    );
}

/// The source is `print a;` for a literal `a`, and nothing more.
pub open spec fn prints_literal(src: Seq<char>) -> bool {
    &&& spec_token(src, 0).ty == TokenType::Print
    &&& is_literal(spec_token(src, 1).ty)
    &&& spec_token(src, 2).ty == TokenType::Semicolon
    &&& spec_token(src, 3).ty == TokenType::Eof
}

/// The chunk of `print a;`.
pub open spec fn print_chunk(m: Parse, a: Value) -> bool {
    &&& !m.had_error
    &&& m.code.len() == 3
    &&& pushes(m.code[0].0, m.constants, a)
    &&& m.code[1].0 == OpCode::Print
    &&& m.code[2].0 == OpCode::Return
    &&& printable(m.heap, a)
}

/// The chunk that is compiled for `print a;`.
proof fn lemma_print_compiled(src: Seq<char>, numbers: Seq<u64>, heap: Seq<Seq<char>>)
    requires
        prints_literal(src),
        literal_fits(src, numbers, heap, 1),
        heap.len() <= MAX_STRINGS,
    ensures
        print_chunk(spec_compile(src, numbers, heap), literal_value(src, numbers, heap, 1)),
        spec_compile(src, numbers, heap).heap == literal_heap(src, heap, 1),
        spec_printed(
            spec_compile(src, numbers, heap).heap,
            literal_value(src, numbers, heap, 1),
        ) == Some(literal_printed(src, numbers, 1)),
{
    let fresh = spec_fresh(src, numbers, heap);
    lemma_advance(fresh);
    let start = taken(fresh);
    lemma_advance(start);
    let first = taken(start);
    lemma_literal_expression(first);
    lemma_literal(taken(first), true);
    let operand = literal_written(taken(first));
    lemma_print_declared(start, operand);
    let printed = spec_emit(taken(operand), OpCode::Print);
    lemma_closer(printed, start);
    assert(spec_program(start) == spec_program(printed));
    lemma_compile_ends(src, numbers, heap, printed);
    let m = spec_compile(src, numbers, heap);
    assert(m.code[0] == m.code.drop_last()[0]);
    assert(m.code[1] == m.code.drop_last()[1]);
    assert(printed.code[0] == printed.code.drop_last()[0]);
}

/// No text occurs twice among the strings, as in every heap.
pub open spec fn distinct_texts(heap: Seq<Seq<char>>) -> bool {
    forall|i: int, j: int| 0 <= i < j < heap.len() ==> heap[i] != heap[j]
}

/// Interning keeps the texts distinct, and the handle of a text that is there.
proof fn lemma_interned_distinct(heap: Seq<Seq<char>>, text: Seq<char>, other: Seq<char>)
    requires
        distinct_texts(heap),
        heap.contains(other),
    ensures
        distinct_texts(spec_interned(heap, text)),
        spec_interned(heap, text).contains(other),
        spec_handle_of(spec_interned(heap, text), other) == spec_handle_of(heap, other),
{
    let grown = spec_interned(heap, text);
    let i = choose|i: int| 0 <= i < heap.len() && heap[i] == other;
    assert(0 <= i < heap.len() && heap[i] == other);
    assert(grown[i] == other);
    let j = choose|j: int| 0 <= j < grown.len() && grown[j] == other;
    assert(0 <= j < grown.len() && grown[j] == other);
    if !heap.contains(text) {
        assert forall|k: int| 0 <= k < heap.len() implies grown[k] != text by {
            assert(grown[k] == heap[k]);
        }
    }
    if i < j {
        assert(grown[i] != grown[j]);
    }
    if j < i {
        assert(grown[j] != grown[i]);
    }
}

/// The source is `var x = a; print x;` for a literal `a` and a name `x`, and nothing more.
pub open spec fn binds_then_prints(src: Seq<char>) -> bool {
    &&& spec_token(src, 0).ty == TokenType::Var
    &&& spec_token(src, 1).ty == TokenType::Identifier
    &&& spec_token(src, 2).ty == TokenType::Equal
    &&& is_literal(spec_token(src, 3).ty)
    &&& spec_token(src, 4).ty == TokenType::Semicolon
    &&& spec_token(src, 5).ty == TokenType::Print
    &&& spec_token(src, 6).ty == TokenType::Identifier
    &&& spec_token(src, 6).text == spec_token(src, 1).text
    &&& spec_token(src, 7).ty == TokenType::Semicolon
    &&& spec_token(src, 8).ty == TokenType::Eof
}

/// The strings of the heap once the name of the variable of `var x = a; print x;` has
/// been interned.
pub open spec fn named_heap(src: Seq<char>, heap: Seq<Seq<char>>) -> Seq<Seq<char>> {
    spec_interned(heap, spec_token(src, 1).text)
}

/// The name and the literal of `var x = a; print x;` can be compiled with the strings
/// `heap`.
pub open spec fn binding_fits(src: Seq<char>, numbers: Seq<u64>, heap: Seq<Seq<char>>) -> bool {
    &&& distinct_texts(heap)
    &&& heap.len() < MAX_STRINGS
    &&& literal_fits(src, numbers, named_heap(src, heap), 3)
}

/// The chunk of `var x = a; print x;`: the value is pushed, the global is defined under
/// its name, read again under the same name, and printed.
pub open spec fn binding_chunk(m: Parse, a: Value) -> bool {
    &&& !m.had_error
    &&& m.code.len() == 5
    &&& pushes(m.code[0].0, m.constants, a)
    &&& m.code[1].0 is DefineGlobal
    &&& m.code[2].0 is GetGlobal
    &&& m.code[1].0->DefineGlobal_location < m.constants.len()
    &&& m.code[2].0->GetGlobal_location < m.constants.len()
    &&& m.constants[m.code[1].0->DefineGlobal_location as int] is Object
    &&& m.constants[m.code[1].0->DefineGlobal_location as int]
        == m.constants[m.code[2].0->GetGlobal_location as int]
    &&& printable(m.heap, m.constants[m.code[1].0->DefineGlobal_location as int])
    &&& m.code[3].0 == OpCode::Print
    &&& m.code[4].0 == OpCode::Return
    &&& printable(m.heap, a)
}

/// The declaration `var x = a;` at the start of a program.
proof fn lemma_binding_declared(src: Seq<char>, numbers: Seq<u64>, heap: Seq<Seq<char>>)
    requires
        binds_then_prints(src),
        binding_fits(src, numbers, heap),
    ensures
        ({
            let start = taken(spec_fresh(src, numbers, heap));
            let d = spec_declaration(start);
            let name = spec_token(src, 1).text;
            let a = literal_value(src, numbers, named_heap(src, heap), 3);
            &&& d == (Parse {
                code: d.code,
                constants: d.constants,
                heap: literal_heap(src, named_heap(src, heap), 3),
                scanned: 6,
                current: 5,
                previous: 4,
                ..spec_fresh(src, numbers, heap)
            })
            &&& d.code.len() == 2
            &&& d.constants.len() <= 2
            &&& d.constants[0] == Value::Object(spec_handle_of(d.heap, name))
            &&& d.heap.contains(name)
            &&& distinct_texts(d.heap)
            &&& printable(d.heap, d.constants[0])
            &&& pushes(d.code[0].0, d.constants, a)
            &&& printable(d.heap, a)
            &&& spec_printed(d.heap, a) == Some(literal_printed(src, numbers, 3))
            &&& d.code[1].0 == OpCode::DefineGlobal { location: 0 }
        }),
{
    let fresh = spec_fresh(src, numbers, heap);
    let name = spec_token(src, 1).text;
    lemma_advance(fresh);
    let start = taken(fresh);
    lemma_advance(start);
    let keyword = taken(start);
    lemma_advance(keyword);
    let named = taken(keyword);
    let first_heap = named_heap(src, heap);
    if !heap.contains(name) {
        assert(first_heap[heap.len() as int] == name);
    }
    assert(first_heap.contains(name));
    let i = choose|i: int| 0 <= i < first_heap.len() && first_heap[i] == name;
    assert(0 <= i < first_heap.len() && first_heap[i] == name);
    let handle = spec_handle_of(first_heap, name);
    assert(texts_contain(first_heap, handle));
    assert forall|i: int, j: int| 0 <= i < j < first_heap.len() implies first_heap[i]
        != first_heap[j] by {
        if !heap.contains(name) && j == heap.len() {
            assert(heap[i] == first_heap[i]);
        }
    }
    let constant = Parse {
        heap: first_heap,
        constants: named.constants.push(Value::Object(handle)),
        ..named
    };
    assert(spec_parse_variable(keyword, "Expect variable name."@) == (constant, 0u8));
    lemma_advance(constant);
    let equal = taken(constant);
    lemma_literal_expression(equal);
    lemma_literal(taken(equal), true);
    let value = literal_written(taken(equal));
    assert(spec_expression(equal) == value);
    lemma_advance(value);
    let defined = spec_emit(taken(value), OpCode::DefineGlobal { location: 0 });
    assert(spec_var_declaration(keyword) == defined);
    assert(spec_declaration(start) == defined);
    lemma_interned_distinct(first_heap, quoted(spec_token(src, 3).text), name);
    lemma_printable_stays(src, first_heap, 3, Value::Object(handle));
    assert(value.code.drop_last() =~= taken(equal).code);
    assert(defined.code[0] == value.code[0]);
}

/// The state after `print x;` for a global `x` whose name is interned, compiled from the
/// state `d` in which `print` is in hand.
pub open spec fn variable_printed(d: Parse) -> Parse {
    let named = taken(taken(d));
    let handle = spec_handle_of(d.heap, named.prev().text);
    let constant = Parse { constants: d.constants.push(Value::Object(handle)), ..named };
    let location = d.constants.len() as u8;
    spec_emit(taken(spec_emit(constant, OpCode::GetGlobal { location })), OpCode::Print)
}

/// The statement `print x;` for a global `x` whose name is interned.
proof fn lemma_variable_printed(d: Parse)
    requires
        d.scanned == d.current + 1,
        d.cur().ty == TokenType::Print,
        spec_token(d.src, d.current + 1).ty == TokenType::Identifier,
        spec_token(d.src, d.current + 2).ty == TokenType::Semicolon,
        spec_token(d.src, d.current + 3).ty != TokenType::Error,
        d.heap.contains(spec_token(d.src, d.current + 1).text),
        d.locals.len() == 0,
        d.constants.len() <= 2,
        !d.panic_mode,
    ensures
        spec_declaration(d) == variable_printed(d),
{
    lemma_advance(d);
    let keyword = taken(d);
    lemma_advance(keyword);
    let named = taken(keyword);
    let name = named.prev().text;
    let handle = spec_handle_of(d.heap, name);
    let location = d.constants.len() as u8;
    let constant = Parse { constants: d.constants.push(Value::Object(handle)), ..named };
    assert(spec_interned(d.heap, name) == d.heap);
    assert(spec_variable_ops(named, name) == (
        constant,
        (OpCode::GetGlobal { location }, OpCode::SetGlobal { location }),
    ));
    let read = spec_emit(constant, OpCode::GetGlobal { location });
    assert(spec_named_variable(named, true, name) == read);
    assert(spec_run_rule(named, ParseFn::Variable, true) == read);
    assert(read.remaining() == named.remaining());
    assert(spec_infix_loop(read, Precedence::Assignment, true) == read);
    assert(spec_parse_precedence(keyword, Precedence::Assignment) == read);
    assert(spec_expression(keyword) == read);
    lemma_print_declared(d, read);
}

/// The chunk that is compiled for `var x = a; print x;`.
proof fn lemma_binding_compiled(src: Seq<char>, numbers: Seq<u64>, heap: Seq<Seq<char>>)
    requires
        binds_then_prints(src),
        binding_fits(src, numbers, heap),
    ensures
        binding_chunk(
            spec_compile(src, numbers, heap),
            literal_value(src, numbers, named_heap(src, heap), 3),
        ),
        spec_compile(src, numbers, heap).heap == literal_heap(src, named_heap(src, heap), 3),
        spec_printed(
            spec_compile(src, numbers, heap).heap,
            literal_value(src, numbers, named_heap(src, heap), 3),
        ) == Some(literal_printed(src, numbers, 3)),
{
    lemma_binding_declared(src, numbers, heap);
    let start = taken(spec_fresh(src, numbers, heap));
    let d = spec_declaration(start);
    let a = literal_value(src, numbers, named_heap(src, heap), 3);
    lemma_closer(d, start);
    assert(spec_program(start) == spec_program(d));
    lemma_variable_printed(d);
    let printed = variable_printed(d);
    lemma_closer(printed, d);
    assert(spec_program(d) == spec_program(printed));
    lemma_compile_ends(src, numbers, heap, printed);
    let m = spec_compile(src, numbers, heap);
    assert(m.code[0] == m.code.drop_last()[0]);
    assert(m.code[1] == m.code.drop_last()[1]);
    assert(m.code[2] == m.code.drop_last()[2]);
    assert(m.code[3] == m.code.drop_last()[3]);
    lemma_pushes_stays(d.code[0].0, d.constants, m.constants, a);
    assert(m.constants[0] == d.constants[0]);
}

/// One step at `DefineGlobal`.
proof fn lemma_step_define(
    code: Seq<(OpCode, usize)>,
    constants: Seq<Value>,
    s: MachineState,
    location: u8,
    name: ObjRef,
)
    requires
        0 <= s.ip < code.len(),
        code[s.ip].0 == (OpCode::DefineGlobal { location }),
        location < constants.len(),
        constants[location as int] == Value::Object(name),
        texts_contain(s.heap, name),
        s.stack.len() >= 1,
    ensures
        spec_step(code, constants, s) == (
            MachineState {
                ip: s.ip + 1,
                stack: s.stack.drop_last(),
                globals: s.globals.insert(name, s.stack.last()),
                ..s
            },
            ActionView::Continue,
        ),
{
}

/// One step at `GetGlobal` for a variable that is defined.
proof fn lemma_step_get(
    code: Seq<(OpCode, usize)>,
    constants: Seq<Value>,
    s: MachineState,
    location: u8,
    name: ObjRef,
)
    requires
        0 <= s.ip < code.len(),
        code[s.ip].0 == (OpCode::GetGlobal { location }),
        location < constants.len(),
        constants[location as int] == Value::Object(name),
        texts_contain(s.heap, name),
        s.globals.dom().contains(name),
        s.stack.len() < 2,
    ensures
        spec_step(code, constants, s) == (
            MachineState { ip: s.ip + 1, stack: s.stack.push(s.globals[name]), ..s },
            ActionView::Continue,
        ),
{
}

/// One step at `Return`.
proof fn lemma_step_return(code: Seq<(OpCode, usize)>, constants: Seq<Value>, s: MachineState)
    requires
        0 <= s.ip < code.len(),
        code[s.ip].0 == OpCode::Return,
    ensures
        spec_step(code, constants, s) == (MachineState { ip: s.ip + 1, ..s }, ActionView::Halt),
{
}

/// What the machine does with a chunk that prints once: from an empty stack, the first
/// run ends in printing `text` and leaves the stack empty, and the run after it halts.
pub open spec fn prints_once(
    m: Parse,
    globals: Map<ObjRef, Value>,
    budget: nat,
    text: PrintedView,
) -> bool {
    let start = MachineState { ip: 0, stack: Seq::<Value>::empty(), globals, heap: m.heap };
    let first = spec_run(m.code, m.constants, start, budget);
    &&& !m.had_error
    &&& first.1 == ActionView::Print(text)
    &&& first.0.stack.len() == 0
    &&& spec_run(m.code, m.constants, first.0, budget).1 is Halt
}

/// The run of the chunk of `print a;`, step by step.
proof fn lemma_print_runs(m: Parse, a: Value, globals: Map<ObjRef, Value>, budget: nat)
    requires
        print_chunk(m, a),
        budget >= 4,
    ensures
        spec_printed(m.heap, a) matches Some(text) && prints_once(m, globals, budget, text),
{
    let start = MachineState { ip: 0, stack: Seq::<Value>::empty(), globals, heap: m.heap };
    reveal_with_fuel(spec_run, 5);
    let one = MachineState { ip: 1, stack: seq![a], ..start };
    let two = MachineState { ip: 2, ..start };
    assert(start.stack.push(a) =~= seq![a]);
    assert(seq![a].drop_last() =~= start.stack);
    lemma_step_push(m.code, m.constants, start, a);
    lemma_step_print(m.code, m.constants, one);
    lemma_step_return(m.code, m.constants, two);
}

/// The run of the chunk of `var x = a; print x;`, step by step.
proof fn lemma_binding_runs(m: Parse, a: Value, globals: Map<ObjRef, Value>, budget: nat)
    requires
        binding_chunk(m, a),
        budget >= 4,
    ensures
        spec_printed(m.heap, a) matches Some(text) && prints_once(m, globals, budget, text),
{
    let start = MachineState { ip: 0, stack: Seq::<Value>::empty(), globals, heap: m.heap };
    reveal_with_fuel(spec_run, 5);
    let define = m.code[1].0->DefineGlobal_location;
    let get = m.code[2].0->GetGlobal_location;
    let name = m.constants[define as int]->Object_0;
    let bound = globals.insert(name, a);
    let one = MachineState { ip: 1, stack: seq![a], ..start };
    let two = MachineState { ip: 2, globals: bound, ..start };
    let three = MachineState { ip: 3, stack: seq![a], globals: bound, ..start };
    let four = MachineState { ip: 4, globals: bound, ..start };
    assert(start.stack.push(a) =~= seq![a]);
    assert(seq![a].drop_last() =~= start.stack);
    lemma_step_push(m.code, m.constants, start, a);
    lemma_step_define(m.code, m.constants, one, define, name);
    lemma_step_get(m.code, m.constants, two, get, name);
    lemma_step_print(m.code, m.constants, three);
    lemma_step_return(m.code, m.constants, four);
}

/// The literal of `print a;` in the source `direct` is the literal of `var x = a; print x;`
/// in the source `through`: the same kind of token with the same text and, for a number,
/// the same value.
pub open spec fn same_literal(
    direct: Seq<char>,
    direct_numbers: Seq<u64>,
    through: Seq<char>,
    through_numbers: Seq<u64>,
) -> bool {
    &&& spec_token(direct, 1).ty == spec_token(through, 3).ty
    &&& spec_token(direct, 1).text == spec_token(through, 3).text
    &&& spec_token(direct, 1).ty == TokenType::Number ==> direct_numbers[number_index(
        direct,
        1,
    ) as int] == through_numbers[number_index(through, 3) as int]
}

/// A literal prints the same whether it is printed at once or first bound to a global
/// variable that is then printed: `print a;` and `var x = a; print x;` both compile, both
/// print once, the same text or number, with an empty stack afterwards, and both halt on
/// the run after that.
pub proof fn law_print_through_variable(
    direct: Seq<char>,
    direct_numbers: Seq<u64>,
    through: Seq<char>,
    through_numbers: Seq<u64>,
    heap: Seq<Seq<char>>,
    globals: Map<ObjRef, Value>,
    budget: nat,
)
    requires
        prints_literal(direct),
        binds_then_prints(through),
        same_literal(direct, direct_numbers, through, through_numbers),
        literal_fits(direct, direct_numbers, heap, 1),
        binding_fits(through, through_numbers, heap),
        budget >= 4,
    ensures
        prints_once(
            spec_compile(direct, direct_numbers, heap),
            globals,
            budget,
            literal_printed(direct, direct_numbers, 1),
        ),
        prints_once(
            spec_compile(through, through_numbers, heap),
            globals,
            budget,
            literal_printed(direct, direct_numbers, 1),
        ),
{
    lemma_print_compiled(direct, direct_numbers, heap);
    lemma_binding_compiled(through, through_numbers, heap);
    lemma_print_runs(
        spec_compile(direct, direct_numbers, heap),
        literal_value(direct, direct_numbers, heap, 1),
        globals,
        budget,
    );
    lemma_binding_runs(
        spec_compile(through, through_numbers, heap),
        literal_value(through, through_numbers, named_heap(through, heap), 3),
        globals,
        budget,
    );
}

} // verus!
