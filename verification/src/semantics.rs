//! What the compiler does, as a function from one state of a compilation to the next.
//!
//! A [`Parse`] is the state of a compilation: how far the source has been scanned, the two
//! tokens in hand, the chunk written so far, the strings of the heap, the locals in scope
//! and the errors reported. Each step of the compiler is laid down here as a spec function
//! on that state; [`spec_compile`] is the whole compilation. Expressions follow the table
//! of rules by precedence climbing, statements follow their grammar by recursive descent.
//!
//! The functions that call one another in a circle must be seen to come to an end. They
//! do because no step ever gives back a token that was taken. Where the definition of a
//! step relies on that, it says so: a step is applied to `settle(state, m)`, the state if
//! it follows `m`, or goes on only where `closer` holds, where a token has been taken.
//! Both are always true of the states they are applied to, and the compiler is proved to
//! compute these functions.

use vstd::prelude::*;
use crate::balance::patched;
use crate::chunk::{OpCode, MAX_CONSTANTS};
use crate::compiler::{spec_rule, ParseFn, Precedence};
use crate::heap::{spec_handle_of, spec_interned, MAX_STRINGS};
use crate::locals::U8_COUNT;
use crate::report::spec_compile_report;
use crate::scanner::{number_index, scan_state, spec_token, Scanned, TokenType};
use crate::value::{ObjRef, Value};

verus! {

/// A local variable as the state of a compilation holds it: its name, and the depth of its scope once
/// its initializer has been compiled.
pub struct LocalView {
    pub name: Seq<char>,
    pub depth: Option<usize>,
}

/// The state of a compilation.
pub struct Parse {
    /// The source.
    pub src: Seq<char>,
    /// The value of each number token of the source, in order.
    pub numbers: Seq<u64>,
    /// How many tokens have been scanned.
    pub scanned: nat,
    /// The number of the token in hand.
    pub current: nat,
    /// The number of the token before it.
    pub previous: nat,
    /// Whether an error has been reported.
    pub had_error: bool,
    /// Whether the compiler is recovering from an error.
    pub panic_mode: bool,
    /// The instructions written so far, each with its line.
    pub code: Seq<(OpCode, usize)>,
    /// The constants of the chunk.
    pub constants: Seq<Value>,
    /// The texts of the strings on the heap.
    pub heap: Seq<Seq<char>>,
    /// The locals in scope, the outermost first.
    pub locals: Seq<LocalView>,
    /// The depth of the current scope; 0 is the global scope.
    pub scope_depth: usize,
    /// The reports of the errors.
    pub diagnostics: Seq<char>,
}

impl Parse {
    /// The token in hand.
    pub open spec fn cur(self) -> Scanned {
        spec_token(self.src, self.current)
    }

    /// The token before the one in hand.
    pub open spec fn prev(self) -> Scanned {
        spec_token(self.src, self.previous)
    }

    /// How much is left to parse.
    pub open spec fn remaining(self) -> nat {
        tokens_left(self.src, self.scanned, self.current)
    }
}

/// How much of `src` is left to parse after `scanned` tokens have been scanned, with token
/// number `current` in hand: the characters not yet scanned, and the token in hand unless
/// it is `Eof`.
#[verifier::opaque]
pub open spec fn tokens_left(src: Seq<char>, scanned: nat, current: nat) -> nat {
    (src.len() - scan_state(src, scanned).0) as nat + if spec_token(src, current).ty
        != TokenType::Eof {
        1nat
    } else {
        0nat
    }
}

/// `after`, which is a state that follows `before`: no token that was taken comes back.
/// The definition says what is meant where that is not yet known.
pub open spec fn settle(after: Parse, before: Parse) -> Parse {
    if after.remaining() <= before.remaining() {
        after
    } else {
        before
    }
}

/// At least one token has been taken between `before` and `after`.
pub open spec fn closer(after: Parse, before: Parse) -> bool {
    after.remaining() < before.remaining()
}

/// An error is reported at the token in hand (`at_current`) or at the one before it,
/// unless the compiler is recovering from an earlier one.
pub open spec fn spec_error_at(m: Parse, at_current: bool, msg: Seq<char>) -> Parse {
    if m.panic_mode {
        m
    } else {
        let token = if at_current {
            m.cur()
        } else {
            m.prev()
        };
        Parse {
            had_error: true,
            panic_mode: true,
            diagnostics: m.diagnostics + spec_compile_report(
                token.ty,
                token.text,
                token.line as nat,
                msg,
            ),
            ..m
        }
    }
}

/// An error is reported at the token before the one in hand.
pub open spec fn spec_error(m: Parse, msg: Seq<char>) -> Parse {
    spec_error_at(m, false, msg)
}

/// Tokens are scanned until one is no error token; each error token is reported with its
/// own message.
pub open spec fn spec_skip_errors(m: Parse) -> Parse
    decreases m.src.len() - scan_state(m.src, m.scanned).0,
{
    let taken = Parse { current: m.scanned, scanned: m.scanned + 1, ..m };
    if taken.cur().ty != TokenType::Error {
        taken
    } else if scan_state(m.src, m.scanned).0 < scan_state(m.src, taken.scanned).0 <= m.src.len() {
        spec_skip_errors(spec_error_at(taken, true, taken.cur().text))
    } else {
        taken
    }
}

/// The next token is taken: the token in hand becomes the previous one.
pub open spec fn spec_advance(m: Parse) -> Parse {
    settle(spec_skip_errors(Parse { previous: m.current, ..m }), m)
}

/// The token in hand is taken if it is of kind `ty`.
pub open spec fn spec_match(m: Parse, ty: TokenType) -> (Parse, bool) {
    if m.cur().ty == ty {
        (spec_advance(m), true)
    } else {
        (m, false)
    }
}

/// The token in hand is taken if it is of kind `ty`; if not, `msg` is reported at it.
pub open spec fn spec_consume(m: Parse, ty: TokenType, msg: Seq<char>) -> Parse {
    if m.cur().ty == ty {
        spec_advance(m)
    } else {
        spec_error_at(m, true, msg)
    }
}

/// Whether a token of this kind starts a statement.
pub open spec fn starts_statement(ty: TokenType) -> bool {
    ty == TokenType::Class || ty == TokenType::Fun || ty == TokenType::Var || ty == TokenType::For
        || ty == TokenType::If || ty == TokenType::While || ty == TokenType::Print || ty
        == TokenType::Return
}

/// Tokens are skipped up to the end of a statement or the start of one.
pub open spec fn spec_skip_statement(m: Parse) -> Parse
    decreases m.remaining(),
{
    if m.cur().ty == TokenType::Eof || m.prev().ty == TokenType::Semicolon || starts_statement(
        m.cur().ty,
    ) {
        m
    } else {
        let next = spec_advance(m);
        if closer(next, m) {
            spec_skip_statement(next)
        } else {
            next
        }
    }
}

/// The recovery from an error ends at the next statement.
pub open spec fn spec_synchronize(m: Parse) -> Parse {
    settle(spec_skip_statement(Parse { panic_mode: false, ..m }), m)
}

/// An instruction is written, with the line of the previous token.
pub open spec fn spec_emit(m: Parse, op: OpCode) -> Parse {
    Parse { code: m.code.push((op, m.prev().line)), ..m }
}

/// The jump written just before `location` gets the next instruction to be written as its
/// target; a jump over more than 65 535 instructions is an error.
pub open spec fn spec_patch_jump(m: Parse, location: int) -> Parse {
    let jump = m.code.len() - location;
    if jump > 0xffff {
        spec_error(m, "Too much code to jump over."@)
    } else {
        Parse {
            code: m.code.update(
                location - 1,
                (patched(m.code[location - 1].0, jump as u16), m.code[location - 1].1),
            ),
            ..m
        }
    }
}

/// The jump back to the instruction at `location` is written; a jump over more than
/// 65 535 instructions is an error.
pub open spec fn spec_emit_loop(m: Parse, location: int) -> Parse {
    let offset = m.code.len() - location;
    if offset >= 0xffff {
        spec_error(m, "Loop body too large."@)
    } else {
        spec_emit(m, OpCode::Loop { offset: (offset + 1) as u16 })
    }
}

/// A constant is added to the chunk; more than 256 constants are an error.
pub open spec fn spec_make_constant(m: Parse, value: Value) -> (Parse, u8) {
    if m.constants.len() == MAX_CONSTANTS {
        (spec_error(m, "Too many constants in one chunk."@), 0u8)
    } else {
        (Parse { constants: m.constants.push(value), ..m }, m.constants.len() as u8)
    }
}

/// The instruction that pushes `value` is written.
pub open spec fn spec_emit_constant(m: Parse, value: Value) -> Parse {
    let (made, location) = spec_make_constant(m, value);
    spec_emit(made, OpCode::Constant { location })
}

/// A scope is opened.
pub open spec fn spec_begin_scope(m: Parse) -> Parse {
    Parse { scope_depth: (m.scope_depth + 1) as usize, ..m }
}

/// The locals deeper than `target` go out of scope, the innermost first; for each, an
/// instruction takes its value off the stack.
pub open spec fn spec_drop_locals(m: Parse, target: int) -> Parse
    decreases m.locals.len(),
{
    if m.locals.len() > 0 && (m.locals.last().depth matches Some(depth) && depth > target) {
        spec_drop_locals(spec_emit(Parse { locals: m.locals.drop_last(), ..m }, OpCode::Pop), target)
    } else {
        m
    }
}

/// A scope is closed.
pub open spec fn spec_end_scope(m: Parse) -> Parse {
    Parse {
        scope_depth: (m.scope_depth - 1) as usize,
        ..spec_drop_locals(m, m.scope_depth - 1)
    }
}

/// A local is declared, without a value yet; more than 256 locals are an error.
pub open spec fn spec_add_local(m: Parse, name: Seq<char>) -> Parse {
    if m.locals.len() == U8_COUNT {
        spec_error(m, "Too many local variables in function."@)
    } else {
        Parse { locals: m.locals.push(LocalView { name, depth: None }), ..m }
    }
}

/// The innermost local gets the depth of the current scope.
pub open spec fn spec_mark_initialized(m: Parse) -> Parse {
    if m.locals.len() == 0 {
        m
    } else {
        Parse {
            locals: m.locals.drop_last().push(
                LocalView { name: m.locals.last().name, depth: Some(m.scope_depth) },
            ),
            ..m
        }
    }
}

/// The slot of the innermost local with the name `name`, if there is one.
pub open spec fn spec_resolve(locals: Seq<LocalView>, name: Seq<char>) -> Option<u8>
    decreases locals.len(),
{
    if locals.len() == 0 {
        None
    } else if locals.last().name == name {
        Some((locals.len() - 1) as u8)
    } else {
        spec_resolve(locals.drop_last(), name)
    }
}

/// A local of the scope at depth `depth`, the innermost scope of `locals`, has the name
/// `name`.
pub open spec fn declared_in_scope(locals: Seq<LocalView>, depth: usize, name: Seq<char>) -> bool
    decreases locals.len(),
{
    if locals.len() == 0 {
        false
    } else if locals.last().depth matches Some(d) && d < depth {
        false
    } else {
        locals.last().name == name || declared_in_scope(locals.drop_last(), depth, name)
    }
}

/// A name is looked up among the locals; to read a local in its own initializer is an
/// error.
pub open spec fn spec_resolve_local(m: Parse, name: Seq<char>) -> (Parse, Option<u8>) {
    let slot = spec_resolve(m.locals, name);
    match slot {
        Some(i) => if m.locals[i as int].depth is None {
            (spec_error(m, "Can't read local variable in its own initializer."@), slot)
        } else {
            (m, slot)
        },
        None => (m, slot),
    }
}

/// The previous token is declared as a local, unless the scope is the global one; a
/// second variable of the same name in one scope is an error.
pub open spec fn spec_declare_variable(m: Parse) -> Parse {
    if m.scope_depth == 0 {
        m
    } else {
        let name = m.prev().text;
        let checked = if declared_in_scope(m.locals, m.scope_depth, name) {
            spec_error(m, "Already a variable with this name in this scope."@)
        } else {
            m
        };
        spec_add_local(checked, name)
    }
}

/// A text is interned; a full heap that lacks the text is an error.
pub open spec fn spec_allocate_string(m: Parse, text: Seq<char>) -> (Parse, Option<ObjRef>) {
    if !m.heap.contains(text) && m.heap.len() >= MAX_STRINGS {
        (spec_error(m, "Too many strings."@), None)
    } else {
        let heap = spec_interned(m.heap, text);
        (Parse { heap, ..m }, Some(spec_handle_of(heap, text)))
    }
}

/// The constant that holds the name of a global variable.
pub open spec fn spec_identifier_constant(m: Parse, name: Seq<char>) -> (Parse, u8) {
    let (interned, handle) = spec_allocate_string(m, name);
    match handle {
        Some(h) => spec_make_constant(interned, Value::Object(h)),
        None => (interned, 0u8),
    }
}

/// The name of a variable is taken and declared; for a global, the constant that holds
/// its name is made.
pub open spec fn spec_parse_variable(m: Parse, msg: Seq<char>) -> (Parse, u8) {
    let declared = spec_declare_variable(spec_consume(m, TokenType::Identifier, msg));
    if declared.scope_depth > 0 {
        (declared, 0u8)
    } else {
        spec_identifier_constant(declared, declared.prev().text)
    }
}

/// The variable whose value is on top of the stack is defined.
pub open spec fn spec_define_variable(m: Parse, location: u8) -> Parse {
    if m.scope_depth > 0 {
        spec_mark_initialized(m)
    } else {
        spec_emit(m, OpCode::DefineGlobal { location })
    }
}

/// The instructions that read and assign the variable `name`: a local if one has the name,
/// else a global.
pub open spec fn spec_variable_ops(m: Parse, name: Seq<char>) -> (Parse, (OpCode, OpCode)) {
    let (looked, slot) = spec_resolve_local(m, name);
    match slot {
        Some(stack_idx) => (looked, (OpCode::GetLocal { stack_idx }, OpCode::SetLocal { stack_idx })),
        None => {
            let (named, location) = spec_identifier_constant(looked, name);
            (named, (OpCode::GetGlobal { location }, OpCode::SetGlobal { location }))
        },
    }
}

/// The level of precedence just above `level`.
pub open spec fn spec_next_level(level: Precedence) -> Precedence {
    match level {
        Precedence::Lowest => Precedence::Assignment,
        Precedence::Assignment => Precedence::Or,
        Precedence::Or => Precedence::And,
        Precedence::And => Precedence::Equality,
        Precedence::Equality => Precedence::Comparison,
        Precedence::Comparison => Precedence::Term,
        Precedence::Term => Precedence::Factor,
        Precedence::Factor => Precedence::Unary,
        Precedence::Unary => Precedence::Call,
        Precedence::Call => Precedence::Primary,
        _ => Precedence::PlaceHolderHighest,
    }
}

/// The instructions of a binary operator, written after its two operands.
pub open spec fn spec_binary_ops(m: Parse, operator: TokenType) -> Parse {
    match operator {
        TokenType::BangEqual => spec_emit(spec_emit(m, OpCode::Equal), OpCode::Not),
        TokenType::EqualEqual => spec_emit(m, OpCode::Equal),
        TokenType::Greater => spec_emit(m, OpCode::Greater),
        TokenType::GreaterEqual => spec_emit(spec_emit(m, OpCode::Less), OpCode::Not),
        TokenType::Less => spec_emit(m, OpCode::Less),
        TokenType::LessEqual => spec_emit(spec_emit(m, OpCode::Greater), OpCode::Not),
        TokenType::Plus => spec_emit(m, OpCode::Add),
        TokenType::Minus => spec_emit(m, OpCode::Subtract),
        TokenType::Star => spec_emit(m, OpCode::Multiply),
        _ => spec_emit(m, OpCode::Divide),
    }
}

/// An expression.
pub open spec fn spec_expression(m: Parse) -> Parse
    decreases m.remaining(), 1nat,
{
    spec_parse_precedence(m, Precedence::Assignment)
}

/// An expression whose operators bind at least as tightly as `precedence`: a token with a
/// prefix rule, then infix operators with their right operands for as long as they bind
/// tightly enough. A `=` left over where assignment is allowed has no target.
pub open spec fn spec_parse_precedence(m: Parse, precedence: Precedence) -> Parse
    decreases m.remaining(), 0nat,
{
    let first = spec_advance(m);
    match spec_rule(first.prev().ty).prefix {
        None => spec_error(first, "Expect expression."@),
        Some(prefix) => {
            let can_assign = precedence.spec_rank() <= Precedence::Assignment.spec_rank();
            if closer(first, m) {
                let operand = settle(spec_run_rule(first, prefix, can_assign), first);
                let done = settle(spec_infix_loop(operand, precedence, can_assign), operand);
                if can_assign && done.cur().ty == TokenType::Equal {
                    spec_error(spec_advance(done), "Invalid assignment target"@)
                } else {
                    done
                }
            } else {
                first
            }
        },
    }
}

/// The infix operators of an expression, each with its right operand.
pub open spec fn spec_infix_loop(m: Parse, precedence: Precedence, can_assign: bool) -> Parse
    decreases m.remaining(), 0nat,
{
    if precedence.spec_rank() <= spec_rule(m.cur().ty).precedence.spec_rank() {
        let taken = spec_advance(m);
        if closer(taken, m) {
            match spec_rule(taken.prev().ty).infix {
                Some(infix) => spec_infix_loop(
                    settle(spec_run_rule(taken, infix, can_assign), taken),
                    precedence,
                    can_assign,
                ),
                None => spec_infix_loop(taken, precedence, can_assign),
            }
        } else {
            taken
        }
    } else {
        m
    }
}

/// The handler that a rule names.
pub open spec fn spec_run_rule(m: Parse, handler: ParseFn, can_assign: bool) -> Parse
    decreases m.remaining(), 4nat,
{
    match handler {
        ParseFn::Grouping => spec_grouping(m),
        ParseFn::Unary => spec_unary(m),
        ParseFn::Binary => spec_binary(m),
        ParseFn::Number => spec_number(m),
        ParseFn::String => spec_string(m),
        ParseFn::Variable => spec_variable(m, can_assign),
        ParseFn::Literal => spec_literal(m),
        ParseFn::And => spec_and(m),
        ParseFn::Or => spec_or(m),
    }
}

/// An expression in parentheses.
pub open spec fn spec_grouping(m: Parse) -> Parse
    decreases m.remaining(), 2nat,
{
    spec_consume(spec_expression(m), TokenType::RightParen, "Expect ')' after expression."@)
}

/// `-` or `!` before its operand.
pub open spec fn spec_unary(m: Parse) -> Parse
    decreases m.remaining(), 2nat,
{
    let operand = spec_parse_precedence(m, Precedence::Unary);
    match m.prev().ty {
        TokenType::Minus => spec_emit(operand, OpCode::Negate),
        TokenType::Bang => spec_emit(operand, OpCode::Not),
        _ => operand,
    }
}

/// A binary operator after its left operand: the right operand binds one level more
/// tightly, so that the operator associates to the left.
pub open spec fn spec_binary(m: Parse) -> Parse
    decreases m.remaining(), 2nat,
{
    let operator = m.prev().ty;
    spec_binary_ops(
        spec_parse_precedence(m, spec_next_level(spec_rule(operator).precedence)),
        operator,
    )
}

/// A number: the constant is the value given for this number token.
pub open spec fn spec_number(m: Parse) -> Parse {
    let index = number_index(m.src, m.previous);
    if index < m.numbers.len() {
        spec_emit_constant(m, Value::Number(m.numbers[index as int]))
    } else {
        spec_error(m, "Number literal without a value."@)
    }
}

/// A string: the text between the quotes is interned.
pub open spec fn spec_string(m: Parse) -> Parse {
    let text = m.prev().text;
    let (interned, handle) = spec_allocate_string(m, text.subrange(1, text.len() - 1));
    match handle {
        Some(h) => spec_emit_constant(interned, Value::Object(h)),
        None => interned,
    }
}

/// `false`, `nil` or `true`.
pub open spec fn spec_literal(m: Parse) -> Parse {
    match m.prev().ty {
        TokenType::False => spec_emit(m, OpCode::False),
        TokenType::Nil => spec_emit(m, OpCode::Nil),
        _ => spec_emit(m, OpCode::True),
    }
}

/// A variable that is read, or assigned to where assignment is allowed and `=` follows.
pub open spec fn spec_named_variable(m: Parse, can_assign: bool, name: Seq<char>) -> Parse
    decreases m.remaining(), 2nat,
{
    let (named, ops) = spec_variable_ops(m, name);
    if can_assign && named.cur().ty == TokenType::Equal {
        spec_emit(spec_expression(settle(spec_advance(named), m)), ops.1)
    } else {
        spec_emit(named, ops.0)
    }
}

/// An identifier in an expression.
pub open spec fn spec_variable(m: Parse, can_assign: bool) -> Parse
    decreases m.remaining(), 3nat,
{
    spec_named_variable(m, can_assign, m.prev().text)
}

/// `and` after its left operand: a jump over the right operand that is taken when the
/// left one is falsey; if not, the left operand is dropped.
pub open spec fn spec_and(m: Parse) -> Parse
    decreases m.remaining(), 2nat,
{
    let jump = spec_emit(m, OpCode::JumpIfFalse { offset: 0 });
    let right = spec_parse_precedence(settle(spec_emit(jump, OpCode::Pop), m), Precedence::And);
    spec_patch_jump(right, jump.code.len() as int)
}

/// `or` after its left operand: a falsey left operand is dropped and the right one
/// evaluated; a truthy one jumps over the right operand.
pub open spec fn spec_or(m: Parse) -> Parse
    decreases m.remaining(), 2nat,
{
    let else_jump = spec_emit(m, OpCode::JumpIfFalse { offset: 0 });
    let end_jump = spec_emit(else_jump, OpCode::Jump { offset: 0 });
    let patched = spec_patch_jump(end_jump, else_jump.code.len() as int);
    let right = spec_parse_precedence(settle(spec_emit(patched, OpCode::Pop), m), Precedence::Or);
    spec_patch_jump(right, end_jump.code.len() as int)
}

/// `print` with its operand; `print` has been taken.
pub open spec fn spec_print_statement(m: Parse) -> Parse
    decreases m.remaining(), 5nat,
{
    spec_emit(
        spec_consume(spec_expression(m), TokenType::Semicolon, "Expect ';' after value."@),
        OpCode::Print,
    )
}

/// An expression as a statement: its value is dropped.
pub open spec fn spec_expression_statement(m: Parse) -> Parse
    decreases m.remaining(), 5nat,
{
    spec_emit(
        spec_consume(spec_expression(m), TokenType::Semicolon, "Expect ';' after value."@),
        OpCode::Pop,
    )
}

/// The condition of `if` or `while` in its parentheses, and the jump that is taken when it
/// is falsey. `msg` is reported where the opening parenthesis is missing.
pub open spec fn spec_condition(m: Parse, msg: Seq<char>) -> Parse
    decreases m.remaining(), 8nat,
{
    spec_emit(
        spec_consume(
            spec_expression(settle(spec_consume(m, TokenType::LeftParen, msg), m)),
            TokenType::RightParen,
            "Expect ')' after condition."@,
        ),
        OpCode::JumpIfFalse { offset: 0 },
    )
}

/// `if`; the keyword has been taken. Each branch drops the condition first.
pub open spec fn spec_if_statement(m: Parse) -> Parse
    decreases m.remaining(), 9nat,
{
    let then_jump = spec_condition(m, "Expect '(' after 'if'."@);
    let then_branch = spec_statement(settle(spec_emit(then_jump, OpCode::Pop), m));
    let else_jump = spec_emit(then_branch, OpCode::Jump { offset: 0 });
    let after_then = spec_emit(
        spec_patch_jump(else_jump, then_jump.code.len() as int),
        OpCode::Pop,
    );
    let (taken, has_else) = spec_match(after_then, TokenType::Else);
    let else_branch = if has_else {
        spec_statement(settle(taken, m))
    } else {
        taken
    };
    spec_patch_jump(else_branch, else_jump.code.len() as int)
}

/// `while`; the keyword has been taken.
pub open spec fn spec_while_statement(m: Parse) -> Parse
    decreases m.remaining(), 9nat,
{
    let exit_jump = spec_condition(m, "Expect '(' after 'while'."@);
    let body = spec_statement(settle(spec_emit(exit_jump, OpCode::Pop), m));
    spec_emit(
        spec_patch_jump(spec_emit_loop(body, m.code.len() as int), exit_jump.code.len() as int),
        OpCode::Pop,
    )
}

/// The initializer of `for`: nothing, the declaration of a variable, or an expression.
pub open spec fn spec_for_initializer(m: Parse) -> Parse
    decreases m.remaining(), 7nat,
{
    let opened = spec_consume(m, TokenType::LeftParen, "Expect '(' after 'for'."@);
    if opened.cur().ty == TokenType::Semicolon {
        spec_advance(opened)
    } else if opened.cur().ty == TokenType::Var {
        spec_var_declaration(settle(spec_advance(opened), m))
    } else {
        spec_expression_statement(settle(opened, m))
    }
}

/// The clauses of `for` up to the increment: the initializer, the condition with the jump
/// out of the loop, and the jump over the increment. With the state come the places of the
/// condition, of the jump out of the loop if there is a condition, and of the jump over
/// the increment.
pub open spec fn spec_for_clauses(m: Parse) -> (Parse, (int, Option<int>, int))
    decreases m.remaining(), 8nat,
{
    let initializer = spec_for_initializer(m);
    let condition = initializer.code.len() as int;
    let (tested, exit_jump) = if initializer.cur().ty == TokenType::Semicolon {
        (spec_advance(initializer), None::<int>)
    } else {
        let jump = spec_emit(
            spec_consume(
                spec_expression(settle(initializer, m)),
                TokenType::Semicolon,
                "Expect ';' after condition."@,
            ),
            OpCode::JumpIfFalse { offset: 0 },
        );
        (spec_emit(jump, OpCode::Pop), Some(jump.code.len() as int))
    };
    let body_jump = spec_emit(tested, OpCode::Jump { offset: 0 });
    (body_jump, (condition, exit_jump, body_jump.code.len() as int))
}

/// The increment of `for`, whose value is dropped, with the jump back to the condition at
/// `condition`; the body, which follows, is the target of the jump written before
/// `body_jump`.
pub open spec fn spec_for_increment(m: Parse, condition: int, body_jump: int) -> Parse
    decreases m.remaining(), 8nat,
{
    let increment = if m.cur().ty == TokenType::RightParen {
        spec_advance(m)
    } else {
        spec_consume(
            spec_emit(spec_expression(m), OpCode::Pop),
            TokenType::RightParen,
            "Expect ')' after increment clause."@,
        )
    };
    spec_patch_jump(spec_emit_loop(increment, condition), body_jump)
}

/// The scope of a `for` loop up to its body: the three clauses. With the state come the
/// place of the increment and, if there is a condition, the place of the jump out of the
/// loop.
pub open spec fn spec_for_head(m: Parse) -> (Parse, (int, Option<int>))
    decreases m.remaining(), 9nat,
{
    let clauses = spec_for_clauses(settle(spec_begin_scope(m), m));
    (
        spec_for_increment(settle(clauses.0, m), clauses.1.0, clauses.1.2),
        (clauses.0.code.len() as int, clauses.1.1),
    )
}

/// The scope of a `for` loop up to the end of its body: the clauses and the statement
/// that is repeated.
pub open spec fn spec_for_body(m: Parse) -> (Parse, (int, Option<int>))
    decreases m.remaining(), 10nat,
{
    let head = spec_for_head(m);
    (spec_statement_after(head.0, m), head.1)
}

/// A statement that is parsed in the state `state`, which follows `before`.
pub open spec fn spec_statement_after(state: Parse, before: Parse) -> Parse
    decreases before.remaining(), 7nat,
{
    spec_statement(settle(state, before))
}

/// Where a `for` loop ends: the target of the jump out of the loop, if the loop has a
/// condition, and the instruction that drops the condition.
pub open spec fn spec_for_exit(m: Parse, exit_jump: Option<int>) -> Parse {
    match exit_jump {
        Some(exit) => spec_emit(spec_patch_jump(m, exit), OpCode::Pop),
        None => m,
    }
}

/// `for`; the keyword has been taken. The loop has a scope of its own, and the increment
/// stands before the body in the chunk but runs after it.
pub open spec fn spec_for_statement(m: Parse) -> Parse
    decreases m.remaining(), 11nat,
{
    let (body, places) = spec_for_body(m);
    spec_end_scope(spec_for_exit(spec_emit_loop(body, places.0), places.1))
}

/// The declarations of a block, up to its closing brace or the end of the source.
pub open spec fn spec_block_loop(m: Parse) -> Parse
    decreases m.remaining(), 8nat,
{
    if m.cur().ty != TokenType::RightBrace && m.cur().ty != TokenType::Eof {
        let declared = spec_declaration(m);
        if closer(declared, m) {
            spec_block_loop(declared)
        } else {
            declared
        }
    } else {
        m
    }
}

/// A block; the opening brace has been taken.
pub open spec fn spec_block(m: Parse) -> Parse
    decreases m.remaining(), 9nat,
{
    spec_consume(spec_block_loop(m), TokenType::RightBrace, "Expect '}' after block."@)
}

/// A block with a scope of its own; the opening brace has been taken.
pub open spec fn spec_scoped_block(m: Parse) -> Parse
    decreases m.remaining(), 10nat,
{
    spec_end_scope(spec_block(settle(spec_begin_scope(m), m)))
}

/// A statement.
pub open spec fn spec_statement(m: Parse) -> Parse
    decreases m.remaining(), 6nat,
{
    let ty = m.cur().ty;
    if ty == TokenType::Print {
        spec_print_statement(settle(spec_advance(m), m))
    } else if ty == TokenType::If || ty == TokenType::While || ty == TokenType::For || ty
        == TokenType::LeftBrace {
        let taken = spec_advance(m);
        if closer(taken, m) {
            if ty == TokenType::If {
                spec_if_statement(taken)
            } else if ty == TokenType::While {
                spec_while_statement(taken)
            } else if ty == TokenType::For {
                spec_for_statement(taken)
            } else {
                spec_scoped_block(taken)
            }
        } else {
            taken
        }
    } else {
        spec_expression_statement(m)
    }
}

/// The declaration of a variable; `var` has been taken. Without an initializer the
/// variable is `nil`.
pub open spec fn spec_var_declaration(m: Parse) -> Parse
    decreases m.remaining(), 5nat,
{
    let (named, global) = spec_parse_variable(m, "Expect variable name."@);
    let value = if named.cur().ty == TokenType::Equal {
        spec_expression(settle(spec_advance(named), m))
    } else {
        spec_emit(named, OpCode::Nil)
    };
    spec_define_variable(
        spec_consume(value, TokenType::Semicolon, "Expect `;` after variable declaration."@),
        global,
    )
}

/// A declaration: of a variable, or a statement. After an error the compiler skips to the
/// next statement.
pub open spec fn spec_declaration(m: Parse) -> Parse
    decreases m.remaining(), 7nat,
{
    let declared = if m.cur().ty == TokenType::Var {
        spec_var_declaration(settle(spec_advance(m), m))
    } else {
        spec_statement(m)
    };
    if declared.panic_mode {
        spec_synchronize(declared)
    } else {
        declared
    }
}

/// The declarations of a program, up to the end of the source.
pub open spec fn spec_program(m: Parse) -> Parse
    decreases m.remaining(),
{
    if m.cur().ty == TokenType::Eof {
        spec_advance(m)
    } else {
        let declared = spec_declaration(m);
        if closer(declared, m) {
            spec_program(declared)
        } else {
            declared
        }
    }
}

/// The places in the chunk at which the declarations of a program begin, and the place
/// behind the last of them.
pub open spec fn spec_statement_starts(m: Parse) -> Set<int>
    decreases m.remaining(),
{
    if m.cur().ty == TokenType::Eof {
        set![m.code.len() as int]
    } else {
        let declared = spec_declaration(m);
        if closer(declared, m) {
            spec_statement_starts(declared).insert(m.code.len() as int)
        } else {
            set![m.code.len() as int]
        }
    }
}

/// The state in which a compilation starts.
pub open spec fn spec_fresh(src: Seq<char>, numbers: Seq<u64>, heap: Seq<Seq<char>>) -> Parse {
    Parse {
        src,
        numbers,
        scanned: 0,
        current: 0,
        previous: 0,
        had_error: false,
        panic_mode: false,
        code: Seq::<(OpCode, usize)>::empty(),
        constants: Seq::<Value>::empty(),
        heap,
        locals: Seq::<LocalView>::empty(),
        scope_depth: 0,
        diagnostics: Seq::<char>::empty(),
    }
}

/// The places in the chunk of a source at which its declarations begin, and the place
/// behind the last of them, where the closing `Return` stands.
pub open spec fn spec_starts(src: Seq<char>, numbers: Seq<u64>, heap: Seq<Seq<char>>) -> Set<int> {
    let first = spec_advance(spec_fresh(src, numbers, heap));
    spec_statement_starts(Parse { previous: first.current, ..first })
}

/// The compilation of a source: the first token is taken, the declarations are compiled
/// up to the end of the source, and the instruction that ends the program is written.
pub open spec fn spec_compile(src: Seq<char>, numbers: Seq<u64>, heap: Seq<Seq<char>>) -> Parse {
    let first = spec_advance(spec_fresh(src, numbers, heap));
    let program = spec_program(Parse { previous: first.current, ..first });
    spec_emit(
        spec_consume(program, TokenType::Eof, "Expect End of expression."@),
        OpCode::Return,
    )
}

} // verus!
