//! The compiler: a single pass over the tokens that writes bytecode as it parses.
//!
//! Expressions are parsed by precedence climbing: each kind of token has a rule that names
//! its prefix handler, its infix handler and its precedence. Statements are parsed by
//! recursive descent. Local variables live in stack slots that the compiler hands out;
//! forward jumps are written with an empty offset and patched when their target is known.
//!
//! While no error has been reported, the compiler keeps, beside the chunk, the height of
//! the machine's stack at each instruction, and with it the proof that the chunk is
//! balanced.

use vstd::prelude::*;
use vstd::string::StrSliceExecFns;
use vstd::string::StringExecFns;
use crate::balance::{
    balanced, certifies, effect, empty_at, falls_through, fits, jump_target, lemma_fits_patch,
    lemma_fits_push, operands, patched, rests_at, target_ok,
};
use crate::chunk::{chunk_ok, op_ok, Chunk, OpCode, MAX_CONSTANTS};
use crate::heap::{spec_interned, texts_contain, Heap};
use crate::locals::{Local, LocalStack, U8_COUNT};
use crate::report::{compile_report, spec_compile_report};
use crate::scanner::{
    lemma_scan_progress, lemma_scan_state_bounds, lemma_string_token, lemma_token_line_bounds,
    lemma_token_lines, line_breaks, number_index, scan_state, spec_token, Scanner, Token,
    TokenType,
};
use crate::semantics::{
    LocalView, Parse, closer, declared_in_scope, spec_add_local, spec_advance, spec_allocate_string,
    spec_and, spec_begin_scope, spec_binary, spec_binary_ops, spec_block, spec_block_loop,
    spec_compile, spec_condition, spec_consume, spec_declaration, spec_declare_variable,
    spec_define_variable, spec_drop_locals, spec_emit, spec_emit_constant, spec_emit_loop,
    spec_end_scope, spec_error, spec_error_at, spec_expression, spec_expression_statement,
    spec_for_clauses, spec_for_exit, spec_for_increment, spec_for_initializer,
    spec_for_statement, spec_fresh, spec_grouping, spec_identifier_constant, spec_if_statement,
    spec_infix_loop, spec_literal, spec_make_constant, spec_mark_initialized, spec_match,
    spec_named_variable, spec_next_level, spec_number, spec_or, spec_parse_precedence,
    spec_parse_variable, spec_patch_jump, spec_print_statement, spec_program, spec_resolve, spec_starts, spec_statement_starts,
    spec_resolve_local, spec_run_rule, spec_scoped_block, spec_skip_errors,
    spec_skip_statement, spec_statement, spec_string, spec_synchronize, spec_unary,
    spec_var_declaration, spec_variable, spec_variable_ops, spec_while_statement, tokens_left,
};
use crate::value::{ObjRef, Value};

verus! {

/// The levels of precedence, lowest first.
#[derive(Debug, Clone, Copy, PartialEq, Eq, Structural)]
pub enum Precedence {
    Lowest,
    Assignment,
    Or,
    And,
    Equality,
    Comparison,
    Term,
    Factor,
    Unary,
    Call,
    Primary,
    PlaceHolderHighest,
}

impl Precedence {
    /// The place of a level on the ladder, counted from 0.
    pub open spec fn spec_rank(self) -> nat {
        match self {
            Precedence::Lowest => 0,
            Precedence::Assignment => 1,
            Precedence::Or => 2,
            Precedence::And => 3,
            Precedence::Equality => 4,
            Precedence::Comparison => 5,
            Precedence::Term => 6,
            Precedence::Factor => 7,
            Precedence::Unary => 8,
            Precedence::Call => 9,
            Precedence::Primary => 10,
            Precedence::PlaceHolderHighest => 11,
        }
    }

    /// The place of a level on the ladder, counted from 0.
    pub fn rank(&self) -> (rank: u8)
        ensures
            rank == self.spec_rank(),
    {
        match self {
            Precedence::Lowest => 0,
            Precedence::Assignment => 1,
            Precedence::Or => 2,
            Precedence::And => 3,
            Precedence::Equality => 4,
            Precedence::Comparison => 5,
            Precedence::Term => 6,
            Precedence::Factor => 7,
            Precedence::Unary => 8,
            Precedence::Call => 9,
            Precedence::Primary => 10,
            Precedence::PlaceHolderHighest => 11,
        }
    }

    /// The level just above this one. The highest level has none.
    pub fn get_next(&self) -> (next: Precedence)
        requires
            *self != Precedence::PlaceHolderHighest,
        ensures
            next.spec_rank() == self.spec_rank() + 1,
            next == spec_next_level(*self),
    {
        match self {
            Precedence::Lowest => Precedence::Assignment,
            Precedence::Assignment => Precedence::Or,
            Precedence::Or => Precedence::And,
            Precedence::And => Precedence::Equality,
            Precedence::Equality => Precedence::Comparison,
            Precedence::Comparison => Precedence::Term,
            Precedence::Term => Precedence::Factor,
            Precedence::Factor => Precedence::Unary,
            Precedence::Unary => Precedence::Call,
            Precedence::Call => Precedence::Primary,
            _ => Precedence::PlaceHolderHighest,
        }
    }
}

/// The handlers that a rule can name.
#[derive(Debug, Clone, Copy, PartialEq, Eq, Structural)]
pub enum ParseFn {
    Grouping,
    Unary,
    Binary,
    Number,
    String,
    Variable,
    Literal,
    And,
    Or,
}

/// The rule of a kind of token: how a token of this kind starts an expression, how it
/// continues one, and how tightly it binds as an infix operator.
#[derive(Debug, Clone, Copy, PartialEq, Eq, Structural)]
pub struct ParseRule {
    pub prefix: Option<ParseFn>,
    pub infix: Option<ParseFn>,
    pub precedence: Precedence,
}

/// The table of rules.
pub open spec fn spec_rule(ty: TokenType) -> ParseRule {
    match ty {
        TokenType::LeftParen => ParseRule {
            prefix: Some(ParseFn::Grouping),
            infix: None,
            precedence: Precedence::Lowest,
        },
        TokenType::Minus => ParseRule {
            prefix: Some(ParseFn::Unary),
            infix: Some(ParseFn::Binary),
            precedence: Precedence::Term,
        },
        TokenType::Plus => ParseRule {
            prefix: None,
            infix: Some(ParseFn::Binary),
            precedence: Precedence::Term,
        },
        TokenType::Slash | TokenType::Star => ParseRule {
            prefix: None,
            infix: Some(ParseFn::Binary),
            precedence: Precedence::Factor,
        },
        TokenType::Bang => ParseRule {
            prefix: Some(ParseFn::Unary),
            infix: None,
            precedence: Precedence::Lowest,
        },
        TokenType::BangEqual | TokenType::EqualEqual => ParseRule {
            prefix: None,
            infix: Some(ParseFn::Binary),
            precedence: Precedence::Equality,
        },
        TokenType::Greater
        | TokenType::GreaterEqual
        | TokenType::Less
        | TokenType::LessEqual => ParseRule {
            prefix: None,
            infix: Some(ParseFn::Binary),
            precedence: Precedence::Comparison,
        },
        TokenType::Identifier => ParseRule {
            prefix: Some(ParseFn::Variable),
            infix: None,
            precedence: Precedence::Lowest,
        },
        TokenType::String => ParseRule {
            prefix: Some(ParseFn::String),
            infix: None,
            precedence: Precedence::Lowest,
        },
        TokenType::Number => ParseRule {
            prefix: Some(ParseFn::Number),
            infix: None,
            precedence: Precedence::Lowest,
        },
        TokenType::And => ParseRule {
            prefix: None,
            infix: Some(ParseFn::And),
            precedence: Precedence::And,
        },
        TokenType::Or => ParseRule {
            prefix: None,
            infix: Some(ParseFn::Or),
            precedence: Precedence::Or,
        },
        TokenType::False | TokenType::Nil | TokenType::True => ParseRule {
            prefix: Some(ParseFn::Literal),
            infix: None,
            precedence: Precedence::Lowest,
        },
        _ => ParseRule { prefix: None, infix: None, precedence: Precedence::Lowest },
    }
}

/// What the compiler keeps for the proof while no error has been reported: the height of
/// the stack at each instruction and at the next one to be written, the jumps that wait
/// for their target with the height at which the target must stand, for each instruction
/// the number of the token whose line it carries, and the places at which the declarations
/// of the program begin.
pub struct Certificate {
    pub heights: Seq<int>,
    pub pending: Map<int, int>,
    pub origins: Seq<nat>,
    pub starts: Set<int>,
}

/// The value `value` is the value given for one of the number tokens of `src`.
pub open spec fn number_of_token(src: Seq<char>, numbers: Seq<u64>, value: u64) -> bool {
    exists|k: nat|
        spec_token(src, k).ty == TokenType::Number && number_index(src, k) < numbers.len()
            && #[trigger] numbers[number_index(src, k) as int] == value
}

/// What holds of a chunk that the compiler hands out for the source `src` and the values
/// `numbers` of its number tokens: every instruction finds the constant that it names, of
/// which there are at most 256, and the name of a global variable is a string of the heap;
/// every jump leads to an
/// instruction of the chunk; the chunk is balanced and ends in `Return`; each instruction
/// carries the line of a token of the source, which is a line from 1 to one more than the
/// source has line breaks, no instruction a line before that of an earlier one, and the
/// closing `Return` the line of the end of the source; and each number among the constants
/// is the value given for a number token.
pub open spec fn compiled(
    src: Seq<char>,
    numbers: Seq<u64>,
    code: Seq<(OpCode, usize)>,
    constants: Seq<Value>,
    heap: Seq<Seq<char>>,
) -> bool {
    &&& chunk_ok(code, constants, heap)
    &&& constants.len() <= MAX_CONSTANTS
    &&& balanced(Seq::new(code.len(), |i: int| code[i].0))
    &&& code.len() > 0 && code.last().0 == OpCode::Return
    &&& forall|i: int|
        0 <= i < code.len() ==> exists|k: nat| (#[trigger] code[i]).1 == spec_token(src, k).line
    &&& forall|i: int|
        0 <= i < code.len() ==> 1 <= (#[trigger] code[i]).1 <= 1 + line_breaks(
            src,
            0,
            src.len() as int,
        )
    &&& lines_rise(code)
    &&& exists|k: nat|
        (#[trigger] spec_token(src, k)).ty == TokenType::Eof && code.last().1 == spec_token(
            src,
            k,
        ).line
    &&& forall|k: int|
        0 <= k < constants.len() ==> (#[trigger] constants[k] matches Value::Number(value)
            ==> number_of_token(src, numbers, value))
}

/// Along the chunk the lines never fall.
pub open spec fn lines_rise(code: Seq<(OpCode, usize)>) -> bool {
    forall|i: int, j: int|
        0 <= i <= j < code.len() ==> (#[trigger] code[i]).1 <= (#[trigger] code[j]).1
}

/// The number of locals whose initializer has been compiled.
pub open spec fn initialized(locals: Seq<Local>) -> int {
    if locals.len() > 0 && locals.last().depth is None {
        locals.len() - 1
    } else {
        locals.len() as int
    }
}

/// Only the innermost local may lack its initializer, and the depth of each local is that
/// of a scope inside the global one and not deeper than the current scope.
pub open spec fn locals_ok(locals: Seq<Local>, scope_depth: usize) -> bool {
    &&& forall|j: int| 0 <= j < locals.len() - 1 ==> (#[trigger] locals[j]).depth is Some
    &&& forall|j: int|
        0 <= j < locals.len() && (#[trigger] locals[j]).depth is Some ==> 1 <= locals[j].depth->0
            <= scope_depth
}

/// The instructions were written in the order of the tokens they stand for, none of them
/// for a token behind the previous one, which in turn is not behind the token in hand.
#[verifier::opaque]
pub closed spec fn in_order(origins: Seq<nat>, previous: nat, current: nat) -> bool {
    &&& previous <= current
    &&& forall|i: int| 0 <= i < origins.len() ==> #[trigger] origins[i] <= previous
    &&& forall|i: int, j: int|
        0 <= i <= j < origins.len() ==> #[trigger] origins[i] <= #[trigger] origins[j]
}

/// What holds of a chunk under construction while no error has been reported: its
/// instructions find what they name, the heights fit it, each instruction carries the
/// line of a token, each number among the constants is the value of a number token, and
/// the locals are in order.
#[verifier::opaque]
pub closed spec fn sound(
    src: Seq<char>,
    numbers: Seq<u64>,
    code: Seq<(OpCode, usize)>,
    constants: Seq<Value>,
    heap: Seq<Seq<char>>,
    cert: Certificate,
    locals: Seq<Local>,
    scope_depth: usize,
) -> bool {
    &&& chunk_ok(code, constants, heap)
    &&& fits(Seq::new(code.len(), |i: int| code[i].0), cert.heights, cert.pending)
    &&& cert.origins.len() == code.len()
    &&& empty_at(cert.heights, cert.starts)
    &&& forall|i: int|
        0 <= i < code.len() ==> (#[trigger] code[i]).1 == spec_token(src, cert.origins[i]).line
    &&& forall|k: int|
        0 <= k < constants.len() ==> (#[trigger] constants[k] matches Value::Number(value)
            ==> number_of_token(src, numbers, value))
    &&& locals_ok(locals, scope_depth)
}

/// What a call of the compiler yields: the chunk unless an error was reported, the heap
/// with the strings of the program interned, and the reports of the errors.
pub struct CompileOutput {
    pub chunk: Option<Chunk>,
    pub strings: Heap,
    pub diagnostics: String,
}

/// The state of one compilation.
pub struct Compiler<'a> {
    scanner: Scanner<'a>,
    current: Token,
    previous: Token,
    numbers: &'a Vec<u64>,
    numbers_seen: usize,
    current_number: usize,
    previous_number: usize,
    had_error: bool,
    panic_mode: bool,
    chunk: Chunk,
    strings: Heap,
    locals: LocalStack,
    scope_depth: usize,
    diagnostics: String,
    scanned: Ghost<nat>,
    current_index: Ghost<nat>,
    previous_index: Ghost<nat>,
    cert: Ghost<Certificate>,
}

/// The token is token number `index` of `src`.
pub open spec fn is_token(src: Seq<char>, token: Token, index: nat) -> bool {
    &&& token.ty == spec_token(src, index).ty
    &&& token.string@ == spec_token(src, index).text
    &&& token.line == spec_token(src, index).line
}

impl<'a> Compiler<'a> {
    /// The characters of the source.
    pub closed spec fn src(&self) -> Seq<char> {
        self.scanner.source()
    }

    /// The state of the compilation.
    pub closed spec fn model(&self) -> Parse {
        Parse {
            src: self.src(),
            numbers: self.numbers@,
            scanned: self.scanned@,
            current: self.current_index@,
            previous: self.previous_index@,
            had_error: self.had_error,
            panic_mode: self.panic_mode,
            code: self.chunk.code@,
            constants: self.chunk.constants@,
            heap: self.strings@,
            locals: locals_view(self.locals@),
            scope_depth: self.scope_depth,
            diagnostics: self.diagnostics@,
        }
    }

    /// How much is left to parse: the characters not yet scanned, and the token in hand
    /// unless it is `Eof`.
    pub closed spec fn remaining(&self) -> nat {
        self.model().remaining()
    }

    /// The height of the stack at the next instruction to be written.
    pub closed spec fn height(&self) -> int {
        self.cert@.heights.last()
    }

    /// The places in the chunk at which a declaration of the program begins.
    pub closed spec fn starts(&self) -> Set<int> {
        self.cert@.starts
    }

    /// The scanner is sound, it has taken `scanned` tokens, and the token in hand is one of
    /// them.
    pub closed spec fn scan_wf(&self) -> bool {
        &&& self.scanner.wf()
        &&& (self.scanner.position(), self.scanner.current_line()) == scan_state(
            self.src(),
            self.scanned@,
        )
        &&& self.numbers_seen == number_index(self.src(), self.scanned@)
        &&& self.strings.wf()
        &&& self.locals@.len() <= U8_COUNT
        &&& self.chunk.constants@.len() <= MAX_CONSTANTS
        &&& self.panic_mode ==> self.had_error
        &&& self.had_error <==> self.diagnostics@.len() > 0
    }

    /// What holds of the tokens in hand once the first token has been taken: both are
    /// tokens of the source, and `Eof` is in hand only at the end of the source.
    pub closed spec fn tokens_wf(&self) -> bool {
        &&& is_token(self.src(), self.current, self.current_index@)
        &&& is_token(self.src(), self.previous, self.previous_index@)
        &&& self.current_number == number_index(self.src(), self.current_index@)
        &&& self.previous_number == number_index(self.src(), self.previous_index@)
        &&& self.current_index@ < self.scanned@
        &&& self.current.ty == TokenType::Eof ==> self.scanner.position() == self.src().len()
        &&& self.current.ty != TokenType::Eof ==> self.scanner.position() >= 1
        &&& self.scope_depth + self.remaining() <= self.src().len()
    }

    /// What holds of the chunk and the locals while no error has been reported.
    pub closed spec fn good(&self) -> bool {
        sound(
            self.src(),
            self.numbers@,
            self.chunk.code@,
            self.chunk.constants@,
            self.strings@,
            self.cert@,
            self.locals@,
            self.scope_depth,
        )
    }

    /// While no error has been reported, each initialized local has its slot on the
    /// stack, and the global scope has no locals.
    pub closed spec fn level_ok(&self) -> bool {
        self.had_error || (initialized(self.locals@) <= self.height() && (self.scope_depth == 0
            ==> self.locals@.len() == 0) && self.cert@.heights.len() == self.chunk.code@.len() + 1)
    }

    /// The scanner and the tokens in hand are sound, and so is the chunk while no error
    /// has been reported.
    #[verifier::opaque]
    pub closed spec fn inner_wf(&self) -> bool {
        &&& self.scan_wf()
        &&& self.tokens_wf()
        &&& self.had_error || self.good()
        &&& in_order(self.cert@.origins, self.previous_index@, self.current_index@)
    }

    /// The invariant of the compiler.
    pub closed spec fn wf(&self) -> bool {
        &&& self.inner_wf()
        &&& self.level_ok()
    }

    /// The scanner of a sound compiler is sound.
    proof fn lemma_scanning(&self)
        requires
            self.wf(),
        ensures
            self.scan_wf(),
    {
        reveal(Compiler::inner_wf);
    }

    /// The tokens in hand are the tokens of the source that the state of the compilation
    /// names.
    pub closed spec fn tokens_ok(&self) -> bool {
        &&& is_token(self.src(), self.current, self.current_index@)
        &&& is_token(self.src(), self.previous, self.previous_index@)
        &&& self.current_number == number_index(self.src(), self.current_index@)
        &&& self.previous_number == number_index(self.src(), self.previous_index@)
    }

    /// The tokens in hand of a sound compiler are tokens of the source.
    proof fn lemma_tokens(&self)
        requires
            self.wf(),
        ensures
            self.tokens_ok(),
    {
        reveal(Compiler::inner_wf);
    }

    /// Each scope that is open was opened by a token that has been taken.
    proof fn lemma_room(&self)
        requires
            self.wf(),
        ensures
            self.scope_depth + self.remaining() <= self.src().len(),
    {
        reveal(Compiler::inner_wf);
    }

    /// Between statements every local has its initializer and its slot, and nothing else
    /// is on the stack.
    pub closed spec fn at_statement(&self) -> bool {
        self.had_error || (initialized(self.locals@) == self.locals@.len() && self.height()
            == self.locals@.len())
    }

    /// The scanner and the tokens in hand are those of `before`.
    pub closed spec fn same_tokens(&self, before: &Self) -> bool {
        &&& self.scanner == before.scanner
        &&& self.current == before.current
        &&& self.previous == before.previous
        &&& self.numbers == before.numbers
        &&& self.numbers_seen == before.numbers_seen
        &&& self.current_number == before.current_number
        &&& self.previous_number == before.previous_number
        &&& self.scanned == before.scanned
        &&& self.current_index == before.current_index
        &&& self.previous_index == before.previous_index
    }

    /// The scanner, the tokens in hand, the strings, the locals and the depth of the scope
    /// are those of `before`.
    pub closed spec fn same_parse(&self, before: &Self) -> bool {
        &&& self.same_tokens(before)
        &&& self.strings == before.strings
        &&& self.locals == before.locals
        &&& self.scope_depth == before.scope_depth
    }

    /// What every step of the compiler keeps: the source and the numbers are the same,
    /// nothing that was parsed comes back, an error stays reported, the chunk only grows,
    /// and the strings of the heap stay where they are.
    pub closed spec fn follows(&self, before: &Self) -> bool {
        &&& self.src() == before.src()
        &&& self.numbers == before.numbers
        &&& self.remaining() <= before.remaining()
        &&& before.had_error ==> self.had_error
        &&& self.chunk.code@.len() >= before.chunk.code@.len()
        &&& before.chunk.constants@.is_prefix_of(self.chunk.constants@)
        &&& before.strings@.is_prefix_of(self.strings@)
        &&& !self.had_error ==> before.cert@.heights.is_prefix_of(self.cert@.heights)
        &&& before.cert@.starts.subset_of(self.cert@.starts)
    }

    /// The compiler has taken no token of `source` and written nothing.
    pub closed spec fn fresh(&self, source: Seq<char>, numbers: Seq<u64>, strings: Heap) -> bool {
        &&& self.scan_wf()
        &&& self.src() == source
        &&& self.numbers@ == numbers
        &&& self.strings == strings
        &&& !self.had_error
        &&& self.good()
        &&& self.level_ok()
        &&& self.scope_depth == 0
        &&& self.scanned@ == 0
        &&& self.locals@.len() == 0
        &&& self.chunk.code@.len() == 0
        &&& self.height() == 0
        &&& self.cert@.pending == Map::<int, int>::empty()
        &&& self.cert@.starts == Set::<int>::empty()
        &&& self.model() == spec_fresh(source, numbers, strings@)
    }

    /// A compiler at the start of `source`. No token has been taken yet.
    pub fn new(source: &'a str, numbers: &'a Vec<u64>, strings: Heap) -> (compiler: Compiler<'a>)
        requires
            strings.wf(),
        ensures
            compiler.fresh(source@, numbers@, strings),
    {
        proof {
            reveal(sound);
        }
        let compiler = Compiler {
            scanner: Scanner::new(source),
            current: Token { ty: TokenType::Eof, string: String::new(), line: 0 },
            previous: Token { ty: TokenType::Eof, string: String::new(), line: 0 },
            numbers,
            numbers_seen: 0,
            current_number: 0,
            previous_number: 0,
            had_error: false,
            panic_mode: false,
            chunk: Chunk::new(),
            strings,
            locals: LocalStack::new(),
            scope_depth: 0,
            diagnostics: String::new(),
            scanned: Ghost(0),
            current_index: Ghost(0),
            previous_index: Ghost(0),
            cert: Ghost(
                Certificate {
                    heights: seq![0int],
                    pending: Map::<int, int>::empty(),
                    origins: Seq::<nat>::empty(),
                    starts: Set::<int>::empty(),
                },
            ),
        };
        proof {
            assert(compiler.chunk.ops() =~= Seq::<OpCode>::empty());
            assert(locals_view(compiler.locals@) =~= Seq::<LocalView>::empty());
            assert(compiler.chunk.code@ =~= Seq::<(OpCode, usize)>::empty());
        }
        compiler
    }

    /// Reports an error at the token in hand (`at_current`) or at the one before it,
    /// unless an error is already being recovered from.
    fn error_at(&mut self, at_current: bool, msg: &str)
        requires
            old(self).scan_wf(),
            if at_current {
                is_token(old(self).src(), old(self).current, old(self).current_index@)
            } else {
                is_token(old(self).src(), old(self).previous, old(self).previous_index@)
            },
        ensures
            final(self).scan_wf(),
            final(self).model() == spec_error_at(old(self).model(), at_current, msg@),
            final(self).had_error,
            final(self).panic_mode,
            final(self).chunk == old(self).chunk,
            final(self).cert == old(self).cert,
            final(self).same_parse(&*old(self)),
            old(self).panic_mode ==> final(self).diagnostics@ == old(self).diagnostics@,
            !old(self).panic_mode ==> final(self).diagnostics@ == old(self).diagnostics@
                + spec_compile_report(
                if at_current {
                    old(self).current.ty
                } else {
                    old(self).previous.ty
                },
                if at_current {
                    old(self).current.string@
                } else {
                    old(self).previous.string@
                },
                if at_current {
                    old(self).current.line as nat
                } else {
                    old(self).previous.line as nat
                },
                msg@,
            ),
    {
        if self.panic_mode {
            return ;
        }
        self.panic_mode = true;
        let report = if at_current {
            compile_report(self.current.ty, self.current.string.as_str(), self.current.line, msg)
        } else {
            compile_report(
                self.previous.ty,
                self.previous.string.as_str(),
                self.previous.line,
                msg,
            )
        };
        proof {
            reveal_strlit("[line ");
            assert(report@.len() > 0);
        }
        self.diagnostics.append(report.as_str());
        self.had_error = true;
    }

    /// Reports an error at the token before the one in hand.
    fn error(&mut self, msg: &str)
        requires
            old(self).wf(),
        ensures
            final(self).wf(),
            final(self).model() == spec_error(old(self).model(), msg@),
            final(self).follows(&*old(self)),
            final(self).had_error,
            final(self).same_parse(&*old(self)),
            final(self).chunk == old(self).chunk,
            final(self).cert == old(self).cert,
    {
        proof {
            reveal(Compiler::inner_wf);
        }
        self.error_at(false, msg);
    }

    /// Reports an error at the token in hand.
    fn error_at_current(&mut self, msg: &str)
        requires
            old(self).wf(),
        ensures
            final(self).wf(),
            final(self).model() == spec_error_at(old(self).model(), true, msg@),
            final(self).follows(&*old(self)),
            final(self).had_error,
            final(self).same_parse(&*old(self)),
            final(self).chunk == old(self).chunk,
            final(self).cert == old(self).cert,
    {
        proof {
            reveal(Compiler::inner_wf);
        }
        self.error_at(true, msg);
    }
}

impl<'a> Compiler<'a> {
    /// Takes the next token that is no error token; the token in hand becomes the
    /// previous one. Each error token on the way is reported.
    fn advance(&mut self)
        requires
            old(self).scan_wf(),
        ensures
            final(self).scan_wf(),
            final(self).model() == spec_advance(old(self).model()),
            final(self).remaining() <= old(self).remaining(),
            final(self).src() == old(self).src(),
            final(self).numbers == old(self).numbers,
            final(self).previous == old(self).current,
            final(self).previous_index == old(self).current_index,
            final(self).previous_number == old(self).current_number,
            is_token(final(self).src(), final(self).current, final(self).current_index@),
            final(self).current_number == number_index(final(self).src(), final(self).current_index@),
            final(self).current_index@ < final(self).scanned@,
            final(self).current.ty == TokenType::Eof ==> final(self).scanner.position() == final(self).src().len(),
            old(self).had_error ==> final(self).had_error,
            final(self).chunk == old(self).chunk,
            final(self).cert == old(self).cert,
            final(self).strings == old(self).strings,
            final(self).locals == old(self).locals,
            final(self).scope_depth == old(self).scope_depth,
            final(self).scanner.position() >= old(self).scanner.position(),
            final(self).current.ty != TokenType::Eof ==> final(self).scanner.position() > old(self).scanner.position(),
            old(self).wf() ==> final(self).wf(),
            old(self).wf() ==> final(self).follows(&*old(self)),
            old(self).wf() && old(self).current.ty != TokenType::Eof ==> final(self).remaining()
                < old(self).remaining(),
    {
        proof {
            reveal(tokens_left);
        }
        proof {
            reveal(Compiler::inner_wf);
            reveal(in_order);
        }
        proof {
            self.scanner.lemma_position_bounds();
        }
        core::mem::swap(&mut self.previous, &mut self.current);
        self.previous_number = self.current_number;
        self.previous_index = Ghost(self.current_index@);
        let mut done = false;
        let ghost mut moved = false;
        let ghost start = Parse { previous: old(self).model().current, ..old(self).model() };
        while !done
            invariant
                self.scan_wf(),
                start == (Parse { previous: old(self).model().current, ..old(self).model() }),
                !done ==> spec_skip_errors(self.model()) == spec_skip_errors(start),
                done ==> self.model() == spec_skip_errors(start),
                self.src() == old(self).src(),
                self.numbers == old(self).numbers,
                self.previous == old(self).current,
                self.previous_index == old(self).current_index,
                self.previous_number == old(self).current_number,
                self.scanned@ >= old(self).scanned@,
                done ==> self.current_index@ >= old(self).scanned@,
                old(self).had_error ==> self.had_error,
                self.chunk == old(self).chunk,
                self.cert == old(self).cert,
                self.strings == old(self).strings,
                self.locals == old(self).locals,
                self.scope_depth == old(self).scope_depth,
                self.scanner.position() >= old(self).scanner.position(),
                moved ==> self.scanner.position() > old(self).scanner.position(),
                !done ==> (self.had_error == old(self).had_error || self.had_error),
                done ==> {
                    &&& is_token(self.src(), self.current, self.current_index@)
                    &&& self.current_number == number_index(self.src(), self.current_index@)
                    &&& self.current_index@ < self.scanned@
                    &&& self.current.ty == TokenType::Eof ==> self.scanner.position()
                        == self.src().len()
                    &&& self.current.ty != TokenType::Eof ==> moved
                    &&& self.current.ty != TokenType::Error
                },
                !moved ==> self.had_error == old(self).had_error && self.diagnostics == old(self).diagnostics && self.panic_mode == old(self).panic_mode,
            decreases self.src().len() - self.scanner.position(), (if done { 0int } else { 1int }),
        {
            proof {
                self.scanner.lemma_position_bounds();
                lemma_scan_progress(
                    self.src(),
                    self.scanner.position(),
                    self.scanner.current_line(),
                );
                lemma_scan_state_bounds(self.src(), self.scanned@);
            }
            let ghost before = self.model();
            let token = self.scanner.scan_token();
            let is_number = token.ty == TokenType::Number;
            self.current = token;
            self.current_index = Ghost(self.scanned@);
            self.current_number = self.numbers_seen;
            self.scanned = Ghost(self.scanned@ + 1);
            proof {
                self.scanner.lemma_position_bounds();
                if self.current.ty != TokenType::Eof {
                    moved = true;
                }
            }
            if is_number {
                self.numbers_seen += 1;
            }
            proof {
                assert(self.model() == (Parse {
                    current: before.scanned,
                    scanned: before.scanned + 1,
                    ..before
                }));
            }
            if self.current.ty != TokenType::Error {
                done = true;
            } else {
                let msg = self.current.string.clone();
                self.error_at(true, msg.as_str());
            }
        }
        proof {
            self.scanner.lemma_position_bounds();
            old(self).scanner.lemma_position_bounds();
            lemma_scan_state_bounds(self.src(), old(self).scanned@);
            lemma_scan_state_bounds(self.src(), self.scanned@);
        }
    }

    /// Whether the token in hand is of kind `ty`.
    fn check(&self, ty: TokenType) -> (same: bool)
        ensures
            same == (self.current.ty == ty),
    {
        self.current.ty == ty
    }

    /// Takes the token in hand if it is of kind `ty`.
    fn match_(&mut self, ty: TokenType) -> (matched: bool)
        requires
            old(self).wf(),
        ensures
            final(self).wf(),
            (final(self).model(), matched) == spec_match(old(self).model(), ty),
            final(self).follows(&*old(self)),
            matched == (old(self).current.ty == ty),
            !matched ==> *final(self) == *old(self),
            matched ==> final(self).previous == old(self).current,
            matched && ty != TokenType::Eof ==> final(self).remaining() < old(self).remaining(),
            final(self).chunk == old(self).chunk,
            final(self).cert == old(self).cert,
            final(self).strings == old(self).strings,
            final(self).locals == old(self).locals,
            final(self).scope_depth == old(self).scope_depth,
    {
        proof {
            reveal(Compiler::inner_wf);
        }
        if !self.check(ty) {
            false
        } else {
            self.advance();
            true
        }
    }

    /// Takes the token in hand if it is of kind `ty`, and reports `msg` at it if not.
    fn consume(&mut self, ty: TokenType, msg: &str)
        requires
            old(self).wf(),
        ensures
            final(self).wf(),
            final(self).model() == spec_consume(old(self).model(), ty, msg@),
            final(self).follows(&*old(self)),
            old(self).current.ty != ty ==> final(self).had_error,
            old(self).current.ty == ty ==> final(self).previous == old(self).current,
            final(self).chunk == old(self).chunk,
            final(self).cert == old(self).cert,
            final(self).strings == old(self).strings,
            final(self).locals == old(self).locals,
            final(self).scope_depth == old(self).scope_depth,
    {
        proof {
            reveal(Compiler::inner_wf);
        }
        if self.current.ty == ty {
            self.advance();
            return ;
        }
        self.error_at_current(msg);
    }

    /// Ends the recovery from an error: skips to the end of the statement in which it
    /// happened, or to a token that starts a statement.
    fn synchronize(&mut self)
        requires
            old(self).wf(),
        ensures
            final(self).wf(),
            final(self).model() == spec_synchronize(old(self).model()),
            final(self).follows(&*old(self)),
            final(self).chunk == old(self).chunk,
            final(self).cert == old(self).cert,
            final(self).strings == old(self).strings,
            final(self).locals == old(self).locals,
            final(self).scope_depth == old(self).scope_depth,
    {
        proof {
            reveal(Compiler::inner_wf);
        }
        proof {
            self.lemma_tokens();
        }
        self.panic_mode = false;
        let ghost start = Parse { panic_mode: false, ..old(self).model() };
        while self.current.ty != TokenType::Eof
            invariant
                self.wf(),
                start == (Parse { panic_mode: false, ..old(self).model() }),
                spec_skip_statement(self.model()) == spec_skip_statement(start),
                self.tokens_ok(),
                self.follows(&*old(self)),
                self.chunk == old(self).chunk,
                self.cert == old(self).cert,
                self.strings == old(self).strings,
                self.locals == old(self).locals,
                self.scope_depth == old(self).scope_depth,
            ensures
                self.model() == spec_skip_statement(start),
                self.wf(),
                self.follows(&*old(self)),
                self.chunk == old(self).chunk,
                self.cert == old(self).cert,
                self.strings == old(self).strings,
                self.locals == old(self).locals,
                self.scope_depth == old(self).scope_depth,
            decreases self.remaining(),
        {
            proof {
                self.lemma_tokens();
            }
            if self.previous.ty == TokenType::Semicolon {
                break ;
            }
            match self.current.ty {
                TokenType::Class
                | TokenType::Fun
                | TokenType::Var
                | TokenType::For
                | TokenType::If
                | TokenType::While
                | TokenType::Print
                | TokenType::Return => {
                    break ;
                },
                _ => {},
            }
            proof {
                self.lemma_scanning();
            }
            self.advance();
            proof {
                self.lemma_tokens();
            }
        }
    }
}

impl<'a> Compiler<'a> {
    /// The instructions written so far.
    pub closed spec fn ops(&self) -> Seq<OpCode> {
        self.chunk.ops()
    }

    /// The jumps that wait for their target, each with the height at which the target
    /// must stand.
    pub closed spec fn pending(&self) -> Map<int, int> {
        self.cert@.pending
    }

    /// The instruction `op` has been written since `before`, on the line of the previous
    /// token, and the next instruction stands at the height `next`. Nothing else has
    /// changed.
    pub closed spec fn wrote(&self, before: &Self, op: OpCode, next: int) -> bool {
        &&& self.same_parse(before)
        &&& self.had_error == before.had_error
        &&& self.panic_mode == before.panic_mode
        &&& self.diagnostics == before.diagnostics
        &&& self.chunk.code@ == before.chunk.code@.push((op, before.previous.line))
        &&& self.chunk.constants@ == before.chunk.constants@
        &&& self.cert@.heights == before.cert@.heights.push(next)
        &&& self.cert@.starts == before.cert@.starts
        &&& self.height() == next
        &&& self.cert@.pending == if op is JumpIfFalse || op is Jump {
            before.cert@.pending.insert(before.chunk.code@.len() as int, before.height())
        } else {
            before.cert@.pending
        }
    }

    /// What writing `op` asks for while no error has been reported: the instruction finds
    /// its operands and what it names, and the height `next` is the one it leaves.
    pub closed spec fn may_write(&self, op: OpCode, next: int) -> bool {
        self.had_error || {
            &&& operands(op) <= self.height()
            &&& op is Return ==> self.height() == 0
            &&& falls_through(op) ==> next == self.height() + effect(op)
            &&& op matches OpCode::Loop { offset } ==> 1 <= offset <= self.chunk.code@.len() + 1
                && self.cert@.heights[self.chunk.code@.len() + 1 - offset] == self.height()
            &&& op_ok(
                op,
                self.chunk.code@.len() as int,
                (self.chunk.code@.len() + 1) as int,
                self.chunk.constants@,
                self.strings@,
            )
            &&& initialized(self.locals@) <= next
        }
    }

    /// Writes an instruction, with the line of the previous token.
    fn write_op(&mut self, op: OpCode, Ghost(next): Ghost<int>)
        requires
            old(self).wf(),
            old(self).may_write(op, next),
        ensures
            final(self).wf(),
            final(self).model() == spec_emit(old(self).model(), op),
            final(self).follows(&*old(self)),
            final(self).wrote(&*old(self), op, next),
    {
        proof {
            reveal(Compiler::inner_wf);
        }
        proof {
            reveal(sound);
            reveal(in_order);
        }
        let ghost before_ops = self.chunk.ops();
        self.chunk.write(op, self.previous.line);
        proof {
            let cert = self.cert@;
            assert(self.chunk.ops() =~= before_ops.push(op));
            if !self.had_error {
                lemma_fits_push(before_ops, cert.heights, cert.pending, op, next);
            }
        }
        self.cert = Ghost(
            Certificate {
                heights: self.cert@.heights.push(next),
                pending: if op is JumpIfFalse || op is Jump {
                    self.cert@.pending.insert(
                        old(self).chunk.code@.len() as int,
                        self.cert@.heights.last(),
                    )
                } else {
                    self.cert@.pending
                },
                origins: self.cert@.origins.push(self.previous_index@),
                starts: self.cert@.starts,
            },
        );
        proof {
            if !self.had_error {
                assert(old(self).cert@.heights.is_prefix_of(self.cert@.heights));
                assert forall|i: int| 0 <= i < self.chunk.code@.len() implies op_ok(
                    (#[trigger] self.chunk.code@[i]).0,
                    i,
                    self.chunk.code@.len() as int,
                    self.chunk.constants@,
                    self.strings@,
                ) by {
                    if i < old(self).chunk.code@.len() {
                        assert(op_ok(
                            old(self).chunk.code@[i].0,
                            i,
                            old(self).chunk.code@.len() as int,
                            old(self).chunk.constants@,
                            old(self).strings@,
                        ));
                    }
                }
            }
        }
    }

    /// Writes an instruction that is no jump and does not end the program.
    fn emit_op(&mut self, op: OpCode)
        requires
            old(self).wf(),
            falls_through(op),
            !(op is JumpIfFalse),
            old(self).may_write(op, old(self).height() + effect(op)),
        ensures
            final(self).wf(),
            final(self).model() == spec_emit(old(self).model(), op),
            final(self).follows(&*old(self)),
            final(self).wrote(&*old(self), op, old(self).height() + effect(op)),
    {
        self.write_op(op, Ghost(self.height() + effect(op)));
    }

    /// Writes two instructions.
    fn emit_ops(&mut self, op1: OpCode, op2: OpCode)
        requires
            old(self).wf(),
            falls_through(op1),
            !(op1 is JumpIfFalse),
            falls_through(op2),
            !(op2 is JumpIfFalse),
            old(self).may_write(op1, old(self).height() + effect(op1)),
            old(self).had_error || (operands(op2) <= old(self).height() + effect(op1) && op_ok(
                op2,
                (old(self).chunk.code@.len() + 1) as int,
                (old(self).chunk.code@.len() + 2) as int,
                old(self).chunk.constants@,
                old(self).strings@,
            ) && initialized(old(self).locals@) <= old(self).height() + effect(op1) + effect(op2)),
        ensures
            final(self).wf(),
            final(self).model() == spec_emit(spec_emit(old(self).model(), op1), op2),
            final(self).follows(&*old(self)),
            final(self).same_parse(&*old(self)),
            final(self).had_error == old(self).had_error,
            final(self).chunk.code@.len() == old(self).chunk.code@.len() + 2,
            final(self).chunk.constants@ == old(self).chunk.constants@,
            final(self).pending() == old(self).pending(),
            final(self).height() == old(self).height() + effect(op1) + effect(op2),
    {
        self.emit_op(op1);
        self.emit_op(op2);
    }

    /// Writes a forward jump whose target is not known yet, and returns the index of the
    /// instruction after it. `next` is the height at which that instruction stands.
    fn emit_jump(&mut self, op: OpCode, Ghost(next): Ghost<int>) -> (location: usize)
        requires
            old(self).wf(),
            op == (OpCode::JumpIfFalse { offset: 0 }) || op == (OpCode::Jump { offset: 0 }),
            old(self).had_error || ((op is JumpIfFalse ==> old(self).height() >= 1 && next == old(self).height()) && initialized(old(self).locals@) <= next),
        ensures
            final(self).wf(),
            final(self).model() == spec_emit(old(self).model(), op),
            final(self).follows(&*old(self)),
            final(self).wrote(&*old(self), op, next),
            location == final(self).chunk.code@.len(),
            location == old(self).chunk.code@.len() + 1,
            !final(self).had_error ==> !old(self).pending().dom().contains(location - 1),
    {
        proof {
            reveal(Compiler::inner_wf);
        }
        proof {
            reveal(sound);
        }
        self.write_op(op, Ghost(next));
        self.chunk.code.len()
    }

    /// Writes the jump back to the instruction at `chunk_loc`. `next` is the height at
    /// which the instruction after the jump stands. A jump over more than 65 535
    /// instructions is an error.
    fn emit_loop(&mut self, chunk_loc: usize, Ghost(next): Ghost<int>)
        requires
            old(self).wf(),
            chunk_loc <= old(self).chunk.code@.len(),
            old(self).had_error || (old(self).cert@.heights[chunk_loc as int] == old(self).height() && initialized(old(self).locals@) <= next),
        ensures
            final(self).wf(),
            final(self).model() == spec_emit_loop(old(self).model(), chunk_loc as int),
            final(self).follows(&*old(self)),
            final(self).same_parse(&*old(self)),
            final(self).chunk.constants@ == old(self).chunk.constants@,
            !final(self).had_error ==> final(self).chunk.code@.len() == old(self).chunk.code@.len()
                + 1 && final(self).pending() == old(self).pending() && final(self).height()
                == next && final(self).cert@.heights == old(self).cert@.heights.push(next),
    {
        let offset = self.chunk.code.len() - chunk_loc;
        if offset >= 0xffff {
            self.error("Loop body too large.");
            return ;
        }
        self.write_op(OpCode::Loop { offset: (offset + 1) as u16 }, Ghost(next));
    }

    /// Gives the jump written just before `opcode_loc` the next instruction to be written
    /// as its target. A jump over more than 65 535 instructions is an error.
    fn patch_jump(&mut self, opcode_loc: usize)
        requires
            old(self).wf(),
            1 <= opcode_loc <= old(self).chunk.code@.len(),
            old(self).had_error || (old(self).pending().dom().contains(opcode_loc - 1) && old(self).pending()[opcode_loc - 1] == old(self).height()),
        ensures
            final(self).wf(),
            final(self).model() == spec_patch_jump(old(self).model(), opcode_loc as int),
            final(self).follows(&*old(self)),
            final(self).same_parse(&*old(self)),
            final(self).chunk.code@.len() == old(self).chunk.code@.len(),
            final(self).chunk.constants@ == old(self).chunk.constants@,
            final(self).cert@.heights == old(self).cert@.heights,
            !final(self).had_error ==> final(self).pending() == old(self).pending().remove(
                opcode_loc - 1,
            ),
    {
        proof {
            reveal(Compiler::inner_wf);
        }
        proof {
            reveal(sound);
        }
        let jump = self.chunk.code.len() - opcode_loc;
        if jump > 0xffff {
            self.error("Too much code to jump over.");
            return ;
        }
        let (op, line) = self.chunk.code[opcode_loc - 1];
        let ghost before_ops = self.chunk.ops();
        let ghost before_code = self.chunk.code@;
        let fixed = match op {
            OpCode::JumpIfFalse { offset: _ } => OpCode::JumpIfFalse { offset: jump as u16 },
            OpCode::Jump { offset: _ } => OpCode::Jump { offset: jump as u16 },
            _ => op,
        };
        self.chunk.code[opcode_loc - 1] = (fixed, line);
        proof {
            assert(self.chunk.ops() =~= before_ops.update(
                opcode_loc - 1,
                patched(before_ops[opcode_loc - 1], jump as u16),
            ));
            if !self.had_error {
                lemma_fits_patch(
                    before_ops,
                    self.cert@.heights,
                    self.cert@.pending,
                    opcode_loc - 1,
                    jump as u16,
                );
                assert forall|i: int| 0 <= i < self.chunk.code@.len() implies op_ok(
                    (#[trigger] self.chunk.code@[i]).0,
                    i,
                    self.chunk.code@.len() as int,
                    self.chunk.constants@,
                    self.strings@,
                ) by {
                    assert(op_ok(
                        before_code[i].0,
                        i,
                        before_code.len() as int,
                        self.chunk.constants@,
                        self.strings@,
                    ));
                }
                assert forall|i: int| 0 <= i < self.chunk.code@.len() implies (
                #[trigger] self.chunk.code@[i]).1 == spec_token(
                    self.src(),
                    self.cert@.origins[i],
                ).line by {
                    assert(before_code[i].1 == spec_token(self.src(), self.cert@.origins[i]).line);
                }
            }
        }
        self.cert = Ghost(
            Certificate { pending: self.cert@.pending.remove(opcode_loc - 1), ..self.cert@ },
        );
    }

    /// Adds a constant to the chunk and returns its index. More than 256 constants are an
    /// error.
    fn make_constant(&mut self, value: Value) -> (location: u8)
        requires
            old(self).wf(),
            old(self).had_error || ((value matches Value::Object(handle) ==> texts_contain(
                old(self).strings@,
                handle,
            )) && (value matches Value::Number(bits) ==> number_of_token(
                old(self).src(),
                old(self).numbers@,
                bits,
            ))),
        ensures
            final(self).wf(),
            (final(self).model(), location) == spec_make_constant(old(self).model(), value),
            final(self).follows(&*old(self)),
            final(self).same_parse(&*old(self)),
            final(self).chunk.code@ == old(self).chunk.code@,
            final(self).cert == old(self).cert,
            !final(self).had_error ==> location < final(self).chunk.constants@.len() && final(self).chunk.constants@[location as int] == value,
    {
        proof {
            reveal(Compiler::inner_wf);
        }
        proof {
            reveal(sound);
        }
        if self.chunk.constants.len() == MAX_CONSTANTS {
            self.error("Too many constants in one chunk.");
            return 0;
        }
        let ghost before = self.chunk.constants@;
        let location = self.chunk.add_constant(value);
        proof {
            if !self.had_error {
                assert forall|i: int| 0 <= i < self.chunk.code@.len() implies op_ok(
                    (#[trigger] self.chunk.code@[i]).0,
                    i,
                    self.chunk.code@.len() as int,
                    self.chunk.constants@,
                    self.strings@,
                ) by {
                    assert(op_ok(
                        self.chunk.code@[i].0,
                        i,
                        self.chunk.code@.len() as int,
                        before,
                        self.strings@,
                    ));
                }
                assert forall|k: int| 0 <= k < self.chunk.constants@.len() implies (
                #[trigger] self.chunk.constants@[k] matches Value::Object(handle)
                    ==> texts_contain(self.strings@, handle)) by {
                    if k < before.len() {
                        assert(self.chunk.constants@[k] == before[k]);
                    }
                }
                assert forall|k: int| 0 <= k < self.chunk.constants@.len() implies (
                #[trigger] self.chunk.constants@[k] matches Value::Number(bits)
                    ==> number_of_token(self.src(), self.numbers@, bits)) by {
                    if k < before.len() {
                        assert(self.chunk.constants@[k] == before[k]);
                    }
                }
            }
        }
        location
    }

    /// Writes the instruction that pushes `value`.
    fn emit_constant(&mut self, value: Value)
        requires
            old(self).wf(),
            old(self).had_error || ((value matches Value::Object(handle) ==> texts_contain(
                old(self).strings@,
                handle,
            )) && (value matches Value::Number(bits) ==> number_of_token(
                old(self).src(),
                old(self).numbers@,
                bits,
            ))),
        ensures
            final(self).wf(),
            final(self).model() == spec_emit_constant(old(self).model(), value),
            final(self).follows(&*old(self)),
            final(self).same_parse(&*old(self)),
            !final(self).had_error ==> final(self).pending() == old(self).pending() && final(self).height() == old(self).height() + 1,
    {
        let location = self.make_constant(value);
        self.emit_op(OpCode::Constant { location });
    }

    /// Writes the instruction that ends the program. With it the chunk is finished.
    fn end_compiler(&mut self)
        requires
            old(self).wf(),
            old(self).had_error || (old(self).height() == 0 && old(self).pending() == Map::<
                int,
                int,
            >::empty()),
            old(self).had_error || old(self).previous.ty == TokenType::Eof,
        ensures
            final(self).wf(),
            final(self).model() == spec_emit(old(self).model(), OpCode::Return),
            final(self).follows(&*old(self)),
            final(self).wrote(&*old(self), OpCode::Return, 0),
            !final(self).had_error ==> compiled(
                final(self).src(),
                final(self).numbers@,
                final(self).chunk.code@,
                final(self).chunk.constants@,
                final(self).strings@,
            ),
            !final(self).had_error ==> rests_at(
                Seq::new(final(self).chunk.code@.len(), |i: int| final(self).chunk.code@[i].0),
                final(self).starts(),
            ),
    {
        proof {
            reveal(Compiler::inner_wf);
        }
        self.write_op(OpCode::Return, Ghost(0));
        proof {
            reveal(sound);
            if !self.had_error {
                let ops = self.chunk.ops();
                let before = old(self).chunk.ops();
                let heights = self.cert@.heights;
                assert(ops =~= before.push(OpCode::Return));
                assert forall|i: int| 0 <= i < ops.len() implies match jump_target(
                    #[trigger] ops[i],
                    i,
                ) {
                    Some(target) => target < ops.len(),
                    None => true,
                } by {
                    if i < before.len() {
                        assert(target_ok(before, old(self).cert@.heights, i));
                    }
                }
                assert(certifies(ops, heights));
                assert(empty_at(heights, self.starts()));
                assert forall|i: int| 0 <= i < self.chunk.code@.len() implies exists|k: nat|
                    (#[trigger] self.chunk.code@[i]).1 == spec_token(self.src(), k).line by {
                    let k = self.cert@.origins[i];
                    assert(self.chunk.code@[i].1 == spec_token(self.src(), k).line);
                }
                assert forall|i: int| 0 <= i < self.chunk.code@.len() implies 1 <= (
                #[trigger] self.chunk.code@[i]).1 <= 1 + line_breaks(
                    self.src(),
                    0,
                    self.src().len() as int,
                ) by {
                    lemma_token_line_bounds(self.src(), self.cert@.origins[i]);
                }
                reveal(in_order);
                let origins = self.cert@.origins;
                assert forall|i: int, j: int| 0 <= i <= j < self.chunk.code@.len() implies (
                #[trigger] self.chunk.code@[i]).1 <= (#[trigger] self.chunk.code@[j]).1 by {
                    assert(origins[i] <= origins[j]);
                    lemma_token_lines(self.src(), origins[i], origins[j]);
                }
                let last = old(self).previous_index@;
                assert(is_token(self.src(), old(self).previous, last));
                assert(spec_token(self.src(), last).ty == TokenType::Eof);
                assert(self.chunk.code@.last().1 == spec_token(self.src(), last).line);
            }
        }
    }
}

/// The locals as the state of a compilation holds them: the name and the depth of each.
pub open spec fn locals_view(locals: Seq<Local>) -> Seq<LocalView> {
    Seq::new(locals.len(), |i: int| LocalView { name: locals[i].name.string@, depth: locals[i].depth })
}

/// A string of a heap is a string of every heap that extends it.
proof fn lemma_texts_grow(before: Seq<Seq<char>>, after: Seq<Seq<char>>, handle: ObjRef)
    requires
        before.is_prefix_of(after),
        texts_contain(before, handle),
    ensures
        texts_contain(after, handle),
{
    assert(after[handle.index as int] == before[handle.index as int]);
}

impl<'a> Compiler<'a> {
    /// While no error has been reported, no local is deeper than the current scope, and
    /// only the innermost may lack its initializer.
    proof fn lemma_locals(&self)
        requires
            self.wf(),
            !self.had_error,
        ensures
            locals_ok(self.locals@, self.scope_depth),
    {
        reveal(sound);
        reveal(Compiler::inner_wf);
    }

    /// Opens a scope.
    fn begin_scope(&mut self)
        requires
            old(self).wf(),
            old(self).scope_depth + old(self).remaining() < old(self).src().len(),
        ensures
            final(self).wf(),
            final(self).model() == spec_begin_scope(old(self).model()),
            final(self).follows(&*old(self)),
            *final(self) == (Compiler { scope_depth: final(self).scope_depth, ..*old(self) }),
            final(self).scope_depth == old(self).scope_depth + 1,
            final(self).remaining() == old(self).remaining(),
            final(self).height() == old(self).height(),
            final(self).pending() == old(self).pending(),
            old(self).at_statement() ==> final(self).at_statement(),
    {
        proof {
            reveal(tokens_left);
        }
        proof {
            reveal(Compiler::inner_wf);
        }
        proof {
            reveal(sound);
        }
        proof {
            self.scanner.lemma_position_bounds();
        }
        self.scope_depth += 1;
    }

    /// Closes a scope: its locals go out of scope, and for each of them an instruction
    /// takes its value off the stack. `outer` is the number of locals of the scopes around.
    fn end_scope(&mut self, Ghost(outer): Ghost<int>)
        requires
            old(self).wf(),
            old(self).scope_depth > 0,
            old(self).at_statement(),
            old(self).had_error || {
                &&& 0 <= outer <= old(self).locals@.len()
                &&& forall|j: int|
                    outer <= j < old(self).locals@.len() ==> (#[trigger] old(self).locals@[j]).depth
                        == Some(old(self).scope_depth)
                &&& forall|j: int|
                    0 <= j < outer ==> (#[trigger] old(self).locals@[j]).depth->0 < old(self).scope_depth
            },
        ensures
            final(self).wf(),
            final(self).model() == spec_end_scope(old(self).model()),
            final(self).follows(&*old(self)),
            final(self).same_tokens(&*old(self)),
            final(self).strings == old(self).strings,
            final(self).had_error == old(self).had_error,
            final(self).at_statement(),
            final(self).scope_depth == old(self).scope_depth - 1,
            !final(self).had_error ==> final(self).locals@ == old(self).locals@.take(outer)
                && final(self).pending() == old(self).pending(),
    {
        proof {
            reveal(tokens_left);
        }
        proof {
            reveal(Compiler::inner_wf);
        }
        proof {
            reveal(sound);
        }
        let target = self.scope_depth - 1;
        proof {
            if !self.had_error {
                assert(self.locals@.take(self.locals@.len() as int) =~= self.locals@);
            }
        }
        loop
            invariant
                self.wf(),
                self.follows(&*old(self)),
                self.same_tokens(&*old(self)),
                self.strings == old(self).strings,
                self.had_error == old(self).had_error,
                self.at_statement(),
                self.scope_depth == old(self).scope_depth,
                target == old(self).scope_depth - 1,
                spec_drop_locals(self.model(), target as int) == spec_drop_locals(
                    old(self).model(),
                    target as int,
                ),
                !self.had_error ==> outer <= self.locals@.len() <= old(self).locals@.len()
                    && self.locals@ == old(self).locals@.take(self.locals@.len() as int)
                    && self.pending() == old(self).pending(),
                old(self).had_error || {
                    &&& 0 <= outer <= old(self).locals@.len()
                    &&& forall|j: int|
                        outer <= j < old(self).locals@.len() ==> (#[trigger] old(self).locals@[j]).depth == Some(old(self).scope_depth)
                    &&& forall|j: int|
                        0 <= j < outer ==> (#[trigger] old(self).locals@[j]).depth->0 < old(self).scope_depth
                },
            ensures
                !self.had_error ==> self.locals@.len() == outer,
                self.model() == spec_drop_locals(old(self).model(), target as int),
            decreases self.locals@.len(),
        {
            let count = self.locals.len();
            if count == 0 {
                break ;
            }
            let goes = match self.locals.get(count - 1).depth {
                Some(depth) => depth > target,
                None => false,
            };
            if !goes {
                proof {
                    if !self.had_error {
                        assert(self.locals@[count - 1] == old(self).locals@[count - 1]);
                    }
                }
                break ;
            }
            let ghost before = self.locals@;
            let ghost before_model = self.model();
            self.locals.pop();
            proof {
                assert(locals_view(self.locals@) =~= before_model.locals.drop_last());
                reveal(sound);
                reveal(Compiler::inner_wf);
                if !self.had_error {
                    assert(before[count - 1] == old(self).locals@[count - 1]);
                    assert(self.locals@ =~= old(self).locals@.take(count - 1));
                    assert forall|j: int| 0 <= j < self.locals@.len() implies (
                    #[trigger] self.locals@[j]).depth is Some by {
                        assert(self.locals@[j] == before[j]);
                    }
                }
            }
            self.emit_op(OpCode::Pop);
        }
        proof {
            reveal(sound);
            reveal(Compiler::inner_wf);
            if !self.had_error {
                assert forall|j: int|
                    0 <= j < self.locals@.len() && (#[trigger] self.locals@[j]).depth is Some implies self.locals@[j].depth->0
                    <= target by {
                    assert(self.locals@[j] == old(self).locals@[j]);
                }
            }
            self.scanner.lemma_position_bounds();
        }
        self.scope_depth = target;
    }

    /// Whether two tokens have the same text.
    fn identifiers_equal(a: &Token, b: &Token) -> (equal: bool)
        ensures
            equal == (a.string@ == b.string@),
    {
        a.string == b.string
    }

    /// Declares a local variable that has no value yet. More than 256 locals are an error.
    fn add_local(&mut self, token: Token)
        requires
            old(self).wf(),
            old(self).at_statement(),
            old(self).scope_depth > 0,
        ensures
            final(self).wf(),
            final(self).model() == spec_add_local(old(self).model(), token.string@),
            final(self).follows(&*old(self)),
            final(self).same_tokens(&*old(self)),
            final(self).strings == old(self).strings,
            final(self).scope_depth == old(self).scope_depth,
            final(self).chunk == old(self).chunk,
            final(self).cert == old(self).cert,
            !final(self).had_error ==> final(self).locals@ == old(self).locals@.push(
                Local { name: token, depth: None },
            ),
    {
        proof {
            reveal(Compiler::inner_wf);
        }
        proof {
            reveal(sound);
        }
        if self.locals.len() == U8_COUNT {
            self.error("Too many local variables in function.");
            return ;
        }
        self.locals.push(Local { name: token, depth: None });
        proof {
            assert(locals_view(self.locals@) =~= locals_view(old(self).locals@).push(
                LocalView { name: token.string@, depth: None },
            ));
        }
    }

    /// Gives the innermost local the depth of the current scope: from now on it can be
    /// read.
    fn mark_initialized(&mut self)
        requires
            old(self).wf(),
            old(self).had_error || (old(self).locals@.len() >= 1 && old(self).height() >= old(self).locals@.len()),
        ensures
            final(self).wf(),
            final(self).model() == spec_mark_initialized(old(self).model()),
            final(self).follows(&*old(self)),
            final(self).same_tokens(&*old(self)),
            final(self).strings == old(self).strings,
            final(self).scope_depth == old(self).scope_depth,
            final(self).chunk == old(self).chunk,
            final(self).cert == old(self).cert,
            final(self).had_error == old(self).had_error,
            !final(self).had_error ==> final(self).locals@ == old(self).locals@.drop_last().push(
                Local { name: old(self).locals@.last().name, depth: Some(old(self).scope_depth) },
            ),
    {
        proof {
            reveal(Compiler::inner_wf);
        }
        proof {
            reveal(sound);
        }
        match self.locals.pop() {
            Some(local) => {
                let Local { name, depth: _ } = local;
                self.locals.push(Local { name, depth: Some(self.scope_depth) });
                proof {
                    let before = locals_view(old(self).locals@);
                    assert(locals_view(self.locals@) =~= before.drop_last().push(
                        LocalView { name: before.last().name, depth: Some(self.scope_depth) },
                    ));
                }
            },
            None => {
                proof {
                    assert(locals_view(self.locals@) =~= locals_view(old(self).locals@));
                }
            },
        }
    }

    /// The slot of the innermost local named like `name`. Reading a local in its own
    /// initializer is an error.
    fn resolve_local(&mut self, name: &Token) -> (slot: Option<u8>)
        requires
            old(self).wf(),
        ensures
            final(self).wf(),
            (final(self).model(), slot) == spec_resolve_local(old(self).model(), name.string@),
            final(self).follows(&*old(self)),
            final(self).same_parse(&*old(self)),
            final(self).chunk == old(self).chunk,
            final(self).cert == old(self).cert,
            slot == spec_resolve(locals_view(old(self).locals@), name.string@),
            slot matches Some(i) ==> i < old(self).locals@.len(),
            !final(self).had_error ==> (slot matches Some(i) ==> old(self).locals@[i as int].depth is Some),
    {
        let mut i = self.locals.len();
        proof {
            self.lemma_scanning();
        }
        let ghost names = locals_view(self.locals@);
        assert(names.take(i as int) =~= names);
        while i > 0
            invariant
                *self == *old(self),
                self.wf(),
                names == locals_view(self.locals@),
                i <= self.locals@.len() <= U8_COUNT,
                spec_resolve(names.take(i as int), name.string@) == spec_resolve(
                    names,
                    name.string@,
                ),
            decreases i,
        {
            let local = self.locals.get(i - 1);
            proof {
                assert(names.take(i as int).drop_last() =~= names.take(i - 1));
                assert(names.take(i as int).last() == names[i - 1]);
            }
            if Self::identifiers_equal(&local.name, name) {
                if local.depth.is_none() {
                    self.error("Can't read local variable in its own initializer.");
                }
                return Some((i - 1) as u8);
            }
            i -= 1;
        }
        None
    }

    /// Declares the previous token as a local variable, unless the scope is the global
    /// one. A second variable of the same name in one scope is an error.
    fn declare_variable(&mut self)
        requires
            old(self).wf(),
            old(self).at_statement(),
        ensures
            final(self).wf(),
            final(self).model() == spec_declare_variable(old(self).model()),
            final(self).follows(&*old(self)),
            final(self).same_tokens(&*old(self)),
            final(self).strings == old(self).strings,
            final(self).scope_depth == old(self).scope_depth,
            final(self).chunk == old(self).chunk,
            final(self).cert == old(self).cert,
            old(self).scope_depth == 0 ==> *final(self) == *old(self),
            !final(self).had_error && old(self).scope_depth > 0 ==> final(self).locals@ == old(self).locals@.push(Local { name: old(self).previous, depth: None }) && !declared_in_scope(
                locals_view(old(self).locals@),
                old(self).scope_depth,
                old(self).previous.string@,
            ),
    {
        if self.scope_depth == 0 {
            return ;
        }
        proof {
            self.lemma_tokens();
        }
        let val = self.previous.clone();
        let mut i = self.locals.len();
        let mut clash = false;
        let mut searching = true;
        proof {
            self.lemma_scanning();
        }
        let ghost names = locals_view(self.locals@);
        assert(names.take(i as int) =~= names);
        while i > 0 && searching
            invariant
                *self == *old(self),
                self.wf(),
                val == self.previous,
                names == locals_view(self.locals@),
                i <= self.locals@.len() <= U8_COUNT,
                declared_in_scope(names, self.scope_depth, val.string@) == (clash
                    || declared_in_scope(names.take(i as int), self.scope_depth, val.string@)),
                !searching ==> !declared_in_scope(
                    names.take(i as int),
                    self.scope_depth,
                    val.string@,
                ),
            decreases i, (if searching { 1int } else { 0int }),
        {
            let local = self.locals.get(i - 1);
            proof {
                assert(names.take(i as int).drop_last() =~= names.take(i - 1));
                assert(names.take(i as int).last() == names[i - 1]);
            }
            let outside = match local.depth {
                Some(depth) => depth < self.scope_depth,
                None => false,
            };
            if outside {
                searching = false;
            } else {
                if Self::identifiers_equal(&val, &local.name) {
                    clash = true;
                }
                i -= 1;
            }
        }
        if clash {
            self.error("Already a variable with this name in this scope.");
        }
        self.add_local(val);
    }

    /// Interns a text. A full heap that lacks the text is an error.
    fn allocate_string(&mut self, val: String) -> (handle: Option<ObjRef>)
        requires
            old(self).wf(),
        ensures
            final(self).wf(),
            (final(self).model(), handle) == spec_allocate_string(old(self).model(), val@),
            final(self).follows(&*old(self)),
            final(self).same_tokens(&*old(self)),
            final(self).locals == old(self).locals,
            final(self).scope_depth == old(self).scope_depth,
            final(self).chunk == old(self).chunk,
            final(self).cert == old(self).cert,
            handle is None ==> final(self).had_error,
            handle matches Some(h) ==> final(self).had_error == old(self).had_error
                && texts_contain(final(self).strings@, h) && final(self).strings@[h.index as int]
                == val@ && final(self).strings@ == spec_interned(old(self).strings@, val@),
    {
        proof {
            reveal(Compiler::inner_wf);
        }
        proof {
            reveal(sound);
        }
        let ghost before = self.strings@;
        let handle = match self.strings.try_allocate_string(val) {
            Some(handle) => handle,
            None => {
                self.error("Too many strings.");
                return None;
            },
        };
        proof {
            assert(before.is_prefix_of(self.strings@));
            if !self.had_error {
                assert forall|i: int| 0 <= i < self.chunk.code@.len() implies op_ok(
                    (#[trigger] self.chunk.code@[i]).0,
                    i,
                    self.chunk.code@.len() as int,
                    self.chunk.constants@,
                    self.strings@,
                ) by {
                    assert(op_ok(
                        self.chunk.code@[i].0,
                        i,
                        self.chunk.code@.len() as int,
                        self.chunk.constants@,
                        before,
                    ));
                    match self.chunk.code@[i].0 {
                        OpCode::DefineGlobal { location }
                        | OpCode::GetGlobal { location }
                        | OpCode::SetGlobal { location } => {
                            lemma_texts_grow(
                                before,
                                self.strings@,
                                self.chunk.constants@[location as int]->Object_0,
                            );
                        },
                        _ => {},
                    }
                }
                assert forall|k: int| 0 <= k < self.chunk.constants@.len() implies (
                #[trigger] self.chunk.constants@[k] matches Value::Object(h) ==> texts_contain(
                    self.strings@,
                    h,
                )) by {
                    if self.chunk.constants@[k] is Object {
                        lemma_texts_grow(
                            before,
                            self.strings@,
                            self.chunk.constants@[k]->Object_0,
                        );
                    }
                }
            }
        }
        Some(handle)
    }

    /// The constant that holds the name of a global variable.
    fn identifier_constant(&mut self, name: &Token) -> (location: u8)
        requires
            old(self).wf(),
        ensures
            final(self).wf(),
            (final(self).model(), location) == spec_identifier_constant(
                old(self).model(),
                name.string@,
            ),
            final(self).follows(&*old(self)),
            final(self).same_tokens(&*old(self)),
            final(self).locals == old(self).locals,
            final(self).scope_depth == old(self).scope_depth,
            final(self).chunk.code@ == old(self).chunk.code@,
            final(self).cert == old(self).cert,
            !final(self).had_error ==> location < final(self).chunk.constants@.len() && (final(self).chunk.constants@[location as int] matches Value::Object(h) && texts_contain(
                final(self).strings@,
                h,
            ) && final(self).strings@[h.index as int] == name.string@),
    {
        match self.allocate_string(name.string.clone()) {
            Some(handle) => self.make_constant(Value::Object(handle)),
            None => 0,
        }
    }

    /// Takes the name of a variable and declares it. For a global variable, returns the
    /// constant that holds its name.
    fn parse_variable(&mut self, msg: &str) -> (location: u8)
        requires
            old(self).wf(),
            old(self).at_statement(),
        ensures
            final(self).wf(),
            (final(self).model(), location) == spec_parse_variable(old(self).model(), msg@),
            final(self).follows(&*old(self)),
            final(self).scope_depth == old(self).scope_depth,
            final(self).chunk.code@ == old(self).chunk.code@,
            final(self).cert == old(self).cert,
            !final(self).had_error && old(self).scope_depth == 0 ==> final(self).locals
                == old(self).locals && location < final(self).chunk.constants@.len() && (final(self).chunk.constants@[location as int] matches Value::Object(h) && texts_contain(
                final(self).strings@,
                h,
            )),
            !final(self).had_error && old(self).scope_depth > 0 ==> final(self).locals@.len()
                == old(self).locals@.len() + 1 && final(self).locals@.drop_last() == old(self).locals@ && final(self).locals@.last().depth is None,
    {
        self.consume(TokenType::Identifier, msg);
        self.declare_variable();
        if self.scope_depth > 0 {
            proof {
                if !self.had_error {
                    assert(self.locals@.drop_last() =~= old(self).locals@);
                }
            }
            return 0;
        }
        proof {
            self.lemma_tokens();
        }
        let name = self.previous.clone();
        self.identifier_constant(&name)
    }

    /// Defines the variable whose value is on top of the stack: a local becomes readable,
    /// a global is stored under the name in constant `location`.
    fn define_variable(&mut self, location: u8)
        requires
            old(self).wf(),
            old(self).had_error || (if old(self).scope_depth > 0 {
                old(self).locals@.len() >= 1 && old(self).height() == old(self).locals@.len()
            } else {
                &&& old(self).locals@.len() == 0
                &&& old(self).height() == 1
                &&& location < old(self).chunk.constants@.len()
                &&& old(self).chunk.constants@[location as int] matches Value::Object(h)
                    && texts_contain(old(self).strings@, h)
            }),
        ensures
            final(self).wf(),
            final(self).model() == spec_define_variable(old(self).model(), location),
            final(self).follows(&*old(self)),
            final(self).same_tokens(&*old(self)),
            final(self).strings == old(self).strings,
            final(self).scope_depth == old(self).scope_depth,
            final(self).had_error == old(self).had_error,
            final(self).at_statement(),
            final(self).pending() == old(self).pending(),
            !final(self).had_error ==> final(self).locals@.len() == old(self).locals@.len() && (
            old(self).scope_depth > 0 ==> final(self).locals@ == old(self).locals@.drop_last().push(
                Local { name: old(self).locals@.last().name, depth: Some(old(self).scope_depth) },
            )),
    {
        if self.scope_depth > 0 {
            self.mark_initialized();
            return ;
        }
        self.emit_op(OpCode::DefineGlobal { location });
    }
}

/// The handlers that continue an expression: they find their left operand on the stack.
pub open spec fn is_infix(handler: ParseFn) -> bool {
    handler == ParseFn::Binary || handler == ParseFn::And || handler == ParseFn::Or
}

impl Compiler<'_> {
    /// The rule of a kind of token.
    pub fn get_rule(ty: TokenType) -> (rule: ParseRule)
        ensures
            rule == spec_rule(ty),
    {
        match ty {
            TokenType::LeftParen => ParseRule::new(
                Some(ParseFn::Grouping),
                None,
                Precedence::Lowest,
            ),
            TokenType::Minus => ParseRule::new(
                Some(ParseFn::Unary),
                Some(ParseFn::Binary),
                Precedence::Term,
            ),
            TokenType::Plus => ParseRule::new(None, Some(ParseFn::Binary), Precedence::Term),
            TokenType::Slash => ParseRule::new(None, Some(ParseFn::Binary), Precedence::Factor),
            TokenType::Star => ParseRule::new(None, Some(ParseFn::Binary), Precedence::Factor),
            TokenType::Bang => ParseRule::new(Some(ParseFn::Unary), None, Precedence::Lowest),
            TokenType::BangEqual => ParseRule::new(
                None,
                Some(ParseFn::Binary),
                Precedence::Equality,
            ),
            TokenType::EqualEqual => ParseRule::new(
                None,
                Some(ParseFn::Binary),
                Precedence::Equality,
            ),
            TokenType::Greater => ParseRule::new(
                None,
                Some(ParseFn::Binary),
                Precedence::Comparison,
            ),
            TokenType::GreaterEqual => ParseRule::new(
                None,
                Some(ParseFn::Binary),
                Precedence::Comparison,
            ),
            TokenType::Less => ParseRule::new(None, Some(ParseFn::Binary), Precedence::Comparison),
            TokenType::LessEqual => ParseRule::new(
                None,
                Some(ParseFn::Binary),
                Precedence::Comparison,
            ),
            TokenType::Identifier => ParseRule::new(
                Some(ParseFn::Variable),
                None,
                Precedence::Lowest,
            ),
            TokenType::String => ParseRule::new(Some(ParseFn::String), None, Precedence::Lowest),
            TokenType::Number => ParseRule::new(Some(ParseFn::Number), None, Precedence::Lowest),
            TokenType::And => ParseRule::new(None, Some(ParseFn::And), Precedence::And),
            TokenType::False => ParseRule::new(Some(ParseFn::Literal), None, Precedence::Lowest),
            TokenType::Nil => ParseRule::new(Some(ParseFn::Literal), None, Precedence::Lowest),
            TokenType::Or => ParseRule::new(None, Some(ParseFn::Or), Precedence::Or),
            TokenType::True => ParseRule::new(Some(ParseFn::Literal), None, Precedence::Lowest),
            _ => ParseRule::new(None, None, Precedence::Lowest),
        }
    }
}

impl ParseRule {
    /// The rule with these handlers and this precedence.
    pub fn new(prefix: Option<ParseFn>, infix: Option<ParseFn>, precedence: Precedence) -> (rule:
        ParseRule)
        ensures
            rule == (ParseRule { prefix, infix, precedence }),
    {
        ParseRule { prefix, infix, precedence }
    }
}

impl<'a> Compiler<'a> {
    /// What an expression leaves: `gain` values more on the stack, the locals and the
    /// pending jumps as they were.
    pub closed spec fn after_expression(&self, before: &Self, gain: int) -> bool {
        &&& self.follows(before)
        &&& self.scope_depth == before.scope_depth
        &&& !self.had_error ==> self.locals@ == before.locals@ && self.pending()
            == before.pending() && self.height() == before.height() + gain
    }

    /// What a statement leaves: the stack, the locals and the pending jumps as they were.
    pub closed spec fn after_statement(&self, before: &Self) -> bool {
        &&& self.follows(before)
        &&& self.scope_depth == before.scope_depth
        &&& self.at_statement()
        &&& !self.had_error ==> self.locals@ == before.locals@ && self.pending()
            == before.pending()
    }

    /// What a declaration leaves: the locals as they were, but for locals that it has
    /// declared in the current scope, and the pending jumps as they were.
    pub closed spec fn after_declaration(&self, before: &Self) -> bool {
        &&& self.follows(before)
        &&& self.scope_depth == before.scope_depth
        &&& self.at_statement()
        &&& !self.had_error ==> {
            &&& before.locals@.is_prefix_of(self.locals@)
            &&& forall|j: int|
                before.locals@.len() <= j < self.locals@.len() ==> (#[trigger] self.locals@[j]).depth
                    == Some(self.scope_depth)
            &&& self.pending() == before.pending()
        }
    }

    /// The left operand of an infix handler is on the stack.
    pub closed spec fn has_operand(&self) -> bool {
        self.had_error || self.height() >= initialized(self.locals@) + 1
    }

    /// What one step keeps after another, both keep together.
    proof fn lemma_follows(&self, middle: &Self, before: &Self)
        requires
            self.follows(middle),
            middle.follows(before),
        ensures
            self.follows(before),
    {
    }

    /// Declarations one after the other leave what one declaration leaves.
    proof fn lemma_declarations(&self, middle: &Self, before: &Self)
        requires
            self.after_declaration(middle),
            middle.after_declaration(before),
        ensures
            self.after_declaration(before),
    {
        self.lemma_follows(middle, before);
        if !self.had_error {
            assert forall|j: int| before.locals@.len() <= j < self.locals@.len() implies (
            #[trigger] self.locals@[j]).depth == Some(self.scope_depth) by {
                if j < middle.locals@.len() {
                    assert(self.locals@[j] == middle.locals@[j]);
                }
            }
        }
    }

    /// Parses an expression.
    fn expression(&mut self)
        requires
            old(self).wf(),
        ensures
            final(self).wf(),
            final(self).model() == spec_expression(old(self).model()),
            final(self).after_expression(&*old(self), 1),
            old(self).current.ty != TokenType::Eof ==> final(self).remaining() < old(self).remaining(),
        decreases old(self).remaining(), 1nat,
    {
        self.parse_precedence(Precedence::Assignment);
    }

    /// Parses an expression whose operators bind at least as tightly as `precedence`.
    #[verifier::rlimit(100)]
    fn parse_precedence(&mut self, precedence: Precedence)
        requires
            old(self).wf(),
            precedence != Precedence::Lowest,
        ensures
            final(self).wf(),
            final(self).model() == spec_parse_precedence(old(self).model(), precedence),
            final(self).after_expression(&*old(self), 1),
            old(self).current.ty != TokenType::Eof ==> final(self).remaining() < old(self).remaining(),
        decreases old(self).remaining(), 0nat,
    {
        proof {
            self.lemma_scanning();
            self.lemma_tokens();
        }
        self.advance();
        proof {
            self.lemma_tokens();
        }
        let ghost first = self.model();
        let rule = Self::get_rule(self.previous.ty);
        let prefix_fn = match rule.prefix {
            None => {
                self.error("Expect expression.");
                return ;
            },
            Some(x) => x,
        };
        let can_assign = precedence.rank() <= Precedence::Assignment.rank();
        self.run_rule(prefix_fn, can_assign);
        let ghost operand = self.model();
        proof {
            self.lemma_tokens();
        }
        while precedence.rank() <= Self::get_rule(self.current.ty).precedence.rank()
            invariant
                self.wf(),
                self.tokens_ok(),
                self.after_expression(&*old(self), 1),
                self.has_operand(),
                self.remaining() < old(self).remaining(),
                self.remaining() <= operand.remaining(),
                precedence != Precedence::Lowest,
                spec_infix_loop(self.model(), precedence, can_assign) == spec_infix_loop(
                    operand,
                    precedence,
                    can_assign,
                ),
            ensures
                self.model() == spec_infix_loop(operand, precedence, can_assign),
            decreases self.remaining(),
        {
            proof {
                self.lemma_scanning();
            }
            self.advance();
            proof {
                self.lemma_tokens();
            }
            let infix_rule = Self::get_rule(self.previous.ty).infix;
            match infix_rule {
                Some(infix_fn) => {
                    self.run_rule(infix_fn, can_assign);
                },
                None => {},
            }
            proof {
                self.lemma_tokens();
            }
        }
        proof {
            self.lemma_tokens();
        }
        if can_assign && self.match_(TokenType::Equal) {
            self.error("Invalid assignment target");
        }
    }

    /// Calls the handler that a rule names.
    fn run_rule(&mut self, handler: ParseFn, can_assign: bool)
        requires
            old(self).wf(),
            if is_infix(handler) {
                spec_rule(old(self).previous.ty).infix == Some(handler) && old(self).has_operand()
            } else {
                spec_rule(old(self).previous.ty).prefix == Some(handler)
            },
        ensures
            final(self).wf(),
            final(self).model() == spec_run_rule(old(self).model(), handler, can_assign),
            final(self).after_expression(
                &*old(self),
                if is_infix(handler) {
                    0int
                } else {
                    1int
                },
            ),
        decreases old(self).remaining(), 4nat,
    {
        match handler {
            ParseFn::Grouping => self.grouping(can_assign),
            ParseFn::Unary => self.unary(can_assign),
            ParseFn::Binary => self.binary(can_assign),
            ParseFn::Number => self.number(can_assign),
            ParseFn::String => self.string(can_assign),
            ParseFn::Variable => self.variable(can_assign),
            ParseFn::Literal => self.literal(can_assign),
            ParseFn::And => self.and_(can_assign),
            ParseFn::Or => self.or_(can_assign),
        }
    }

    /// An expression in parentheses.
    fn grouping(&mut self, _can_assign: bool)
        requires
            old(self).wf(),
        ensures
            final(self).wf(),
            final(self).model() == spec_grouping(old(self).model()),
            final(self).after_expression(&*old(self), 1),
        decreases old(self).remaining(), 2nat,
    {
        self.expression();
        self.consume(TokenType::RightParen, "Expect ')' after expression.");
    }

    /// `-` or `!` before its operand.
    fn unary(&mut self, _can_assign: bool)
        requires
            old(self).wf(),
        ensures
            final(self).wf(),
            final(self).model() == spec_unary(old(self).model()),
            final(self).after_expression(&*old(self), 1),
        decreases old(self).remaining(), 2nat,
    {
        proof {
            self.lemma_tokens();
        }
        let operator = self.previous.ty;
        self.parse_precedence(Precedence::Unary);
        match operator {
            TokenType::Minus => self.emit_op(OpCode::Negate),
            TokenType::Bang => self.emit_op(OpCode::Not),
            _ => {},
        }
    }

    /// The instructions of a binary operator, written after its two operands.
    #[verifier::rlimit(50)]
    fn binary_ops(&mut self, operator: TokenType)
        requires
            old(self).wf(),
            old(self).had_error || old(self).height() >= initialized(old(self).locals@) + 2,
        ensures
            final(self).wf(),
            final(self).model() == spec_binary_ops(old(self).model(), operator),
            final(self).after_expression(&*old(self), -1),
    {
        match operator {
            TokenType::BangEqual => self.emit_ops(OpCode::Equal, OpCode::Not),
            TokenType::EqualEqual => self.emit_op(OpCode::Equal),
            TokenType::Greater => self.emit_op(OpCode::Greater),
            TokenType::GreaterEqual => self.emit_ops(OpCode::Less, OpCode::Not),
            TokenType::Less => self.emit_op(OpCode::Less),
            TokenType::LessEqual => self.emit_ops(OpCode::Greater, OpCode::Not),
            TokenType::Plus => self.emit_op(OpCode::Add),
            TokenType::Minus => self.emit_op(OpCode::Subtract),
            TokenType::Star => self.emit_op(OpCode::Multiply),
            _ => self.emit_op(OpCode::Divide),
        }
    }

    /// An arithmetic, ordering or equality operator between its operands; the left one has
    /// been compiled.
    fn binary(&mut self, _can_assign: bool)
        requires
            old(self).wf(),
            spec_rule(old(self).previous.ty).infix == Some(ParseFn::Binary),
            old(self).has_operand(),
        ensures
            final(self).wf(),
            final(self).model() == spec_binary(old(self).model()),
            final(self).after_expression(&*old(self), 0),
        decreases old(self).remaining(), 2nat,
    {
        proof {
            self.lemma_tokens();
        }
        let operator = self.previous.ty;
        let rule = Self::get_rule(operator);
        self.parse_precedence(rule.precedence.get_next());
        self.binary_ops(operator);
    }

    /// A number. Its value is the one given for this number token.
    fn number(&mut self, _can_assign: bool)
        requires
            old(self).wf(),
            old(self).previous.ty == TokenType::Number,
        ensures
            final(self).wf(),
            final(self).model() == spec_number(old(self).model()),
            final(self).after_expression(&*old(self), 1),
        decreases old(self).remaining(), 2nat,
    {
        proof {
            reveal(Compiler::inner_wf);
        }
        if self.previous_number < self.numbers.len() {
            let value = self.numbers[self.previous_number];
            self.emit_constant(Value::Number(value));
        } else {
            self.error("Number literal without a value.");
        }
    }

    /// A string: the text between the quotes is interned.
    fn string(&mut self, _can_assign: bool)
        requires
            old(self).wf(),
            old(self).previous.ty == TokenType::String,
        ensures
            final(self).wf(),
            final(self).model() == spec_string(old(self).model()),
            final(self).after_expression(&*old(self), 1),
        decreases old(self).remaining(), 2nat,
    {
        proof {
            reveal(Compiler::inner_wf);
            lemma_scan_state_bounds(self.src(), self.previous_index@);
            lemma_string_token(
                self.src(),
                scan_state(self.src(), self.previous_index@).0,
                scan_state(self.src(), self.previous_index@).1,
            );
        }
        let count = self.previous.string.as_str().unicode_len();
        let text = String::from_str(self.previous.string.as_str().substring_char(1, count - 1));
        match self.allocate_string(text) {
            Some(handle) => self.emit_constant(Value::Object(handle)),
            None => {},
        }
    }

    /// The instructions that read and assign the variable named by `token`: a local if one
    /// has the name, else a global.
    fn variable_ops(&mut self, token: &Token) -> (ops: (OpCode, OpCode))
        requires
            old(self).wf(),
        ensures
            final(self).wf(),
            (final(self).model(), ops) == spec_variable_ops(old(self).model(), token.string@),
            final(self).follows(&*old(self)),
            final(self).same_tokens(&*old(self)),
            final(self).locals == old(self).locals,
            final(self).scope_depth == old(self).scope_depth,
            final(self).chunk.code@ == old(self).chunk.code@,
            final(self).cert == old(self).cert,
            match ops {
                (OpCode::GetLocal { stack_idx }, OpCode::SetLocal { stack_idx: same }) => stack_idx
                    == same && (!final(self).had_error ==> stack_idx < initialized(
                    final(self).locals@,
                )),
                (OpCode::GetGlobal { location }, OpCode::SetGlobal { location: same }) => location
                    == same && (!final(self).had_error ==> location < final(self).chunk.constants@.len() && (final(self).chunk.constants@[location as int] matches Value::Object(h) && texts_contain(
                    final(self).strings@,
                    h,
                ))),
                _ => false,
            },
    {
        match self.resolve_local(token) {
            None => {
                let arg = self.identifier_constant(token);
                (OpCode::GetGlobal { location: arg }, OpCode::SetGlobal { location: arg })
            },
            Some(x) => (OpCode::GetLocal { stack_idx: x }, OpCode::SetLocal { stack_idx: x }),
        }
    }

    /// A variable that is read or assigned to.
    #[verifier::rlimit(100)]
    fn named_variable(&mut self, can_assign: bool, token: Token)
        requires
            old(self).wf(),
        ensures
            final(self).wf(),
            final(self).model() == spec_named_variable(old(self).model(), can_assign, token.string@),
            final(self).after_expression(&*old(self), 1),
        decreases old(self).remaining(), 2nat,
    {
        let (get_op, set_op) = self.variable_ops(&token);
        let ghost middle = *self;
        proof {
            self.lemma_tokens();
        }
        if can_assign && self.match_(TokenType::Equal) {
            self.expression();
            proof {
                if !self.had_error {
                    match set_op {
                        OpCode::SetGlobal { location } => {
                            lemma_texts_grow(
                                middle.strings@,
                                self.strings@,
                                middle.chunk.constants@[location as int]->Object_0,
                            );
                        },
                        _ => {},
                    }
                }
            }
            self.emit_op(set_op);
        } else {
            self.emit_op(get_op);
        }
    }

    /// An identifier in an expression.
    fn variable(&mut self, can_assign: bool)
        requires
            old(self).wf(),
        ensures
            final(self).wf(),
            final(self).model() == spec_variable(old(self).model(), can_assign),
            final(self).after_expression(&*old(self), 1),
        decreases old(self).remaining(), 3nat,
    {
        proof {
            self.lemma_tokens();
        }
        let token = self.previous.clone();
        self.named_variable(can_assign, token);
    }

    /// `false`, `nil` or `true`.
    fn literal(&mut self, _can_assign: bool)
        requires
            old(self).wf(),
            spec_rule(old(self).previous.ty).prefix == Some(ParseFn::Literal),
        ensures
            final(self).wf(),
            final(self).model() == spec_literal(old(self).model()),
            final(self).after_expression(&*old(self), 1),
        decreases old(self).remaining(), 2nat,
    {
        proof {
            self.lemma_tokens();
        }
        match self.previous.ty {
            TokenType::False => self.emit_op(OpCode::False),
            TokenType::Nil => self.emit_op(OpCode::Nil),
            _ => self.emit_op(OpCode::True),
        }
    }

    /// `and` after its left operand: the right one is skipped when the left one is falsey.
    #[verifier::rlimit(50)]
    fn and_(&mut self, _can_assign: bool)
        requires
            old(self).wf(),
            old(self).has_operand(),
        ensures
            final(self).wf(),
            final(self).model() == spec_and(old(self).model()),
            final(self).after_expression(&*old(self), 0),
        decreases old(self).remaining(), 2nat,
    {
        let end_jump = self.emit_jump(OpCode::JumpIfFalse { offset: 0 }, Ghost(self.height()));
        self.emit_op(OpCode::Pop);
        self.parse_precedence(Precedence::And);
        self.patch_jump(end_jump);
        proof {
            if !self.had_error {
                assert(self.pending() =~= old(self).pending());
            }
        }
    }

    /// `or` after its left operand: the right one is skipped when the left one is truthy.
    #[verifier::rlimit(50)]
    fn or_(&mut self, _can_assign: bool)
        requires
            old(self).wf(),
            old(self).has_operand(),
        ensures
            final(self).wf(),
            final(self).model() == spec_or(old(self).model()),
            final(self).after_expression(&*old(self), 0),
        decreases old(self).remaining(), 2nat,
    {
        let else_jump = self.emit_jump(OpCode::JumpIfFalse { offset: 0 }, Ghost(self.height()));
        let end_jump = self.emit_jump(OpCode::Jump { offset: 0 }, Ghost(self.height()));
        self.patch_jump(else_jump);
        self.emit_op(OpCode::Pop);
        self.parse_precedence(Precedence::Or);
        self.patch_jump(end_jump);
        proof {
            if !self.had_error {
                assert(self.pending() =~= old(self).pending());
            }
        }
    }
}

impl<'a> Compiler<'a> {
    /// `print` and its operand.
    #[verifier::rlimit(50)]
    fn print_statement(&mut self)
        requires
            old(self).wf(),
            old(self).at_statement(),
        ensures
            final(self).wf(),
            final(self).model() == spec_print_statement(old(self).model()),
            final(self).after_statement(&*old(self)),
        decreases old(self).remaining(), 5nat,
    {
        self.expression();
        self.consume(TokenType::Semicolon, "Expect ';' after value.");
        self.emit_op(OpCode::Print);
    }

    /// An expression as a statement: its value is dropped.
    #[verifier::rlimit(50)]
    fn expression_statement(&mut self)
        requires
            old(self).wf(),
            old(self).at_statement(),
        ensures
            final(self).wf(),
            final(self).model() == spec_expression_statement(old(self).model()),
            final(self).after_statement(&*old(self)),
            old(self).current.ty != TokenType::Eof ==> final(self).remaining() < old(self).remaining(),
        decreases old(self).remaining(), 5nat,
    {
        self.expression();
        self.consume(TokenType::Semicolon, "Expect ';' after value.");
        self.emit_op(OpCode::Pop);
    }

    /// The condition of `if` or `while` in its parentheses, and the jump that is taken
    /// when it is falsey. Returns the place of the jump.
    #[verifier::rlimit(50)]
    fn condition(&mut self, msg: &str) -> (jump: usize)
        requires
            old(self).wf(),
            old(self).at_statement(),
        ensures
            final(self).wf(),
            final(self).model() == spec_condition(old(self).model(), msg@),
            final(self).follows(&*old(self)),
            final(self).scope_depth == old(self).scope_depth,
            jump == final(self).chunk.code@.len(),
            jump >= 1,
            !final(self).had_error ==> {
                &&& final(self).locals@ == old(self).locals@
                &&& final(self).height() == old(self).height() + 1
                &&& final(self).pending() == old(self).pending().insert(
                    jump - 1,
                    final(self).height(),
                )
                &&& !old(self).pending().dom().contains(jump - 1)
            },
        decreases old(self).remaining(), 8nat,
    {
        self.consume(TokenType::LeftParen, msg);
        self.expression();
        self.consume(TokenType::RightParen, "Expect ')' after condition.");
        self.emit_jump(OpCode::JumpIfFalse { offset: 0 }, Ghost(self.height()))
    }

    /// `if`: the condition, the statement for a truthy condition and, after `else`, the
    /// statement for a falsey one. Each branch drops the condition first.
    #[verifier::rlimit(100)]
    fn if_statement(&mut self)
        requires
            old(self).wf(),
            old(self).at_statement(),
        ensures
            final(self).wf(),
            final(self).model() == spec_if_statement(old(self).model()),
            final(self).after_statement(&*old(self)),
        decreases old(self).remaining(), 9nat,
    {
        let then_jump = self.condition("Expect '(' after 'if'.");
        self.emit_op(OpCode::Pop);
        self.statement();
        let else_jump = self.emit_jump(OpCode::Jump { offset: 0 }, Ghost(self.height() + 1));
        self.patch_jump(then_jump);
        self.emit_op(OpCode::Pop);
        let ghost middle = *self;
        proof {
            if !self.had_error {
                assert(self.pending() =~= old(self).pending().insert(
                    else_jump - 1,
                    self.height(),
                ));
            }
        }
        if self.match_(TokenType::Else) {
            self.statement();
        }
        self.patch_jump(else_jump);
        proof {
            if !self.had_error {
                assert(self.pending() =~= old(self).pending());
            }
        }
    }

    /// `while`: the condition, and the statement that is repeated while it is truthy.
    #[verifier::rlimit(100)]
    fn while_statement(&mut self)
        requires
            old(self).wf(),
            old(self).at_statement(),
        ensures
            final(self).wf(),
            final(self).model() == spec_while_statement(old(self).model()),
            final(self).after_statement(&*old(self)),
        decreases old(self).remaining(), 9nat,
    {
        proof {
            reveal(Compiler::inner_wf);
        }
        let loop_start = self.chunk.code.len();
        let condition_jump = self.condition("Expect '(' after 'while'.");
        self.emit_op(OpCode::Pop);
        self.statement();
        self.emit_loop(loop_start, Ghost(self.height() + 1));
        self.patch_jump(condition_jump);
        self.emit_op(OpCode::Pop);
        proof {
            if !self.had_error {
                assert(self.pending() =~= old(self).pending());
            }
        }
    }

    /// The initializer of `for`: nothing, the declaration of a variable, or an expression.
    #[verifier::rlimit(50)]
    fn for_initializer(&mut self)
        requires
            old(self).wf(),
            old(self).at_statement(),
            old(self).scope_depth > 0,
        ensures
            final(self).wf(),
            final(self).model() == spec_for_initializer(old(self).model()),
            final(self).after_declaration(&*old(self)),
        decreases old(self).remaining(), 7nat,
    {
        self.consume(TokenType::LeftParen, "Expect '(' after 'for'.");
        if self.match_(TokenType::Semicolon) {
        } else if self.match_(TokenType::Var) {
            self.var_declaration();
        } else {
            self.expression_statement();
        }
    }

    /// The clauses of `for` up to the increment: the initializer, the condition with the
    /// jump out of the loop, and the jump over the increment. Returns the places of the
    /// condition, of the jump out of the loop if there is a condition, and of the jump over
    /// the increment.
    #[verifier::rlimit(100)]
    fn for_clauses(&mut self) -> (places: (usize, Option<usize>, usize))
        requires
            old(self).wf(),
            old(self).at_statement(),
            old(self).scope_depth > 0,
        ensures
            final(self).wf(),
            final(self).model() == spec_for_clauses(old(self).model()).0,
            places.0 == spec_for_clauses(old(self).model()).1.0,
            match places.1 {
                Some(exit) => spec_for_clauses(old(self).model()).1.1 == Some(exit as int),
                None => spec_for_clauses(old(self).model()).1.1 is None,
            },
            places.2 == spec_for_clauses(old(self).model()).1.2,
            final(self).follows(&*old(self)),
            final(self).scope_depth == old(self).scope_depth,
            places.0 <= final(self).chunk.code@.len(),
            places.2 == final(self).chunk.code@.len(),
            places.2 >= 1,
            places.1 matches Some(exit) ==> 1 <= exit < places.2,
            !final(self).had_error ==> {
                &&& final(self).at_statement()
                &&& old(self).locals@.is_prefix_of(final(self).locals@)
                &&& forall|j: int|
                    old(self).locals@.len() <= j < final(self).locals@.len() ==> (
                    #[trigger] final(self).locals@[j]).depth == Some(final(self).scope_depth)
                &&& final(self).cert@.heights[places.0 as int] == final(self).height()
                &&& final(self).pending() =~= (match places.1 {
                    Some(exit) => old(self).pending().insert(exit - 1, final(self).height() + 1),
                    None => old(self).pending(),
                }).insert(places.2 - 1, final(self).height())
                &&& !old(self).pending().dom().contains(places.2 - 1)
                &&& places.1 matches Some(exit) ==> !old(self).pending().dom().contains(exit - 1)
            },
        decreases old(self).remaining(), 8nat,
    {
        self.for_initializer();
        proof {
            reveal(Compiler::inner_wf);
        }
        let expr_loc = self.chunk.code.len();
        let mut end_jump: Option<usize> = None;
        if !self.match_(TokenType::Semicolon) {
            self.expression();
            self.consume(TokenType::Semicolon, "Expect ';' after condition.");
            end_jump = Some(self.emit_jump(OpCode::JumpIfFalse { offset: 0 }, Ghost(self.height())));
            self.emit_op(OpCode::Pop);
        }
        let loop_body_jump = self.emit_jump(OpCode::Jump { offset: 0 }, Ghost(self.height()));
        (expr_loc, end_jump, loop_body_jump)
    }

    /// The increment of `for`, whose value is dropped, with the jump back to the
    /// condition; the body, which follows, is the target of the jump over the increment.
    #[verifier::rlimit(100)]
    fn for_increment(&mut self, expr_loc: usize, loop_body_jump: usize)
        requires
            old(self).wf(),
            old(self).at_statement(),
            expr_loc <= old(self).chunk.code@.len(),
            1 <= loop_body_jump <= old(self).chunk.code@.len(),
            old(self).had_error || (old(self).cert@.heights[expr_loc as int] == old(self).height()
                && old(self).pending().dom().contains(loop_body_jump - 1) && old(self).pending()[loop_body_jump - 1] == old(self).height()),
        ensures
            final(self).wf(),
            final(self).model() == spec_for_increment(
                old(self).model(),
                expr_loc as int,
                loop_body_jump as int,
            ),
            final(self).follows(&*old(self)),
            final(self).scope_depth == old(self).scope_depth,
            final(self).at_statement(),
            !final(self).had_error ==> {
                &&& final(self).locals@ == old(self).locals@
                &&& final(self).pending() == old(self).pending().remove(loop_body_jump - 1)
                &&& final(self).cert@.heights[old(self).chunk.code@.len() as int] == final(self).height()
            },
        decreases old(self).remaining(), 8nat,
    {
        proof {
            reveal(Compiler::inner_wf);
        }
        if !self.match_(TokenType::RightParen) {
            self.expression();
            self.emit_op(OpCode::Pop);
            self.consume(TokenType::RightParen, "Expect ')' after increment clause.");
        }
        self.emit_loop(expr_loc, Ghost(self.height()));
        self.patch_jump(loop_body_jump);
    }

    /// `for`: the three clauses and the statement that is repeated. The loop has a scope
    /// of its own.
    #[verifier::rlimit(100)]
    fn for_statement(&mut self)
        requires
            old(self).wf(),
            old(self).at_statement(),
            old(self).scope_depth + old(self).remaining() < old(self).src().len(),
        ensures
            final(self).wf(),
            final(self).model() == spec_for_statement(old(self).model()),
            final(self).after_statement(&*old(self)),
        decreases old(self).remaining(), 9nat,
    {
        let ghost outer = self.locals@.len() as int;
        proof {
            if !self.had_error {
                self.lemma_locals();
            }
            self.lemma_room();
        }
        self.begin_scope();
        let (expr_loc, end_jump, loop_body_jump) = self.for_clauses();
        let ghost clauses = *self;
        let increment_loc = self.chunk.code.len();
        self.for_increment(expr_loc, loop_body_jump);
        self.statement();
        self.emit_loop(
            increment_loc,
            Ghost(
                if end_jump is Some {
                    self.height() + 1
                } else {
                    self.height()
                },
            ),
        );
        self.for_exit(end_jump);
        proof {
            if !self.had_error {
                assert(self.pending() =~= old(self).pending());
                assert(self.locals@ == clauses.locals@);
                assert forall|j: int| 0 <= j < outer implies (#[trigger] self.locals@[j]).depth->0
                    < self.scope_depth by {
                    assert(self.locals@[j] == old(self).locals@[j]);
                }
            }
        }
        self.end_scope(Ghost(outer));
        proof {
            if !self.had_error {
                assert(self.locals@ =~= old(self).locals@);
            }
        }
    }

    /// Where a `for` loop ends: the target of the jump out of the loop, if the loop has a
    /// condition, and the instruction that drops the condition.
    fn for_exit(&mut self, end_jump: Option<usize>)
        requires
            old(self).wf(),
            end_jump matches Some(exit) ==> 1 <= exit <= old(self).chunk.code@.len(),
            old(self).had_error || (match end_jump {
                Some(exit) => old(self).pending().dom().contains(exit - 1) && old(self).pending()[exit - 1] == old(self).height() && old(self).height() >= initialized(
                    old(self).locals@,
                ) + 1,
                None => true,
            }),
        ensures
            final(self).wf(),
            final(self).model() == spec_for_exit(
                old(self).model(),
                match end_jump {
                    Some(exit) => Some(exit as int),
                    None => None,
                },
            ),
            final(self).follows(&*old(self)),
            final(self).same_parse(&*old(self)),
            !final(self).had_error ==> match end_jump {
                Some(exit) => final(self).pending() == old(self).pending().remove(exit - 1)
                    && final(self).height() == old(self).height() - 1,
                None => final(self).pending() == old(self).pending() && final(self).height()
                    == old(self).height(),
            },
    {
        if let Some(x) = end_jump {
            self.patch_jump(x);
            self.emit_op(OpCode::Pop);
        }
    }

    /// The declarations of a block, up to its closing brace.
    #[verifier::rlimit(50)]
    fn block(&mut self)
        requires
            old(self).wf(),
            old(self).at_statement(),
        ensures
            final(self).wf(),
            final(self).model() == spec_block(old(self).model()),
            final(self).after_declaration(&*old(self)),
        decreases old(self).remaining(), 8nat,
    {
        proof {
            self.lemma_tokens();
        }
        while !self.check(TokenType::RightBrace) && !self.check(TokenType::Eof)
            invariant
                self.wf(),
                self.tokens_ok(),
                self.after_declaration(&*old(self)),
                spec_block_loop(self.model()) == spec_block_loop(old(self).model()),
            ensures
                self.model() == spec_block_loop(old(self).model()),
            decreases self.remaining(),
        {
            let ghost middle = *self;
            self.declaration();
            proof {
                self.lemma_declarations(&middle, &*old(self));
                self.lemma_tokens();
            }
        }
        self.consume(TokenType::RightBrace, "Expect '}' after block.");
    }

    /// A block with a scope of its own; the opening brace has been taken.
    #[verifier::rlimit(100)]
    fn scoped_block(&mut self)
        requires
            old(self).wf(),
            old(self).at_statement(),
            old(self).scope_depth + old(self).remaining() < old(self).src().len(),
        ensures
            final(self).wf(),
            final(self).model() == spec_scoped_block(old(self).model()),
            final(self).after_statement(&*old(self)),
        decreases old(self).remaining(), 9nat,
    {
        let ghost outer = self.locals@.len() as int;
        proof {
            if !self.had_error {
                self.lemma_locals();
            }
            self.lemma_room();
        }
        self.begin_scope();
        self.block();
        proof {
            if !self.had_error {
                assert forall|j: int| 0 <= j < outer implies (#[trigger] self.locals@[j]).depth->0
                    < self.scope_depth by {
                    assert(self.locals@[j] == old(self).locals@[j]);
                }
            }
        }
        self.end_scope(Ghost(outer));
        proof {
            if !self.had_error {
                assert(self.locals@ =~= old(self).locals@);
            }
        }
    }

    /// A statement.
    #[verifier::rlimit(100)]
    fn statement(&mut self)
        requires
            old(self).wf(),
            old(self).at_statement(),
        ensures
            final(self).wf(),
            final(self).model() == spec_statement(old(self).model()),
            final(self).after_statement(&*old(self)),
            old(self).current.ty != TokenType::Eof ==> final(self).remaining() < old(self).remaining(),
        decreases old(self).remaining(), 6nat,
    {
        proof {
            self.lemma_room();
            self.lemma_tokens();
        }
        if self.match_(TokenType::Print) {
            self.print_statement();
        } else if self.match_(TokenType::If) {
            self.if_statement();
        } else if self.match_(TokenType::While) {
            self.while_statement();
        } else if self.match_(TokenType::For) {
            self.for_statement();
        } else if self.match_(TokenType::LeftBrace) {
            self.scoped_block();
        } else {
            self.expression_statement();
        }
    }

    /// The declaration of a variable; `var` has been taken.
    #[verifier::rlimit(100)]
    fn var_declaration(&mut self)
        requires
            old(self).wf(),
            old(self).at_statement(),
        ensures
            final(self).wf(),
            final(self).model() == spec_var_declaration(old(self).model()),
            final(self).after_declaration(&*old(self)),
        decreases old(self).remaining(), 5nat,
    {
        let global = self.parse_variable("Expect variable name.");
        let ghost named = *self;
        proof {
            self.lemma_tokens();
        }
        if self.match_(TokenType::Equal) {
            self.expression();
        } else {
            self.emit_op(OpCode::Nil);
        }
        self.consume(TokenType::Semicolon, "Expect `;` after variable declaration.");
        proof {
            if !self.had_error && self.scope_depth == 0 {
                lemma_texts_grow(
                    named.strings@,
                    self.strings@,
                    named.chunk.constants@[global as int]->Object_0,
                );
            }
        }
        self.define_variable(global);
    }

    /// A declaration: of a variable, or a statement. After an error the compiler skips to
    /// the next statement.
    #[verifier::rlimit(50)]
    fn declaration(&mut self)
        requires
            old(self).wf(),
            old(self).at_statement(),
        ensures
            final(self).wf(),
            final(self).model() == spec_declaration(old(self).model()),
            final(self).after_declaration(&*old(self)),
            old(self).current.ty != TokenType::Eof ==> final(self).remaining() < old(self).remaining(),
        decreases old(self).remaining(), 7nat,
    {
        proof {
            self.lemma_tokens();
        }
        if self.match_(TokenType::Var) {
            self.var_declaration();
        } else {
            self.statement();
        }
        if self.panic_mode {
            self.synchronize();
        }
    }

    /// Makes the token in hand the previous token too, so that both are tokens of the
    /// source.
    fn prime(&mut self)
        requires
            old(self).scan_wf(),
            is_token(old(self).src(), old(self).current, old(self).current_index@),
            old(self).current_number == number_index(old(self).src(), old(self).current_index@),
        ensures
            *final(self) == (Compiler {
                previous: final(self).previous,
                previous_index: final(self).previous_index,
                previous_number: final(self).previous_number,
                ..*old(self)
            }),
            final(self).previous == old(self).current,
            final(self).previous_index == old(self).current_index,
            final(self).previous_number == old(self).current_number,
    {
        self.previous = self.current.clone();
        self.previous_index = Ghost(self.current_index@);
        self.previous_number = self.current_number;
    }

    /// The declarations of a program, up to the end of the source.
    #[verifier::rlimit(50)]
    fn program(&mut self)
        requires
            old(self).wf(),
            old(self).at_statement(),
            old(self).scope_depth == 0,
            !old(self).had_error ==> old(self).pending() == Map::<int, int>::empty(),
        ensures
            final(self).wf(),
            final(self).model() == spec_program(old(self).model()),
            final(self).follows(&*old(self)),
            final(self).at_statement(),
            final(self).scope_depth == 0,
            !final(self).had_error ==> final(self).pending() == Map::<int, int>::empty(),
            spec_statement_starts(old(self).model()).subset_of(final(self).starts()),
    {
        proof {
            self.lemma_tokens();
        }
        loop
            invariant_except_break
                self.tokens_ok(),
                spec_program(self.model()) == spec_program(old(self).model()),
                spec_statement_starts(old(self).model()).subset_of(
                    self.starts().union(spec_statement_starts(self.model())),
                ),
            invariant
                self.wf(),
                self.at_statement(),
                self.scope_depth == 0,
                self.follows(&*old(self)),
                !self.had_error ==> self.pending() == Map::<int, int>::empty(),
            ensures
                self.wf(),
                self.at_statement(),
                self.scope_depth == 0,
                self.follows(&*old(self)),
                !self.had_error ==> self.pending() == Map::<int, int>::empty(),
                self.model() == spec_program(old(self).model()),
                spec_statement_starts(old(self).model()).subset_of(self.starts()),
            decreases self.remaining(),
        {
            let ghost before = self.model();
            // A declaration begins at the next instruction to be written, where the stack
            // is empty.
            proof {
                reveal(Compiler::inner_wf);
                reveal(sound);
            }
            self.cert = Ghost(
                Certificate {
                    starts: self.cert@.starts.insert(self.chunk.code@.len() as int),
                    ..self.cert@
                },
            );
            let ghost marked = self.starts();
            if self.match_(TokenType::Eof) {
                break ;
            }
            self.declaration();
            proof {
                self.lemma_tokens();
                assert(closer(self.model(), before));
                assert(marked.subset_of(self.starts()));
            }
        }
    }

    /// Compiles `source`. `numbers` holds the value of each number token of the source, as
    /// the bits of a double, in the order of the tokens.
    ///
    /// What comes out is what [`spec_compile`] lays down: a chunk exactly when no error is
    /// reported, the heap with the strings of the program interned, and the reports of the
    /// errors. Of a chunk that comes out, [`compiled`] holds, and the chunk is balanced in
    /// such a way that the stack is empty wherever a declaration of the program begins.
    #[verifier::rlimit(100)]
    pub fn compile(source: &'a str, numbers: &'a Vec<u64>, strings: Heap) -> (output:
        CompileOutput)
        requires
            strings.wf(),
        ensures
            output.strings.wf(),
            strings@.is_prefix_of(output.strings@),
            output.strings@ == spec_compile(source@, numbers@, strings@).heap,
            output.diagnostics@ == spec_compile(source@, numbers@, strings@).diagnostics,
            output.chunk is None <==> spec_compile(source@, numbers@, strings@).had_error,
            output.chunk is None <==> output.diagnostics@.len() > 0,
            output.chunk matches Some(chunk) ==> chunk.code@ == spec_compile(
                source@,
                numbers@,
                strings@,
            ).code && chunk.constants@ == spec_compile(source@, numbers@, strings@).constants
                && compiled(source@, numbers@, chunk.code@, chunk.constants@, output.strings@),
            output.chunk matches Some(chunk) ==> rests_at(
                Seq::new(chunk.code@.len(), |i: int| chunk.code@[i].0),
                spec_starts(source@, numbers@, strings@),
            ),
    {
        proof {
            reveal(tokens_left);
        }
        proof {
            reveal(Compiler::inner_wf);
            reveal(in_order);
        }
        let ghost starts = spec_starts(source@, numbers@, strings@);
        let mut compiler = Self::new(source, numbers, strings);
        proof {
            compiler.scanner.lemma_position_bounds();
            assert(compiler.cert@.origins.len() == 0) by {
                reveal(sound);
            }
        }
        compiler.advance();
        compiler.prime();
        proof {
            compiler.scanner.lemma_position_bounds();
            lemma_scan_state_bounds(compiler.src(), compiler.scanned@);
        }
        compiler.program();
        assert(starts.subset_of(compiler.starts()));
        compiler.consume(TokenType::Eof, "Expect End of expression.");
        compiler.end_compiler();
        proof {
            if !compiler.had_error {
                let ops = Seq::new(compiler.chunk.code@.len(), |i: int| compiler.chunk.code@[i].0);
                let heights = choose|heights: Seq<int>|
                    certifies(ops, heights) && empty_at(heights, compiler.starts());
                assert(empty_at(heights, starts));
            }
        }
        let Compiler { chunk, strings, diagnostics, had_error, .. } = compiler;
        CompileOutput {
            chunk: if had_error {
                None
            } else {
                Some(chunk)
            },
            strings,
            diagnostics,
        }
    }
}

} // verus!
