//! The virtual machine: a stack machine that runs the instructions of a chunk.
//!
//! The machine does no input or output and no floating-point arithmetic. One call of
//! [`VM::step`] carries out one instruction and says, as an [`Action`], what is left for its
//! caller to do: to write a line, or to combine two doubles and hand the result to
//! [`VM::complete_arithmetic`]. What a step does is laid down by [`spec_step`] over the
//! abstract [`MachineState`].

use vstd::prelude::*;
use vstd::string::StringExecFns;
use crate::balance::rests_at;
use crate::chunk::{Chunk, OpCode};
use crate::compiler::{compiled, Compiler};
use crate::semantics::{spec_compile, spec_starts};
use crate::hashtable::HashTable;
use crate::heap::{
    lemma_handles_count, lemma_interned_keeps, spec_handle_of, spec_interned, texts_contain, Heap,
    MAX_STRINGS,
};
use crate::report::{runtime_report, spec_runtime_report};
use crate::stack::{ValueStack, STACK_MAX};
use crate::value::{
    is_falsey, number_greater, number_less, number_negate, spec_is_falsey, spec_number_greater,
    spec_number_less, spec_number_negate, values_equal, ObjRef, Value,
};

verus! {

/// How running a program can fail.
#[derive(Debug, Clone, Copy, PartialEq, Eq, Structural)]
pub enum InterpreterError {
    CompileError,
    RuntimeError,
}

/// How running a program ends.
pub type InterpreterResult = Result<(), InterpreterError>;

/// The four operations on doubles that the machine leaves to its caller.
#[derive(Debug, Clone, Copy, PartialEq, Eq, Structural)]
pub enum ArithOp {
    Add,
    Subtract,
    Multiply,
    Divide,
}

/// What `print` writes for a value: a text, or a double that the caller renders.
#[derive(Debug)]
pub enum Printed {
    Text(String),
    Number(u64),
}

/// The abstract value of a [`Printed`].
pub enum PrintedView {
    Text(Seq<char>),
    Number(u64),
}

impl View for Printed {
    type V = PrintedView;

    open spec fn view(&self) -> PrintedView {
        match self {
            Printed::Text(text) => PrintedView::Text(text@),
            Printed::Number(bits) => PrintedView::Number(*bits),
        }
    }
}

/// What the caller of [`VM::step`] has to do before the next step.
#[derive(Debug)]
pub enum Action {
    /// Nothing.
    Continue,
    /// Write the value and a line break to the standard output.
    Print(Printed),
    /// Compute `lhs op rhs` on doubles and hand the result to [`VM::complete_arithmetic`].
    Arithmetic { op: ArithOp, lhs: u64, rhs: u64 },
    /// The program has returned.
    Halt,
    /// The program has failed: write `report` to the standard error.
    Fail { error: InterpreterError, report: String },
}

/// The abstract value of an [`Action`].
pub enum ActionView {
    Continue,
    Print(PrintedView),
    Arithmetic { op: ArithOp, lhs: u64, rhs: u64 },
    Halt,
    Fail { error: InterpreterError, report: Seq<char> },
}

impl View for Action {
    type V = ActionView;

    open spec fn view(&self) -> ActionView {
        match self {
            Action::Continue => ActionView::Continue,
            Action::Print(printed) => ActionView::Print(printed@),
            Action::Arithmetic { op, lhs, rhs } => ActionView::Arithmetic {
                op: *op,
                lhs: *lhs,
                rhs: *rhs,
            },
            Action::Halt => ActionView::Halt,
            Action::Fail { error, report } => ActionView::Fail { error: *error, report: report@ },
        }
    }
}

/// The state of the machine: the index of the next instruction, the value stack (bottom
/// first), the global variables, and the texts of the strings on the heap.
pub struct MachineState {
    pub ip: int,
    pub stack: Seq<Value>,
    pub globals: Map<ObjRef, Value>,
    pub heap: Seq<Seq<char>>,
}

/// The message for `-` on a value that is no number.
pub open spec fn operand_message() -> Seq<char> {
    "Operand must be a number."@
}

/// The message for an arithmetic or ordering operator on a value that is no number.
pub open spec fn operands_message() -> Seq<char> {
    "Operands must be numbers."@
}

/// The message for `+` on values that are neither two numbers nor two strings.
pub open spec fn add_operands_message() -> Seq<char> {
    "Operands must be two numbers or two strings."@
}

/// The message for more than [`STACK_MAX`] values on the stack.
pub open spec fn overflow_message() -> Seq<char> {
    "Stack overflow."@
}

/// The message for an instruction that cannot be carried out whatever the values are: it
/// lies outside the chunk, names a constant, a stack slot or a jump target that does not
/// exist, or finds too few values on the stack.
pub open spec fn malformed_message() -> Seq<char> {
    "Malformed bytecode."@
}

/// The message for a heap that is full and lacks the string that is to be made.
pub open spec fn memory_message() -> Seq<char> {
    "Out of memory."@
}

/// The message for reading a global variable that was never defined.
pub open spec fn undefined_read_message(name: Seq<char>) -> Seq<char> {
    "Undefined variable '"@ + name + "'"@
}

/// The message for assigning to a global variable that was never defined.
pub open spec fn undefined_write_message(name: Seq<char>) -> Seq<char> {
    "Undefined variable '"@ + name + "'."@
}

/// The value `distance` places below the top of the stack.
pub open spec fn spec_peek(stack: Seq<Value>, distance: int) -> Value {
    stack[stack.len() - 1 - distance]
}

/// What `print` writes for a value; nothing for a handle that names no string.
pub open spec fn spec_printed(heap: Seq<Seq<char>>, value: Value) -> Option<PrintedView> {
    match value {
        Value::Nil => Some(PrintedView::Text("nil"@)),
        Value::Bool(b) => Some(
            PrintedView::Text(
                if b {
                    "true"@
                } else {
                    "false"@
                },
            ),
        ),
        Value::Number(bits) => Some(PrintedView::Number(bits)),
        Value::Object(handle) => if texts_contain(heap, handle) {
            Some(PrintedView::Text(heap[handle.index as int]))
        } else {
            None
        },
    }
}

/// Printing: what `print` writes for a value.
pub trait ValuePrinter {
    /// What `print` writes for the value, whose strings live in `heap`; `None` for a
    /// handle that names no string of the heap.
    fn print(&self, heap: &Heap) -> (printed: Option<Printed>)
        requires
            heap.wf(),
    ;
}

impl ValuePrinter for Value {
    fn print(&self, heap: &Heap) -> (printed: Option<Printed>)
        ensures
            match printed {
                Some(p) => spec_printed(heap@, *self) == Some(p@),
                None => spec_printed(heap@, *self) is None,
            },
    {
        match *self {
            Value::Nil => Some(Printed::Text(String::from_str("nil"))),
            Value::Bool(b) => Some(
                Printed::Text(
                    String::from_str(
                        if b {
                            "true"
                        } else {
                            "false"
                        },
                    ),
                ),
            ),
            Value::Number(bits) => Some(Printed::Number(bits)),
            Value::Object(handle) => if heap.has(handle) {
                Some(Printed::Text(heap.string(handle).clone()))
            } else {
                None
            },
        }
    }
}

/// A runtime error: the stack is cleared, and the report names the line.
pub open spec fn spec_fail(s: MachineState, line: usize, message: Seq<char>) -> (
    MachineState,
    ActionView,
) {
    (
        MachineState { stack: Seq::<Value>::empty(), ..s },
        ActionView::Fail {
            error: InterpreterError::RuntimeError,
            report: spec_runtime_report(message, line as nat),
        },
    )
}

/// Pushing a value, which fails on a full stack.
pub open spec fn spec_push(s: MachineState, line: usize, value: Value) -> (
    MachineState,
    ActionView,
) {
    if s.stack.len() < STACK_MAX {
        (MachineState { stack: s.stack.push(value), ..s }, ActionView::Continue)
    } else {
        spec_fail(s, line, overflow_message())
    }
}

/// The string constant that names a global variable, if constant `location` is one.
pub open spec fn spec_global_name(
    constants: Seq<Value>,
    heap: Seq<Seq<char>>,
    location: u8,
) -> Option<ObjRef> {
    if location < constants.len() {
        match constants[location as int] {
            Value::Object(handle) => if texts_contain(heap, handle) {
                Some(handle)
            } else {
                None
            },
            _ => None,
        }
    } else {
        None
    }
}

/// The arithmetic that the instruction at `ip` asks for, if it is an arithmetic
/// instruction that finds two numbers on top of the stack.
pub open spec fn spec_pending_arithmetic(code: Seq<(OpCode, usize)>, s: MachineState) -> Option<
    (ArithOp, u64, u64),
> {
    if 0 <= s.ip < code.len() && s.stack.len() >= 2 {
        match (spec_peek(s.stack, 1), spec_peek(s.stack, 0)) {
            (Value::Number(lhs), Value::Number(rhs)) => match code[s.ip].0 {
                OpCode::Add => Some((ArithOp::Add, lhs, rhs)),
                OpCode::Subtract => Some((ArithOp::Subtract, lhs, rhs)),
                OpCode::Multiply => Some((ArithOp::Multiply, lhs, rhs)),
                OpCode::Divide => Some((ArithOp::Divide, lhs, rhs)),
                _ => None,
            },
            _ => None,
        }
    } else {
        None
    }
}

/// The state after the caller has supplied the result of the pending arithmetic: the two
/// operands give way to the result. Without pending arithmetic nothing changes.
pub open spec fn spec_complete(code: Seq<(OpCode, usize)>, s: MachineState, result: u64) -> MachineState {
    if spec_pending_arithmetic(code, s) is Some {
        MachineState {
            ip: s.ip + 1,
            stack: s.stack.drop_last().drop_last().push(Value::Number(result)),
            ..s
        }
    } else {
        s
    }
}

/// An arithmetic or ordering instruction on two values that are not both numbers, or on
/// too few values.
pub open spec fn spec_binary_failure(s: MachineState, line: usize, message: Seq<char>) -> (
    MachineState,
    ActionView,
) {
    if s.stack.len() < 2 {
        spec_fail(s, line, malformed_message())
    } else {
        spec_fail(s, line, message)
    }
}

/// One step of the machine on the state `s`: the state after it, and what the caller has
/// to do. An arithmetic instruction on two numbers leaves the state as it is and asks for
/// the arithmetic; [`spec_complete`] says how the result is taken in.
pub open spec fn spec_step(code: Seq<(OpCode, usize)>, constants: Seq<Value>, s: MachineState) -> (
    MachineState,
    ActionView,
) {
    if !(0 <= s.ip < code.len()) {
        spec_fail(s, 0, malformed_message())
    } else {
        let op = code[s.ip].0;
        let line = code[s.ip].1;
        let next = MachineState { ip: s.ip + 1, ..s };
        let depth = s.stack.len() as int;
        match op {
            OpCode::Return => (next, ActionView::Halt),
            OpCode::Constant { location } => if location < constants.len() {
                spec_push(next, line, constants[location as int])
            } else {
                spec_fail(next, line, malformed_message())
            },
            OpCode::Nil => spec_push(next, line, Value::Nil),
            OpCode::True => spec_push(next, line, Value::Bool(true)),
            OpCode::False => spec_push(next, line, Value::Bool(false)),
            OpCode::Negate => if depth < 1 {
                spec_fail(next, line, malformed_message())
            } else {
                match spec_peek(s.stack, 0) {
                    Value::Number(bits) => (
                        MachineState {
                            stack: s.stack.drop_last().push(
                                Value::Number(spec_number_negate(bits)),
                            ),
                            ..next
                        },
                        ActionView::Continue,
                    ),
                    _ => spec_fail(next, line, operand_message()),
                }
            },
            OpCode::Not => if depth < 1 {
                spec_fail(next, line, malformed_message())
            } else {
                (
                    MachineState {
                        stack: s.stack.drop_last().push(
                            Value::Bool(spec_is_falsey(spec_peek(s.stack, 0))),
                        ),
                        ..next
                    },
                    ActionView::Continue,
                )
            },
            OpCode::Equal => if depth < 2 {
                spec_fail(next, line, malformed_message())
            } else {
                (
                    MachineState {
                        stack: s.stack.drop_last().drop_last().push(
                            Value::Bool(values_equal(spec_peek(s.stack, 1), spec_peek(s.stack, 0))),
                        ),
                        ..next
                    },
                    ActionView::Continue,
                )
            },
            OpCode::Greater | OpCode::Less => if depth >= 2 {
                match (spec_peek(s.stack, 1), spec_peek(s.stack, 0)) {
                    (Value::Number(lhs), Value::Number(rhs)) => (
                        MachineState {
                            stack: s.stack.drop_last().drop_last().push(
                                Value::Bool(
                                    if op == OpCode::Greater {
                                        spec_number_greater(lhs, rhs)
                                    } else {
                                        spec_number_less(lhs, rhs)
                                    },
                                ),
                            ),
                            ..next
                        },
                        ActionView::Continue,
                    ),
                    _ => spec_fail(next, line, operands_message()),
                }
            } else {
                spec_fail(next, line, malformed_message())
            },
            OpCode::Add => if depth >= 2 {
                match (spec_peek(s.stack, 1), spec_peek(s.stack, 0)) {
                    (Value::Number(lhs), Value::Number(rhs)) => (
                        s,
                        ActionView::Arithmetic { op: ArithOp::Add, lhs, rhs },
                    ),
                    (Value::Object(left), Value::Object(right)) => if !(texts_contain(
                        s.heap,
                        left,
                    ) && texts_contain(s.heap, right)) {
                        spec_fail(next, line, malformed_message())
                    } else if !s.heap.contains(
                        s.heap[left.index as int] + s.heap[right.index as int],
                    ) && s.heap.len() >= MAX_STRINGS {
                        spec_fail(next, line, memory_message())
                    } else {
                        let text = s.heap[left.index as int] + s.heap[right.index as int];
                        let heap = spec_interned(s.heap, text);
                        (
                            MachineState {
                                stack: s.stack.drop_last().drop_last().push(
                                    Value::Object(spec_handle_of(heap, text)),
                                ),
                                heap,
                                ..next
                            },
                            ActionView::Continue,
                        )
                    },
                    _ => spec_fail(next, line, add_operands_message()),
                }
            } else {
                spec_fail(next, line, malformed_message())
            },
            OpCode::Subtract | OpCode::Multiply | OpCode::Divide => if depth >= 2 {
                match (spec_peek(s.stack, 1), spec_peek(s.stack, 0)) {
                    (Value::Number(lhs), Value::Number(rhs)) => (
                        s,
                        ActionView::Arithmetic {
                            op: if op == OpCode::Subtract {
                                ArithOp::Subtract
                            } else if op == OpCode::Multiply {
                                ArithOp::Multiply
                            } else {
                                ArithOp::Divide
                            },
                            lhs,
                            rhs,
                        },
                    ),
                    _ => spec_fail(next, line, operands_message()),
                }
            } else {
                spec_fail(next, line, malformed_message())
            },
            OpCode::Print => if depth < 1 {
                spec_fail(next, line, malformed_message())
            } else {
                match spec_printed(s.heap, spec_peek(s.stack, 0)) {
                    Some(printed) => (
                        MachineState { stack: s.stack.drop_last(), ..next },
                        ActionView::Print(printed),
                    ),
                    None => spec_fail(next, line, malformed_message()),
                }
            },
            OpCode::Pop => if depth < 1 {
                spec_fail(next, line, malformed_message())
            } else {
                (MachineState { stack: s.stack.drop_last(), ..next }, ActionView::Continue)
            },
            OpCode::DefineGlobal { location } => match spec_global_name(
                constants,
                s.heap,
                location,
            ) {
                Some(name) => if depth < 1 {
                    spec_fail(next, line, malformed_message())
                } else {
                    (
                        MachineState {
                            stack: s.stack.drop_last(),
                            globals: s.globals.insert(name, spec_peek(s.stack, 0)),
                            ..next
                        },
                        ActionView::Continue,
                    )
                },
                None => spec_fail(next, line, malformed_message()),
            },
            OpCode::GetGlobal { location } => match spec_global_name(constants, s.heap, location) {
                Some(name) => if s.globals.dom().contains(name) {
                    spec_push(next, line, s.globals[name])
                } else {
                    spec_fail(next, line, undefined_read_message(s.heap[name.index as int]))
                },
                None => spec_fail(next, line, malformed_message()),
            },
            OpCode::SetGlobal { location } => match spec_global_name(constants, s.heap, location) {
                Some(name) => if depth < 1 {
                    spec_fail(next, line, malformed_message())
                } else if s.globals.dom().contains(name) {
                    (
                        MachineState {
                            globals: s.globals.insert(name, spec_peek(s.stack, 0)),
                            ..next
                        },
                        ActionView::Continue,
                    )
                } else {
                    spec_fail(next, line, undefined_write_message(s.heap[name.index as int]))
                },
                None => spec_fail(next, line, malformed_message()),
            },
            OpCode::GetLocal { stack_idx } => if stack_idx < depth {
                spec_push(next, line, s.stack[stack_idx as int])
            } else {
                spec_fail(next, line, malformed_message())
            },
            OpCode::SetLocal { stack_idx } => if stack_idx < depth {
                (
                    MachineState {
                        stack: s.stack.update(stack_idx as int, spec_peek(s.stack, 0)),
                        ..next
                    },
                    ActionView::Continue,
                )
            } else {
                spec_fail(next, line, malformed_message())
            },
            OpCode::JumpIfFalse { offset } => if depth < 1 || s.ip + 1 + offset > code.len() {
                spec_fail(next, line, malformed_message())
            } else if spec_is_falsey(spec_peek(s.stack, 0)) {
                (MachineState { ip: s.ip + 1 + offset, ..s }, ActionView::Continue)
            } else {
                (next, ActionView::Continue)
            },
            OpCode::Jump { offset } => if s.ip + 1 + offset > code.len() {
                spec_fail(next, line, malformed_message())
            } else {
                (MachineState { ip: s.ip + 1 + offset, ..s }, ActionView::Continue)
            },
            OpCode::Loop { offset } => if offset > s.ip + 1 {
                spec_fail(next, line, malformed_message())
            } else {
                (MachineState { ip: s.ip + 1 - offset, ..s }, ActionView::Continue)
            },
        }
    }
}

/// Up to `budget` steps from the state `s`, stopping at the first step that leaves the
/// caller something to do.
pub open spec fn spec_run(
    code: Seq<(OpCode, usize)>,
    constants: Seq<Value>,
    s: MachineState,
    budget: nat,
) -> (MachineState, ActionView)
    decreases budget,
{
    if budget == 0 {
        (s, ActionView::Continue)
    } else {
        let (after, action) = spec_step(code, constants, s);
        if action is Continue {
            spec_run(code, constants, after, (budget - 1) as nat)
        } else {
            (after, action)
        }
    }
}

/// The machine: the chunk it runs, the index of the next instruction, the value stack, the
/// heap of strings and the table of global variables.
pub struct VM {
    chunk: Chunk,
    ip: usize,
    stack: ValueStack,
    heap: Heap,
    globals: HashTable,
}

impl VM {
    /// The abstract state of the machine.
    pub closed spec fn state(&self) -> MachineState {
        MachineState {
            ip: self.ip as int,
            stack: self.stack@,
            globals: self.globals@,
            heap: self.heap@,
        }
    }

    /// The instructions of the chunk that the machine runs, each with its line.
    pub closed spec fn code(&self) -> Seq<(OpCode, usize)> {
        self.chunk.code@
    }

    /// The constants of the chunk that the machine runs.
    pub closed spec fn constants(&self) -> Seq<Value> {
        self.chunk.constants@
    }

    /// The invariant of the machine: its heap and its table of globals are well formed,
    /// the stack holds no more than [`STACK_MAX`] values, and the names of the global
    /// variables are strings of the heap. The table of globals, from which nothing is ever
    /// deleted, holds no tombstone and has grown no further than its keys have made it.
    pub closed spec fn wf(&self) -> bool {
        &&& self.heap.wf()
        &&& self.globals.wf()
        &&& self.stack@.len() <= STACK_MAX
        &&& forall|k: ObjRef| #[trigger]
            self.globals@.dom().contains(k) ==> texts_contain(self.heap@, k)
        &&& self.globals.spec_tombstones() == 0
        &&& self.globals.spec_capacity() <= 8 || 3 * self.globals.spec_capacity() < 8 * (
        self.globals.spec_count() + 1)
    }

    /// The table of globals can take one more key.
    proof fn lemma_globals_room(&self)
        requires
            self.wf(),
        ensures
            2 * self.globals.spec_capacity() <= usize::MAX,
            self.globals@.dom().finite(),
            self.globals@.dom().len() == self.globals.spec_count(),
    {
        self.globals.lemma_finite();
        self.heap.lemma_bounded();
        lemma_handles_count(self.globals@.dom(), self.heap@);
    }

    /// A machine that is to run `chunk`, with an empty heap.
    pub fn new(chunk: Chunk) -> (vm: VM)
        ensures
            vm.wf(),
            vm.code() == chunk.code@,
            vm.constants() == chunk.constants@,
            vm.state() == (MachineState {
                ip: 0,
                stack: Seq::<Value>::empty(),
                globals: Map::<ObjRef, Value>::empty(),
                heap: Seq::<Seq<char>>::empty(),
            }),
    {
        Self::new_with_strings(chunk, Heap::new())
    }

    /// A machine without a program.
    pub fn empty_new() -> (vm: VM)
        ensures
            vm.wf(),
            vm.code() == Seq::<(OpCode, usize)>::empty(),
            vm.constants() == Seq::<Value>::empty(),
            vm.state() == (MachineState {
                ip: 0,
                stack: Seq::<Value>::empty(),
                globals: Map::<ObjRef, Value>::empty(),
                heap: Seq::<Seq<char>>::empty(),
            }),
    {
        Self::new(Chunk::new())
    }

    /// A machine that is to run `chunk` on the strings of `heap`.
    pub fn new_with_strings(chunk: Chunk, heap: Heap) -> (vm: VM)
        requires
            heap.wf(),
        ensures
            vm.wf(),
            vm.code() == chunk.code@,
            vm.constants() == chunk.constants@,
            vm.state() == (MachineState {
                ip: 0,
                stack: Seq::<Value>::empty(),
                globals: Map::<ObjRef, Value>::empty(),
                heap: heap@,
            }),
    {
        VM { chunk, ip: 0, stack: ValueStack::new(), heap, globals: HashTable::new() }
    }

    /// Compiles `source` and makes the machine ready to run it from its first
    /// instruction. `numbers` holds the value of each number token of the source, as the
    /// bits of a double, in the order of the tokens.
    ///
    /// The strings of the program are interned in the heap of the machine, which only
    /// grows. If the compiler reports an error, the machine keeps its old program and the
    /// action is a failure with the reports; if not, the action is `Continue` and the
    /// machine holds the chunk that [`spec_compile`] lays down, in which the stack is empty
    /// wherever a declaration of the program begins.
    pub fn interpret(&mut self, source: &str, numbers: &Vec<u64>) -> (action: Action)
        requires
            old(self).wf(),
        ensures
            final(self).wf(),
            old(self).state().heap.is_prefix_of(final(self).state().heap),
            final(self).state().stack == old(self).state().stack,
            final(self).state().globals == old(self).state().globals,
            final(self).state().heap == spec_compile(
                source@,
                numbers@,
                old(self).state().heap,
            ).heap,
            action@ is Continue <==> !spec_compile(
                source@,
                numbers@,
                old(self).state().heap,
            ).had_error,
            match action@ {
                ActionView::Continue => {
                    &&& final(self).state().ip == 0
                    &&& final(self).code() == spec_compile(
                        source@,
                        numbers@,
                        old(self).state().heap,
                    ).code
                    &&& final(self).constants() == spec_compile(
                        source@,
                        numbers@,
                        old(self).state().heap,
                    ).constants
                    &&& compiled(
                        source@,
                        numbers@,
                        final(self).code(),
                        final(self).constants(),
                        final(self).state().heap,
                    )
                    &&& rests_at(
                        Seq::new(final(self).code().len(), |i: int| final(self).code()[i].0),
                        spec_starts(source@, numbers@, old(self).state().heap),
                    )
                },
                ActionView::Fail { error, report } => {
                    &&& error == InterpreterError::CompileError
                    &&& report == spec_compile(
                        source@,
                        numbers@,
                        old(self).state().heap,
                    ).diagnostics
                    &&& report.len() > 0
                    &&& final(self).code() == old(self).code()
                    &&& final(self).constants() == old(self).constants()
                    &&& final(self).state().ip == old(self).state().ip
                },
                _ => false,
            },
    {
        let mut strings = Heap::new();
        core::mem::swap(&mut self.heap, &mut strings);
        let output = Compiler::compile(source, numbers, strings);
        let crate::compiler::CompileOutput { chunk, strings, diagnostics } = output;
        self.heap = strings;
        proof {
            assert forall|k: ObjRef| #[trigger]
                self.globals@.dom().contains(k) implies texts_contain(self.heap@, k) by {
                assert(texts_contain(old(self).heap@, k));
                assert(self.heap@[k.index as int] == old(self).heap@[k.index as int]);
            }
        }
        match chunk {
            Some(chunk) => {
                self.ip = 0;
                self.chunk = chunk;
                Action::Continue
            },
            None => Action::Fail { error: InterpreterError::CompileError, report: diagnostics },
        }
    }

    /// The value `distance` places below the top of the stack.
    fn peek(&self, distance: usize) -> (value: Value)
        requires
            distance < self.stack@.len(),
        ensures
            value == spec_peek(self.stack@, distance as int),
    {
        self.stack.get(self.stack.len() - 1 - distance)
    }

    /// The constant in slot `location`.
    fn read_constant(&self, location: u8) -> (value: Value)
        requires
            location < self.chunk.constants@.len(),
        ensures
            value == self.chunk.constants@[location as int],
    {
        self.chunk.constants[location as usize]
    }

    /// The string constant that names a global variable.
    fn global_name(&self, location: u8) -> (name: Option<ObjRef>)
        requires
            self.wf(),
        ensures
            name == spec_global_name(self.chunk.constants@, self.heap@, location),
    {
        if (location as usize) < self.chunk.constants.len() {
            match self.read_constant(location) {
                Value::Object(handle) => if self.heap.has(handle) {
                    Some(handle)
                } else {
                    None
                },
                _ => None,
            }
        } else {
            None
        }
    }

    /// Fails the run: clears the stack and reports the message with the line.
    fn runtime_error(&mut self, msg: &str, line: usize) -> (action: Action)
        requires
            old(self).wf(),
        ensures
            final(self).wf(),
            final(self).code() == old(self).code(),
            final(self).constants() == old(self).constants(),
            (final(self).state(), action@) == spec_fail(old(self).state(), line, msg@),
    {
        self.stack.clear();
        Action::Fail { error: InterpreterError::RuntimeError, report: runtime_report(msg, line) }
    }

    /// Pushes a value, or fails the run on a full stack.
    fn push(&mut self, value: Value, line: usize) -> (action: Action)
        requires
            old(self).wf(),
        ensures
            final(self).wf(),
            final(self).code() == old(self).code(),
            final(self).constants() == old(self).constants(),
            (final(self).state(), action@) == spec_push(old(self).state(), line, value),
    {
        if self.stack.len() < STACK_MAX {
            self.stack.push(value);
            Action::Continue
        } else {
            self.runtime_error("Stack overflow.", line)
        }
    }

    /// Replaces the two strings on top of the stack by their concatenation, interned.
    /// Returns whether that was done: a full heap that lacks the concatenation leaves the
    /// machine as it is.
    fn concatenate(&mut self, left: ObjRef, right: ObjRef) -> (done: bool)
        requires
            old(self).wf(),
            old(self).stack@.len() >= 2,
            old(self).heap.contains(left),
            old(self).heap.contains(right),
        ensures
            final(self).wf(),
            final(self).chunk == old(self).chunk,
            final(self).ip == old(self).ip,
            final(self).globals == old(self).globals,
            done == (old(self).heap@.contains(
                old(self).heap@[left.index as int] + old(self).heap@[right.index as int],
            ) || old(self).heap@.len() < MAX_STRINGS),
            !done ==> final(self).heap@ == old(self).heap@ && final(self).stack@ == old(self).stack@,
            done ==> final(self).heap@ == spec_interned(
                old(self).heap@,
                old(self).heap@[left.index as int] + old(self).heap@[right.index as int],
            ) && final(self).stack@ == old(self).stack@.drop_last().drop_last().push(
                Value::Object(
                    spec_handle_of(
                        final(self).heap@,
                        old(self).heap@[left.index as int] + old(self).heap@[right.index as int],
                    ),
                ),
            ),
    {
        match self.heap.concatenate(left, right) {
            Some(handle) => {
                self.stack.pop();
                self.stack.pop();
                self.stack.push(Value::Object(handle));
                proof {
                    assert forall|k: ObjRef| #[trigger]
                        self.globals@.dom().contains(k) implies texts_contain(self.heap@, k) by {
                        lemma_interned_keeps(
                            old(self).heap@,
                            old(self).heap@[left.index as int] + old(self).heap@[right.index as int],
                            k,
                        );
                    }
                }
                true
            },
            None => false,
        }
    }

    /// An arithmetic or ordering instruction that does not find two numbers.
    fn binary_failure(&mut self, msg: &str, line: usize) -> (action: Action)
        requires
            old(self).wf(),
        ensures
            final(self).wf(),
            final(self).code() == old(self).code(),
            final(self).constants() == old(self).constants(),
            (final(self).state(), action@) == spec_binary_failure(old(self).state(), line, msg@),
    {
        if self.stack.len() < 2 {
            self.runtime_error("Malformed bytecode.", line)
        } else {
            self.runtime_error(msg, line)
        }
    }

    /// The two numbers on top of the stack, the lower one first.
    fn number_operands(&self) -> (operands: Option<(u64, u64)>)
        ensures
            operands == (if self.stack@.len() >= 2 {
                match (spec_peek(self.stack@, 1), spec_peek(self.stack@, 0)) {
                    (Value::Number(lhs), Value::Number(rhs)) => Some((lhs, rhs)),
                    _ => None,
                }
            } else {
                None
            }),
    {
        if self.stack.len() >= 2 {
            match (self.peek(1), self.peek(0)) {
                (Value::Number(lhs), Value::Number(rhs)) => Some((lhs, rhs)),
                _ => None,
            }
        } else {
            None
        }
    }

    /// Carries out the instruction at the instruction pointer, as [`spec_step`] says.
    #[verifier::rlimit(100)]
    pub fn step(&mut self) -> (action: Action)
        requires
            old(self).wf(),
        ensures
            final(self).wf(),
            final(self).code() == old(self).code(),
            final(self).constants() == old(self).constants(),
            (final(self).state(), action@) == spec_step(
                old(self).code(),
                old(self).constants(),
                old(self).state(),
            ),
    {
        proof {
            self.lemma_globals_room();
        }
        if self.ip >= self.chunk.code.len() {
            return self.runtime_error("Malformed bytecode.", 0);
        }
        let (instruction, line) = self.chunk.code[self.ip];
        let depth = self.stack.len();
        let target = self.ip;
        self.ip += 1;
        match instruction {
            OpCode::Return => Action::Halt,
            OpCode::Constant { location } => {
                if (location as usize) < self.chunk.constants.len() {
                    let constant = self.read_constant(location);
                    self.push(constant, line)
                } else {
                    self.runtime_error("Malformed bytecode.", line)
                }
            },
            OpCode::Nil => self.push(Value::Nil, line),
            OpCode::True => self.push(Value::Bool(true), line),
            OpCode::False => self.push(Value::Bool(false), line),
            OpCode::Negate => {
                if depth < 1 {
                    return self.runtime_error("Malformed bytecode.", line);
                }
                match self.peek(0) {
                    Value::Number(bits) => {
                        self.stack.pop();
                        self.stack.push(Value::Number(number_negate(bits)));
                        Action::Continue
                    },
                    _ => self.runtime_error("Operand must be a number.", line),
                }
            },
            OpCode::Not => {
                if depth < 1 {
                    return self.runtime_error("Malformed bytecode.", line);
                }
                let value = self.peek(0);
                self.stack.pop();
                self.stack.push(Value::Bool(is_falsey(value)));
                Action::Continue
            },
            OpCode::Equal => {
                if depth < 2 {
                    return self.runtime_error("Malformed bytecode.", line);
                }
                let a = self.peek(0);
                let b = self.peek(1);
                self.stack.pop();
                self.stack.pop();
                self.stack.push(Value::Bool(b == a));
                Action::Continue
            },
            OpCode::Greater => {
                match self.number_operands() {
                    Some((lhs, rhs)) => {
                        self.stack.pop();
                        self.stack.pop();
                        self.stack.push(Value::Bool(number_greater(lhs, rhs)));
                        Action::Continue
                    },
                    None => self.binary_failure("Operands must be numbers.", line),
                }
            },
            OpCode::Less => {
                match self.number_operands() {
                    Some((lhs, rhs)) => {
                        self.stack.pop();
                        self.stack.pop();
                        self.stack.push(Value::Bool(number_less(lhs, rhs)));
                        Action::Continue
                    },
                    None => self.binary_failure("Operands must be numbers.", line),
                }
            },
            OpCode::Add => {
                if depth < 2 {
                    return self.runtime_error("Malformed bytecode.", line);
                }
                match (self.peek(1), self.peek(0)) {
                    (Value::Number(lhs), Value::Number(rhs)) => {
                        self.ip = target;
                        Action::Arithmetic { op: ArithOp::Add, lhs, rhs }
                    },
                    (Value::Object(left), Value::Object(right)) => {
                        if !(self.heap.has(left) && self.heap.has(right)) {
                            self.runtime_error("Malformed bytecode.", line)
                        } else if self.concatenate(left, right) {
                            Action::Continue
                        } else {
                            self.runtime_error("Out of memory.", line)
                        }
                    },
                    _ => self.runtime_error("Operands must be two numbers or two strings.", line),
                }
            },
            OpCode::Subtract => {
                match self.number_operands() {
                    Some((lhs, rhs)) => {
                        self.ip = target;
                        Action::Arithmetic { op: ArithOp::Subtract, lhs, rhs }
                    },
                    None => self.binary_failure("Operands must be numbers.", line),
                }
            },
            OpCode::Multiply => {
                match self.number_operands() {
                    Some((lhs, rhs)) => {
                        self.ip = target;
                        Action::Arithmetic { op: ArithOp::Multiply, lhs, rhs }
                    },
                    None => self.binary_failure("Operands must be numbers.", line),
                }
            },
            OpCode::Divide => {
                match self.number_operands() {
                    Some((lhs, rhs)) => {
                        self.ip = target;
                        Action::Arithmetic { op: ArithOp::Divide, lhs, rhs }
                    },
                    None => self.binary_failure("Operands must be numbers.", line),
                }
            },
            OpCode::Print => {
                if depth < 1 {
                    return self.runtime_error("Malformed bytecode.", line);
                }
                match self.peek(0).print(&self.heap) {
                    Some(printed) => {
                        self.stack.pop();
                        Action::Print(printed)
                    },
                    None => self.runtime_error("Malformed bytecode.", line),
                }
            },
            OpCode::Pop => {
                if depth < 1 {
                    return self.runtime_error("Malformed bytecode.", line);
                }
                self.stack.pop();
                Action::Continue
            },
            OpCode::DefineGlobal { location } => {
                match self.global_name(location) {
                    Some(name) => {
                        if depth < 1 {
                            return self.runtime_error("Malformed bytecode.", line);
                        }
                        let value = self.peek(0);
                        self.globals.set(name, value);
                        self.stack.pop();
                        proof {
                            self.globals.lemma_finite();
                        }
                        Action::Continue
                    },
                    None => self.runtime_error("Malformed bytecode.", line),
                }
            },
            OpCode::GetGlobal { location } => {
                match self.global_name(location) {
                    Some(name) => {
                        let found = match self.globals.get(&name) {
                            Some(value) => Some(*value),
                            None => None,
                        };
                        match found {
                            Some(value) => self.push(value, line),
                            None => {
                                let mut msg = String::from_str("Undefined variable '");
                                msg.append(self.heap.string(name).as_str());
                                msg.append("'");
                                self.runtime_error(msg.as_str(), line)
                            },
                        }
                    },
                    None => self.runtime_error("Malformed bytecode.", line),
                }
            },
            OpCode::SetGlobal { location } => {
                match self.global_name(location) {
                    Some(name) => {
                        if depth < 1 {
                            return self.runtime_error("Malformed bytecode.", line);
                        }
                        let value = self.peek(0);
                        if self.globals.get(&name).is_some() {
                            self.globals.set(name, value);
                            proof {
                                self.globals.lemma_finite();
                            }
                            Action::Continue
                        } else {
                            let mut msg = String::from_str("Undefined variable '");
                            msg.append(self.heap.string(name).as_str());
                            msg.append("'.");
                            self.runtime_error(msg.as_str(), line)
                        }
                    },
                    None => self.runtime_error("Malformed bytecode.", line),
                }
            },
            OpCode::GetLocal { stack_idx } => {
                if (stack_idx as usize) < depth {
                    let value = self.stack.get(stack_idx as usize);
                    self.push(value, line)
                } else {
                    self.runtime_error("Malformed bytecode.", line)
                }
            },
            OpCode::SetLocal { stack_idx } => {
                if (stack_idx as usize) < depth {
                    let value = self.peek(0);
                    self.stack.set(stack_idx as usize, value);
                    Action::Continue
                } else {
                    self.runtime_error("Malformed bytecode.", line)
                }
            },
            OpCode::JumpIfFalse { offset } => {
                if depth < 1 || offset as usize > self.chunk.code.len() - self.ip {
                    return self.runtime_error("Malformed bytecode.", line);
                }
                if is_falsey(self.peek(0)) {
                    self.ip += offset as usize;
                }
                Action::Continue
            },
            OpCode::Jump { offset } => {
                if offset as usize > self.chunk.code.len() - self.ip {
                    return self.runtime_error("Malformed bytecode.", line);
                }
                self.ip += offset as usize;
                Action::Continue
            },
            OpCode::Loop { offset } => {
                if offset as usize > self.ip {
                    return self.runtime_error("Malformed bytecode.", line);
                }
                self.ip -= offset as usize;
                Action::Continue
            },
        }
    }

    /// Takes in the result of the arithmetic that the last step asked for: the two
    /// operands give way to it and the machine moves on. Returns whether arithmetic was
    /// pending; if not, nothing changes.
    pub fn complete_arithmetic(&mut self, result: u64) -> (accepted: bool)
        requires
            old(self).wf(),
        ensures
            final(self).wf(),
            final(self).code() == old(self).code(),
            final(self).constants() == old(self).constants(),
            accepted == (spec_pending_arithmetic(old(self).code(), old(self).state()) is Some),
            final(self).state() == spec_complete(old(self).code(), old(self).state(), result),
    {
        if self.ip >= self.chunk.code.len() {
            return false;
        }
        let arithmetic = match self.chunk.code[self.ip].0 {
            OpCode::Add | OpCode::Subtract | OpCode::Multiply | OpCode::Divide => true,
            _ => false,
        };
        if !arithmetic {
            return false;
        }
        match self.number_operands() {
            Some(_) => {
                self.stack.pop();
                self.stack.pop();
                self.stack.push(Value::Number(result));
                self.ip += 1;
                true
            },
            None => false,
        }
    }

    /// Steps until a step leaves the caller something to do, at most `budget` times, as
    /// [`spec_run`] says; the action is `Continue` only when the budget is used up.
    pub fn run(&mut self, budget: usize) -> (action: Action)
        requires
            old(self).wf(),
        ensures
            final(self).wf(),
            final(self).code() == old(self).code(),
            final(self).constants() == old(self).constants(),
            (final(self).state(), action@) == spec_run(
                old(self).code(),
                old(self).constants(),
                old(self).state(),
                budget as nat,
            ),
    {
        let mut left = budget;
        while left > 0
            invariant
                self.wf(),
                self.code() == old(self).code(),
                self.constants() == old(self).constants(),
                spec_run(self.code(), self.constants(), self.state(), left as nat) == spec_run(
                    old(self).code(),
                    old(self).constants(),
                    old(self).state(),
                    budget as nat,
                ),
            decreases left,
        {
            let action = self.step();
            match action {
                Action::Continue => {},
                _ => {
                    return action;
                },
            }
            left -= 1;
        }
        Action::Continue
    }
}

} // verus!
