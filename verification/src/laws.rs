//! What holds of the machine on balanced chunks, and of the instruction patterns that the
//! compiler writes for short-circuit operators and for global variables.

use vstd::prelude::*;
use crate::balance::{balanced, certifies, empty_at, rests_at, straight_ok, target_ok};
use crate::chunk::{chunk_ok, op_ok, OpCode};
use crate::compiler::compiled;
use crate::heap::{spec_handle_of, spec_interned, texts_contain, MAX_STRINGS};
use crate::report::spec_runtime_report;
use crate::value::{spec_is_falsey, ObjRef, Value};
use crate::vm::{
    add_operands_message, malformed_message, memory_message, operand_message, operands_message,
    overflow_message, spec_complete, spec_global_name, spec_peek, spec_run, spec_step,
    undefined_read_message, undefined_write_message, ActionView, MachineState,
};

verus! {

/// The instructions of a chunk without their lines.
pub open spec fn ops_of(code: Seq<(OpCode, usize)>) -> Seq<OpCode> {
    Seq::new(code.len(), |i: int| code[i].0)
}

/// The machine stands at an instruction of the chunk, with as many values on its stack as
/// the heights say.
pub open spec fn at_height(code: Seq<(OpCode, usize)>, heights: Seq<int>, s: MachineState) -> bool {
    0 <= s.ip < code.len() && s.stack.len() == heights[s.ip]
}

/// On a balanced chunk the stack is empty at `Return`, and every other step keeps the
/// machine at the height that the chunk's heights give to the instruction it moves to.
///
/// A machine that starts such a chunk with an empty stack stands at its height, since the
/// first instruction has height 0; so it stands at its height after every step, and
/// whenever a step halts the program, the stack is empty. A step that asks for arithmetic
/// leaves the state as it is, and the state stands at its height again once the result
/// has been taken in. A step may still fail, on operands of the wrong kind, on a variable
/// that is not defined, or where the stack has no room.
pub proof fn law_balanced_step(
    code: Seq<(OpCode, usize)>,
    constants: Seq<Value>,
    heights: Seq<int>,
    s: MachineState,
    result: u64,
)
    requires
        certifies(ops_of(code), heights),
        at_height(code, heights, s),
    ensures
        ({
            let (after, action) = spec_step(code, constants, s);
            match action {
                ActionView::Halt => s.stack.len() == 0,
                ActionView::Continue | ActionView::Print(_) => at_height(code, heights, after),
                ActionView::Arithmetic { .. } => after == s && at_height(
                    code,
                    heights,
                    spec_complete(code, s, result),
                ),
                ActionView::Fail { .. } => after.stack.len() == 0,
            }
        }),
{
    let ops = ops_of(code);
    assert(straight_ok(ops, heights, s.ip));
    assert(target_ok(ops, heights, s.ip));
    assert(ops[s.ip] == code[s.ip].0);
}

/// On a balanced chunk a run that ends in `Halt` ends with an empty stack, however many
/// steps it takes; a run that stops for any other reason but a failure stops at the
/// height of the instruction it has reached.
pub proof fn law_balanced_run(
    code: Seq<(OpCode, usize)>,
    constants: Seq<Value>,
    heights: Seq<int>,
    s: MachineState,
    budget: nat,
)
    requires
        certifies(ops_of(code), heights),
        at_height(code, heights, s),
    ensures
        ({
            let (after, action) = spec_run(code, constants, s, budget);
            match action {
                ActionView::Halt => after.stack.len() == 0,
                ActionView::Fail { .. } => after.stack.len() == 0,
                _ => at_height(code, heights, after),
            }
        }),
    decreases budget,
{
    if budget > 0 {
        law_balanced_step(code, constants, heights, s, 0);
        let (next, action) = spec_step(code, constants, s);
        if action is Continue {
            law_balanced_run(code, constants, heights, next, (budget - 1) as nat);
        }
    }
}

/// To define a global variable and to read it at once leaves the stack as it was.
///
/// So a value that is printed after it has been stored in a global variable and read
/// back is the value that would have been printed directly: after `DefineGlobal` and
/// `GetGlobal` of one name, the machine has the stack and the heap it had before, and the
/// variable holds the value on top of the stack.
pub proof fn law_define_then_get(
    code: Seq<(OpCode, usize)>,
    constants: Seq<Value>,
    s: MachineState,
    location: u8,
)
    requires
        0 <= s.ip,
        s.ip + 1 < code.len(),
        code[s.ip].0 == (OpCode::DefineGlobal { location }),
        code[s.ip + 1].0 == (OpCode::GetGlobal { location }),
        spec_global_name(constants, s.heap, location) is Some,
        1 <= s.stack.len() <= 256,
    ensures
        ({
            let (defined, first) = spec_step(code, constants, s);
            let (read, second) = spec_step(code, constants, defined);
            &&& first is Continue
            &&& second is Continue
            &&& read.ip == s.ip + 2
            &&& read.stack == s.stack
            &&& read.heap == s.heap
            &&& read.globals == s.globals.insert(
                spec_global_name(constants, s.heap, location)->0,
                spec_peek(s.stack, 0),
            )
        }),
{
    let (defined, first) = spec_step(code, constants, s);
    let (read, second) = spec_step(code, constants, defined);
    assert(read.stack =~= s.stack);
}

/// `a and b`: the right operand is evaluated exactly when the left one is truthy.
///
/// The compiler writes `JumpIfFalse` over a `Pop` and the code of `b`. With a falsey `a`
/// on top of the stack the machine jumps behind the code of `b` and `a` stays as the
/// result; with a truthy `a` it drops `a` and goes on with the first instruction of `b`.
pub proof fn law_and_short_circuit(
    code: Seq<(OpCode, usize)>,
    constants: Seq<Value>,
    s: MachineState,
    offset: u16,
)
    requires
        0 <= s.ip,
        s.ip + 1 < code.len(),
        s.ip + 1 + offset <= code.len(),
        code[s.ip].0 == (OpCode::JumpIfFalse { offset }),
        code[s.ip + 1].0 == OpCode::Pop,
        s.stack.len() >= 1,
    ensures
        ({
            let (jumped, first) = spec_step(code, constants, s);
            let (popped, second) = spec_step(code, constants, jumped);
            &&& first is Continue
            &&& spec_is_falsey(spec_peek(s.stack, 0)) ==> jumped.ip == s.ip + 1 + offset
                && jumped.stack == s.stack
            &&& !spec_is_falsey(spec_peek(s.stack, 0)) ==> second is Continue && popped.ip == s.ip
                + 2 && popped.stack == s.stack.drop_last()
        }),
{
}

/// `a or b`: the right operand is evaluated exactly when the left one is falsey.
///
/// The compiler writes a `JumpIfFalse` over a `Jump`, the `Jump` over a `Pop` and the code
/// of `b`. With a truthy `a` on top of the stack the machine takes the `Jump` behind the
/// code of `b` and `a` stays as the result; with a falsey `a` it skips the `Jump`, drops
/// `a` and goes on with the first instruction of `b`.
pub proof fn law_or_short_circuit(
    code: Seq<(OpCode, usize)>,
    constants: Seq<Value>,
    s: MachineState,
    offset: u16,
)
    requires
        0 <= s.ip,
        s.ip + 2 < code.len(),
        s.ip + 2 + offset <= code.len(),
        code[s.ip].0 == (OpCode::JumpIfFalse { offset: 1 }),
        code[s.ip + 1].0 == (OpCode::Jump { offset }),
        code[s.ip + 2].0 == OpCode::Pop,
        s.stack.len() >= 1,
    ensures
        ({
            let (tested, first) = spec_step(code, constants, s);
            let (moved, second) = spec_step(code, constants, tested);
            &&& first is Continue
            &&& second is Continue
            &&& !spec_is_falsey(spec_peek(s.stack, 0)) ==> moved.ip == s.ip + 2 + offset
                && moved.stack == s.stack
            &&& spec_is_falsey(spec_peek(s.stack, 0)) ==> moved.ip == s.ip + 3 && moved.stack
                == s.stack.drop_last()
        }),
{
}

/// A value that is a handle names a string of the heap.
pub open spec fn value_ok(heap: Seq<Seq<char>>, value: Value) -> bool {
    value matches Value::Object(handle) ==> texts_contain(heap, handle)
}

/// Every handle on the stack and among the global variables names a string of the heap.
pub open spec fn handles_ok(s: MachineState) -> bool {
    &&& forall|i: int| 0 <= i < s.stack.len() ==> value_ok(s.heap, #[trigger] s.stack[i])
    &&& forall|key: ObjRef| #[trigger]
        s.globals.dom().contains(key) ==> texts_contain(s.heap, key) && value_ok(
            s.heap,
            s.globals[key],
        )
}

/// The machine runs a chunk that the compiler has written: the chunk is balanced and its
/// instructions find what they name, the machine stands at the height of its next
/// instruction, its handles name strings of its heap, and the heap is no larger than a
/// heap can be.
pub open spec fn runs_compiled(
    code: Seq<(OpCode, usize)>,
    constants: Seq<Value>,
    heights: Seq<int>,
    s: MachineState,
) -> bool {
    &&& certifies(ops_of(code), heights)
    &&& chunk_ok(code, constants, s.heap)
    &&& at_height(code, heights, s)
    &&& handles_ok(s)
    &&& s.heap.len() <= MAX_STRINGS
}

/// A machine that starts a chunk of the compiler with an empty stack runs a chunk of the
/// compiler: some heights certify the chunk, and the machine stands at the height of the
/// first instruction, which is 0.
pub proof fn law_compiled_start(
    src: Seq<char>,
    numbers: Seq<u64>,
    code: Seq<(OpCode, usize)>,
    constants: Seq<Value>,
    s: MachineState,
)
    requires
        compiled(src, numbers, code, constants, s.heap),
        s.ip == 0,
        s.stack.len() == 0,
        handles_ok(s),
        s.heap.len() <= MAX_STRINGS,
    ensures
        exists|heights: Seq<int>| runs_compiled(code, constants, heights, s),
{
    let heights = choose|heights: Seq<int>| certifies(ops_of(code), heights);
    assert(runs_compiled(code, constants, heights, s));
}

/// A report with a message that starts with another character than the message of a
/// second report differs from that report.
proof fn lemma_reports_differ(first: Seq<char>, second: Seq<char>, line: nat, other: nat)
    requires
        first.len() > 0,
        second.len() > 0,
        first[0] != second[0],
    ensures
        spec_runtime_report(first, line) != spec_runtime_report(second, other),
{
    assert(spec_runtime_report(first, line)[0] == first[0]);
    assert(spec_runtime_report(second, other)[0] == second[0]);
}

/// A string of a heap is a string of the heap after another text has been interned, and
/// the interned text is one too.
proof fn lemma_interned(heap: Seq<Seq<char>>, text: Seq<char>)
    requires
        heap.len() < usize::MAX,
    ensures
        heap.is_prefix_of(spec_interned(heap, text)),
        texts_contain(spec_interned(heap, text), spec_handle_of(spec_interned(heap, text), text)),
        forall|handle: ObjRef| #[trigger]
            texts_contain(heap, handle) ==> texts_contain(spec_interned(heap, text), handle),
{
    let after = spec_interned(heap, text);
    if heap.contains(text) {
        let i = choose|i: int| 0 <= i < heap.len() && heap[i] == text;
    } else {
        assert(after[heap.len() as int] == text);
    }
    let found = choose|i: int| 0 <= i < after.len() && after[i] == text;
    assert(0 <= found < after.len() && after[found] == text);
    assert forall|handle: ObjRef| #[trigger] texts_contain(heap, handle) implies texts_contain(
        after,
        handle,
    ) by {
        assert(after[handle.index as int] == heap[handle.index as int]);
    }
}

/// A chunk whose instructions find what they name in a heap find it in every heap that
/// holds the same strings and more.
proof fn lemma_chunk_ok_grows(
    code: Seq<(OpCode, usize)>,
    constants: Seq<Value>,
    before: Seq<Seq<char>>,
    after: Seq<Seq<char>>,
)
    requires
        chunk_ok(code, constants, before),
        forall|handle: ObjRef| #[trigger]
            texts_contain(before, handle) ==> texts_contain(after, handle),
    ensures
        chunk_ok(code, constants, after),
{
    assert forall|i: int| 0 <= i < code.len() implies op_ok(
        (#[trigger] code[i]).0,
        i,
        code.len() as int,
        constants,
        after,
    ) by {
        assert(op_ok(code[i].0, i, code.len() as int, constants, before));
    }
}

/// A machine that runs a chunk of the compiler never meets malformed bytecode.
///
/// Whatever the step, it does not fail with the message of malformed bytecode: the
/// instruction pointer is inside the chunk, each instruction finds its operands, its
/// constant, its stack slot and its jump target, and each handle names a string. The
/// failures that remain are those of the program: operands of the wrong kind, a variable
/// that is not defined, a stack without room, and a heap without room. Unless the step fails or halts, the
/// machine runs a chunk of the compiler after it too; after a step that asks for
/// arithmetic it does so once the result has been taken in.
pub proof fn law_compiled_never_malformed(
    code: Seq<(OpCode, usize)>,
    constants: Seq<Value>,
    heights: Seq<int>,
    s: MachineState,
    result: u64,
    line: nat,
)
    requires
        runs_compiled(code, constants, heights, s),
    ensures
        ({
            let (after, action) = spec_step(code, constants, s);
            match action {
                ActionView::Fail { error, report } => report != spec_runtime_report(
                    malformed_message(),
                    line,
                ),
                ActionView::Halt => s.stack.len() == 0,
                ActionView::Arithmetic { .. } => after == s && runs_compiled(
                    code,
                    constants,
                    heights,
                    spec_complete(code, s, result),
                ),
                _ => runs_compiled(code, constants, heights, after),
            }
        }),
{
    let ops = ops_of(code);
    let (after, action) = spec_step(code, constants, s);
    let op = code[s.ip].0;
    let at = code[s.ip].1 as nat;
    assert(straight_ok(ops, heights, s.ip));
    assert(target_ok(ops, heights, s.ip));
    assert(ops[s.ip] == op);
    assert(op_ok(op, s.ip, code.len() as int, constants, s.heap));
    law_balanced_step(code, constants, heights, s, result);
    reveal_strlit("Malformed bytecode.");
    reveal_strlit("Operand must be a number.");
    reveal_strlit("Operands must be numbers.");
    reveal_strlit("Operands must be two numbers or two strings.");
    reveal_strlit("Stack overflow.");
    reveal_strlit("Undefined variable '");
    lemma_reports_differ(operand_message(), malformed_message(), at, line);
    lemma_reports_differ(operands_message(), malformed_message(), at, line);
    lemma_reports_differ(add_operands_message(), malformed_message(), at, line);
    lemma_reports_differ(overflow_message(), malformed_message(), at, line);
    reveal_strlit("Out of memory.");
    lemma_reports_differ(memory_message(), malformed_message(), at, line);
    if s.stack.len() >= 1 {
        assert(value_ok(s.heap, s.stack[s.stack.len() - 1]));
    }
    if s.stack.len() >= 2 {
        assert(value_ok(s.heap, s.stack[s.stack.len() - 2]));
    }
    match op {
        OpCode::Add => {
            if s.stack.len() >= 2 {
                match (spec_peek(s.stack, 1), spec_peek(s.stack, 0)) {
                    (Value::Object(left), Value::Object(right)) => {
                        let text = s.heap[left.index as int] + s.heap[right.index as int];
                        lemma_interned(s.heap, text);
                        lemma_chunk_ok_grows(code, constants, s.heap, after.heap);
                        assert forall|i: int| 0 <= i < after.stack.len() implies value_ok(
                            after.heap,
                            #[trigger] after.stack[i],
                        ) by {
                            if i < after.stack.len() - 1 {
                                assert(after.stack[i] == s.stack[i]);
                                assert(value_ok(s.heap, s.stack[i]));
                            }
                        }
                        assert forall|key: ObjRef| #[trigger]
                            after.globals.dom().contains(key) implies texts_contain(
                            after.heap,
                            key,
                        ) && value_ok(after.heap, after.globals[key]) by {
                            assert(s.globals.dom().contains(key));
                        }
                    },
                    _ => {},
                }
            }
        },
        OpCode::GetLocal { stack_idx } => {
            assert(value_ok(s.heap, s.stack[stack_idx as int]));
        },
        OpCode::GetGlobal { location } | OpCode::SetGlobal { location } => {
            let name = spec_global_name(constants, s.heap, location)->0;
            let text = s.heap[name.index as int];
            assert(undefined_read_message(text)[0] == 'U');
            assert(undefined_write_message(text)[0] == 'U');
            lemma_reports_differ(undefined_read_message(text), malformed_message(), at, line);
            lemma_reports_differ(undefined_write_message(text), malformed_message(), at, line);
        },
        OpCode::Constant { location } => {
            assert(value_ok(s.heap, constants[location as int]));
        },
        _ => {},
    }
    if action is Continue || action is Print {
        assert forall|i: int| 0 <= i < after.stack.len() implies value_ok(
            after.heap,
            #[trigger] after.stack[i],
        ) by {
            if !(op is Add) {
                if i < s.stack.len() && after.stack[i] == s.stack[i] {
                    assert(value_ok(s.heap, s.stack[i]));
                }
            }
        }
        assert forall|key: ObjRef| #[trigger]
            after.globals.dom().contains(key) implies texts_contain(after.heap, key) && value_ok(
            after.heap,
            after.globals[key],
        ) by {
            if !(op is Add) {
                if s.globals.dom().contains(key) {
                    assert(texts_contain(s.heap, key));
                }
            }
        }
    }
    if action is Arithmetic {
        let done = spec_complete(code, s, result);
        assert forall|i: int| 0 <= i < done.stack.len() implies value_ok(
            done.heap,
            #[trigger] done.stack[i],
        ) by {
            if i < done.stack.len() - 1 {
                assert(done.stack[i] == s.stack[i]);
                assert(value_ok(s.heap, s.stack[i]));
            }
        }
    }
}

/// What becomes of a step on a chunk of the compiler: the program has ended with an empty
/// stack, or it has failed otherwise than on malformed bytecode, or the machine goes on
/// running a chunk of the compiler (once the result of pending arithmetic is taken in).
pub open spec fn outcome_ok(
    code: Seq<(OpCode, usize)>,
    constants: Seq<Value>,
    heights: Seq<int>,
    after: MachineState,
    action: ActionView,
) -> bool {
    match action {
        ActionView::Halt => after.stack.len() == 0,
        ActionView::Fail { error, report } => after.stack.len() == 0 && forall|line: nat|
            report != #[trigger] spec_runtime_report(malformed_message(), line),
        ActionView::Arithmetic { .. } => forall|result: u64|
            runs_compiled(code, constants, heights, #[trigger] spec_complete(code, after, result)),
        _ => runs_compiled(code, constants, heights, after),
    }
}

/// A run of a chunk of the compiler, however many steps it takes, ends as a step does:
/// with an empty stack where the program returns, never on malformed bytecode, and with a
/// machine that goes on running the chunk where the run stops for its caller.
pub proof fn law_compiled_run(
    code: Seq<(OpCode, usize)>,
    constants: Seq<Value>,
    heights: Seq<int>,
    s: MachineState,
    budget: nat,
)
    requires
        runs_compiled(code, constants, heights, s),
    ensures
        ({
            let (after, action) = spec_run(code, constants, s, budget);
            outcome_ok(code, constants, heights, after, action)
        }),
    decreases budget,
{
    if budget > 0 {
        let (next, action) = spec_step(code, constants, s);
        law_balanced_step(code, constants, heights, s, 0);
        assert forall|line: nat| action is Fail implies action->report
            != #[trigger] spec_runtime_report(malformed_message(), line) by {
            law_compiled_never_malformed(code, constants, heights, s, 0, line);
        }
        assert forall|result: u64| action is Arithmetic implies runs_compiled(
            code,
            constants,
            heights,
            #[trigger] spec_complete(code, next, result),
        ) by {
            law_compiled_never_malformed(code, constants, heights, s, result, 0);
        }
        law_compiled_never_malformed(code, constants, heights, s, 0, 0);
        if action is Continue {
            law_compiled_run(code, constants, heights, next, (budget - 1) as nat);
        }
    }
}

/// What a caller of the machine does with a program: it calls `run` again and again, each
/// time with the budget `budget`; where a run asks for arithmetic, it hands in the next of
/// `results` first. The session ends when the program returns or fails, or when the
/// results are used up.
pub open spec fn spec_session(
    code: Seq<(OpCode, usize)>,
    constants: Seq<Value>,
    s: MachineState,
    budget: nat,
    results: Seq<u64>,
) -> (MachineState, ActionView)
    decreases results.len(),
{
    let (after, action) = spec_run(code, constants, s, budget);
    if results.len() == 0 {
        (after, action)
    } else {
        match action {
            ActionView::Halt | ActionView::Fail { .. } => (after, action),
            ActionView::Arithmetic { .. } => spec_session(
                code,
                constants,
                spec_complete(code, after, results[0]),
                budget,
                results.drop_first(),
            ),
            _ => spec_session(code, constants, after, budget, results.drop_first()),
        }
    }
}

/// For any program that compiles, the stack is empty whenever the program returns,
/// however the machine is driven: over any number of calls of `run`, with any budget and
/// any results of the arithmetic, a session on a chunk of the compiler that ends with
/// `Halt` ends with an empty stack, and none ends on malformed bytecode.
pub proof fn law_compiled_session(
    code: Seq<(OpCode, usize)>,
    constants: Seq<Value>,
    heights: Seq<int>,
    s: MachineState,
    budget: nat,
    results: Seq<u64>,
)
    requires
        runs_compiled(code, constants, heights, s),
    ensures
        ({
            let (after, action) = spec_session(code, constants, s, budget, results);
            outcome_ok(code, constants, heights, after, action)
        }),
    decreases results.len(),
{
    law_compiled_run(code, constants, heights, s, budget);
    let (after, action) = spec_run(code, constants, s, budget);
    if results.len() > 0 {
        match action {
            ActionView::Halt | ActionView::Fail { .. } => {},
            ActionView::Arithmetic { .. } => {
                law_compiled_session(
                    code,
                    constants,
                    heights,
                    spec_complete(code, after, results[0]),
                    budget,
                    results.drop_first(),
                );
            },
            _ => {
                law_compiled_session(code, constants, heights, after, budget, results.drop_first());
            },
        }
    }
}

/// A machine that starts a chunk of the compiler with an empty stack runs the chunk at
/// heights that give an empty stack to each place where a declaration begins.
pub proof fn law_compiled_start_rests(
    src: Seq<char>,
    numbers: Seq<u64>,
    code: Seq<(OpCode, usize)>,
    constants: Seq<Value>,
    starts: Set<int>,
    s: MachineState,
)
    requires
        compiled(src, numbers, code, constants, s.heap),
        rests_at(ops_of(code), starts),
        s.ip == 0,
        s.stack.len() == 0,
        handles_ok(s),
        s.heap.len() <= MAX_STRINGS,
    ensures
        exists|heights: Seq<int>|
            runs_compiled(code, constants, heights, s) && empty_at(heights, starts),
{
    let heights = choose|heights: Seq<int>|
        certifies(ops_of(code), heights) && empty_at(heights, starts);
    assert(runs_compiled(code, constants, heights, s));
}

/// The stack is as long after each declaration of a program as it was before it: however
/// the machine is driven, whenever a session on a chunk of the compiler stops where a
/// declaration begins, or behind the last one, the stack is empty.
pub proof fn law_stack_between_statements(
    code: Seq<(OpCode, usize)>,
    constants: Seq<Value>,
    heights: Seq<int>,
    starts: Set<int>,
    s: MachineState,
    budget: nat,
    results: Seq<u64>,
)
    requires
        runs_compiled(code, constants, heights, s),
        empty_at(heights, starts),
    ensures
        ({
            let (after, action) = spec_session(code, constants, s, budget, results);
            (action is Continue || action is Print) && starts.contains(after.ip)
                ==> after.stack.len() == 0
        }),
{
    law_compiled_session(code, constants, heights, s, budget, results);
}

} // verus!
