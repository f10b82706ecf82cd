//! Stack discipline of a chunk.
//!
//! A chunk is balanced when each of its instructions can be given a stack height, the
//! number of values on the stack whenever the instruction is reached, such that every
//! instruction finds the values it needs and hands the right height on to each
//! instruction that may follow it. A balanced chunk starts at height 0 and reaches each
//! `Return` at height 0.

use vstd::prelude::*;
use crate::chunk::OpCode;

verus! {

/// How many values an instruction needs on the stack.
pub open spec fn operands(op: OpCode) -> int {
    match op {
        OpCode::Negate | OpCode::Not | OpCode::Print | OpCode::Pop | OpCode::DefineGlobal { .. }
        | OpCode::SetGlobal { .. } | OpCode::JumpIfFalse { .. } => 1,
        OpCode::Equal | OpCode::Greater | OpCode::Less | OpCode::Add | OpCode::Subtract
        | OpCode::Multiply | OpCode::Divide => 2,
        OpCode::GetLocal { stack_idx } => stack_idx + 1,
        OpCode::SetLocal { stack_idx } => stack_idx + 1,
        _ => 0,
    }
}

/// By how much an instruction changes the height of the stack.
pub open spec fn effect(op: OpCode) -> int {
    match op {
        OpCode::Constant { .. } | OpCode::Nil | OpCode::True | OpCode::False
        | OpCode::GetGlobal { .. } | OpCode::GetLocal { .. } => 1,
        OpCode::Equal | OpCode::Greater | OpCode::Less | OpCode::Add | OpCode::Subtract
        | OpCode::Multiply | OpCode::Divide | OpCode::Print | OpCode::Pop
        | OpCode::DefineGlobal { .. } => -1,
        _ => 0,
    }
}

/// Whether the instruction after this one may be reached from it.
pub open spec fn falls_through(op: OpCode) -> bool {
    !(op is Return || op is Jump || op is Loop)
}

/// The instruction that a jump at `i` leads to, if `op` is a jump.
pub open spec fn jump_target(op: OpCode, i: int) -> Option<int> {
    match op {
        OpCode::JumpIfFalse { offset } => Some(i + 1 + offset),
        OpCode::Jump { offset } => Some(i + 1 + offset),
        OpCode::Loop { offset } => Some(i + 1 - offset),
        _ => None,
    }
}

/// Instruction `i` finds its operands, and the instruction after it stands at the height
/// that `i` leaves. `heights` has one entry more than there are instructions: the last is
/// the height at which the next instruction to be written will be reached.
pub open spec fn straight_ok(ops: Seq<OpCode>, heights: Seq<int>, i: int) -> bool {
    &&& operands(ops[i]) <= heights[i]
    &&& ops[i] is Return ==> heights[i] == 0
    &&& falls_through(ops[i]) ==> heights[i + 1] == heights[i] + effect(ops[i])
}

/// The target of a jump at `i` lies in the chunk or just behind it, and stands at the
/// height at which the jump is taken.
pub open spec fn target_ok(ops: Seq<OpCode>, heights: Seq<int>, i: int) -> bool {
    match jump_target(ops[i], i) {
        Some(target) => 0 <= target <= ops.len() && heights[target] == heights[i],
        None => true,
    }
}

/// The heights fit the instructions written so far. A jump in `pending` has no target yet;
/// `pending` gives the height at which its target will have to stand.
pub open spec fn fits(ops: Seq<OpCode>, heights: Seq<int>, pending: Map<int, int>) -> bool {
    &&& heights.len() == ops.len() + 1
    &&& heights[0] == 0
    &&& forall|i: int| 0 <= i < ops.len() ==> #[trigger] straight_ok(ops, heights, i)
    &&& forall|i: int|
        0 <= i < ops.len() && !pending.dom().contains(i) ==> #[trigger] target_ok(ops, heights, i)
    &&& forall|i: int| #[trigger]
        pending.dom().contains(i) ==> 0 <= i < ops.len() && (ops[i] is JumpIfFalse || ops[i] is Jump)
            && pending[i] == heights[i]
}

/// The heights fit a finished chunk: no jump is left without its target, and no
/// instruction leads out of the chunk.
pub open spec fn certifies(ops: Seq<OpCode>, heights: Seq<int>) -> bool {
    &&& fits(ops, heights, Map::<int, int>::empty())
    &&& forall|i: int|
        0 <= i < ops.len() && falls_through(#[trigger] ops[i]) ==> i + 1 < ops.len()
    &&& forall|i: int|
        0 <= i < ops.len() ==> match jump_target(#[trigger] ops[i], i) {
            Some(target) => target < ops.len(),
            None => true,
        }
}

/// The chunk is balanced: some assignment of heights fits it.
pub open spec fn balanced(ops: Seq<OpCode>) -> bool {
    exists|heights: Seq<int>| certifies(ops, heights)
}

/// The heights give an empty stack to each of the places `starts`.
pub open spec fn empty_at(heights: Seq<int>, starts: Set<int>) -> bool {
    forall|place: int| #[trigger] starts.contains(place) ==> 0 <= place < heights.len()
        && heights[place] == 0
}

/// The chunk is balanced in such a way that the stack is empty whenever the machine
/// stands at one of the places `starts`.
pub open spec fn rests_at(ops: Seq<OpCode>, starts: Set<int>) -> bool {
    exists|heights: Seq<int>| certifies(ops, heights) && empty_at(heights, starts)
}

/// A jump with its offset filled in; any other instruction as it is.
pub open spec fn patched(op: OpCode, offset: u16) -> OpCode {
    match op {
        OpCode::JumpIfFalse { .. } => OpCode::JumpIfFalse { offset },
        OpCode::Jump { .. } => OpCode::Jump { offset },
        _ => op,
    }
}

/// Heights that fit a chunk fit it with one more instruction, if that instruction finds
/// its operands and the next height is the one it leaves. A forward jump joins the pending
/// jumps; a backward jump must lead to an instruction that stands at the current height.
pub proof fn lemma_fits_push(
    ops: Seq<OpCode>,
    heights: Seq<int>,
    pending: Map<int, int>,
    op: OpCode,
    next: int,
)
    requires
        fits(ops, heights, pending),
        operands(op) <= heights.last(),
        op is Return ==> heights.last() == 0,
        falls_through(op) ==> next == heights.last() + effect(op),
        op matches OpCode::Loop { offset } ==> 1 <= offset <= ops.len() + 1 && heights[ops.len()
            + 1 - offset] == heights.last(),
    ensures
        fits(
            ops.push(op),
            heights.push(next),
            if op is JumpIfFalse || op is Jump {
                pending.insert(ops.len() as int, heights.last())
            } else {
                pending
            },
        ),
{
    let ops2 = ops.push(op);
    let heights2 = heights.push(next);
    let pending2 = if op is JumpIfFalse || op is Jump {
        pending.insert(ops.len() as int, heights.last())
    } else {
        pending
    };
    assert(!pending.dom().contains(ops.len() as int));
    assert forall|i: int| 0 <= i < ops2.len() implies #[trigger] straight_ok(ops2, heights2, i) by {
        if i < ops.len() {
            assert(straight_ok(ops, heights, i));
        }
    }
    assert forall|i: int| 0 <= i < ops2.len() && !pending2.dom().contains(i) implies #[trigger] target_ok(
        ops2,
        heights2,
        i,
    ) by {
        if i < ops.len() {
            assert(target_ok(ops, heights, i));
        }
    }
    assert forall|i: int| #[trigger] pending2.dom().contains(i) implies 0 <= i < ops2.len() && (
    ops2[i] is JumpIfFalse || ops2[i] is Jump) && pending2[i] == heights2[i] by {
        if i < ops.len() {
            assert(pending.dom().contains(i));
        }
    }
}

/// Heights that fit a chunk still fit it when a pending jump gets the next instruction to
/// be written as its target, if that instruction stands at the height the jump waits for.
pub proof fn lemma_fits_patch(
    ops: Seq<OpCode>,
    heights: Seq<int>,
    pending: Map<int, int>,
    jump: int,
    offset: u16,
)
    requires
        fits(ops, heights, pending),
        pending.dom().contains(jump),
        jump + 1 + offset == ops.len(),
        pending[jump] == heights.last(),
    ensures
        fits(ops.update(jump, patched(ops[jump], offset)), heights, pending.remove(jump)),
{
    let ops2 = ops.update(jump, patched(ops[jump], offset));
    let pending2 = pending.remove(jump);
    assert forall|i: int| 0 <= i < ops2.len() implies #[trigger] straight_ok(ops2, heights, i) by {
        assert(straight_ok(ops, heights, i));
    }
    assert forall|i: int| 0 <= i < ops2.len() && !pending2.dom().contains(i) implies #[trigger] target_ok(
        ops2,
        heights,
        i,
    ) by {
        if i != jump {
            assert(target_ok(ops, heights, i));
        }
    }
    assert forall|i: int| #[trigger] pending2.dom().contains(i) implies 0 <= i < ops2.len() && (
    ops2[i] is JumpIfFalse || ops2[i] is Jump) && pending2[i] == heights[i] by {
        assert(pending.dom().contains(i));
    }
}

} // verus!
