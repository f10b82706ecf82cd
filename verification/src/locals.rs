//! The local variables that are in scope while a program is compiled, kept in a `SmallVec`
//! that holds 256 of them inline. The index of a local is its slot on the machine's stack.

use vstd::prelude::*;
use smallvec::SmallVec;
use crate::scanner::Token;

verus! {

/// The most local variables that can be in scope at once.
pub const U8_COUNT: usize = 256;

/// A local variable: the token that names it, and the depth of the scope that declared
/// it. Until its initializer has been compiled the depth is `None`.
#[derive(Debug)]
pub struct Local {
    pub name: Token,
    pub depth: Option<usize>,
}

/// The locals in scope: a `SmallVec` with room for [`U8_COUNT`] of them inline.
#[verifier::external_body]
pub struct LocalStack {
    items: SmallVec<[Local; 256]>,
}

/// The locals that a stack of locals holds, the outermost first.
pub uninterp spec fn local_items(locals: LocalStack) -> Seq<Local>;

impl View for LocalStack {
    type V = Seq<Local>;

    open spec fn view(&self) -> Seq<Local> {
        local_items(*self)
    }
}

impl LocalStack {
    /// `SmallVec::new`: no locals.
    #[verifier::external_body]
    pub(crate) fn new() -> (locals: LocalStack)
        ensures
            local_items(locals) == Seq::<Local>::empty(),
    {
        LocalStack { items: SmallVec::new() }
    }

    /// `SmallVec::len`: the number of locals.
    #[verifier::external_body]
    pub(crate) fn len(&self) -> (len: usize)
        ensures
            len == local_items(*self).len(),
    {
        self.items.len()
    }

    /// `SmallVec::push`: the local goes on top. Below the inline capacity the vector does
    /// not allocate, so the call cannot fail.
    #[verifier::external_body]
    pub(crate) fn push(&mut self, local: Local)
        requires
            local_items(*old(self)).len() < U8_COUNT,
        ensures
            local_items(*final(self)) == local_items(*old(self)).push(local),
    {
        self.items.push(local)
    }

    /// `SmallVec::pop`: takes the innermost local off; `None`, and no change, where there
    /// is none.
    #[verifier::external_body]
    pub(crate) fn pop(&mut self) -> (top: Option<Local>)
        ensures
            local_items(*old(self)).len() == 0 ==> top.is_none() && local_items(*final(self))
                == local_items(*old(self)),
            local_items(*old(self)).len() > 0 ==> top == Some(local_items(*old(self)).last())
                && local_items(*final(self)) == local_items(*old(self)).drop_last(),
    {
        self.items.pop()
    }

    /// Indexing a `SmallVec`, which goes through its slice: the local in slot `index`.
    #[verifier::external_body]
    pub(crate) fn get(&self, index: usize) -> (local: &Local)
        requires
            index < local_items(*self).len(),
        ensures
            *local == local_items(*self)[index as int],
    {
        &self.items[index]
    }
}

} // verus!
