//! The value stack of the machine, kept in a `SmallVec` that holds 256 values inline.

use vstd::prelude::*;
use smallvec::SmallVec;
use crate::value::Value;

verus! {

/// The number of values the stack may hold.
pub const STACK_MAX: usize = 256;

/// The value stack: a `SmallVec` with room for [`STACK_MAX`] values inline.
#[verifier::external_body]
pub struct ValueStack {
    items: SmallVec<[Value; 256]>,
}

/// The values that a stack holds, bottom first.
pub uninterp spec fn stack_values(stack: ValueStack) -> Seq<Value>;

impl View for ValueStack {
    type V = Seq<Value>;

    open spec fn view(&self) -> Seq<Value> {
        stack_values(*self)
    }
}

impl ValueStack {
    /// `SmallVec::new`: a stack that holds nothing.
    #[verifier::external_body]
    pub(crate) fn new() -> (stack: ValueStack)
        ensures
            stack_values(stack) == Seq::<Value>::empty(),
    {
        ValueStack { items: SmallVec::new() }
    }

    /// `SmallVec::len`: the number of values on the stack.
    #[verifier::external_body]
    pub(crate) fn len(&self) -> (len: usize)
        ensures
            len == stack_values(*self).len(),
    {
        self.items.len()
    }

    /// `SmallVec::push`: the value goes on top. Below the inline capacity the vector does
    /// not allocate, so the call cannot fail.
    #[verifier::external_body]
    pub(crate) fn push(&mut self, value: Value)
        requires
            stack_values(*old(self)).len() < STACK_MAX,
        ensures
            stack_values(*final(self)) == stack_values(*old(self)).push(value),
    {
        self.items.push(value)
    }

    /// `SmallVec::pop`: takes the top value off; `None`, and no change, on an empty stack.
    #[verifier::external_body]
    pub(crate) fn pop(&mut self) -> (top: Option<Value>)
        ensures
            stack_values(*old(self)).len() == 0 ==> top.is_none() && stack_values(*final(self))
                == stack_values(*old(self)),
            stack_values(*old(self)).len() > 0 ==> top == Some(stack_values(*old(self)).last())
                && stack_values(*final(self)) == stack_values(*old(self)).drop_last(),
    {
        self.items.pop()
    }

    /// Indexing a `SmallVec`, which goes through its slice: the value in slot `index`.
    #[verifier::external_body]
    pub(crate) fn get(&self, index: usize) -> (value: Value)
        requires
            index < stack_values(*self).len(),
        ensures
            value == stack_values(*self)[index as int],
    {
        self.items[index]
    }

    /// Assigning through the index of a `SmallVec`: slot `index` takes the value, the
    /// others keep theirs.
    #[verifier::external_body]
    pub(crate) fn set(&mut self, index: usize, value: Value)
        requires
            index < stack_values(*old(self)).len(),
        ensures
            stack_values(*final(self)) == stack_values(*old(self)).update(index as int, value),
    {
        self.items[index] = value;
    }

    /// `SmallVec::clear`: drops every value.
    #[verifier::external_body]
    pub(crate) fn clear(&mut self)
        ensures
            stack_values(*final(self)) == Seq::<Value>::empty(),
    {
        self.items.clear()
    }
}

} // verus!
