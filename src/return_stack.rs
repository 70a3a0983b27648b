//! The bounded stack of return addresses.
use vstd::prelude::*;

use arrayvec::ArrayVec;

use crate::heap::Pointer;
use crate::stack::StackError;

verus! {

/// Most return addresses the stack can hold.
pub const RETURN_STACK_SIZE: usize = 500;

/// A return address, plain or with the heap object it returns into.
pub enum ReturnType {
    WithoutPointer(usize),
    WithPointer(Pointer),
}

/// What a return-address buffer holds, bottom first.
pub uninterp spec fn return_slots(v: ArrayVec<ReturnType, 500>) -> Seq<ReturnType>;

/// Relies on arrayvec's `ArrayVec::new`: an empty vector.
#[verifier::external_body]
fn returns_new() -> (r: ArrayVec<ReturnType, 500>)
    ensures
        return_slots(r) == Seq::<ReturnType>::empty(),
{
    ArrayVec::new()
}

/// Relies on arrayvec's `ArrayVec::len`: the number of elements held.
#[verifier::external_body]
fn returns_len(v: &ArrayVec<ReturnType, 500>) -> (r: usize)
    ensures
        r == return_slots(*v).len(),
{
    v.len()
}

/// Relies on arrayvec's `ArrayVec::push`: appends at the end; it panics only when full.
#[verifier::external_body]
fn returns_push(v: &mut ArrayVec<ReturnType, 500>, x: ReturnType)
    requires
        return_slots(*old(v)).len() < 500,
    ensures
        return_slots(*final(v)) == return_slots(*old(v)).push(x),
{
    v.push(x)
}

/// Relies on arrayvec's `ArrayVec::pop`: removes and returns the last element.
#[verifier::external_body]
fn returns_pop(v: &mut ArrayVec<ReturnType, 500>) -> (r: Option<ReturnType>)
    ensures
        return_slots(*old(v)).len() == 0 ==> r is None && return_slots(*final(v)) == return_slots(
            *old(v),
        ),
        return_slots(*old(v)).len() > 0 ==> r == Some(return_slots(*old(v)).last())
            && return_slots(*final(v)) == return_slots(*old(v)).drop_last(),
{
    v.pop()
}

/// A bounded stack of return addresses.
pub struct ReturnStack {
    return_addresses: ArrayVec<ReturnType, RETURN_STACK_SIZE>,
    stack_capacity: usize,
    top: usize,
}

impl ReturnStack {
    /// The addresses held, bottom first.
    pub closed spec fn values(&self) -> Seq<ReturnType> {
        return_slots(self.return_addresses)
    }

    /// Most addresses the stack may hold.
    pub closed spec fn capacity(&self) -> nat {
        self.stack_capacity as nat
    }

    pub closed spec fn wf(&self) -> bool {
        &&& self.top == self.values().len()
        &&& self.stack_capacity == RETURN_STACK_SIZE
        &&& self.top <= self.stack_capacity
    }

    /// An empty return stack.
    pub fn new() -> (r: ReturnStack)
        ensures
            r.wf(),
            r.values() == Seq::<ReturnType>::empty(),
            r.capacity() == RETURN_STACK_SIZE,
    {
        ReturnStack { return_addresses: returns_new(), stack_capacity: RETURN_STACK_SIZE, top: 0 }
    }

    /// The number of addresses held.
    pub fn get_length(&mut self) -> (r: usize)
        requires
            old(self).wf(),
        ensures
            *final(self) == *old(self),
            r == old(self).values().len(),
    {
        returns_len(&self.return_addresses)
    }

    /// Removes and returns the top address; fails with `Underflow` when empty.
    pub fn pop(&mut self) -> (r: Result<ReturnType, StackError>)
        requires
            old(self).wf(),
        ensures
            final(self).wf(),
            old(self).values().len() == 0 ==> r == Err::<ReturnType, StackError>(StackError::Underflow)
                && final(self).values() == old(self).values(),
            old(self).values().len() > 0 ==> r == Ok::<ReturnType, StackError>(old(self).values().last())
                && final(self).values() == old(self).values().drop_last(),
    {
        if self.top == 0 {
            return Err(StackError::Underflow);
        }
        let r = returns_pop(&mut self.return_addresses);
        self.top = self.top - 1;
        match r {
            Some(v) => Ok(v),
            None => Err(StackError::Underflow),
        }
    }

    /// Whether the stack holds nothing.
    pub fn check_empty(&mut self) -> (r: bool)
        requires
            old(self).wf(),
        ensures
            *final(self) == *old(self),
            r == (old(self).values().len() == 0),
    {
        returns_len(&self.return_addresses) == 0
    }

    /// Pushes an address; fails with `Overflow` when the stack is full.
    pub fn push(&mut self, data: ReturnType) -> (r: Result<(), StackError>)
        requires
            old(self).wf(),
        ensures
            final(self).wf(),
            old(self).values().len() == RETURN_STACK_SIZE ==> r == Err::<(), StackError>(
                StackError::Overflow { capacity: RETURN_STACK_SIZE, size: RETURN_STACK_SIZE },
            ) && final(self).values() == old(self).values(),
            old(self).values().len() < RETURN_STACK_SIZE ==> r is Ok && final(self).values()
                == old(self).values().push(data),
    {
        if self.top == self.stack_capacity {
            return Err(StackError::Overflow { capacity: self.stack_capacity, size: self.top });
        }
        returns_push(&mut self.return_addresses, data);
        self.top = self.top + 1;
        Ok(())
    }
}

} // verus!
