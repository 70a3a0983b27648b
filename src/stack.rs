//! The bounded operand stack.
use vstd::prelude::*;

use arrayvec::ArrayVec;

use crate::immediates::{ImmView, Immediates};
use crate::text::push_decimal;
use vstd::string::*;

verus! {

/// Most values an operand stack can ever hold.
pub const STACK_SIZE: usize = 2000;

#[verifier::external_type_specification]
#[verifier::external_body]
#[verifier::reject_recursive_types(T)]
pub struct ExArrayVec<T, const CAP: usize>(ArrayVec<T, CAP>);

/// What an operand-stack buffer holds, bottom first.
pub uninterp spec fn value_slots(v: ArrayVec<Immediates, 2000>) -> Seq<Immediates>;

/// Relies on arrayvec's `ArrayVec::new`: an empty vector.
#[verifier::external_body]
fn slots_new() -> (r: ArrayVec<Immediates, 2000>)
    ensures
        value_slots(r) == Seq::<Immediates>::empty(),
{
    ArrayVec::new()
}

/// Relies on arrayvec's `ArrayVec::len`: the number of elements held.
#[verifier::external_body]
fn slots_len(v: &ArrayVec<Immediates, 2000>) -> (r: usize)
    ensures
        r == value_slots(*v).len(),
{
    v.len()
}

/// Relies on arrayvec's `ArrayVec::push`: appends at the end; it panics only when full.
#[verifier::external_body]
fn slots_push(v: &mut ArrayVec<Immediates, 2000>, x: Immediates)
    requires
        value_slots(*old(v)).len() < 2000,
    ensures
        value_slots(*final(v)) == value_slots(*old(v)).push(x),
{
    v.push(x)
}

/// Relies on arrayvec's `ArrayVec::pop`: removes and returns the last element.
#[verifier::external_body]
fn slots_pop(v: &mut ArrayVec<Immediates, 2000>) -> (r: Option<Immediates>)
    ensures
        value_slots(*old(v)).len() == 0 ==> r is None && value_slots(*final(v)) == value_slots(*old(v)),
        value_slots(*old(v)).len() > 0 ==> r == Some(value_slots(*old(v)).last())
            && value_slots(*final(v)) == value_slots(*old(v)).drop_last(),
{
    v.pop()
}

/// Relies on indexing the slice that `ArrayVec` dereferences to: the element at `i`.
#[verifier::external_body]
fn slots_get(v: &ArrayVec<Immediates, 2000>, i: usize) -> (r: &Immediates)
    requires
        i < value_slots(*v).len(),
    ensures
        *r == value_slots(*v)[i as int],
{
    &v[i]
}

/// Why a stack operation failed.
#[derive(PartialEq, Eq, Structural, Clone, Copy, Debug)]
pub enum StackError {
    /// A pop on an empty stack.
    Underflow,
    /// A push on a full stack, with the stack's capacity and depth.
    Overflow { capacity: usize, size: usize },
}

/// The diagnostic text of a stack error.
pub open spec fn stack_error_text(e: StackError) -> Seq<char> {
    match e {
        StackError::Underflow => "[ STACK UNDERFLOW ]"@,
        StackError::Overflow { capacity, size } => "[ STACK OVERFLOW ] Stack Capacity: "@
            + crate::text::nat_digits(capacity as nat) + ", Stack Size: "@ + crate::text::nat_digits(size as nat),
    }
}

impl StackError {
    /// The diagnostic text of the error.
    pub fn message(&self) -> (r: String)
        ensures
            r@ == stack_error_text(*self),
    {
        match self {
            StackError::Underflow => String::from_str("[ STACK UNDERFLOW ]"),
            StackError::Overflow { capacity, size } => {
                let mut s = String::from_str("[ STACK OVERFLOW ] Stack Capacity: ");
                push_decimal(&mut s, *capacity as u64);
                s.append(", Stack Size: ");
                push_decimal(&mut s, *size as u64);
                s
            },
        }
    }
}

/// A bounded stack of values.
pub struct VMStack {
    /// The values, bottom first.
    pub stack_memory: ArrayVec<Immediates, STACK_SIZE>,
    /// Most values the stack may hold.
    pub stack_capacity: usize,
    /// The number of values held.
    pub top: usize,
}

impl View for VMStack {
    type V = Seq<ImmView>;

    /// The views of the values held, bottom first.
    open spec fn view(&self) -> Seq<ImmView> {
        Seq::new(value_slots(self.stack_memory).len(), |i: int| value_slots(self.stack_memory)[i]@)
    }
}

impl VMStack {
    /// The values held, bottom first.
    pub open spec fn values(&self) -> Seq<Immediates> {
        value_slots(self.stack_memory)
    }

    /// The depth agrees with the buffer and stays within the capacity.
    pub open spec fn wf(&self) -> bool {
        &&& self.top == self.values().len()
        &&& self.top <= self.stack_capacity
        &&& self.stack_capacity <= STACK_SIZE
    }

    /// An empty stack that holds at most `capacity` values.
    pub fn new(capacity: usize) -> (r: VMStack)
        requires
            capacity <= STACK_SIZE,
        ensures
            r.wf(),
            r.values() == Seq::<Immediates>::empty(),
            r.stack_capacity == capacity,
    {
        VMStack { stack_memory: slots_new(), stack_capacity: capacity, top: 0 }
    }

    /// The number of values held.
    pub fn get_length(&mut self) -> (r: usize)
        requires
            old(self).wf(),
        ensures
            *final(self) == *old(self),
            r == old(self).values().len(),
    {
        slots_len(&self.stack_memory)
    }

    /// Whether the stack holds nothing.
    pub fn check_empty(&mut self) -> (r: bool)
        requires
            old(self).wf(),
        ensures
            *final(self) == *old(self),
            r == (old(self).values().len() == 0),
    {
        slots_len(&self.stack_memory) == 0
    }

    /// Removes and returns the top value; fails with `Underflow` on an empty stack.
    pub fn pop(&mut self) -> (r: Result<Immediates, StackError>)
        requires
            old(self).wf(),
        ensures
            final(self).wf(),
            final(self).stack_capacity == old(self).stack_capacity,
            old(self).values().len() == 0 ==> r == Err::<Immediates, StackError>(StackError::Underflow)
                && final(self).values() == old(self).values(),
            old(self).values().len() > 0 ==> r == Ok::<Immediates, StackError>(old(self).values().last())
                && final(self).values() == old(self).values().drop_last(),
    {
        if self.top == 0 {
            return Err(StackError::Underflow);
        }
        let r = slots_pop(&mut self.stack_memory);
        self.top = self.top - 1;
        match r {
            Some(v) => Ok(v),
            None => Err(StackError::Underflow),
        }
    }

    /// Pushes a value; fails with `Overflow` when the stack is full.
    pub fn push(&mut self, data: Immediates) -> (r: Result<(), StackError>)
        requires
            old(self).wf(),
        ensures
            final(self).wf(),
            final(self).stack_capacity == old(self).stack_capacity,
            old(self).values().len() == old(self).stack_capacity ==> r == Err::<(), StackError>(
                StackError::Overflow { capacity: old(self).stack_capacity, size: old(self).top },
            ) && final(self).values() == old(self).values(),
            old(self).values().len() < old(self).stack_capacity ==> r is Ok && final(self).values()
                == old(self).values().push(data),
    {
        if self.top == self.stack_capacity {
            return Err(StackError::Overflow { capacity: self.stack_capacity, size: self.top });
        }
        slots_push(&mut self.stack_memory, data);
        self.top = self.top + 1;
        Ok(())
    }

    /// The top value, left in place.
    pub fn peek(&self) -> (r: Option<&Immediates>)
        requires
            self.wf(),
        ensures
            self.values().len() == 0 ==> r is None,
            self.values().len() > 0 ==> r == Some(&self.values().last()),
    {
        if self.top == 0 {
            None
        } else {
            Some(slots_get(&self.stack_memory, self.top - 1))
        }
    }

    /// The value at depth `i` from the bottom.
    pub fn get(&self, i: usize) -> (r: &Immediates)
        requires
            self.wf(),
            i < self.values().len(),
        ensures
            *r == self.values()[i as int],
    {
        slots_get(&self.stack_memory, i)
    }
}

} // verus!

verus! {

/// The stack after pushing `xs` in order onto `s`.
pub open spec fn push_all(s: Seq<Immediates>, xs: Seq<Immediates>) -> Seq<Immediates>
    decreases xs.len(),
{
    if xs.len() == 0 {
        s
    } else {
        push_all(s, xs.drop_last()).push(xs.last())
    }
}

/// The values that `n` pops from `s` return, in the order returned, and the stack left.
pub open spec fn pop_n(s: Seq<Immediates>, n: nat) -> (Seq<Immediates>, Seq<Immediates>)
    decreases n,
{
    if n == 0 || s.len() == 0 {
        (Seq::empty(), s)
    } else {
        let (rest, left) = pop_n(s.drop_last(), (n - 1) as nat);
        (seq![s.last()] + rest, left)
    }
}

proof fn lemma_push_all(s: Seq<Immediates>, xs: Seq<Immediates>)
    ensures
        push_all(s, xs) == s + xs,
    decreases xs.len(),
{
    if xs.len() > 0 {
        lemma_push_all(s, xs.drop_last());
        assert(s + xs =~= (s + xs.drop_last()).push(xs.last()));
    }
}

proof fn lemma_pop_all(xs: Seq<Immediates>)
    ensures
        pop_n(xs, xs.len()).0 == xs.reverse(),
        pop_n(xs, xs.len()).1 == Seq::<Immediates>::empty(),
    decreases xs.len(),
{
    if xs.len() > 0 {
        lemma_pop_all(xs.drop_last());
        assert(seq![xs.last()] + xs.drop_last().reverse() =~= xs.reverse());
    } else {
        assert(xs.reverse() =~= Seq::<Immediates>::empty());
    }
}

/// Pushing `xs` onto an empty stack and then popping as many times returns the
/// values last-in first-out and leaves the stack empty, so one pop more
/// underflows.
pub proof fn lemma_stack_lifo(xs: Seq<Immediates>)
    requires
        xs.len() <= STACK_SIZE,
    ensures
        pop_n(push_all(Seq::empty(), xs), xs.len()).0 == xs.reverse(),
        pop_n(push_all(Seq::empty(), xs), xs.len()).1.len() == 0,
{
    lemma_push_all(Seq::empty(), xs);
    assert(Seq::<Immediates>::empty() + xs =~= xs);
    lemma_pop_all(xs);
}

} // verus!
