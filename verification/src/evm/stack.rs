//! The EVM stack: at most 1024 256-bit words, top of stack last.

use vstd::prelude::*;
use crate::types::U256;

verus! {

/// Maximum stack size (1024 items).
pub const MAX_STACK_SIZE: usize = 1024;

/// Errors of stack operations.
#[derive(Debug, Clone, Copy, PartialEq, Eq, Structural)]
pub enum StackError {
    /// Push onto a full stack.
    Overflow,
    /// Pop from (or reach below) the bottom of the stack.
    Underflow,
    /// Position 0 or out of bounds.
    InvalidIndex,
}

/// The description of each error.
pub open spec fn stack_error_text(e: StackError) -> Seq<char> {
    match e {
        StackError::Overflow => "Stack overflow: maximum size of 1024 items reached"@,
        StackError::Underflow => "Stack underflow: attempted to pop from empty stack"@,
        StackError::InvalidIndex => "Invalid index: position is out of bounds"@,
    }
}

impl StackError {
    /// Human-readable description of the error.
    pub fn message(&self) -> (r: &'static str)
        ensures
            r@ == stack_error_text(*self),
    {
        match self {
            StackError::Overflow => "Stack overflow: maximum size of 1024 items reached",
            StackError::Underflow => "Stack underflow: attempted to pop from empty stack",
            StackError::InvalidIndex => "Invalid index: position is out of bounds",
        }
    }
}

/// EVM stack; its view is the sequence of items, bottom first.
/// The stack `s` (bottom first) with its top exchanged with the item `n` places
/// below it.
pub open spec fn swapped(s: Seq<U256>, n: int) -> Seq<U256> {
    s.update(s.len() - 1, s[s.len() - 1 - n]).update(s.len() - 1 - n, s[s.len() - 1])
}

/// Popping right after a push gives back the pushed value and leaves the stack as
/// it was before the push.
pub proof fn lemma_pop_undoes_push(s: Seq<U256>, v: U256)
    ensures
        s.push(v).last() == v,
        s.push(v).drop_last() == s,
{
    assert(s.push(v).drop_last() =~= s);
}

/// SWAPn done twice leaves the stack as it was.
pub proof fn lemma_swap_twice(s: Seq<U256>, n: int)
    requires
        0 < n < s.len(),
    ensures
        swapped(swapped(s, n), n) == s,
{
    assert(swapped(swapped(s, n), n) =~= s);
}

/// DUPn leaves every item in place and adds a copy of the `n`-th from the top.
pub proof fn lemma_dup_keeps_items(s: Seq<U256>, n: int)
    requires
        0 < n <= s.len(),
    ensures
        s.push(s[s.len() - n]).drop_last() == s,
        s.push(s[s.len() - n]).last() == s.push(s[s.len() - n])[s.len() - n],
{
    assert(s.push(s[s.len() - n]).drop_last() =~= s);
}

#[derive(Debug)]
pub struct Stack {
    items: Vec<U256>,
}

impl View for Stack {
    type V = Seq<U256>;

    closed spec fn view(&self) -> Seq<U256> {
        self.items@
    }
}

impl Stack {
    /// A stack never holds more than `MAX_STACK_SIZE` items.
    #[verifier::type_invariant]
    spec fn within_limit(self) -> bool {
        self.items@.len() <= MAX_STACK_SIZE
    }

    /// An empty stack.
    pub fn new() -> (s: Stack)
        ensures
            s@ == Seq::<U256>::empty(),
    {
        Stack { items: Vec::new() }
    }

    /// Pushes a value; fails with `Overflow` when 1024 items are already present.
    pub fn push(&mut self, value: U256) -> (r: Result<(), StackError>)
        ensures
            old(self)@.len() >= MAX_STACK_SIZE ==> r == Err::<(), StackError>(StackError::Overflow)
                && final(self)@ == old(self)@,
            old(self)@.len() < MAX_STACK_SIZE ==> r is Ok && final(self)@ == old(self)@.push(value),
            final(self)@.len() <= MAX_STACK_SIZE,
    {
        proof {
            use_type_invariant(&*self);
        }
        if self.items.len() >= MAX_STACK_SIZE {
            return Err(StackError::Overflow);
        }
        let mut items: Vec<U256> = Vec::new();
        std::mem::swap(&mut items, &mut self.items);
        items.push(value);
        self.items = items;
        Ok(())
    }

    /// Pops the top value; fails with `Underflow` on an empty stack.
    pub fn pop(&mut self) -> (r: Result<U256, StackError>)
        ensures
            old(self)@.len() == 0 ==> r == Err::<U256, StackError>(StackError::Underflow)
                && final(self)@ == old(self)@,
            old(self)@.len() > 0 ==> r == Ok::<U256, StackError>(old(self)@.last())
                && final(self)@ == old(self)@.drop_last(),
            old(self)@.len() <= MAX_STACK_SIZE,
    {
        proof {
            use_type_invariant(&*self);
        }
        let mut items: Vec<U256> = Vec::new();
        std::mem::swap(&mut items, &mut self.items);
        let top = items.pop();
        self.items = items;
        match top {
            Some(v) => Ok(v),
            None => Err(StackError::Underflow),
        }
    }

    /// The item `index` places below the top (0 = top).
    pub fn peek(&self, index: usize) -> (r: Result<&U256, StackError>)
        ensures
            index >= self@.len() ==> (r matches Err(e) && e == StackError::InvalidIndex),
            index < self@.len() ==> (r matches Ok(v) && *v == self@[self@.len() - 1 - index]),
    {
        if index >= self.items.len() {
            return Err(StackError::InvalidIndex);
        }
        Ok(&self.items[self.items.len() - 1 - index])
    }

    /// Swaps the top with the item `n` places below it (SWAPn).
    pub fn swap(&mut self, n: usize) -> (r: Result<(), StackError>)
        ensures
            n == 0 ==> r == Err::<(), StackError>(StackError::InvalidIndex) && final(self)@ == old(self)@,
            n != 0 && n >= old(self)@.len() ==> r == Err::<(), StackError>(StackError::Underflow)
                && final(self)@ == old(self)@,
            n != 0 && n < old(self)@.len() ==> r is Ok && final(self)@ == swapped(old(self)@, n as int),
    {
        if n == 0 {
            return Err(StackError::InvalidIndex);
        }
        let len = self.items.len();
        if n >= len {
            return Err(StackError::Underflow);
        }
        proof {
            use_type_invariant(&*self);
        }
        let top = self.items[len - 1];
        let other = self.items[len - 1 - n];
        let mut items: Vec<U256> = Vec::new();
        std::mem::swap(&mut items, &mut self.items);
        items.set(len - 1, other);
        items.set(len - 1 - n, top);
        self.items = items;
        Ok(())
    }

    /// Pushes a copy of the `n`-th item (1 = top) (DUPn).
    pub fn dup(&mut self, n: usize) -> (r: Result<(), StackError>)
        ensures
            n == 0 ==> r == Err::<(), StackError>(StackError::InvalidIndex) && final(self)@ == old(self)@,
            n != 0 && n > old(self)@.len() ==> r == Err::<(), StackError>(StackError::Underflow)
                && final(self)@ == old(self)@,
            n != 0 && n <= old(self)@.len() && old(self)@.len() >= MAX_STACK_SIZE ==> r
                == Err::<(), StackError>(StackError::Overflow) && final(self)@ == old(self)@,
            n != 0 && n <= old(self)@.len() && old(self)@.len() < MAX_STACK_SIZE ==> r is Ok
                && final(self)@ == old(self)@.push(old(self)@[old(self)@.len() - n]),
    {
        if n == 0 {
            return Err(StackError::InvalidIndex);
        }
        let len = self.items.len();
        if n > len {
            return Err(StackError::Underflow);
        }
        if len >= MAX_STACK_SIZE {
            return Err(StackError::Overflow);
        }
        let value = self.items[len - n];
        let mut items: Vec<U256> = Vec::new();
        std::mem::swap(&mut items, &mut self.items);
        items.push(value);
        self.items = items;
        Ok(())
    }

    /// Number of items.
    pub fn len(&self) -> (r: usize)
        ensures
            r == self@.len(),
            r <= MAX_STACK_SIZE,
    {
        proof {
            use_type_invariant(self);
        }
        self.items.len()
    }

    /// Whether the stack is empty.
    pub fn is_empty(&self) -> (r: bool)
        ensures
            r == (self@.len() == 0),
    {
        self.items.len() == 0
    }
}

impl Clone for Stack {
    fn clone(&self) -> (r: Stack)
        ensures
            r@ == self@,
    {
        proof {
            use_type_invariant(self);
        }
        let items = self.items.clone();
        proof {
            assert(items@ =~= self.items@);
        }
        Stack { items }
    }
}

impl Default for Stack {
    fn default() -> (s: Stack)
        ensures
            s@ == Seq::<U256>::empty(),
    {
        Stack::new()
    }
}

} // verus!
