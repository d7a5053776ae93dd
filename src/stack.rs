//! The operand stack: at most 1024 words, the top at the end.
use vstd::prelude::*;
use crate::errors::ExitError;
use crate::u256::U256;

verus! {

/// The largest number of words the stack holds.
pub const STACK_LIMIT: usize = 1024;

pub struct Stack {
    data: Vec<U256>,
}

impl View for Stack {
    type V = Seq<U256>;

    /// The words from the bottom to the top.
    closed spec fn view(&self) -> Seq<U256> {
        self.data@
    }
}

/// The `i`-th word from the top (0 is the top).
pub open spec fn from_top(s: Seq<U256>, i: int) -> U256 {
    s[s.len() - 1 - i]
}

/// The stack after `dup(n)`: the `n`-th word from the top (1 is the top) copied onto it.
pub open spec fn dup_of(s: Seq<U256>, n: int) -> Seq<U256> {
    s.push(from_top(s, n - 1))
}

/// The stack after `swap(n)`: the top exchanged with the word `n` places below it.
pub open spec fn swap_of(s: Seq<U256>, n: int) -> Seq<U256> {
    s.update(s.len() - 1, from_top(s, n)).update(s.len() - 1 - n, from_top(s, 0))
}

impl Stack {
    /// Well-formed: no deeper than the limit. Every operation keeps it so.
    pub open spec fn wf(&self) -> bool {
        self@.len() <= STACK_LIMIT
    }

    pub fn new() -> (r: Stack)
        ensures
            r@ == Seq::<U256>::empty(),
            r.wf(),
    {
        Stack { data: Vec::new() }
    }

    /// The depth; no sequence of operations takes it past the limit.
    pub fn len(&self) -> (r: usize)
        requires
            self.wf(),
        ensures
            r == self@.len(),
            r <= STACK_LIMIT,
    {
        self.data.len()
    }

    /// Whether `pop` words can be removed and then `push` words added.
    pub fn check_pop_push(&self, pop: usize, push: usize) -> (r: Result<(), ExitError>)
        requires
            self.wf(),
        ensures
            self@.len() < pop ==> r == Err::<(), ExitError>(ExitError::StackUnderflow),
            self@.len() >= pop && self@.len() - pop + push > STACK_LIMIT ==> r == Err::<(), ExitError>(
                ExitError::StackOverflow),
            self@.len() >= pop && self@.len() - pop + push <= STACK_LIMIT ==> r is Ok,
    {
        if self.data.len() < pop {
            Err(ExitError::StackUnderflow)
        } else if push > STACK_LIMIT || self.data.len() - pop > STACK_LIMIT - push {
            Err(ExitError::StackOverflow)
        } else {
            Ok(())
        }
    }

    pub fn push(&mut self, value: U256) -> (r: Result<(), ExitError>)
        requires
            old(self).wf(),
        ensures
            final(self).wf(),
            old(self)@.len() < STACK_LIMIT ==> r is Ok && final(self)@ == old(self)@.push(value),
            old(self)@.len() >= STACK_LIMIT ==> r == Err::<(), ExitError>(ExitError::StackOverflow)
                && final(self)@ == old(self)@,
    {
        if self.data.len() >= STACK_LIMIT {
            Err(ExitError::StackOverflow)
        } else {
            self.data.push(value);
            Ok(())
        }
    }

    pub fn pop(&mut self) -> (r: Result<U256, ExitError>)
        requires
            old(self).wf(),
        ensures
            final(self).wf(),
            old(self)@.len() > 0 ==> r == Ok::<U256, ExitError>(old(self)@.last()) && final(self)@
                == old(self)@.drop_last(),
            old(self)@.len() == 0 ==> r == Err::<U256, ExitError>(ExitError::StackUnderflow)
                && final(self)@ == old(self)@,
    {
        match self.data.pop() {
            Some(v) => Ok(v),
            None => Err(ExitError::StackUnderflow),
        }
    }

    /// Removes the top word of a stack known not to be empty.
    pub fn take(&mut self) -> (r: U256)
        requires
            old(self).wf(),
            old(self)@.len() > 0,
        ensures
            final(self).wf(),
            r == old(self)@.last(),
            final(self)@ == old(self)@.drop_last(),
    {
        self.data.pop().unwrap()
    }

    /// Removes the top `n` words, the top first.
    pub fn take_n(&mut self, n: usize) -> (r: Vec<U256>)
        requires
            old(self).wf(),
            old(self)@.len() >= n,
        ensures
            final(self).wf(),
            final(self)@ == old(self)@.subrange(0, old(self)@.len() - n),
            r@.len() == n,
            forall|k: int| 0 <= k < n ==> r@[k] == from_top(old(self)@, k),
    {
        let mut r: Vec<U256> = Vec::new();
        let mut k: usize = 0;
        while k < n
            invariant
                k <= n <= old(self)@.len(),
                self@ == old(self)@.subrange(0, old(self)@.len() - k),
                r@.len() == k,
                forall|j: int| 0 <= j < k ==> r@[j] == from_top(old(self)@, j),
            decreases n - k,
        {
            let v = self.data.pop().unwrap();
            r.push(v);
            k = k + 1;
            proof {
                assert(self@ =~= old(self)@.subrange(0, old(self)@.len() - k));
            }
        }
        r
    }

    /// Adds a word to a stack known not to be full.
    pub fn put(&mut self, value: U256)
        requires
            old(self).wf(),
            old(self)@.len() < STACK_LIMIT,
        ensures
            final(self).wf(),
            final(self)@ == old(self)@.push(value),
    {
        self.data.push(value);
    }

    /// The `i`-th word from the top (0 is the top).
    pub fn peek(&self, i: usize) -> (r: Result<U256, ExitError>)
        ensures
            i < self@.len() ==> r == Ok::<U256, ExitError>(from_top(self@, i as int)),
            i >= self@.len() ==> r == Err::<U256, ExitError>(ExitError::StackUnderflow),
    {
        if i < self.data.len() {
            Ok(self.data[self.data.len() - 1 - i])
        } else {
            Err(ExitError::StackUnderflow)
        }
    }

    /// Copies the `n`-th word from the top (1 is the top) onto the top.
    pub fn dup(&mut self, n: usize) -> (r: Result<(), ExitError>)
        requires
            n >= 1,
            old(self).wf(),
        ensures
            final(self).wf(),
            n > old(self)@.len() ==> r == Err::<(), ExitError>(ExitError::StackUnderflow)
                && final(self)@ == old(self)@,
            n <= old(self)@.len() && old(self)@.len() >= STACK_LIMIT ==> r == Err::<(), ExitError>(
                ExitError::StackOverflow) && final(self)@ == old(self)@,
            n <= old(self)@.len() < STACK_LIMIT ==> r is Ok && final(self)@ == dup_of(
                old(self)@,
                n as int,
            ),
    {
        let v = self.peek(n - 1)?;
        self.push(v)
    }

    /// Exchanges the top word with the word `n` places below it.
    pub fn swap(&mut self, n: usize) -> (r: Result<(), ExitError>)
        requires
            n >= 1,
            old(self).wf(),
        ensures
            final(self).wf(),
            n >= old(self)@.len() ==> r == Err::<(), ExitError>(ExitError::StackUnderflow)
                && final(self)@ == old(self)@,
            n < old(self)@.len() ==> r is Ok && final(self)@ == swap_of(old(self)@, n as int),
    {
        let len = self.data.len();
        if n >= len {
            return Err(ExitError::StackUnderflow);
        }
        let top = self.data[len - 1];
        let other = self.data[len - 1 - n];
        self.data.set(len - 1, other);
        self.data.set(len - 1 - n, top);
        Ok(())
    }
}

/// Pushing a word and popping it gives back the word and the stack as it was.
pub proof fn lemma_push_pop(s: Seq<U256>, v: U256)
    ensures
        s.push(v).last() == v,
        s.push(v).drop_last() == s,
{
    assert(s.push(v).drop_last() =~= s);
}

/// Duplicating a word and popping the copy leaves the stack as it was.
pub proof fn lemma_dup_pop(s: Seq<U256>, n: int)
    requires
        1 <= n <= s.len(),
    ensures
        dup_of(s, n).drop_last() == s,
        dup_of(s, n).last() == from_top(s, n - 1),
{
    assert(dup_of(s, n).drop_last() =~= s);
}

/// Swapping the same two words twice leaves the stack as it was.
pub proof fn lemma_swap_twice(s: Seq<U256>, n: int)
    requires
        1 <= n < s.len(),
    ensures
        swap_of(swap_of(s, n), n) == s,
{
    assert(swap_of(swap_of(s, n), n) =~= s);
}

} // verus!
