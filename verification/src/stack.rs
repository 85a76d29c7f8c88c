//! Fixed-capacity call stack: a last-in-first-out store of up to 16
//! sixteen-bit return addresses with a separate stack pointer.

use vstd::prelude::*;

verus! {

/// Number of return-address slots.
pub const STACK_SIZE: usize = 16;

/// The call stack. `sp` points one past the top element; the slots above
/// `sp` keep whatever value they last held (zero initially).
pub struct Stack {
    pub sp: u16,
    pub slots: Vec<u16>,
}

impl Stack {
    /// The storage always has exactly `STACK_SIZE` slots and the pointer
    /// stays within them.
    pub open spec fn wf(self) -> bool {
        &&& self.slots@.len() == STACK_SIZE
        &&& self.sp <= STACK_SIZE
    }

    /// An empty stack with zeroed storage.
    pub fn new() -> (r: Self)
        ensures
            r.wf(),
            r.sp == 0,
            r.slots@ == Seq::new(STACK_SIZE as nat, |j: int| 0u16),
    {
        let mut slots: Vec<u16> = Vec::new();
        let mut k: usize = 0;
        while k < STACK_SIZE
            invariant
                k <= STACK_SIZE,
                slots@.len() == k,
                forall|j: int| 0 <= j < k ==> slots@[j] == 0u16,
            decreases STACK_SIZE - k,
        {
            slots.push(0);
            k = k + 1;
        }
        proof {
            assert(slots@ =~= Seq::new(STACK_SIZE as nat, |j: int| 0u16));
        }
        Stack { sp: 0, slots }
    }

    /// Return to the empty, zeroed state.
    pub fn clear(&mut self)
        ensures
            final(self).wf(),
            final(self).sp == 0,
            final(self).slots@ == Seq::new(STACK_SIZE as nat, |j: int| 0u16),
    {
        *self = Stack::new();
    }

    /// Push a return address. A full stack is a fatal precondition
    /// violation: the caller must not push past the fixed capacity.
    pub fn push(&mut self, val: u16)
        requires
            old(self).wf(),
            old(self).sp < STACK_SIZE,
        ensures
            final(self).wf(),
            final(self).sp == old(self).sp + 1,
            final(self).slots@ == old(self).slots@.update(old(self).sp as int, val),
    {
        let i = self.sp as usize;
        self.slots.set(i, val);
        self.sp = self.sp + 1;
    }

    /// Pop the most recently pushed address. An empty stack is a fatal
    /// precondition violation.
    pub fn pop(&mut self) -> (r: u16)
        requires
            old(self).wf(),
            old(self).sp > 0,
        ensures
            final(self).wf(),
            final(self).sp == old(self).sp - 1,
            final(self).slots@ == old(self).slots@,
            r == old(self).slots@[old(self).sp - 1],
    {
        self.sp = self.sp - 1;
        self.slots[self.sp as usize]
    }
}

} // verus!
