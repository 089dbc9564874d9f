//! A stack with a fixed capacity.
use vstd::prelude::*;

verus! {

/// A stack that holds at most `capacity` values.
pub struct BoundedStack<T> {
    storage: Vec<T>,
    capacity: usize,
}

/// Error of a [`BoundedStack`] operation.
#[derive(Clone, Debug, PartialEq, Eq)]
pub enum StackError {
    /// The stack holds `capacity` values already.
    Full,
}

impl<T> View for BoundedStack<T> {
    type V = Seq<T>;

    /// The values on the stack, from the bottom to the top.
    closed spec fn view(&self) -> Seq<T> {
        self.storage@
    }
}

impl<T> BoundedStack<T> {
    /// The number of values the stack can hold.
    pub closed spec fn spec_capacity(&self) -> nat {
        self.capacity as nat
    }

    /// The stack holds no more values than its capacity.
    pub closed spec fn wf(&self) -> bool {
        self.storage@.len() <= self.capacity
    }

    /// An empty stack that can hold `capacity` values.
    pub fn new(capacity: usize) -> (r: Self)
        ensures
            r.wf(),
            r@ == Seq::<T>::empty(),
            r.spec_capacity() == capacity,
    {
        BoundedStack { storage: Vec::new(), capacity }
    }

    /// Whether the stack holds no value.
    pub fn is_empty(&self) -> (r: bool)
        ensures
            r == (self@.len() == 0),
    {
        self.len() == 0
    }

    /// The number of values on the stack.
    pub fn len(&self) -> (r: usize)
        ensures
            r == self@.len(),
    {
        self.storage.len()
    }

    /// The number of values the stack can hold.
    pub fn capacity(&self) -> (r: usize)
        ensures
            r == self.spec_capacity(),
    {
        self.capacity
    }

    /// The values on the stack, from the bottom to the top.
    pub fn iter(&self) -> (r: Vec<&T>)
        ensures
            r@.len() == self@.len(),
            forall|i: int| 0 <= i < r@.len() ==> *r@[i] == self@[i],
    {
        let mut out: Vec<&T> = Vec::new();
        let mut i: usize = 0;
        while i < self.storage.len()
            invariant
                i <= self.storage@.len(),
                out@.len() == i,
                forall|j: int| 0 <= j < i ==> *out@[j] == self.storage@[j],
            decreases self.storage@.len() - i,
        {
            out.push(&self.storage[i]);
            i = i + 1;
        }
        out
    }

    /// Pushes `val`, or fails with [`StackError::Full`] when the stack is full.
    pub fn push(&mut self, val: T) -> (r: Result<(), StackError>)
        requires
            old(self).wf(),
        ensures
            final(self).wf(),
            final(self).spec_capacity() == old(self).spec_capacity(),
            r is Ok == (old(self)@.len() < old(self).spec_capacity()),
            r is Ok ==> final(self)@ == old(self)@.push(val),
            r is Err ==> r == Err::<(), StackError>(StackError::Full) && final(self)@ == old(self)@,
    {
        if self.storage.len() >= self.capacity {
            return Err(StackError::Full);
        }
        self.storage.push(val);
        Ok(())
    }

    /// Pops the top value.
    pub fn pop(&mut self) -> (r: Option<T>)
        requires
            old(self).wf(),
        ensures
            final(self).wf(),
            final(self).spec_capacity() == old(self).spec_capacity(),
            old(self)@.len() == 0 ==> r is None && final(self)@ == old(self)@,
            old(self)@.len() > 0 ==> r == Some(old(self)@.last()) && final(self)@ == old(self)@.drop_last(),
    {
        self.storage.pop()
    }

    /// The top value.
    pub fn last(&self) -> (r: Option<&T>)
        ensures
            self@.len() == 0 ==> r is None,
            self@.len() > 0 ==> r == Some(&self@.last()),
    {
        let n = self.storage.len();
        if n > 0 {
            Some(&self.storage[n - 1])
        } else {
            None
        }
    }

    /// Mutable access to the top value.
    pub fn last_mut(&mut self) -> (r: Option<&mut T>)
        ensures
            old(self)@.len() == 0 ==> r is None && final(self)@ == old(self)@,
            old(self)@.len() > 0 ==> r is Some,
            r matches Some(v) ==> *v == old(self)@.last() && final(self)@ == old(self)@.update(
                old(self)@.len() - 1,
                *final(v),
            ),
            final(self).spec_capacity() == old(self).spec_capacity(),
    {
        let n = self.storage.len();
        if n > 0 {
            Some(&mut self.storage[n - 1])
        } else {
            None
        }
    }

    /// Removes every value, keeping the capacity.
    pub fn clear(&mut self)
        ensures
            final(self).wf(),
            final(self)@ == Seq::<T>::empty(),
            final(self).spec_capacity() == old(self).spec_capacity(),
    {
        self.storage.clear();
    }
}

/// Pushing a value and popping it gives the value back and leaves the stack as it was.
pub proof fn lemma_push_pop<T>(s: Seq<T>, v: T)
    ensures
        s.push(v).len() > 0,
        s.push(v).last() == v,
        s.push(v).drop_last() == s,
{
    assert(s.push(v).drop_last() =~= s);
}

} // verus!
