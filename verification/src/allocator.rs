//! Errors and bookkeeping of memory allocation.
//!
//! The language's allocator counts the bytes it hands out against a limit and asks for a
//! garbage collection when the count passes a threshold. The bookkeeping is here; the memory
//! itself and the collection are the runtime's.
use vstd::prelude::*;

verus! {

/// Failure to allocate memory.
#[derive(Debug, Clone, Copy, PartialEq, Eq)]
pub enum AllocError {
    /// The allocator is out of memory.
    OutOfMemory,
}

/// The smallest threshold of the first garbage collection.
pub const MIN_FIRST_GC: usize = 16;

/// The bookkeeping of the language's allocator.
#[derive(Debug)]
pub struct CaoLangAllocator {
    /// Bytes handed out, each allocation counted with its alignment.
    pub allocated: usize,
    /// A count above which the next allocation first runs a garbage collection.
    pub next_gc: usize,
    /// A count above which allocations fail.
    pub limit: usize,
}

/// What an allocation asks of the runtime.
#[derive(Debug, Clone, Copy, PartialEq, Eq)]
pub enum AllocStep {
    /// Allocate the memory.
    Allocate,
    /// Run a garbage collection, then allocate the memory.
    CollectThenAllocate,
}

impl CaoLangAllocator {
    /// An allocator with nothing allocated that may hand out `limit` bytes; the first
    /// collection is due at a quarter of the limit, and no earlier than 16 bytes.
    pub fn new(limit: usize) -> (r: Self)
        ensures
            r.allocated == 0,
            r.limit == limit,
            r.next_gc == if limit / 4 > MIN_FIRST_GC { limit / 4 } else { MIN_FIRST_GC },
    {
        let quarter = limit / 4;
        CaoLangAllocator {
            allocated: 0,
            next_gc: if quarter > MIN_FIRST_GC { quarter } else { MIN_FIRST_GC },
            limit,
        }
    }

    /// Counts an allocation of `size` bytes aligned to `align`: fails when the count passes
    /// the limit, which it keeps, and asks for a collection first when it passes the
    /// threshold, which then doubles the count.
    pub fn count_alloc(&mut self, size: usize, align: usize) -> (r: Result<AllocStep, AllocError>)
        requires
            old(self).allocated + size + align <= usize::MAX,
            old(self).allocated + size + align <= old(self).limit && old(self).allocated + size + align
                > old(self).next_gc ==> 2 * (old(self).allocated + size + align) <= usize::MAX,
        ensures
            final(self).allocated == old(self).allocated + size + align,
            final(self).limit == old(self).limit,
            final(self).allocated > old(self).limit ==> r == Err::<AllocStep, AllocError>(
                AllocError::OutOfMemory,
            ) && final(self).next_gc == old(self).next_gc,
            final(self).allocated <= old(self).limit && final(self).allocated > old(self).next_gc
                ==> r == Ok::<AllocStep, AllocError>(AllocStep::CollectThenAllocate)
                && final(self).next_gc == 2 * final(self).allocated,
            final(self).allocated <= old(self).limit && final(self).allocated <= old(self).next_gc
                ==> r == Ok::<AllocStep, AllocError>(AllocStep::Allocate) && final(self).next_gc
                == old(self).next_gc,
    {
        let s = size + align;
        let allocated = s + self.allocated;
        self.allocated = allocated;
        if allocated > self.limit {
            return Err(AllocError::OutOfMemory);
        }
        if allocated > self.next_gc {
            self.next_gc = allocated * 2;
            return Ok(AllocStep::CollectThenAllocate);
        }
        Ok(AllocStep::Allocate)
    }

    /// Counts the release of `size` bytes aligned to `align`; the count wraps around below
    /// zero.
    pub fn dealloc(&mut self, size: usize, align: usize)
        requires
            size + align <= usize::MAX,
        ensures
            old(self).allocated >= size + align ==> final(self).allocated == old(self).allocated
                - (size + align),
            old(self).allocated < size + align ==> final(self).allocated == old(self).allocated
                - (size + align) + usize::MAX + 1,
            final(self).limit == old(self).limit,
            final(self).next_gc == old(self).next_gc,
    {
        let s = size + align;
        let before = self.allocated;
        self.allocated = before.wrapping_sub(s);
    }
}

} // verus!
