use cao_lang::allocator::{AllocError, AllocStep, CaoLangAllocator, MIN_FIRST_GC};

#[test]
fn allocator_first_collection_threshold() {
    let a = CaoLangAllocator::new(1000);
    assert_eq!(a.allocated, 0);
    assert_eq!(a.limit, 1000);
    assert_eq!(a.next_gc, 250);
    let b = CaoLangAllocator::new(40);
    assert_eq!(b.next_gc, MIN_FIRST_GC);
}

#[test]
fn allocator_counts_and_asks_for_collection() {
    let mut a = CaoLangAllocator::new(1000);
    assert_eq!(a.count_alloc(100, 8), Ok(AllocStep::Allocate));
    assert_eq!(a.allocated, 108);
    assert_eq!(a.count_alloc(200, 8), Ok(AllocStep::CollectThenAllocate));
    assert_eq!(a.allocated, 316);
    assert_eq!(a.next_gc, 632);
    a.dealloc(100, 8);
    assert_eq!(a.allocated, 208);
}

#[test]
fn allocator_out_of_memory() {
    let mut a = CaoLangAllocator::new(100);
    assert_eq!(a.count_alloc(200, 8), Err(AllocError::OutOfMemory));
    assert_eq!(a.allocated, 208);
    assert_eq!(a.next_gc, 25);
}

#[test]
fn allocator_dealloc_wraps_below_zero() {
    let mut a = CaoLangAllocator::new(100);
    a.dealloc(1, 0);
    assert_eq!(a.allocated, usize::MAX);
}
