use cao_lang::collections::bounded_stack::{BoundedStack, StackError};
use std::cell::Cell;
use std::rc::Rc;

struct Counted(Rc<Cell<u32>>);

impl Drop for Counted {
    fn drop(&mut self) {
        self.0.set(self.0.get() + 1);
    }
}

#[test]
fn test_drops_on_clear() {
    let drops = Rc::new(Cell::new(0u32));

    let mut stack = BoundedStack::new(5);
    for _ in 0..5 {
        stack.push(Counted(drops.clone())).unwrap();
    }

    assert_eq!(drops.get(), 0);
    assert_eq!(stack.len(), 5);

    stack.clear();

    assert_eq!(drops.get(), 5);
    assert_eq!(stack.len(), 0);
}

#[test]
fn bounded_stack_full_and_pop() {
    let mut stack = BoundedStack::new(2);
    assert!(stack.is_empty());
    stack.push(1).unwrap();
    stack.push(2).unwrap();
    assert_eq!(stack.push(3), Err(StackError::Full));
    assert_eq!(stack.last(), Some(&2));
    *stack.last_mut().unwrap() = 5;
    assert_eq!(stack.iter(), vec![&1, &5]);
    assert_eq!(stack.pop(), Some(5));
    assert_eq!(stack.pop(), Some(1));
    assert_eq!(stack.pop(), None);
    assert_eq!(stack.capacity(), 2);
}
