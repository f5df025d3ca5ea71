use linear_collections::stack::Stack;

#[test]
fn stack_basics() {
    let mut stack = Stack::new();

    // Check empty stack behaves right
    assert_eq!(stack.pop(), None);

    // Populate stack
    stack.push(1);
    stack.push(2);
    stack.push(3);

    // Check normal removal
    assert_eq!(stack.pop(), Some(3));
    assert_eq!(stack.pop(), Some(2));

    // Push some more just to make sure nothing's corrupted
    stack.push(4);
    stack.push(5);

    // Check normal removal
    assert_eq!(stack.pop(), Some(5));
    assert_eq!(stack.pop(), Some(4));

    // Check exhaustion
    assert_eq!(stack.pop(), Some(1));
    assert_eq!(stack.pop(), None);
}

#[test]
fn peek() {
    let mut stack = Stack::new();
    assert_eq!(stack.peek(), None);
    assert_eq!(stack.peek_mut(), None);
    stack.push(1);
    stack.push(2);
    stack.push(3);

    assert_eq!(stack.peek(), Some(&3));
    assert_eq!(stack.peek_mut(), Some(&mut 3));

    stack.peek_mut().map(|value| *value = 42);

    assert_eq!(stack.peek(), Some(&42));
    assert_eq!(stack.pop(), Some(42));
}

#[test]
fn stack_lifo_many() {
    let mut s = Stack::new();
    for i in 0..1000u32 {
        s.push(i);
    }
    for i in (0..1000u32).rev() {
        assert_eq!(s.pop(), Some(i));
    }
    assert_eq!(s.pop(), None);
    assert!(s.is_empty());
}

#[test]
fn stack_empty_peek_and_pop_leave_it_unchanged() {
    let mut s: Stack<u8> = Stack::new();
    assert_eq!(s.pop(), None);
    assert_eq!(s.peek(), None);
    assert_eq!(s.peek_mut(), None);
    assert!(s.is_empty());
    assert_eq!(s.capacity(), 4);
    s.push(9);
    assert_eq!(s.pop(), Some(9));
    assert!(s.is_empty());
}

#[test]
fn stack_capacity_shrinks_before_removal() {
    let mut s = Stack::new();
    for i in 0..5u32 {
        s.push(i);
    }
    assert_eq!(s.capacity(), 8);
    // The shrink check runs before the removal: 8 > 2 * len first holds
    // when three elements remain.
    assert_eq!(s.pop(), Some(4));
    assert_eq!(s.capacity(), 8);
    assert_eq!(s.pop(), Some(3));
    assert_eq!(s.capacity(), 8);
    assert_eq!(s.pop(), Some(2));
    assert_eq!(s.capacity(), 4);
    assert_eq!(s.pop(), Some(1));
    assert_eq!(s.pop(), Some(0));
    assert_eq!(s.capacity(), 4);
}

#[test]
fn stack_fill_drain_refill() {
    let mut s = Stack::new();
    for n in [3usize, 9, 33] {
        for i in 0..n {
            s.push(i);
        }
        for i in (0..n).rev() {
            assert_eq!(s.pop(), Some(i));
        }
        assert_eq!(s.pop(), None);
    }
}
