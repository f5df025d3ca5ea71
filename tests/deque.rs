use linear_collections::deque::Deque;

#[test]
fn deque_basics() {
    let mut queue = Deque::new();

    // Check empty queue behaves right
    assert_eq!(queue.pop_front(), None);

    // Populate queue
    queue.push_back(1);
    queue.push_back(2);
    queue.push_back(3);

    // Check normal removal
    assert_eq!(queue.pop_front(), Some(1));
    assert_eq!(queue.pop_front(), Some(2));

    // Push some more just to make sure nothing's corrupted
    queue.push_back(4);
    queue.push_back(5);

    // Check normal removal
    assert_eq!(queue.pop_front(), Some(3));
    assert_eq!(queue.pop_front(), Some(4));

    // Check exhaustion
    assert_eq!(queue.pop_front(), Some(5));
    assert_eq!(queue.pop_front(), None);

    // Check the exhaustion case fixed the pointer right
    queue.push_back(6);
    queue.push_back(7);

    // Check normal removal
    assert_eq!(queue.pop_front(), Some(6));
    assert_eq!(queue.pop_front(), Some(7));
    assert_eq!(queue.pop_front(), None);

    queue.push_front(1);
    queue.push_front(2);
    queue.push_front(3);
    queue.push_front(4);
    queue.push_front(5);
    queue.push_front(6);
    queue.push_front(7);
    queue.push_front(8);

    assert_eq!(queue.len(), 8);

    assert_eq!(queue.pop_back(), Some(1));
    assert_eq!(queue.pop_back(), Some(2));
    assert_eq!(queue.pop_back(), Some(3));
    assert_eq!(queue.pop_back(), Some(4));
    assert_eq!(queue.pop_back(), Some(5));
    assert_eq!(queue.pop_back(), Some(6));
    assert_eq!(queue.pop_back(), Some(7));
    assert_eq!(queue.pop_back(), Some(8));
    assert_eq!(queue.pop_back(), None);

    queue.push_front(1);
    queue.push_front(2);
    queue.push_back(3);
    queue.push_back(4);

    assert_eq!(queue.pop_front(), Some(2));
    assert_eq!(queue.pop_front(), Some(1));
    assert_eq!(queue.pop_back(), Some(4));
    assert_eq!(queue.pop_back(), Some(3));
    assert_eq!(queue.pop_front(), None);
    assert_eq!(queue.pop_back(), None);
}

#[test]
fn deque_scenario_mixed_ends() {
    let mut d = Deque::new();
    d.push_front(1);
    d.push_front(2);
    d.push_back(3);
    d.push_back(4);
    assert_eq!(d.len(), 4);
    assert_eq!(d.pop_front(), Some(2));
    assert_eq!(d.pop_front(), Some(1));
    assert_eq!(d.pop_back(), Some(4));
    assert_eq!(d.pop_back(), Some(3));
    assert_eq!(d.pop_front(), None);
    assert_eq!(d.pop_back(), None);
    assert!(d.is_empty());
}

#[test]
fn deque_push_front_from_slot_zero_wraps() {
    // On a fresh deque the front cursor is 0: the first push_front must land
    // in the last slot, not at a negative index.
    let mut d = Deque::new();
    d.push_front(10);
    d.push_back(20);
    d.push_front(5);
    assert_eq!(d.pop_back(), Some(20));
    assert_eq!(d.pop_back(), Some(10));
    assert_eq!(d.pop_back(), Some(5));
    assert_eq!(d.pop_back(), None);
}

#[test]
fn deque_pop_back_from_slot_zero_wraps() {
    let mut d = Deque::new();
    d.push_back(1);
    d.push_back(2);
    d.push_back(3);
    d.push_back(4);
    assert_eq!(d.pop_front(), Some(1));
    // back is now slot 0; pop_back reads the last slot
    assert_eq!(d.pop_back(), Some(4));
    assert_eq!(d.pop_back(), Some(3));
    assert_eq!(d.pop_front(), Some(2));
    assert_eq!(d.pop_front(), None);
}

#[test]
fn deque_fifo_and_lifo() {
    let mut d = Deque::new();
    for i in 0..100u32 {
        d.push_back(i);
    }
    for i in 0..100u32 {
        assert_eq!(d.pop_front(), Some(i));
    }
    for i in 0..100u32 {
        d.push_front(i);
    }
    for i in (0..100u32).rev() {
        assert_eq!(d.pop_front(), Some(i));
    }
    for i in 0..100u32 {
        d.push_back(i);
    }
    for i in (0..100u32).rev() {
        assert_eq!(d.pop_back(), Some(i));
    }
    assert!(d.is_empty());
}

#[test]
fn deque_length_and_capacity() {
    let mut d = Deque::new();
    assert_eq!(d.capacity(), 4);
    assert_eq!(d.pop_back(), None::<i64>);
    assert_eq!(d.len(), 0);
    for i in 0..9i64 {
        d.push_front(i);
    }
    assert_eq!(d.len(), 9);
    assert_eq!(d.capacity(), 16);
    for _ in 0..5 {
        d.pop_back();
    }
    assert_eq!(d.len(), 4);
    assert_eq!(d.capacity(), 8);
    assert_eq!(d.pop_front(), Some(8));
    assert_eq!(d.capacity(), 4);
    assert_eq!(d.len(), 3);
}
