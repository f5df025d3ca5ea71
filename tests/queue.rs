use linear_collections::queue::Queue;

#[test]
fn queue_basics() {
    let mut queue = Queue::new();

    // Check empty queue behaves right
    assert_eq!(queue.dequeue(), None);

    // Populate queue
    queue.enqueue(1);
    queue.enqueue(2);
    queue.enqueue(3);

    // Check normal removal
    assert_eq!(queue.dequeue(), Some(1));
    assert_eq!(queue.dequeue(), Some(2));

    // Push some more just to make sure nothing's corrupted
    queue.enqueue(4);
    queue.enqueue(5);

    // Check normal removal
    assert_eq!(queue.dequeue(), Some(3));
    assert_eq!(queue.dequeue(), Some(4));

    // Check exhaustion
    assert_eq!(queue.dequeue(), Some(5));
    assert_eq!(queue.dequeue(), None);

    // Check the exhaustion case fixed the pointer right
    queue.enqueue(6);
    queue.enqueue(7);

    // Check normal removal
    assert_eq!(queue.dequeue(), Some(6));
    assert_eq!(queue.dequeue(), Some(7));
    assert_eq!(queue.dequeue(), None);

    queue.enqueue(1);
    queue.enqueue(2);
    queue.enqueue(3);
    queue.enqueue(4);
    queue.enqueue(5);
    queue.enqueue(6);
    queue.enqueue(7);
    queue.enqueue(8);

    assert_eq!(queue.len(), 8);

    assert_eq!(queue.dequeue(), Some(1));
    assert_eq!(queue.dequeue(), Some(2));
    assert_eq!(queue.dequeue(), Some(3));
    assert_eq!(queue.dequeue(), Some(4));
    assert_eq!(queue.dequeue(), Some(5));
    assert_eq!(queue.dequeue(), Some(6));
    assert_eq!(queue.dequeue(), Some(7));
    assert_eq!(queue.dequeue(), Some(8));
    assert_eq!(queue.dequeue(), None);
}

#[test]
fn queue_scenario_interleaved() {
    let mut q = Queue::new();
    q.enqueue(1);
    q.enqueue(2);
    q.enqueue(3);
    assert_eq!(q.dequeue(), Some(1));
    assert_eq!(q.dequeue(), Some(2));
    q.enqueue(4);
    q.enqueue(5);
    assert_eq!(q.dequeue(), Some(3));
    assert_eq!(q.dequeue(), Some(4));
    assert_eq!(q.dequeue(), Some(5));
    assert_eq!(q.dequeue(), None);
    assert!(q.is_empty());
}

#[test]
fn queue_fifo_many() {
    let mut q = Queue::new();
    for i in 0..1000u32 {
        q.enqueue(i);
    }
    assert_eq!(q.len(), 1000);
    for i in 0..1000u32 {
        assert_eq!(q.dequeue(), Some(i));
    }
    assert_eq!(q.dequeue(), None);
}

#[test]
fn queue_length_counts_inserts_minus_removals() {
    let mut q = Queue::new();
    assert_eq!(q.len(), 0);
    assert_eq!(q.dequeue(), None::<u8>);
    assert_eq!(q.len(), 0);
    q.enqueue(7u8);
    q.enqueue(8u8);
    q.enqueue(9u8);
    assert_eq!(q.len(), 3);
    q.dequeue();
    assert_eq!(q.len(), 2);
    assert!(!q.is_empty());
}

#[test]
fn queue_capacity_doubles_and_halves() {
    let mut q = Queue::new();
    assert_eq!(q.capacity(), 4);
    for i in 0..4u32 {
        q.enqueue(i);
    }
    assert_eq!(q.capacity(), 4);
    q.enqueue(4);
    assert_eq!(q.capacity(), 8);
    // 5 elements in 8 slots: removing two leaves 3, and 8 > 2 * 3
    assert_eq!(q.dequeue(), Some(0));
    assert_eq!(q.capacity(), 8);
    assert_eq!(q.dequeue(), Some(1));
    assert_eq!(q.capacity(), 4);
    assert_eq!(q.dequeue(), Some(2));
    assert_eq!(q.dequeue(), Some(3));
    assert_eq!(q.dequeue(), Some(4));
    assert_eq!(q.capacity(), 4);
}

#[test]
fn queue_wraps_around_the_buffer() {
    let mut q = Queue::new();
    for round in 0..10u32 {
        q.enqueue(3 * round);
        q.enqueue(3 * round + 1);
        q.enqueue(3 * round + 2);
        assert_eq!(q.dequeue(), Some(3 * round));
        assert_eq!(q.dequeue(), Some(3 * round + 1));
        assert_eq!(q.dequeue(), Some(3 * round + 2));
        assert_eq!(q.capacity(), 4);
    }
}

#[test]
fn queue_fill_drain_refill() {
    let mut q = Queue::new();
    for n in [1usize, 5, 17, 64] {
        for i in 0..n {
            q.enqueue(i);
        }
        for i in 0..n {
            assert_eq!(q.dequeue(), Some(i));
        }
        assert_eq!(q.dequeue(), None);
        assert_eq!(q.capacity(), 4);
    }
}

#[test]
fn queue_drops_owned_elements() {
    let mut q = Queue::new();
    q.enqueue(String::from("a"));
    q.enqueue(String::from("b"));
    assert_eq!(q.dequeue(), Some(String::from("a")));
    q.enqueue(String::from("c"));
    assert_eq!(q.len(), 2);
}
