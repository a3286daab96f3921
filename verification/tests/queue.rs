use advent_utils::queue::Queue;

#[test]
fn pops_come_out_in_priority_order() {
    let mut q: Queue<&str, i64> = Queue::new();
    q.push("five", 5);
    q.push("one", 1);
    q.push("nine", 9);
    q.push("three", 3);
    assert_eq!(q.pop(), Some("nine"));
    assert_eq!(q.pop(), Some("five"));
    assert_eq!(q.pop(), Some("three"));
    assert_eq!(q.pop(), Some("one"));
    assert_eq!(q.pop(), None);
}

#[test]
fn len_tracks_pushes_and_pops() {
    let mut q: Queue<u32, u32> = Queue::new();
    assert_eq!(q.len(), 0);
    assert!(q.is_empty());
    q.push(10, 1);
    assert_eq!(q.len(), 1);
    assert!(!q.is_empty());
    q.push(20, 2);
    assert_eq!(q.len(), 2);
    q.pop();
    assert_eq!(q.len(), 1);
    q.pop();
    assert_eq!(q.len(), 0);
    assert!(q.is_empty());
}

#[test]
fn pop_with_priority_returns_both_parts() {
    let mut q: Queue<char, usize> = Queue::new();
    q.push('a', 2);
    q.push('b', 8);
    assert_eq!(q.pop_with_priority(), Some(('b', 8)));
    assert_eq!(q.pop_with_priority(), Some(('a', 2)));
    assert_eq!(q.pop_with_priority(), None);
}

#[test]
fn peek_observes_without_removing() {
    let mut q: Queue<char, i32> = Queue::new();
    assert_eq!(q.peek(), None);
    q.push('x', 3);
    q.push('y', 7);
    assert_eq!(q.peek(), Some(&'y'));
    assert_eq!(q.len(), 2);
    assert_eq!(q.pop(), Some('y'));
}

#[test]
fn duplicate_items_and_equal_priorities_coexist() {
    let mut q: Queue<char, u32> = Queue::new();
    q.push('a', 4);
    q.push('a', 4);
    q.push('b', 4);
    assert_eq!(q.len(), 3);
    let mut popped = vec![q.pop().unwrap(), q.pop().unwrap(), q.pop().unwrap()];
    popped.sort();
    assert_eq!(popped, vec!['a', 'a', 'b']);
}

#[test]
fn truncate_keeps_the_highest_priorities() {
    let mut q: Queue<u32, u32> = Queue::new();
    for p in [1, 2, 3, 4, 5] {
        q.push(p * 10, p);
    }
    q.truncate(2);
    assert_eq!(q.len(), 2);
    assert_eq!(q.pop_with_priority(), Some((50, 5)));
    assert_eq!(q.pop_with_priority(), Some((40, 4)));
    assert_eq!(q.pop_with_priority(), None);
}

#[test]
fn truncate_at_or_above_len_is_a_no_op() {
    let mut q: Queue<u32, u32> = Queue::new();
    q.push(1, 1);
    q.push(2, 2);
    q.truncate(2);
    assert_eq!(q.len(), 2);
    q.truncate(10);
    assert_eq!(q.len(), 2);
    assert_eq!(q.pop(), Some(2));
    assert_eq!(q.pop(), Some(1));
}

#[test]
fn truncate_to_zero_empties_the_queue() {
    let mut q: Queue<u32, u32> = Queue::new();
    q.push(1, 1);
    q.push(2, 2);
    q.truncate(0);
    assert!(q.is_empty());
    assert_eq!(q.pop(), None);
}
