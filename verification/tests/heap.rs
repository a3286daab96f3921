use advent_utils::heap::Heap;

#[test]
fn heap_pops_maximum_priority_first() {
    let mut h: Heap<&str, i64> = Heap::new();
    h.push("low", -3);
    h.push("high", 12);
    h.push("mid", 4);
    assert_eq!(h.pop(), Some("high"));
    assert_eq!(h.pop(), Some("mid"));
    assert_eq!(h.pop(), Some("low"));
    assert_eq!(h.pop(), None);
}

#[test]
fn heap_len_and_is_empty() {
    let mut h: Heap<u32, usize> = Heap::new();
    assert!(h.is_empty());
    assert_eq!(h.len(), 0);
    h.push(1, 5);
    h.push(2, 6);
    assert_eq!(h.len(), 2);
    assert!(!h.is_empty());
}

#[test]
fn heap_peek_returns_a_maximal_item() {
    let mut h: Heap<char, u32> = Heap::new();
    assert_eq!(h.peek(), None);
    h.push('m', 1);
    h.push('t', 9);
    h.push('k', 5);
    assert_eq!(h.peek(), Some(&'t'));
    assert_eq!(h.len(), 3);
}

#[test]
fn heap_pop_with_priority_interleaved_with_pushes() {
    let mut h: Heap<u8, u8> = Heap::new();
    h.push(1, 1);
    h.push(9, 9);
    assert_eq!(h.pop_with_priority(), Some((9, 9)));
    h.push(5, 5);
    h.push(7, 7);
    assert_eq!(h.pop_with_priority(), Some((7, 7)));
    assert_eq!(h.pop_with_priority(), Some((5, 5)));
    assert_eq!(h.pop_with_priority(), Some((1, 1)));
    assert_eq!(h.pop_with_priority(), None);
}

#[test]
fn heap_handles_many_unordered_pushes() {
    let mut h: Heap<usize, usize> = Heap::new();
    let priorities = [13, 2, 21, 8, 1, 34, 5, 3, 55, 89, 44, 17];
    for p in priorities {
        h.push(p, p);
    }
    let mut sorted = priorities.to_vec();
    sorted.sort_unstable_by(|a, b| b.cmp(a));
    for expected in sorted {
        assert_eq!(h.pop(), Some(expected));
    }
    assert_eq!(h.pop(), None);
}
