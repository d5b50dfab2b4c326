use rio::min_heap::MinHeap;

#[test]
fn test_empty() {
    let mut heap: MinHeap<i32> = MinHeap::new();
    assert!(heap.peek().is_none());
    assert!(heap.pop().is_none());
    assert_eq!(heap.len(), 0);
    assert_eq!(heap.capacity(), 0);
    assert!(heap.is_empty());
}

#[test]
fn test_push_and_peek() {
    let mut heap = MinHeap::new();
    heap.push(10);
    assert_eq!(heap.peek(), Some(&10));
    heap.push(5);
    assert_eq!(heap.peek(), Some(&5));
    heap.push(15);
    assert_eq!(heap.peek(), Some(&5));
}

#[test]
fn test_pop() {
    let mut heap = MinHeap::new();
    let mut values = vec![12, 3, 25, 7, 9, 1];

    for &v in &values {
        heap.push(v);
    }

    values.sort();

    for &v in &values {
        assert_eq!(heap.pop(), Some(v));
    }

    assert!(heap.is_empty());
    assert_eq!(heap.len(), 0);
}

#[test]
fn test_duplicates() {
    let mut heap = MinHeap::new();

    heap.push(7);
    heap.push(7);
    heap.push(3);
    heap.push(3);
    heap.push(5);
    heap.push(5);

    assert_eq!(heap.peek(), Some(&3));

    let mut iter = heap.into_iter_sorted();
    let mut sorted: Vec<i32> = Vec::new();
    while let Some(v) = iter.next() {
        sorted.push(v);
    }
    assert_eq!(sorted, vec![3, 3, 5, 5, 7, 7]);
}

#[test]
fn test_distinct_keys_pop_sorted() {
    let mut heap = MinHeap::new();
    for &v in &[42, -7, 0, 19, 100, -100, 63, 8] {
        heap.push(v);
    }
    let mut popped: Vec<i32> = Vec::new();
    while let Some(v) = heap.pop() {
        popped.push(v);
    }
    assert_eq!(popped, vec![-100, -7, 0, 8, 19, 42, 63, 100]);
}

#[test]
fn test_with_capacity_and_default() {
    let mut heap: MinHeap<i32> = MinHeap::with_capacity(16);
    assert!(heap.capacity() >= 16);
    assert!(heap.is_empty());
    heap.push(1);
    assert_eq!(heap.len(), 1);

    let other: MinHeap<i32> = Default::default();
    assert!(other.is_empty());
}

#[test]
fn test_size_hint() {
    let mut heap = MinHeap::new();
    heap.push(2);
    heap.push(1);
    let mut iter = heap.into_iter_sorted();
    assert_eq!(iter.size_hint(), (2, Some(2)));
    assert_eq!(iter.next(), Some(1));
    assert_eq!(iter.size_hint(), (1, Some(1)));
    assert_eq!(iter.next(), Some(2));
    assert_eq!(iter.next(), None);
    assert_eq!(iter.size_hint(), (0, Some(0)));
}
