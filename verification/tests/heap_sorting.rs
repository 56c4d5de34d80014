use rusty_dsa::data_structure::heap::Heap;

fn contents(heap: &Heap) -> Vec<i64> {
    let mut out: Vec<i64> = Vec::new();
    let mut i = 0;
    while i < heap.len() {
        out.push(heap.get(i));
        i += 1;
    }
    out
}

#[test]
fn test_heap_push_appends_in_order() {
    let mut heap = Heap::new();
    heap.push(4);
    heap.push(5);
    heap.push(2);
    assert_eq!(contents(&heap), vec![4, 5, 2]);
}

#[test]
fn test_heap_sort_scenario() {
    let mut heap = Heap::new();
    heap.push(4);
    heap.push(5);
    heap.push(2);
    heap.push(10);
    heap.push(12);
    heap.push(1);
    heap.push(9);

    heap.heap_sort();

    assert_eq!(contents(&heap), vec![1, 2, 4, 5, 9, 10, 12]);
}

#[test]
fn test_heap_sort_adjacent_pairs_ordered() {
    let mut heap = Heap::new();
    for value in [31, -4, 17, 0, 17, -25, 8, 3, -4, 90] {
        heap.push(value);
    }

    heap.heap_sort();

    let sorted = contents(&heap);
    assert!(sorted.windows(2).all(|w| w[0] <= w[1]));
}

#[test]
fn test_heap_sort_preserves_elements() {
    let mut heap = Heap::new();
    let input = vec![6, -1, 6, 42, 0, -1, 6];
    for &value in &input {
        heap.push(value);
    }

    heap.heap_sort();

    let mut expected = input.clone();
    expected.sort();
    assert_eq!(contents(&heap), expected);
}

#[test]
fn test_heap_sort_single() {
    let mut heap = Heap::new();
    heap.push(7);

    heap.heap_sort();

    assert_eq!(contents(&heap), vec![7]);
}

#[test]
fn test_heap_sort_empty() {
    let mut heap = Heap::new();

    heap.heap_sort();

    assert_eq!(heap.len(), 0);
}

#[test]
fn test_heap_sort_duplicates() {
    let mut heap = Heap::new();
    heap.push(3);
    heap.push(1);
    heap.push(3);
    heap.push(2);

    heap.heap_sort();

    assert_eq!(contents(&heap), vec![1, 2, 3, 3]);
}

#[test]
fn test_heap_sort_idempotent() {
    let mut heap = Heap::new();
    for value in [9, 2, 7, 2, -3, 11] {
        heap.push(value);
    }

    heap.heap_sort();
    let once = contents(&heap);
    heap.heap_sort();
    let twice = contents(&heap);

    assert_eq!(once, twice);
}

#[test]
fn test_heapify_tie_prefers_left_child() {
    // Both children are greater than the root and equal to each other: the
    // left child is swapped up, since the right child only replaces the
    // candidate when strictly greater than it.
    let mut heap = Heap::new();
    heap.push(1);
    heap.push(5);
    heap.push(5);

    heap.heapify(3, 0);

    assert_eq!(contents(&heap), vec![5, 1, 5]);
}

#[test]
fn test_heapify_descends_to_leaf() {
    // The strictly larger right child wins the candidate slot; the descent
    // then stops at the childless position.
    let mut heap = Heap::new();
    heap.push(1);
    heap.push(2);
    heap.push(3);

    heap.heapify(3, 0);

    assert_eq!(contents(&heap), vec![3, 2, 1]);
}

#[test]
fn test_heapify_childless_is_no_op() {
    let mut heap = Heap::new();
    heap.push(4);
    heap.push(9);

    // No child inside the boundary: nothing moves.
    heap.heapify(2, 1);
    assert_eq!(contents(&heap), vec![4, 9]);

    // An index at or beyond the boundary, or a boundary of zero, is a no-op.
    heap.heapify(0, 0);
    heap.heapify(2, 5);
    assert_eq!(contents(&heap), vec![4, 9]);
}

#[test]
fn test_heapify_restores_root() {
    // A region whose subtrees are already heaps but whose root is small:
    // one sift-down call must float the largest child to the root.
    let mut heap = Heap::new();
    heap.push(1);
    heap.push(8);
    heap.push(5);

    heap.heapify(3, 0);

    assert_eq!(heap.get(0), 8);
    assert_eq!(heap.get(1), 1);
    assert_eq!(heap.get(2), 5);
}
