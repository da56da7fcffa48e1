use binheap::{Heap, HeapType};

/// The numbers `0..size` in a fixed scrambled order.
fn scrambled_vec(size: u32) -> Vec<u32> {
    (0..size).map(|i| (i * 37 + 11) % size).collect()
}

fn holds_heap_property(data: &[u32], heap_type: HeapType) -> bool {
    (1..data.len()).all(|i| {
        let p = data[(i - 1) / 2];
        match heap_type {
            HeapType::Min => p <= data[i],
            HeapType::Max => p >= data[i],
        }
    })
}

#[test]
fn test_heapify() {
    let input = vec![1, 3, 2];
    let expected = [3, 1, 2];

    let mut heap = Heap::<u32>::from_raw(HeapType::Max, input);
    heap.heapify(0);

    let output = heap.raw();

    assert_eq!(*output, expected);
}

#[test]
fn test_insert_min() {
    let mut heap = Heap::<u32>::new(HeapType::Min);

    heap.insert(10);
    assert_eq!(*heap.raw(), vec![10]);

    heap.insert(11);
    assert_eq!(*heap.raw(), vec![10, 11]);

    heap.insert(9);
    assert_eq!(*heap.raw(), vec![9, 11, 10]);

    heap.insert(5);
    assert_eq!(*heap.raw(), vec![5, 9, 10, 11]);

    heap.insert(6);
    assert_eq!(*heap.raw(), vec![5, 6, 10, 11, 9]);

    let mut expected = vec![5, 6, 10, 11, 9];
    expected.sort();
    assert_eq!(expected, heap.collect());
}

#[test]
fn test_insert_max() {
    let mut heap = Heap::<u32>::new(HeapType::Max);

    heap.insert(10);
    assert_eq!(*heap.raw(), vec![10]);

    heap.insert(11);
    assert_eq!(*heap.raw(), vec![11, 10]);

    heap.insert(9);
    assert_eq!(*heap.raw(), vec![11, 10, 9]);

    heap.insert(5);
    assert_eq!(*heap.raw(), vec![11, 10, 9, 5]);

    heap.insert(6);
    assert_eq!(*heap.raw(), vec![11, 10, 9, 5, 6]);

    let mut expected = vec![5, 6, 10, 11, 9];
    expected.sort();
    expected.reverse();
    assert_eq!(expected, heap.collect());
}

#[test]
fn test_extract_min() {
    let mut heap = Heap::<u32>::new(HeapType::Min);
    let mut input: [u32; 4] = [10, 11, 9, 5];

    for i in input {
        heap.insert(i)
    }

    input.sort();
    for i in 0..input.len() {
        assert_eq!(input[i], heap.extract().unwrap());
    }
}

#[test]
fn test_extract_max() {
    let mut heap = Heap::<u32>::new(HeapType::Max);
    let mut input: [u32; 4] = [10, 11, 9, 5];

    for i in input {
        heap.insert(i)
    }

    input.sort();
    input.reverse();
    for i in 0..input.len() {
        assert_eq!(input[i], heap.extract().unwrap());
    }
}

#[test]
fn test_from_vec_min() {
    let input: Vec<u32> = scrambled_vec(100);
    let mut heap = Heap::<u32>::from_vec(HeapType::Min, input.clone());

    let output = heap.collect();
    let mut expected = input.clone();
    expected.sort();

    assert_eq!(expected, output);
}

#[test]
fn test_from_vec_edge() {
    // From empty vector
    let _ = Heap::<u32>::from_vec(HeapType::Max, Vec::new());
}

#[test]
fn test_from_vec_max() {
    let input: Vec<u32> = scrambled_vec(100);
    let mut heap = Heap::<u32>::from_vec(HeapType::Max, input.clone());

    let output = heap.collect();
    let mut expected = input.clone();
    expected.sort();
    expected.reverse();

    assert_eq!(expected, output);
}

#[test]
fn heap_property_after_mixed_operations() {
    for heap_type in [HeapType::Min, HeapType::Max] {
        let mut heap = Heap::<u32>::from_vec(heap_type, scrambled_vec(40));
        assert!(holds_heap_property(heap.raw(), heap_type));
        for v in scrambled_vec(25) {
            heap.insert(v * 3);
            assert!(holds_heap_property(heap.raw(), heap_type));
            if v % 3 == 0 {
                heap.extract();
                assert!(holds_heap_property(heap.raw(), heap_type));
            }
        }
    }
}

#[test]
fn sizes_change_by_one() {
    let mut heap = Heap::<u32>::new(HeapType::Min);
    assert_eq!(heap.raw().len(), 0);
    assert_eq!(heap.extract(), None);
    assert_eq!(heap.raw().len(), 0);
    heap.insert(4);
    heap.insert(2);
    assert_eq!(heap.raw().len(), 2);
    assert_eq!(heap.extract(), Some(2));
    assert_eq!(heap.raw().len(), 1);
    assert_eq!(heap.extract(), Some(4));
    assert_eq!(heap.raw().len(), 0);
    assert_eq!(heap.extract(), None);
}

#[test]
fn drained_min_heap_is_non_decreasing() {
    let mut heap = Heap::<u32>::from_vec(HeapType::Min, vec![7, 7, 3, 9, 1, 3]);
    let out = heap.collect();
    assert_eq!(out, vec![1, 3, 3, 7, 7, 9]);
    assert!(out.windows(2).all(|w| w[0] <= w[1]));
    assert_eq!(heap.raw().len(), 0);
}

#[test]
fn drained_max_heap_is_non_increasing() {
    let mut heap = Heap::<u32>::from_vec(HeapType::Max, vec![7, 7, 3, 9, 1, 3]);
    let out = heap.collect();
    assert_eq!(out, vec![9, 7, 7, 3, 3, 1]);
    assert_eq!(heap.root(), None);
}

#[test]
fn round_trip_empty_and_single() {
    let mut empty = Heap::<u32>::from_vec(HeapType::Min, Vec::new());
    assert_eq!(empty.collect(), Vec::<u32>::new());
    let mut one = Heap::<u32>::from_vec(HeapType::Max, vec![42]);
    assert_eq!(one.collect(), vec![42]);
}

#[test]
fn insertion_order_does_not_matter() {
    let s = scrambled_vec(30);
    let mut built = Heap::<u32>::from_vec(HeapType::Min, s.clone());
    let mut forward = Heap::<u32>::new(HeapType::Min);
    for &v in s.iter() {
        forward.insert(v);
    }
    let mut backward = Heap::<u32>::new(HeapType::Min);
    for &v in s.iter().rev() {
        backward.insert(v);
    }
    let expected = built.collect();
    assert_eq!(forward.collect(), expected);
    assert_eq!(backward.collect(), expected);
}

#[test]
fn root_peek_twice_is_stable() {
    let heap = Heap::<u32>::from_vec(HeapType::Min, vec![4, 8, 2, 6]);
    let first = heap.root().copied();
    let second = heap.root().copied();
    assert_eq!(first, Some(2));
    assert_eq!(first, second);
    assert_eq!(heap.raw().len(), 4);
}

#[test]
fn min_insert_example_drains_sorted() {
    let mut heap = Heap::<u32>::new(HeapType::Min);
    for v in [10, 11, 9, 5, 6] {
        heap.insert(v);
    }
    assert_eq!(*heap.raw(), vec![5, 6, 10, 11, 9]);
    assert_eq!(heap.collect(), vec![5, 6, 9, 10, 11]);
}

#[test]
fn max_built_example_reports_root() {
    let heap = Heap::<u32>::from_vec(HeapType::Max, vec![1, 7, 3, 4, 5, 6, 8]);
    assert_eq!(heap.root(), Some(&8));
    assert_eq!(*heap.raw(), vec![8, 7, 6, 4, 5, 1, 3]);
}

#[test]
fn from_array_matches_from_vec() {
    let a = Heap::<u32>::from_array(HeapType::Max, vec![1, 7, 3, 4, 5, 6, 8]);
    let b = Heap::<u32>::from_vec(HeapType::Max, vec![1, 7, 3, 4, 5, 6, 8]);
    assert_eq!(a.raw(), b.raw());
}

#[test]
fn extract_moves_last_to_root_and_sinks() {
    let mut heap = Heap::<u32>::new(HeapType::Min);
    for v in [10, 11, 9, 5, 6] {
        heap.insert(v);
    }
    assert_eq!(heap.extract(), Some(5));
    assert_eq!(*heap.raw(), vec![6, 9, 10, 11]);
}

#[test]
fn get_in_and_out_of_range() {
    let heap = Heap::<u32>::from_vec(HeapType::Min, vec![3, 1, 2]);
    assert_eq!(heap.get(0), Some(&1));
    assert_eq!(heap.get(2), Some(&2));
    assert_eq!(heap.get(3), None);
    assert_eq!(heap.get(usize::MAX), None);
}

#[test]
fn heapify_step_results() {
    let mut tie = Heap::<u32>::from_raw(HeapType::Max, vec![1, 5, 5]);
    assert_eq!(tie.heapify(0), Some(1));
    assert_eq!(*tie.raw(), vec![5, 1, 5]);

    let mut parent_wins = Heap::<u32>::from_raw(HeapType::Max, vec![5, 5, 3]);
    assert_eq!(parent_wins.heapify(0), None);
    assert_eq!(*parent_wins.raw(), vec![5, 5, 3]);

    let mut right = Heap::<u32>::from_raw(HeapType::Min, vec![9, 4, 2]);
    assert_eq!(right.heapify(0), Some(2));
    assert_eq!(*right.raw(), vec![2, 4, 9]);

    let mut leaf = Heap::<u32>::from_raw(HeapType::Min, vec![9, 4, 2]);
    assert_eq!(leaf.heapify(2), None);
    assert_eq!(leaf.heapify(usize::MAX), None);
}

#[test]
fn signed_keys_order_negatives_first() {
    let mut heap = Heap::<i64>::from_vec(HeapType::Min, vec![3, -7, 0, -1, 12]);
    assert_eq!(heap.root(), Some(&-7));
    assert_eq!(heap.collect(), vec![-7, -1, 0, 3, 12]);
    let mut small = Heap::<u8>::new(HeapType::Max);
    small.insert(200);
    small.insert(255);
    small.insert(0);
    assert_eq!(small.collect(), vec![255, 200, 0]);
}
