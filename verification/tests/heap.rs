use ordered_collections::{Greatest, Heap, Least, MaxHeap, MinHeap, Priority};

#[test]
fn test_empty_heap() {
    let mut heap = MaxHeap::new::<i32>();
    assert_eq!(heap.next(), None);
}

#[test]
fn test_min_heap() {
    let mut heap = MinHeap::new();
    heap.add(4);
    heap.add(2);
    heap.add(9);
    heap.add(11);
    assert_eq!(heap.len(), 4);
    assert_eq!(heap.next(), Some(2));
    assert_eq!(heap.next(), Some(4));
    assert_eq!(heap.next(), Some(9));
    heap.add(1);
    assert_eq!(heap.next(), Some(1));
}

#[test]
fn test_max_heap() {
    let mut heap = MaxHeap::new();
    heap.add(4);
    heap.add(2);
    heap.add(9);
    heap.add(11);
    assert_eq!(heap.len(), 4);
    assert_eq!(heap.next(), Some(11));
    assert_eq!(heap.next(), Some(9));
    assert_eq!(heap.next(), Some(4));
    heap.add(1);
    assert_eq!(heap.next(), Some(2));
}

#[test]
fn min_heap_drains_in_increasing_order() {
    let mut heap = MinHeap::new();
    for v in [4, 2, 9, 11] {
        heap.add(v);
    }
    assert_eq!(heap.len(), 4);
    assert_eq!(heap.drain(), vec![2, 4, 9, 11]);
    assert!(heap.is_empty());
}

#[test]
fn max_heap_drains_in_decreasing_order() {
    let mut heap = MaxHeap::new();
    for v in [4, 2, 9, 11] {
        heap.add(v);
    }
    assert_eq!(heap.next(), Some(11));
    assert_eq!(heap.next(), Some(9));
    assert_eq!(heap.next(), Some(4));
    assert_eq!(heap.next(), Some(2));
    assert_eq!(heap.next(), None);
}

#[test]
fn late_insert_comes_out_before_what_is_left() {
    let mut heap = MinHeap::new();
    for v in [4, 2, 9, 11] {
        heap.add(v);
    }
    assert_eq!(heap.next(), Some(2));
    assert_eq!(heap.next(), Some(4));
    assert_eq!(heap.next(), Some(9));
    heap.add(1);
    assert_eq!(heap.next(), Some(1));
    assert_eq!(heap.next(), Some(11));
    assert_eq!(heap.next(), None);
}

#[test]
fn size_follows_adds_and_extractions() {
    let mut heap = MinHeap::new();
    assert_eq!(heap.len(), 0);
    assert!(heap.is_empty());
    for (n, v) in [7u64, 3, 8, 3, 1].into_iter().enumerate() {
        heap.add(v);
        assert_eq!(heap.len(), n + 1);
        assert!(!heap.is_empty());
    }
    for k in 1..=5usize {
        assert!(heap.next().is_some());
        assert_eq!(heap.len(), 5 - k);
    }
    assert!(heap.is_empty());
}

#[test]
fn exhausted_heap_stays_exhausted() {
    let mut heap = MinHeap::new();
    heap.add(3);
    heap.add(1);
    assert_eq!(heap.next(), Some(1));
    assert_eq!(heap.next(), Some(3));
    for _ in 0..3 {
        assert_eq!(heap.next(), None);
        assert_eq!(heap.len(), 0);
    }
    assert_eq!(heap.drain(), Vec::<i32>::new());
}

#[test]
fn every_insertion_order_drains_alike() {
    let values = [5, 1, 4, 1, 3];
    let mut order = [0usize, 1, 2, 3, 4];
    let mut seen = 0;
    // all 120 permutations of the five positions, by repeated next-permutation
    loop {
        let mut heap = MinHeap::new();
        for &i in order.iter() {
            heap.add(values[i]);
        }
        assert_eq!(heap.drain(), vec![1, 1, 3, 4, 5]);
        let mut heap = MaxHeap::new();
        for &i in order.iter() {
            heap.add(values[i]);
        }
        assert_eq!(heap.drain(), vec![5, 4, 3, 1, 1]);
        seen += 1;
        let mut i = order.len() - 1;
        while i > 0 && order[i - 1] >= order[i] {
            i -= 1;
        }
        if i == 0 {
            break;
        }
        let mut j = order.len() - 1;
        while order[j] <= order[i - 1] {
            j -= 1;
        }
        order.swap(i - 1, j);
        order[i..].reverse();
    }
    assert_eq!(seen, 120);
}

#[test]
fn many_elements_come_out_sorted() {
    let mut heap = MinHeap::new();
    let mut expected = Vec::new();
    let mut x: u32 = 12345;
    for _ in 0..500 {
        x = x.wrapping_mul(1103515245).wrapping_add(12345);
        let v = (x >> 16) % 1000;
        heap.add(v);
        expected.push(v);
    }
    expected.sort();
    assert_eq!(heap.len(), 500);
    assert_eq!(heap.drain(), expected);
}

#[test]
fn heaps_made_by_the_named_constructors() {
    let mut low = Heap::new_min();
    let mut high = Heap::new_max();
    for v in [3i64, -8, 12] {
        low.add(v);
        high.add(v);
    }
    assert_eq!(low.next(), Some(-8));
    assert_eq!(high.next(), Some(12));
}

#[test]
fn heaps_with_different_policies_coexist() {
    let mut low = MinHeap::new();
    let mut high = MaxHeap::new();
    for v in [2, 7, 5] {
        low.add(v);
        high.add(v);
    }
    assert_eq!(low.next(), Some(2));
    assert_eq!(high.next(), Some(7));
    assert_eq!(low.next(), Some(5));
    assert_eq!(high.next(), Some(5));
}

struct ShortestFirst;

impl Priority<String> for ShortestFirst {
    fn sound(&self) -> bool {
        true
    }

    fn outranks(&self, a: String, b: String) -> bool {
        a.len() < b.len()
    }

    fn better(&self, a: &String, b: &String) -> bool {
        a.len() < b.len()
    }
}

#[test]
fn heap_with_a_policy_of_its_own() {
    let mut heap = Heap::new(ShortestFirst);
    for word in ["quince", "fig", "pear", "banana"] {
        heap.add(word.to_string());
    }
    assert_eq!(heap.len(), 4);
    assert_eq!(heap.next(), Some("fig".to_string()));
    assert_eq!(heap.next(), Some("pear".to_string()));
    let last = heap.drain();
    assert_eq!(last.len(), 2);
    assert!(last.iter().all(|w| w.len() == 6));
    assert_eq!(heap.next(), None);
}

#[test]
fn least_prefers_the_smaller_and_greatest_the_larger() {
    assert!(Least.better(&1, &2));
    assert!(!Least.better(&2, &1));
    assert!(!Least.better(&2, &2));
    assert!(Greatest.better(&2, &1));
    assert!(!Greatest.better(&1, &2));
    assert!(!Greatest.better(&2, &2));
}

#[test]
fn equal_elements_all_come_out() {
    let mut heap = MaxHeap::new();
    for v in [6, 6, 2, 6, 2] {
        heap.add(v);
    }
    assert_eq!(heap.len(), 5);
    assert_eq!(heap.drain(), vec![6, 6, 6, 2, 2]);
    assert_eq!(heap.len(), 0);
}

#[test]
fn single_element_heap() {
    let mut heap = MinHeap::new();
    assert!(heap.is_empty());
    heap.add(42u8);
    assert!(!heap.is_empty());
    assert_eq!(heap.len(), 1);
    assert_eq!(heap.next(), Some(42));
    assert!(heap.is_empty());
    assert_eq!(heap.next(), None);
}
