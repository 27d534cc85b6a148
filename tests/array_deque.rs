use array_lists::{ArrayDeque, IndexOutOfRange};
use std::cell::Cell;
use std::collections::VecDeque;
use std::rc::Rc;

#[test]
fn array_deque_should_add_and_remove_elements() {
    let mut arr = ArrayDeque::new();
    arr.add(0, "foo").unwrap();
    arr.add(1, "bar").unwrap();
    arr.add(1, "foobar").unwrap();
    assert_eq!(arr.remove(0), Some("foo"));
    assert_eq!(arr.remove(0), Some("foobar"));
    assert_eq!(arr.remove(0), Some("bar"));
    assert_eq!(arr.remove(0), None);
}

#[test]
fn array_deque_should_reallocate_properly() {
    // Compare to a VecDeque driven by the same operations
    let mut arr = ArrayDeque::new();
    let mut deque = VecDeque::new();
    const LEN: usize = 100;
    for i in 0..LEN {
        arr.add(i, i).unwrap();
        deque.insert(i, i);
        for j in 0..i {
            arr.add(j, j).unwrap();
            deque.insert(j, j);
        }
        for j in (0..i).rev() {
            assert_eq!(arr.remove(j), deque.remove(j));
        }
    }
    for _ in 0..LEN {
        assert_eq!(arr.remove(0), deque.remove(0));
    }
    assert_eq!(arr.remove(0), None);
    assert_eq!(deque.remove(0), None);
}

#[test]
fn array_deque_should_drop_elements() {
    struct DropWatcher<'a>(&'a mut bool);
    impl Drop for DropWatcher<'_> {
        fn drop(&mut self) {
            *self.0 = true;
        }
    }
    let mut dropped = false;
    {
        let mut arr = ArrayDeque::new();
        arr.add(0, DropWatcher(&mut dropped)).unwrap();
    }
    assert!(dropped);
}

fn contents(arr: &ArrayDeque<&'static str>) -> Vec<&'static str> {
    (0..arr.len()).map(|i| *arr.get(i).unwrap()).collect()
}

#[test]
fn deque_concrete_scenario() {
    let mut arr = ArrayDeque::new();
    arr.add(0, "a").unwrap();
    arr.add(1, "b").unwrap();
    arr.add(0, "c").unwrap();
    assert_eq!(contents(&arr), vec!["c", "a", "b"]);
    assert_eq!(arr.remove(1), Some("a"));
    assert_eq!(contents(&arr), vec!["c", "b"]);
    assert_eq!(arr.remove(5), None);
    assert_eq!(arr.len(), 2);
    assert_eq!(contents(&arr), vec!["c", "b"]);
}

#[test]
fn deque_add_past_end_is_refused() {
    let mut arr = ArrayDeque::new();
    arr.add(0, 1u32).unwrap();
    assert_eq!(arr.add(2, 7), Err(IndexOutOfRange { index: 2, len: 1 }));
    assert_eq!(arr.len(), 1);
    assert_eq!(arr.get(0), Some(&1));
    assert_eq!(arr.get(1), None);
    let mut empty: ArrayDeque<u32> = ArrayDeque::new();
    assert_eq!(empty.add(1, 7), Err(IndexOutOfRange { index: 1, len: 0 }));
    assert!(empty.is_empty());
    assert_eq!(empty.remove(0), None);
}

#[test]
fn deque_get_mut_replaces_element() {
    let mut arr = ArrayDeque::new();
    arr.add(0, "foo").unwrap();
    arr.add(0, "bar").unwrap();
    arr.add(2, "foobar").unwrap();
    *arr.get_mut(0).unwrap() = "my_bar";
    *arr.get_mut(2).unwrap() = "my_foobar";
    assert_eq!(arr.get_mut(3), None);
    assert_eq!(contents(&arr), vec!["my_bar", "foo", "my_foobar"]);
}

#[test]
fn deque_capacity_follows_policy() {
    let mut arr = ArrayDeque::new();
    assert_eq!(arr.capacity(), 0);
    let expected_after_push = [1usize, 2, 4, 4, 8, 8, 8, 8, 16];
    for (i, cap) in expected_after_push.iter().enumerate() {
        arr.add(0, i).unwrap();
        assert_eq!(arr.capacity(), *cap);
        assert!(arr.len() <= arr.capacity());
        assert!(arr.capacity() < 3 * arr.len());
    }
    // 9 elements in 16 slots: removals shrink once 16 >= 3 * len
    let expected_after_pop = [16usize, 16, 16, 10, 10, 6, 4, 2, 1];
    for cap in expected_after_pop.iter() {
        arr.remove(arr.len() / 2).unwrap();
        assert_eq!(arr.capacity(), *cap);
        if !arr.is_empty() {
            assert!(arr.capacity() < 3 * arr.len());
        }
    }
    assert!(arr.is_empty());
}

#[test]
fn deque_round_trip_at_every_index() {
    for n in 0..12usize {
        for i in 0..=n {
            let mut arr = ArrayDeque::new();
            for k in 0..n {
                arr.add(k, k).unwrap();
            }
            // rotate the origin so that the live range wraps
            for _ in 0..(n / 3) {
                let x = arr.remove(0).unwrap();
                arr.add(arr.len(), x).unwrap();
            }
            let before: Vec<usize> = (0..arr.len()).map(|k| *arr.get(k).unwrap()).collect();
            arr.add(i, 999).unwrap();
            assert_eq!(arr.remove(i), Some(999));
            assert_eq!(arr.len(), n);
            let after: Vec<usize> = (0..arr.len()).map(|k| *arr.get(k).unwrap()).collect();
            assert_eq!(before, after);
        }
    }
}

#[test]
fn deque_matches_linear_list() {
    let mut arr = ArrayDeque::new();
    let mut list: Vec<u64> = Vec::new();
    let mut seed: u64 = 12345;
    for step in 0..3000u64 {
        seed = seed.wrapping_mul(6364136223846793005).wrapping_add(1442695040888963407);
        let r = (seed >> 33) as usize;
        if r % 5 < 3 {
            let i = r % (list.len() + 1);
            arr.add(i, step).unwrap();
            list.insert(i, step);
        } else {
            let i = r % (list.len() + 2);
            let expected = if i < list.len() { Some(list.remove(i)) } else { None };
            assert_eq!(arr.remove(i), expected);
        }
        let probe = r % (list.len() + 1);
        assert_eq!(arr.get(probe), list.get(probe));
        assert_eq!(arr.len(), list.len());
    }
    let all: Vec<u64> = (0..arr.len()).map(|k| *arr.get(k).unwrap()).collect();
    assert_eq!(all, list);
}

struct Counted(Rc<Cell<usize>>);

impl Drop for Counted {
    fn drop(&mut self) {
        self.0.set(self.0.get() + 1);
    }
}

#[test]
fn deque_drops_each_element_once() {
    let drops = Rc::new(Cell::new(0));
    {
        let mut arr = ArrayDeque::new();
        for i in 0..37usize {
            arr.add(i / 2, Counted(drops.clone())).unwrap();
        }
        for _ in 0..5 {
            drop(arr.remove(3));
        }
        assert_eq!(drops.get(), 5);
    }
    assert_eq!(drops.get(), 37);
}
