use array_lists::{ArrayQueue, Queue};
use std::cell::Cell;
use std::collections::VecDeque;
use std::rc::Rc;

#[test]
fn array_queue_should_add_and_remove_elements() {
    let mut arr = ArrayQueue::new();
    arr.add("foo");
    arr.add("bar");
    arr.add("foobar");
    assert_eq!(arr.remove(), Some("foo"));
    assert_eq!(arr.remove(), Some("bar"));
    assert_eq!(arr.remove(), Some("foobar"));
    assert_eq!(arr.remove(), None);
}

#[test]
fn array_queue_should_reallocate_properly() {
    // Compare to a VecDeque used as a FIFO
    let mut arr = ArrayQueue::new();
    let mut deque = VecDeque::new();
    const LEN: i32 = 100;
    for i in 0..LEN {
        arr.add(i);
        deque.push_back(i);
        for j in 0..i {
            arr.add(j);
            deque.push_back(j);
        }
        for _ in 0..i {
            assert_eq!(arr.remove(), deque.pop_front());
        }
    }
    for _ in 0..LEN {
        assert_eq!(arr.remove(), deque.pop_front());
    }
    assert_eq!(arr.remove(), None);
    assert_eq!(deque.pop_front(), None);
}

#[test]
fn array_queue_should_drop_elements() {
    struct DropWatcher<'a>(&'a mut bool);
    impl Drop for DropWatcher<'_> {
        fn drop(&mut self) {
            *self.0 = true;
        }
    }
    let mut dropped = false;
    {
        let mut arr = ArrayQueue::new();
        arr.add(DropWatcher(&mut dropped));
    }
    assert!(dropped);
}

fn through_trait<Q: Queue<Item = u32>>(q: &mut Q, xs: &[u32]) -> Vec<u32> {
    for x in xs {
        q.add(*x);
    }
    let mut out = Vec::new();
    while let Some(x) = q.remove() {
        out.push(x);
    }
    out
}

#[test]
fn queue_fifo_order() {
    let xs = [5u32, 3, 9, 9, 1, 0, 42, 7, 8, 2, 6];
    let mut q = ArrayQueue::new();
    assert_eq!(through_trait(&mut q, &xs), xs.to_vec());
    assert_eq!(q.len(), 0);
}

#[test]
fn queue_capacity_follows_policy() {
    let mut q = ArrayQueue::new();
    assert_eq!(q.capacity(), 0);
    for (i, cap) in [1usize, 2, 4, 4, 8].iter().enumerate() {
        q.add(i);
        assert_eq!(q.capacity(), *cap);
    }
    for cap in [8usize, 8, 4, 2, 1].iter() {
        q.remove().unwrap();
        assert_eq!(q.capacity(), *cap);
    }
}

struct Counted(Rc<Cell<usize>>);

impl Drop for Counted {
    fn drop(&mut self) {
        self.0.set(self.0.get() + 1);
    }
}

#[test]
fn queue_drops_each_element_once() {
    let drops = Rc::new(Cell::new(0));
    {
        let mut q = ArrayQueue::new();
        for _ in 0..20 {
            q.add(Counted(drops.clone()));
        }
        for _ in 0..7 {
            drop(q.remove());
        }
        for _ in 0..4 {
            q.add(Counted(drops.clone()));
        }
        assert_eq!(drops.get(), 7);
    }
    assert_eq!(drops.get(), 24);
}
