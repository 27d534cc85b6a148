use array_lists::{ArrayStack, IndexOutOfRange, Stack};
use std::cell::Cell;
use std::rc::Rc;

#[test]
fn should_add_elements() {
    let mut arr = ArrayStack::new();
    arr.add(0, "foo").unwrap();
    arr.add(1, "bar").unwrap();
    arr.add(2, "foobar").unwrap();
    assert_eq!(arr.get(0), Some(&"foo"));
    assert_eq!(arr.get(1), Some(&"bar"));
    assert_eq!(arr.get(2), Some(&"foobar"));
    assert_eq!(arr.get(3), None);
}

#[test]
fn should_set_elements() {
    let mut arr = ArrayStack::new();
    arr.add(0, "foo").unwrap();
    arr.add(1, "bar").unwrap();
    arr.add(2, "foobar").unwrap();
    *arr.get_mut(0).unwrap() = "my_foo";
    *arr.get_mut(1).unwrap() = "my_bar";
    *arr.get_mut(2).unwrap() = "my_foobar";
    assert_eq!(arr.get_mut(3), None);
    assert_eq!(arr.get(0), Some(&"my_foo"));
    assert_eq!(arr.get(1), Some(&"my_bar"));
    assert_eq!(arr.get(2), Some(&"my_foobar"));
    assert_eq!(arr.get(3), None);
}

#[test]
fn should_insert_elements() {
    let mut arr = ArrayStack::new();
    arr.add(0, "foo").unwrap();
    arr.add(0, "bar").unwrap();
    arr.add(0, "foobar").unwrap();
    assert_eq!(arr.get(0), Some(&"foobar"));
    assert_eq!(arr.get(1), Some(&"bar"));
    assert_eq!(arr.get(2), Some(&"foo"));
    assert_eq!(arr.get(3), None);
}

#[test]
fn should_remove_elements() {
    let mut arr = ArrayStack::new();
    arr.add(0, "foo").unwrap();
    arr.add(0, "bar").unwrap();
    arr.add(0, "foobar").unwrap();
    assert_eq!(arr.remove(0), "foobar");
    assert_eq!(arr.remove(0), "bar");
    assert_eq!(arr.remove(0), "foo");
    assert_eq!(arr.get(0), None);
}

#[test]
fn array_stack_should_drop_elements() {
    struct DropWatcher<'a>(&'a mut bool);
    impl Drop for DropWatcher<'_> {
        fn drop(&mut self) {
            *self.0 = true;
        }
    }
    let mut dropped = false;
    {
        let mut arr = ArrayStack::new();
        arr.add(0, DropWatcher(&mut dropped)).unwrap();
    }
    assert!(dropped);
}

#[test]
fn stack_lifo_order() {
    let xs = [4u8, 8, 15, 16, 23, 42, 42, 0];
    let mut st = ArrayStack::new();
    for x in xs.iter() {
        st.push(*x);
    }
    let mut out = Vec::new();
    while let Some(x) = st.pop() {
        out.push(x);
    }
    let mut rev = xs.to_vec();
    rev.reverse();
    assert_eq!(out, rev);
    assert!(st.is_empty());
    assert_eq!(st.pop(), None);
}

#[test]
fn stack_add_past_end_is_refused() {
    let mut st = ArrayStack::new();
    st.add(0, 'x').unwrap();
    st.add(1, 'y').unwrap();
    assert_eq!(st.add(3, 'z'), Err(IndexOutOfRange { index: 3, len: 2 }));
    assert_eq!(st.len(), 2);
    assert_eq!(st.get(1), Some(&'y'));
}

#[test]
fn stack_capacity_follows_policy() {
    let mut st = ArrayStack::new();
    assert_eq!(st.capacity(), 0);
    for (i, cap) in [1usize, 2, 4, 4, 8, 8].iter().enumerate() {
        st.push(i);
        assert_eq!(st.capacity(), *cap);
    }
    // 6 elements in 8 slots
    for cap in [8usize, 8, 8, 4, 2, 1].iter() {
        st.pop().unwrap();
        assert_eq!(st.capacity(), *cap);
    }
}

#[test]
fn stack_middle_insert_and_remove() {
    let mut st = ArrayStack::new();
    for k in 0..10u32 {
        st.add(st.len(), k).unwrap();
    }
    st.add(4, 100).unwrap();
    assert_eq!(st.get(4), Some(&100));
    assert_eq!(st.get(5), Some(&4));
    assert_eq!(st.remove(2), 2);
    let all: Vec<u32> = (0..st.len()).map(|i| *st.get(i).unwrap()).collect();
    assert_eq!(all, vec![0, 1, 3, 100, 4, 5, 6, 7, 8, 9]);
}

struct Counted(Rc<Cell<usize>>);

impl Drop for Counted {
    fn drop(&mut self) {
        self.0.set(self.0.get() + 1);
    }
}

#[test]
fn stack_drops_each_element_once() {
    let drops = Rc::new(Cell::new(0));
    {
        let mut st = ArrayStack::new();
        for _ in 0..13 {
            st.push(Counted(drops.clone()));
        }
        drop(st.remove(0));
        assert_eq!(drops.get(), 1);
    }
    assert_eq!(drops.get(), 13);
}
