//! ArrayStack: a contiguous growable array. Logical index `i` is always
//! physical slot `i`, so insertion and removal at `i` shift the suffix
//! `[i, len)` by one slot.
use vstd::prelude::*;
use crate::error::IndexOutOfRange;
use crate::resize_policy::{capacity_after_add, capacity_after_remove, capacity_ok, resized_capacity};
use crate::slots::{move_slot, vacant_slots};
use crate::stack::Stack;

verus! {

/// A contiguous growable array: slots `[0, len)` are live, the rest vacant.
pub struct ArrayStack<T> {
    buf: Vec<Option<T>>,
    len: usize,
}

impl<T> View for ArrayStack<T> {
    type V = Seq<T>;

    closed spec fn view(&self) -> Seq<T> {
        Seq::new(self.len as nat, |i: int| self.buf@[i]->Some_0)
    }
}

/// Slots before `len` are live and the others vacant.
spec fn live_prefix<T>(buf: Seq<Option<T>>, len: int) -> bool {
    &&& 0 <= len <= buf.len()
    &&& forall|i: int| 0 <= i < buf.len() ==> (#[trigger] buf[i] is Some <==> i < len)
}

impl<T> ArrayStack<T> {
    /// Number of slots in the backing store.
    pub closed spec fn spec_capacity(&self) -> nat {
        self.buf@.len()
    }

    /// The internal invariant: exactly the first `len` slots are live, and
    /// the capacity is within the bounds of the resize policy.
    pub closed spec fn wf(&self) -> bool {
        &&& live_prefix(self.buf@, self.len as int)
        &&& capacity_ok(self.len as int, self.buf@.len() as int)
    }

    /// Every well-formed stack holds its length within the resize policy's
    /// bounds: `len <= capacity`, and `capacity < 3 * len` when non-empty.
    pub proof fn lemma_capacity_invariant(&self)
        requires
            self.wf(),
        ensures
            capacity_ok(self@.len() as int, self.spec_capacity() as int),
    {
    }

    /// Create an empty stack with no slots.
    pub fn new() -> (r: Self)
        ensures
            r.wf(),
            r@ == Seq::<T>::empty(),
            r.spec_capacity() == 0,
    {
        let r = ArrayStack { buf: Vec::new(), len: 0 };
        assert(r@ =~= Seq::<T>::empty());
        r
    }

    /// Number of elements.
    pub fn len(&self) -> (r: usize)
        requires
            self.wf(),
        ensures
            r == self@.len(),
    {
        self.len
    }

    /// Whether there are no elements.
    pub fn is_empty(&self) -> (r: bool)
        requires
            self.wf(),
        ensures
            r == (self@.len() == 0),
    {
        self.len == 0
    }

    /// Number of slots in the backing store.
    pub fn capacity(&self) -> (r: usize)
        ensures
            r == self.spec_capacity(),
    {
        self.buf.len()
    }

    /// Get a reference to the element at `index`, or `None` when out of range.
    pub fn get(&self, index: usize) -> (r: Option<&T>)
        requires
            self.wf(),
        ensures
            index < self@.len() ==> r == Some(&self@[index as int]),
            index >= self@.len() ==> r is None,
    {
        if index < self.len {
            self.buf[index].as_ref()
        } else {
            None
        }
    }

    /// Get a mutable reference to the element at `index`, or `None` when out
    /// of range. What is written through it replaces that element.
    pub fn get_mut(&mut self, index: usize) -> (r: Option<&mut T>)
        requires
            old(self).wf(),
        ensures
            index >= old(self)@.len() ==> r is None && *final(self) == *old(self),
            index < old(self)@.len() ==> r is Some && *r->Some_0 == old(self)@[index as int]
                && final(self).wf() && final(self)@ =~= old(self)@.update(
                index as int,
                *final(r->Some_0),
            ) && final(self).spec_capacity() == old(self).spec_capacity(),
    {
        if index < self.len {
            self.buf[index].as_mut()
        } else {
            None
        }
    }

    /// Insert `element` at `index`, shifting the elements from `index` on one
    /// slot to the right; grows first when every slot is live. An index past
    /// the end is refused and leaves the stack unchanged.
    pub fn add(&mut self, index: usize, element: T) -> (r: Result<(), IndexOutOfRange>)
        requires
            old(self).wf(),
            2 * old(self)@.len() <= usize::MAX,
        ensures
            final(self).wf(),
            index <= old(self)@.len() ==> r is Ok && final(self)@ == old(self)@.insert(
                index as int,
                element,
            ) && final(self).spec_capacity() == capacity_after_add(
                old(self)@.len() as int,
                old(self).spec_capacity() as int,
            ),
            index > old(self)@.len() ==> r == Err::<(), _>(
                IndexOutOfRange { index, len: old(self)@.len() as usize },
            ) && *final(self) == *old(self),
    {
        let len = self.len;
        if index > len {
            return Err(IndexOutOfRange { index, len });
        }
        if len == self.buf.len() {
            self.resize();
        }
        let ghost s = old(self)@;
        let ghost cap = self.buf@.len();
        let mut k: usize = len;
        while k > index
            invariant
                index <= k <= len,
                len == self.len,
                s.len() == len,
                len < cap,
                self.buf@.len() == cap,
                cap == capacity_after_add(len as int, old(self).spec_capacity() as int),
                forall|p: int|
                    0 <= p < cap ==> #[trigger] self.buf@[p] == if p < k {
                        Some(s[p])
                    } else if p == k {
                        None
                    } else if p <= len {
                        Some(s[p - 1])
                    } else {
                        None
                    },
            decreases k,
        {
            move_slot(&mut self.buf, k - 1, k);
            k -= 1;
        }
        self.buf.set(index, Some(element));
        self.len = len + 1;
        proof {
            assert(self@ =~= s.insert(index as int, element));
        }
        Ok(())
    }

    /// Remove and return the element at `index`, shifting the elements after
    /// it one slot to the left; shrinks when the store has become three times
    /// the length or more.
    pub fn remove(&mut self, index: usize) -> (r: T)
        requires
            old(self).wf(),
            index < old(self)@.len(),
        ensures
            final(self).wf(),
            r == old(self)@[index as int],
            final(self)@ == old(self)@.remove(index as int),
            final(self).spec_capacity() == capacity_after_remove(
                old(self)@.len() as int,
                old(self).spec_capacity() as int,
            ),
    {
        let len = self.len;
        let ghost s = old(self)@;
        let ghost w = s.remove(index as int);
        let ghost cap = self.buf@.len();
        let element = self.buf[index].take().unwrap();
        let mut h: usize = index;
        while h + 1 < len
            invariant
                index <= h < len,
                len == self.len,
                s.len() == len,
                w == s.remove(index as int),
                len <= cap,
                self.buf@.len() == cap,
                cap == old(self).spec_capacity(),
                forall|p: int|
                    0 <= p < cap ==> #[trigger] self.buf@[p] == if p < h {
                        Some(w[p])
                    } else if p == h {
                        None
                    } else if p < len {
                        Some(w[p - 1])
                    } else {
                        None
                    },
            decreases len - h,
        {
            move_slot(&mut self.buf, h + 1, h);
            h += 1;
        }
        self.len = len - 1;
        proof {
            assert(self@ =~= w);
        }
        if self.len <= self.buf.len() / 3 {
            self.resize();
        }
        element
    }

    /// Move the elements out, in order, into a plain vector.
    pub(crate) fn into_vec(self) -> (r: Vec<T>)
        requires
            self.wf(),
        ensures
            r@ == self@,
    {
        let ghost v = self@;
        let len = self.len;
        let mut buf = self.buf;
        let mut r: Vec<T> = Vec::new();
        let mut i: usize = 0;
        while i < len
            invariant
                i <= len <= buf@.len(),
                v.len() == len,
                r@.len() == i,
                forall|k: int| 0 <= k < i ==> #[trigger] r@[k] == v[k],
                forall|k: int| i <= k < len ==> #[trigger] buf@[k] == Some(v[k]),
            decreases len - i,
        {
            let x = buf[i].take().unwrap();
            r.push(x);
            i += 1;
        }
        assert(r@ =~= v);
        r
    }

    /// Move the live elements, in order, into a fresh store of
    /// `max(1, 2 * len)` slots.
    fn resize(&mut self)
        requires
            live_prefix(old(self).buf@, old(self).len as int),
            2 * old(self).len <= usize::MAX,
        ensures
            live_prefix(final(self).buf@, final(self).len as int),
            final(self).len == old(self).len,
            final(self)@ == old(self)@,
            final(self).buf@.len() == resized_capacity(old(self).len as int),
    {
        let len = self.len;
        let new_cap: usize = if len > 0 {
            2 * len
        } else {
            1
        };
        let mut fresh: Vec<Option<T>> = vacant_slots(new_cap);
        let ghost s = old(self)@;
        let mut i: usize = 0;
        while i < len
            invariant
                i <= len,
                len == self.len,
                len < new_cap,
                s == old(self)@,
                old(self).len == len,
                live_prefix(old(self).buf@, len as int),
                fresh@.len() == new_cap,
                self.buf@.len() == old(self).buf@.len(),
                forall|k: int| 0 <= k < i ==> #[trigger] fresh@[k] == Some(s[k]),
                forall|k: int| i <= k < new_cap ==> #[trigger] fresh@[k] is None,
                forall|k: int| i <= k < len ==> #[trigger] self.buf@[k] == old(self).buf@[k],
            decreases len - i,
        {
            assert(self.buf@[i as int] == Some(s[i as int]));
            let v = self.buf[i].take();
            fresh.set(i, v);
            i += 1;
        }
        self.buf = fresh;
        proof {
            assert(self@ =~= s);
        }
    }
}

impl<T> Default for ArrayStack<T> {
    fn default() -> (r: Self)
        ensures
            r.wf(),
            r@ == Seq::<T>::empty(),
    {
        Self::new()
    }
}

} // verus!

verus! {

impl<T> Stack for ArrayStack<T> {
    type Item = T;

    open spec fn stack_wf(&self) -> bool {
        self.wf()
    }

    open spec fn stack_items(&self) -> Seq<T> {
        self@
    }

    fn push(&mut self, item: T) {
        let len = self.len;
        let _ = self.add(len, item);
        assert(old(self)@.insert(len as int, item) =~= old(self)@.push(item));
    }

    fn pop(&mut self) -> (r: Option<T>) {
        let len = self.len;
        if len > 0 {
            let r = self.remove(len - 1);
            assert(old(self)@.remove(len - 1) =~= old(self)@.drop_last());
            Some(r)
        } else {
            None
        }
    }
}

} // verus!
