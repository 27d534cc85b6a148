//! ArrayQueue: a circular buffer restricted to insertion at the back and
//! removal at the front, both in amortized constant time.
use vstd::prelude::*;
use crate::queue::Queue;
use crate::resize_policy::{capacity_after_add, capacity_after_remove, capacity_ok, resized_capacity};
use crate::slots::{
    lemma_close_at_front, lemma_fill, lemma_open_at_end, lemma_take, relocated, ring_live,
    ring_view, slot, slot_of,
};

verus! {

/// A FIFO queue over a resizable circular buffer.
pub struct ArrayQueue<T> {
    buf: Vec<Option<T>>,
    len: usize,
    offset: usize,
}

impl<T> View for ArrayQueue<T> {
    type V = Seq<T>;

    closed spec fn view(&self) -> Seq<T> {
        ring_view(self.buf@, self.offset as int, self.len as int)
    }
}

impl<T> ArrayQueue<T> {
    /// Number of slots in the backing store.
    pub closed spec fn spec_capacity(&self) -> nat {
        self.buf@.len()
    }

    /// The internal invariant: exactly the `len` slots from `offset` on,
    /// circularly, are live, and the capacity is within the bounds of the
    /// resize policy.
    pub closed spec fn wf(&self) -> bool {
        &&& ring_live(self.buf@, self.offset as int, self.len as int)
        &&& capacity_ok(self.len as int, self.buf@.len() as int)
    }

    /// Every well-formed queue holds its length within the resize policy's
    /// bounds: `len <= capacity`, and `capacity < 3 * len` when non-empty.
    pub proof fn lemma_capacity_invariant(&self)
        requires
            self.wf(),
        ensures
            capacity_ok(self@.len() as int, self.spec_capacity() as int),
    {
    }

    /// Create an empty queue with no slots.
    pub fn new() -> (r: Self)
        ensures
            r.wf(),
            r@ == Seq::<T>::empty(),
            r.spec_capacity() == 0,
    {
        let r = ArrayQueue { buf: Vec::new(), len: 0, offset: 0 };
        assert(r@ =~= Seq::<T>::empty());
        r
    }

    /// Number of elements.
    pub fn len(&self) -> (r: usize)
        requires
            self.wf(),
        ensures
            r == self@.len(),
    {
        self.len
    }

    /// Number of slots in the backing store.
    pub fn capacity(&self) -> (r: usize)
        ensures
            r == self.spec_capacity(),
    {
        self.buf.len()
    }

    /// Insert `element` at the back, growing first when every slot is live.
    pub fn add(&mut self, element: T)
        requires
            old(self).wf(),
            2 * old(self)@.len() <= usize::MAX,
        ensures
            final(self).wf(),
            final(self)@ == old(self)@.push(element),
            final(self).spec_capacity() == capacity_after_add(
                old(self)@.len() as int,
                old(self).spec_capacity() as int,
            ),
    {
        let len = self.len;
        if len + 1 > self.buf.len() {
            self.resize();
        }
        let cap = self.buf.len();
        proof {
            lemma_open_at_end(self.buf@, self.offset as int, len as int);
            lemma_fill(self.buf@, self.offset as int, old(self)@, len as int, element);
            assert(old(self)@.insert(len as int, element) =~= old(self)@.push(element));
        }
        let j = slot_of(self.offset, len, cap);
        self.buf.set(j, Some(element));
        self.len = len + 1;
    }

    /// Remove and return the element at the front, or `None` when empty.
    /// Shrinks when the store has become three times the length or more.
    pub fn remove(&mut self) -> (r: Option<T>)
        requires
            old(self).wf(),
        ensures
            final(self).wf(),
            old(self)@.len() == 0 ==> r is None && *final(self) == *old(self),
            old(self)@.len() > 0 ==> r == Some(old(self)@[0]) && final(self)@
                == old(self)@.drop_first() && final(self).spec_capacity()
                == capacity_after_remove(
                old(self)@.len() as int,
                old(self).spec_capacity() as int,
            ),
    {
        let len = self.len;
        if len == 0 {
            return None;
        }
        let cap = self.buf.len();
        proof {
            lemma_take(self.buf@, self.offset as int, len as int, 0);
            assert(slot(self.offset as int, 0, cap as int) == self.offset);
            assert(old(self)@.remove(0) =~= old(self)@.drop_first());
            lemma_close_at_front(
                self.buf@.update(self.offset as int, None),
                self.offset as int,
                old(self)@.drop_first(),
            );
        }
        let element = self.buf[self.offset].take().unwrap();
        self.offset = if self.offset + 1 < cap {
            self.offset + 1
        } else {
            0
        };
        self.len = len - 1;
        if self.len <= cap / 3 {
            self.resize();
        }
        Some(element)
    }

    /// Move the live elements, in order, into a fresh store of
    /// `max(1, 2 * len)` slots starting at slot 0.
    fn resize(&mut self)
        requires
            ring_live(old(self).buf@, old(self).offset as int, old(self).len as int),
            2 * old(self).len <= usize::MAX,
        ensures
            ring_live(final(self).buf@, final(self).offset as int, final(self).len as int),
            final(self).len == old(self).len,
            final(self).offset == 0,
            final(self)@ == old(self)@,
            final(self).buf@.len() == resized_capacity(old(self).len as int),
    {
        self.buf = relocated(&mut self.buf, self.offset, self.len);
        self.offset = 0;
    }
}

impl<T> Queue for ArrayQueue<T> {
    type Item = T;

    open spec fn queue_wf(&self) -> bool {
        self.wf()
    }

    open spec fn queue_items(&self) -> Seq<T> {
        self@
    }

    fn add(&mut self, item: T) {
        ArrayQueue::add(self, item)
    }

    fn remove(&mut self) -> (r: Option<T>) {
        ArrayQueue::remove(self)
    }
}

impl<T> Default for ArrayQueue<T> {
    fn default() -> (r: Self)
        ensures
            r.wf(),
            r@ == Seq::<T>::empty(),
    {
        Self::new()
    }
}

} // verus!
