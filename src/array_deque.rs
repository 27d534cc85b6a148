//! ArrayDeque: a resizable circular buffer. Logical index `i` lives in slot
//! `(offset + i) mod capacity`; insertion and removal shift whichever side of
//! the index is shorter, moving the origin when the front side moves.
use vstd::prelude::*;
use crate::error::IndexOutOfRange;
use crate::resize_policy::{capacity_after_add, capacity_after_remove, capacity_ok, resized_capacity};
use crate::slots::{
    holed, lemma_close_at_end, lemma_close_at_front, lemma_fill, lemma_open_at_end,
    lemma_open_at_front, lemma_slot_distinct, lemma_step_down, lemma_step_up, lemma_take,
    move_slot, relocated, ring_live, ring_view, slot, slot_of,
};

verus! {

/// A resizable circular buffer with fast insertion and removal at both ends.
pub struct ArrayDeque<T> {
    buf: Vec<Option<T>>,
    len: usize,
    offset: usize,
}

impl<T> View for ArrayDeque<T> {
    type V = Seq<T>;

    closed spec fn view(&self) -> Seq<T> {
        ring_view(self.buf@, self.offset as int, self.len as int)
    }
}

impl<T> ArrayDeque<T> {
    /// Number of slots in the backing store.
    pub closed spec fn spec_capacity(&self) -> nat {
        self.buf@.len()
    }

    /// The internal invariant: exactly the `len` slots from `offset` on,
    /// circularly, are live, and the capacity is within the bounds of the
    /// resize policy.
    pub closed spec fn wf(&self) -> bool {
        &&& ring_live(self.buf@, self.offset as int, self.len as int)
        &&& capacity_ok(self.len as int, self.buf@.len() as int)
    }

    /// Every well-formed deque holds its length within the resize policy's
    /// bounds: `len <= capacity`, and `capacity < 3 * len` when non-empty.
    pub proof fn lemma_capacity_invariant(&self)
        requires
            self.wf(),
        ensures
            capacity_ok(self@.len() as int, self.spec_capacity() as int),
    {
    }

    /// Create an empty deque with no slots.
    pub fn new() -> (r: Self)
        ensures
            r.wf(),
            r@ == Seq::<T>::empty(),
            r.spec_capacity() == 0,
    {
        let r = ArrayDeque { buf: Vec::new(), len: 0, offset: 0 };
        assert(r@ =~= Seq::<T>::empty());
        r
    }

    /// Number of elements.
    pub fn len(&self) -> (r: usize)
        requires
            self.wf(),
        ensures
            r == self@.len(),
    {
        self.len
    }

    /// Whether there are no elements.
    pub fn is_empty(&self) -> (r: bool)
        requires
            self.wf(),
        ensures
            r == (self@.len() == 0),
    {
        self.len == 0
    }

    /// Number of slots in the backing store.
    pub fn capacity(&self) -> (r: usize)
        ensures
            r == self.spec_capacity(),
    {
        self.buf.len()
    }

    /// Get a reference to the element at `index`, or `None` when out of range.
    pub fn get(&self, index: usize) -> (r: Option<&T>)
        requires
            self.wf(),
        ensures
            index < self@.len() ==> r == Some(&self@[index as int]),
            index >= self@.len() ==> r is None,
    {
        if index < self.len {
            let cap = self.buf.len();
            proof {
                lemma_slot_distinct(self.offset as int, cap as int);
                assert(self.buf@[slot(self.offset as int, index as int, cap as int)] is Some);
            }
            self.buf[slot_of(self.offset, index, cap)].as_ref()
        } else {
            None
        }
    }

    /// Get a mutable reference to the element at `index`, or `None` when out
    /// of range. What is written through it replaces that element.
    pub fn get_mut(&mut self, index: usize) -> (r: Option<&mut T>)
        requires
            old(self).wf(),
        ensures
            index >= old(self)@.len() ==> r is None && *final(self) == *old(self),
            index < old(self)@.len() ==> r is Some && *r->Some_0 == old(self)@[index as int]
                && final(self).wf() && final(self)@ =~= old(self)@.update(
                index as int,
                *final(r->Some_0),
            ) && final(self).spec_capacity() == old(self).spec_capacity(),
    {
        if index < self.len {
            let cap = self.buf.len();
            proof {
                lemma_slot_distinct(self.offset as int, cap as int);
                assert(self.buf@[slot(self.offset as int, index as int, cap as int)] is Some);
            }
            let j = slot_of(self.offset, index, cap);
            self.buf[j].as_mut()
        } else {
            None
        }
    }

    /// Move the live elements, in logical order, into a fresh store of
    /// `max(1, 2 * len)` slots starting at slot 0.
    fn resize(&mut self)
        requires
            ring_live(old(self).buf@, old(self).offset as int, old(self).len as int),
            2 * old(self).len <= usize::MAX,
        ensures
            ring_live(final(self).buf@, final(self).offset as int, final(self).len as int),
            final(self).len == old(self).len,
            final(self).offset == 0,
            final(self)@ == old(self)@,
            final(self).buf@.len() == resized_capacity(old(self).len as int),
    {
        self.buf = relocated(&mut self.buf, self.offset, self.len);
        self.offset = 0;
    }

    /// Insert `element` at `index`, growing first when every slot is live.
    /// Below the middle the elements before `index` shift one slot towards
    /// the front (the origin moves back); otherwise those from `index` on
    /// shift one slot towards the back. An index past the end is refused and
    /// leaves the deque unchanged.
    pub fn add(&mut self, index: usize, element: T) -> (r: Result<(), IndexOutOfRange>)
        requires
            old(self).wf(),
            2 * old(self)@.len() <= usize::MAX,
        ensures
            final(self).wf(),
            index <= old(self)@.len() ==> r is Ok && final(self)@ == old(self)@.insert(
                index as int,
                element,
            ) && final(self).spec_capacity() == capacity_after_add(
                old(self)@.len() as int,
                old(self).spec_capacity() as int,
            ),
            index > old(self)@.len() ==> r == Err::<(), _>(
                IndexOutOfRange { index, len: old(self)@.len() as usize },
            ) && *final(self) == *old(self),
    {
        let len = self.len;
        if index > len {
            return Err(IndexOutOfRange { index, len });
        }
        if len == self.buf.len() {
            self.resize();
        }
        let ghost s = old(self)@;
        let cap = self.buf.len();
        assert(cap == capacity_after_add(len as int, old(self).spec_capacity() as int));
        if index < len / 2 {
            let base: usize = if self.offset == 0 {
                cap - 1
            } else {
                self.offset - 1
            };
            proof {
                lemma_open_at_front(self.buf@, self.offset as int, len as int);
            }
            let mut h: usize = 0;
            while h < index
                invariant
                    h <= index < len < cap,
                    len == self.len,
                    s.len() == len,
                    cap == self.buf@.len(),
                    base < cap,
                    holed(self.buf@, base as int, s, h as int),
                decreases index - h,
            {
                proof {
                    lemma_step_up(self.buf@, base as int, s, h as int);
                }
                let from = slot_of(base, h + 1, cap);
                let to = slot_of(base, h, cap);
                move_slot(&mut self.buf, from, to);
                h += 1;
            }
            self.offset = base;
        } else {
            proof {
                lemma_open_at_end(self.buf@, self.offset as int, len as int);
            }
            let mut h: usize = len;
            while h > index
                invariant
                    index <= h <= len < cap,
                    len == self.len,
                    s.len() == len,
                    cap == self.buf@.len(),
                    self.offset < cap,
                    holed(self.buf@, self.offset as int, s, h as int),
                decreases h,
            {
                proof {
                    lemma_step_down(self.buf@, self.offset as int, s, h as int);
                }
                let from = slot_of(self.offset, h - 1, cap);
                let to = slot_of(self.offset, h, cap);
                move_slot(&mut self.buf, from, to);
                h -= 1;
            }
        }
        proof {
            lemma_fill(self.buf@, self.offset as int, s, index as int, element);
        }
        let j = slot_of(self.offset, index, cap);
        self.buf.set(j, Some(element));
        self.len = len + 1;
        Ok(())
    }

    /// Remove and return the element at `index`, or `None` when out of range
    /// (the deque is then unchanged). Below the middle the elements before
    /// `index` shift one slot towards the back (the origin moves forward);
    /// otherwise those after it shift one slot towards the front. Shrinks
    /// when the store has become three times the length or more.
    pub fn remove(&mut self, index: usize) -> (r: Option<T>)
        requires
            old(self).wf(),
        ensures
            final(self).wf(),
            index >= old(self)@.len() ==> r is None && *final(self) == *old(self),
            index < old(self)@.len() ==> r == Some(old(self)@[index as int]) && final(self)@
                == old(self)@.remove(index as int) && final(self).spec_capacity()
                == capacity_after_remove(
                old(self)@.len() as int,
                old(self).spec_capacity() as int,
            ),
    {
        let len = self.len;
        if index >= len {
            return None;
        }
        let ghost s = old(self)@;
        let ghost w = s.remove(index as int);
        let cap = self.buf.len();
        proof {
            lemma_take(self.buf@, self.offset as int, len as int, index as int);
        }
        let j = slot_of(self.offset, index, cap);
        let element = self.buf[j].take().unwrap();
        if index < len / 2 {
            let mut h: usize = index;
            while h > 0
                invariant
                    h <= index < len <= cap,
                    len == self.len,
                    w.len() == len - 1,
                    cap == self.buf@.len(),
                    self.offset < cap,
                    holed(self.buf@, self.offset as int, w, h as int),
                decreases h,
            {
                proof {
                    lemma_step_down(self.buf@, self.offset as int, w, h as int);
                }
                let from = slot_of(self.offset, h - 1, cap);
                let to = slot_of(self.offset, h, cap);
                move_slot(&mut self.buf, from, to);
                h -= 1;
            }
            proof {
                lemma_close_at_front(self.buf@, self.offset as int, w);
            }
            self.offset = if self.offset + 1 < cap {
                self.offset + 1
            } else {
                0
            };
        } else {
            let mut h: usize = index;
            while h + 1 < len
                invariant
                    index <= h < len <= cap,
                    len == self.len,
                    w.len() == len - 1,
                    cap == self.buf@.len(),
                    self.offset < cap,
                    holed(self.buf@, self.offset as int, w, h as int),
                decreases len - h,
            {
                proof {
                    lemma_step_up(self.buf@, self.offset as int, w, h as int);
                }
                let from = slot_of(self.offset, h + 1, cap);
                let to = slot_of(self.offset, h, cap);
                move_slot(&mut self.buf, from, to);
                h += 1;
            }
            proof {
                lemma_close_at_end(self.buf@, self.offset as int, w);
            }
        }
        self.len = len - 1;
        if self.len <= cap / 3 {
            self.resize();
        }
        Some(element)
    }
}

/// Round trip: inserting `x` at any index `i` in range and then removing at
/// `i` returns `x` and leaves the elements, hence the length, as they were.
pub proof fn lemma_add_then_remove<T>(s: Seq<T>, i: int, x: T)
    requires
        0 <= i <= s.len(),
    ensures
        s.insert(i, x)[i] == x,
        s.insert(i, x).remove(i) == s,
        s.insert(i, x).remove(i).len() == s.len(),
{
    assert(s.insert(i, x).remove(i) =~= s);
}

impl<T> Default for ArrayDeque<T> {
    fn default() -> (r: Self)
        ensures
            r.wf(),
            r@ == Seq::<T>::empty(),
    {
        Self::new()
    }
}

} // verus!
