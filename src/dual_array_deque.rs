//! DualArrayDeque: a deque made of two ArrayStacks glued back to back at
//! the middle. `front` holds the first elements in reverse, so both ends of
//! the deque are the tops of a stack; when one side outgrows the other by
//! more than a factor of three the elements are split evenly again.
use vstd::prelude::*;
use crate::array_stack::ArrayStack;
use crate::error::IndexOutOfRange;
use crate::stack::Stack;

verus! {

/// A deque made of two stacks: `front` (reversed) followed by `back`.
pub struct DualArrayDeque<T> {
    front: ArrayStack<T>,
    back: ArrayStack<T>,
}

/// `s` in reverse order.
pub open spec fn flipped<T>(s: Seq<T>) -> Seq<T> {
    Seq::new(s.len(), |i: int| s[s.len() - 1 - i])
}

impl<T> View for DualArrayDeque<T> {
    type V = Seq<T>;

    closed spec fn view(&self) -> Seq<T> {
        flipped(self.front@) + self.back@
    }
}

/// Moves the elements of `v` into a new vector in reverse order.
fn reversed<T>(v: Vec<T>) -> (r: Vec<T>)
    ensures
        r@ == flipped(v@),
{
    let ghost orig = v@;
    let mut v = v;
    let mut r: Vec<T> = Vec::new();
    while v.len() > 0
        invariant
            v@ == orig.subrange(0, v@.len() as int),
            r@.len() + v@.len() == orig.len(),
            forall|k: int| 0 <= k < r@.len() ==> #[trigger] r@[k] == orig[orig.len() - 1 - k],
        decreases v@.len(),
    {
        let x = v.pop().unwrap();
        r.push(x);
    }
    assert(r@ =~= flipped(orig));
    r
}

/// Pushes the elements of `v`, in order, onto a new stack.
fn stack_of<T>(v: Vec<T>) -> (r: ArrayStack<T>)
    requires
        2 * v@.len() <= usize::MAX,
    ensures
        r.wf(),
        r@ == v@,
{
    let ghost orig = v@;
    let mut rv = reversed(v);
    let mut st: ArrayStack<T> = ArrayStack::new();
    while rv.len() > 0
        invariant
            st.wf(),
            st@.len() + rv@.len() == orig.len(),
            2 * orig.len() <= usize::MAX,
            st@ == orig.subrange(0, st@.len() as int),
            forall|k: int| 0 <= k < rv@.len() ==> #[trigger] rv@[k] == orig[orig.len() - 1 - k],
        decreases rv@.len(),
    {
        let x = rv.pop().unwrap();
        st.push(x);
        assert(st@ =~= orig.subrange(0, st@.len() as int));
    }
    assert(st@ =~= orig);
    st
}

impl<T> DualArrayDeque<T> {
    /// The internal invariant: both stacks are well formed and twice the
    /// total length fits in `usize`.
    pub closed spec fn wf(&self) -> bool {
        &&& self.front.wf()
        &&& self.back.wf()
        &&& 2 * (self.front@.len() + self.back@.len()) <= usize::MAX
    }

    /// Create an empty deque.
    pub fn new() -> (r: Self)
        ensures
            r.wf(),
            r@ == Seq::<T>::empty(),
    {
        let r = DualArrayDeque { front: ArrayStack::new(), back: ArrayStack::new() };
        assert(r@ =~= Seq::<T>::empty());
        r
    }

    /// Number of elements.
    pub fn len(&self) -> (r: usize)
        requires
            self.wf(),
        ensures
            r == self@.len(),
    {
        self.front.len() + self.back.len()
    }

    /// Whether there are no elements.
    pub fn is_empty(&self) -> (r: bool)
        requires
            self.wf(),
        ensures
            r == (self@.len() == 0),
    {
        self.front.is_empty() && self.back.is_empty()
    }

    /// Get a reference to the element at `index`, or `None` when out of range.
    pub fn get(&self, index: usize) -> (r: Option<&T>)
        requires
            self.wf(),
        ensures
            index < self@.len() ==> r == Some(&self@[index as int]),
            index >= self@.len() ==> r is None,
    {
        let fl = self.front.len();
        if index < fl {
            self.front.get(fl - 1 - index)
        } else {
            self.back.get(index - fl)
        }
    }

    /// Insert `element` at `index` into whichever stack holds that position,
    /// then rebalance. An index past the end is refused and leaves the deque
    /// unchanged.
    pub fn add(&mut self, index: usize, element: T) -> (r: Result<(), IndexOutOfRange>)
        requires
            old(self).wf(),
            2 * (old(self)@.len() + 1) <= usize::MAX,
        ensures
            final(self).wf(),
            index <= old(self)@.len() ==> r is Ok && final(self)@ == old(self)@.insert(
                index as int,
                element,
            ),
            index > old(self)@.len() ==> r == Err::<(), _>(
                IndexOutOfRange { index, len: old(self)@.len() as usize },
            ) && *final(self) == *old(self),
    {
        let fl = self.front.len();
        let len = fl + self.back.len();
        if index > len {
            return Err(IndexOutOfRange { index, len });
        }
        let ghost v = old(self)@;
        let ghost f = old(self).front@;
        let ghost b = old(self).back@;
        if index < fl {
            let _ = self.front.add(fl - index, element);
            assert(flipped(self.front@) + self.back@ =~= v.insert(index as int, element));
        } else {
            let _ = self.back.add(index - fl, element);
            assert(flipped(self.front@) + self.back@ =~= v.insert(index as int, element));
        }
        self.balance();
        Ok(())
    }

    /// Remove and return the element at `index` from whichever stack holds
    /// it, then rebalance; `None` when out of range (the deque is then
    /// unchanged).
    pub fn remove(&mut self, index: usize) -> (r: Option<T>)
        requires
            old(self).wf(),
        ensures
            final(self).wf(),
            index >= old(self)@.len() ==> r is None && *final(self) == *old(self),
            index < old(self)@.len() ==> r == Some(old(self)@[index as int]) && final(self)@
                == old(self)@.remove(index as int),
    {
        let fl = self.front.len();
        let len = fl + self.back.len();
        if index >= len {
            return None;
        }
        let ghost v = old(self)@;
        let x;
        if index < fl {
            x = self.front.remove(fl - 1 - index);
            assert(flipped(self.front@) + self.back@ =~= v.remove(index as int));
        } else {
            x = self.back.remove(index - fl);
            assert(flipped(self.front@) + self.back@ =~= v.remove(index as int));
        }
        self.balance();
        Some(x)
    }

    /// When one stack holds more than three times as many elements as the
    /// other, split the elements evenly between the two.
    fn balance(&mut self)
        requires
            old(self).wf(),
        ensures
            final(self).wf(),
            final(self)@ == old(self)@,
    {
        let fl = self.front.len();
        let bl = self.back.len();
        if (bl > 0 && fl <= (bl - 1) / 3) || (fl > 0 && bl <= (fl - 1) / 3) {
            let ghost v = self@;
            let n = fl + bl;
            let nf = n / 2;
            let mut f: ArrayStack<T> = ArrayStack::new();
            let mut b: ArrayStack<T> = ArrayStack::new();
            std::mem::swap(&mut self.front, &mut f);
            std::mem::swap(&mut self.back, &mut b);
            let mut all = reversed(f.into_vec());
            let mut bv = b.into_vec();
            all.append(&mut bv);
            assert(all@ =~= v);
            let tail = all.split_off(nf);
            self.front = stack_of(reversed(all));
            self.back = stack_of(tail);
            assert(flipped(self.front@) + self.back@ =~= v);
        }
    }
}

impl<T> Default for DualArrayDeque<T> {
    fn default() -> (r: Self)
        ensures
            r.wf(),
            r@ == Seq::<T>::empty(),
    {
        Self::new()
    }
}

} // verus!
