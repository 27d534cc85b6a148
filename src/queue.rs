//! A FIFO list container.
use vstd::prelude::*;

verus! {

/// A FIFO list container.
pub trait Queue: Sized {
    type Item;

    /// Whether the container's internal invariant holds.
    spec fn queue_wf(&self) -> bool;

    /// The items, front first.
    spec fn queue_items(&self) -> Seq<Self::Item>;

    /// Insert a new item at the end of the queue.
    fn add(&mut self, item: Self::Item)
        requires
            old(self).queue_wf(),
            2 * old(self).queue_items().len() <= usize::MAX,
        ensures
            final(self).queue_wf(),
            final(self).queue_items() == old(self).queue_items().push(item),
    ;

    /// Remove and return the item in front of the queue, if any.
    fn remove(&mut self) -> (r: Option<Self::Item>)
        requires
            old(self).queue_wf(),
        ensures
            final(self).queue_wf(),
            old(self).queue_items().len() == 0 ==> r is None && final(self).queue_items()
                == old(self).queue_items(),
            old(self).queue_items().len() > 0 ==> r == Some(old(self).queue_items()[0])
                && final(self).queue_items() == old(self).queue_items().drop_first(),
    ;
}

/// The items of a queue holding `s` after adding each of `xs` in turn.
pub open spec fn after_adds<A>(s: Seq<A>, xs: Seq<A>) -> Seq<A>
    decreases xs.len(),
{
    if xs.len() == 0 {
        s
    } else {
        after_adds(s.push(xs[0]), xs.drop_first())
    }
}

/// The values returned by `n` removals from a queue holding `s`, in the order
/// they come out (a removal from an empty queue returns nothing).
pub open spec fn removed<A>(s: Seq<A>, n: nat) -> Seq<A>
    decreases n,
{
    if n == 0 || s.len() == 0 {
        Seq::empty()
    } else {
        seq![s[0]] + removed(s.drop_first(), (n - 1) as nat)
    }
}

proof fn lemma_after_adds<A>(s: Seq<A>, xs: Seq<A>)
    ensures
        after_adds(s, xs) == s + xs,
    decreases xs.len(),
{
    if xs.len() > 0 {
        lemma_after_adds(s.push(xs[0]), xs.drop_first());
        assert(s.push(xs[0]) + xs.drop_first() =~= s + xs);
    }
}

proof fn lemma_removed_all<A>(s: Seq<A>)
    ensures
        removed(s, s.len()) == s,
    decreases s.len(),
{
    if s.len() > 0 {
        lemma_removed_all(s.drop_first());
        assert(seq![s[0]] + s.drop_first() =~= s);
    }
}

/// FIFO order: after adding `xs` to an empty queue, removing as many items
/// returns them in exactly the order they were added.
pub proof fn lemma_fifo<A>(xs: Seq<A>)
    ensures
        removed(after_adds(Seq::empty(), xs), xs.len()) == xs,
{
    lemma_after_adds(Seq::empty(), xs);
    assert(Seq::<A>::empty() + xs =~= xs);
    lemma_removed_all(xs);
}

} // verus!
