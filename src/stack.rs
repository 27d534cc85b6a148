//! A LIFO list container.
use vstd::prelude::*;

verus! {

/// A LIFO list container.
pub trait Stack: Sized {
    type Item;

    /// Whether the container's internal invariant holds.
    spec fn stack_wf(&self) -> bool;

    /// The items, bottom first.
    spec fn stack_items(&self) -> Seq<Self::Item>;

    /// Insert a new item on top of the stack.
    fn push(&mut self, item: Self::Item)
        requires
            old(self).stack_wf(),
            2 * old(self).stack_items().len() <= usize::MAX,
        ensures
            final(self).stack_wf(),
            final(self).stack_items() == old(self).stack_items().push(item),
    ;

    /// Remove and return the item on top of the stack, if any.
    fn pop(&mut self) -> (r: Option<Self::Item>)
        requires
            old(self).stack_wf(),
        ensures
            final(self).stack_wf(),
            old(self).stack_items().len() == 0 ==> r is None && final(self).stack_items()
                == old(self).stack_items(),
            old(self).stack_items().len() > 0 ==> r == Some(old(self).stack_items().last())
                && final(self).stack_items() == old(self).stack_items().drop_last(),
    ;
}

/// The items of a stack holding `s` after pushing each of `xs` in turn.
pub open spec fn after_pushes<A>(s: Seq<A>, xs: Seq<A>) -> Seq<A>
    decreases xs.len(),
{
    if xs.len() == 0 {
        s
    } else {
        after_pushes(s.push(xs[0]), xs.drop_first())
    }
}

/// The values returned by `n` pops from a stack holding `s`, in the order
/// they come out (a pop on an empty stack returns nothing).
pub open spec fn popped<A>(s: Seq<A>, n: nat) -> Seq<A>
    decreases n,
{
    if n == 0 || s.len() == 0 {
        Seq::empty()
    } else {
        seq![s.last()] + popped(s.drop_last(), (n - 1) as nat)
    }
}

/// Pushing `xs` appends them in order.
pub proof fn lemma_after_pushes<A>(s: Seq<A>, xs: Seq<A>)
    ensures
        after_pushes(s, xs) == s + xs,
    decreases xs.len(),
{
    if xs.len() > 0 {
        lemma_after_pushes(s.push(xs[0]), xs.drop_first());
        assert(s.push(xs[0]) + xs.drop_first() =~= s + xs);
    }
}

proof fn lemma_pop_suffix<A>(s: Seq<A>, xs: Seq<A>)
    ensures
        popped(s + xs, xs.len()) == xs.reverse(),
    decreases xs.len(),
{
    if xs.len() > 0 {
        let ys = xs.drop_last();
        assert((s + xs).drop_last() =~= s + ys);
        assert((s + xs).last() == xs.last());
        lemma_pop_suffix(s, ys);
        assert(seq![xs.last()] + ys.reverse() =~= xs.reverse());
    }
}

/// LIFO order: after pushing `xs` onto any stack, popping as many items
/// returns them in exactly the reverse order of the pushes.
pub proof fn lemma_lifo<A>(s: Seq<A>, xs: Seq<A>)
    ensures
        popped(after_pushes(s, xs), xs.len()) == xs.reverse(),
{
    lemma_after_pushes(s, xs);
    lemma_pop_suffix(s, xs);
}

} // verus!
