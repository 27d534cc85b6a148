//! The grow/shrink rule shared by every container of this crate.
//!
//! A container whose `len` slots are all live grows before an insertion; a
//! removal that leaves the store at three times the length or more shrinks it.
//! Both resize to `max(1, 2 * len)` slots, and a resize moves each live
//! element once.
use vstd::prelude::*;

verus! {

/// The number of slots a resize produces for `len` live elements.
pub open spec fn resized_capacity(len: int) -> int {
    if 2 * len > 1 {
        2 * len
    } else {
        1
    }
}

/// Capacity after inserting one element into a store of `cap` slots holding `len`.
pub open spec fn capacity_after_add(len: int, cap: int) -> int {
    if len == cap {
        resized_capacity(len)
    } else {
        cap
    }
}

/// Element moves spent on resizing while inserting one element.
pub open spec fn moves_for_add(len: int, cap: int) -> int {
    if len == cap {
        len
    } else {
        0
    }
}

/// Whether removing one element from a store of `cap` slots holding `len`
/// triggers a shrink.
pub open spec fn shrinks_after_remove(len: int, cap: int) -> bool {
    cap >= 3 * (len - 1)
}

/// Capacity after removing one element from a store of `cap` slots holding `len`.
pub open spec fn capacity_after_remove(len: int, cap: int) -> int {
    if shrinks_after_remove(len, cap) {
        resized_capacity(len - 1)
    } else {
        cap
    }
}

/// Element moves spent on resizing while removing one element.
pub open spec fn moves_for_remove(len: int, cap: int) -> int {
    if shrinks_after_remove(len, cap) {
        len - 1
    } else {
        0
    }
}

/// The bounds that hold between a length and a capacity after every operation:
/// the store is never overfull, and never three times larger than needed.
pub open spec fn capacity_ok(len: int, cap: int) -> bool {
    &&& 0 <= len <= cap
    &&& len == 0 ==> cap <= 1
    &&& len > 0 ==> cap < 3 * len
}

/// Total element moves spent on resizing by a run of end operations starting
/// from `len` elements in `cap` slots: `true` pushes one element, `false` pops
/// one (a pop on an empty container does nothing).
pub open spec fn run_moves(len: int, cap: int, ops: Seq<bool>) -> int
    decreases ops.len(),
{
    if ops.len() == 0 {
        0
    } else if ops[0] {
        moves_for_add(len, cap) + run_moves(len + 1, capacity_after_add(len, cap), ops.drop_first())
    } else if len == 0 {
        run_moves(len, cap, ops.drop_first())
    } else {
        moves_for_remove(len, cap) + run_moves(
            len - 1,
            capacity_after_remove(len, cap),
            ops.drop_first(),
        )
    }
}

/// Distance of a store from its freshly resized shape.
pub open spec fn potential(len: int, cap: int) -> int {
    if 2 * len >= cap {
        2 * len - cap
    } else {
        cap - 2 * len
    }
}

/// One insertion keeps `capacity_ok`.
pub proof fn lemma_add_keeps_capacity_ok(len: int, cap: int)
    requires
        capacity_ok(len, cap),
    ensures
        capacity_ok(len + 1, capacity_after_add(len, cap)),
{
}

/// One removal keeps `capacity_ok`.
pub proof fn lemma_remove_keeps_capacity_ok(len: int, cap: int)
    requires
        capacity_ok(len, cap),
        len > 0,
    ensures
        capacity_ok(len - 1, capacity_after_remove(len, cap)),
{
}

proof fn lemma_step_amortized(len: int, cap: int, push: bool)
    requires
        0 <= len <= cap,
    ensures
        push ==> moves_for_add(len, cap) + potential(len + 1, capacity_after_add(len, cap))
            <= potential(len, cap) + 3,
        !push && len > 0 ==> moves_for_remove(len, cap) + potential(
            len - 1,
            capacity_after_remove(len, cap),
        ) <= potential(len, cap) + 3,
{
}

/// Amortized cost of resizing: a run of end operations spends at most three
/// element moves per operation on resizing, plus the store's initial distance
/// from its resized shape. From an empty container that distance is zero, so
/// the total is at most three times the number of operations.
pub proof fn lemma_amortized_resize_moves(len: int, cap: int, ops: Seq<bool>)
    requires
        0 <= len <= cap,
    ensures
        run_moves(len, cap, ops) <= potential(len, cap) + 3 * ops.len(),
        len == 0 && cap == 0 ==> run_moves(len, cap, ops) <= 3 * ops.len(),
    decreases ops.len(),
{
    if ops.len() > 0 {
        let rest = ops.drop_first();
        lemma_step_amortized(len, cap, ops[0]);
        if ops[0] {
            lemma_amortized_resize_moves(len + 1, capacity_after_add(len, cap), rest);
        } else if len == 0 {
            lemma_amortized_resize_moves(len, cap, rest);
        } else {
            lemma_amortized_resize_moves(len - 1, capacity_after_remove(len, cap), rest);
        }
    }
}

} // verus!
