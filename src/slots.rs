//! Slot-level helpers shared by the array-backed containers.
use vstd::prelude::*;
use crate::resize_policy::resized_capacity;

verus! {

/// Physical position of logical index `p` in a circular store of `cap` slots
/// whose logical index 0 sits at `base`: `(base + p) mod cap`, for
/// `base < cap` and `p < cap`.
pub open spec fn slot(base: int, p: int, cap: int) -> int {
    if base + p < cap {
        base + p
    } else {
        base + p - cap
    }
}

/// A circular store of `buf.len()` slots read from `base` holds the elements
/// of `s` with one vacant slot at logical index `h`: the elements before `h`
/// are live in place, those from `h` on are live one slot further, and every
/// slot after the last element is vacant.
pub open spec fn holed<T>(buf: Seq<Option<T>>, base: int, s: Seq<T>, h: int) -> bool {
    &&& 0 <= base < buf.len()
    &&& 0 <= h <= s.len() < buf.len()
    &&& forall|p: int|
        0 <= p < buf.len() ==> #[trigger] buf[slot(base, p, buf.len() as int)] == if p < h {
            Some(s[p])
        } else if p == h {
            None
        } else if p <= s.len() {
            Some(s[p - 1])
        } else {
            None
        }
}

/// Logical index 0 of a circular store after its origin steps one slot back.
pub open spec fn prev_base(base: int, cap: int) -> int {
    if base == 0 {
        cap - 1
    } else {
        base - 1
    }
}

/// Logical index 0 of a circular store after its origin steps one slot forward.
pub open spec fn next_base(base: int, cap: int) -> int {
    if base + 1 < cap {
        base + 1
    } else {
        0
    }
}

/// The `len` live elements of a circular store read from `base`.
pub open spec fn ring_view<T>(buf: Seq<Option<T>>, base: int, len: int) -> Seq<T> {
    Seq::new(len as nat, |i: int| buf[slot(base, i, buf.len() as int)]->Some_0)
}

/// Exactly the slots at logical indices `[0, len)` from `base` are live.
pub open spec fn ring_live<T>(buf: Seq<Option<T>>, base: int, len: int) -> bool {
    &&& 0 <= len <= buf.len()
    &&& buf.len() > 0 ==> 0 <= base < buf.len()
    &&& forall|p: int|
        0 <= p < buf.len() ==> (#[trigger] buf[slot(base, p, buf.len() as int)] is Some <==> p
            < len)
}

/// Distinct logical indices land in distinct slots, all inside the store.
pub proof fn lemma_slot_distinct(base: int, cap: int)
    requires
        0 <= base < cap,
    ensures
        forall|p: int| 0 <= p < cap ==> 0 <= #[trigger] slot(base, p, cap) < cap,
        forall|p: int, q: int|
            0 <= p < cap && 0 <= q < cap && p != q ==> #[trigger] slot(base, p, cap)
                != #[trigger] slot(base, q, cap),
{
}

/// A live range shorter than the store, seen with a vacant slot after it.
pub proof fn lemma_open_at_end<T>(buf: Seq<Option<T>>, base: int, len: int)
    requires
        ring_live(buf, base, len),
        len < buf.len(),
    ensures
        holed(buf, base, ring_view(buf, base, len), len),
{
    let s = ring_view(buf, base, len);
    let cap = buf.len() as int;
    assert forall|p: int| 0 <= p < cap implies #[trigger] buf[slot(base, p, cap)] == if p < len {
        Some(s[p])
    } else if p == len {
        None
    } else if p <= s.len() {
        Some(s[p - 1])
    } else {
        None
    } by {
        if p < len {
            assert(buf[slot(base, p, cap)] is Some);
        }
    }
}

/// A live range shorter than the store, seen from one slot earlier, with the
/// vacant slot in front of it.
pub proof fn lemma_open_at_front<T>(buf: Seq<Option<T>>, base: int, len: int)
    requires
        ring_live(buf, base, len),
        len < buf.len(),
    ensures
        holed(buf, prev_base(base, buf.len() as int), ring_view(buf, base, len), 0),
{
    let s = ring_view(buf, base, len);
    let cap = buf.len() as int;
    let nb = prev_base(base, cap);
    assert forall|p: int| 0 <= p < cap implies #[trigger] buf[slot(nb, p, cap)] == if p < 0 {
        Some(s[p])
    } else if p == 0 {
        None
    } else if p <= s.len() {
        Some(s[p - 1])
    } else {
        None
    } by {
        if p == 0 {
            assert(slot(nb, 0, cap) == slot(base, cap - 1, cap));
            assert(buf[slot(base, cap - 1, cap)] is None);
        } else {
            assert(slot(nb, p, cap) == slot(base, p - 1, cap));
            if p <= len {
                assert(buf[slot(base, p - 1, cap)] is Some);
            } else {
                assert(buf[slot(base, p - 1, cap)] is None);
            }
        }
    }
}

/// Taking the element at logical index `i` leaves a vacant slot there.
pub proof fn lemma_take<T>(buf: Seq<Option<T>>, base: int, len: int, i: int)
    requires
        ring_live(buf, base, len),
        0 <= i < len,
    ensures
        0 <= slot(base, i, buf.len() as int) < buf.len(),
        buf[slot(base, i, buf.len() as int)] == Some(ring_view(buf, base, len)[i]),
        holed(
            buf.update(slot(base, i, buf.len() as int), None),
            base,
            ring_view(buf, base, len).remove(i),
            i,
        ),
{
    let s = ring_view(buf, base, len);
    let w = s.remove(i);
    let cap = buf.len() as int;
    let b2 = buf.update(slot(base, i, cap), None);
    lemma_slot_distinct(base, cap);
    assert(buf[slot(base, i, cap)] is Some);
    assert forall|p: int| 0 <= p < cap implies #[trigger] b2[slot(base, p, cap)] == if p < i {
        Some(w[p])
    } else if p == i {
        None
    } else if p <= w.len() {
        Some(w[p - 1])
    } else {
        None
    } by {
        if p != i {
            assert(slot(base, p, cap) != slot(base, i, cap));
            if p < len {
                assert(buf[slot(base, p, cap)] is Some);
            } else {
                assert(buf[slot(base, p, cap)] is None);
            }
        }
    }
}

/// Moving the element after the vacant slot into it moves the vacancy one
/// logical index up.
pub proof fn lemma_step_up<T>(buf: Seq<Option<T>>, base: int, s: Seq<T>, h: int)
    requires
        holed(buf, base, s, h),
        h < s.len(),
    ensures
        0 <= slot(base, h + 1, buf.len() as int) < buf.len(),
        0 <= slot(base, h, buf.len() as int) < buf.len(),
        slot(base, h + 1, buf.len() as int) != slot(base, h, buf.len() as int),
        holed(
            buf.update(slot(base, h, buf.len() as int), buf[slot(base, h + 1, buf.len() as int)]).update(
                slot(base, h + 1, buf.len() as int),
                None,
            ),
            base,
            s,
            h + 1,
        ),
{
    let cap = buf.len() as int;
    let from = slot(base, h + 1, cap);
    let to = slot(base, h, cap);
    lemma_slot_distinct(base, cap);
    let b2 = buf.update(to, buf[from]).update(from, None);
    assert(buf[from] == Some(s[h]));
    assert forall|p: int| 0 <= p < cap implies #[trigger] b2[slot(base, p, cap)] == if p < h + 1 {
        Some(s[p])
    } else if p == h + 1 {
        None
    } else if p <= s.len() {
        Some(s[p - 1])
    } else {
        None
    } by {
        if p != h && p != h + 1 {
            assert(slot(base, p, cap) != from);
            assert(slot(base, p, cap) != to);
            assert(b2[slot(base, p, cap)] == buf[slot(base, p, cap)]);
        }
    }
}

/// Moving the element before the vacant slot into it moves the vacancy one
/// logical index down.
pub proof fn lemma_step_down<T>(buf: Seq<Option<T>>, base: int, s: Seq<T>, h: int)
    requires
        holed(buf, base, s, h),
        0 < h,
    ensures
        0 <= slot(base, h - 1, buf.len() as int) < buf.len(),
        0 <= slot(base, h, buf.len() as int) < buf.len(),
        slot(base, h - 1, buf.len() as int) != slot(base, h, buf.len() as int),
        holed(
            buf.update(slot(base, h, buf.len() as int), buf[slot(base, h - 1, buf.len() as int)]).update(
                slot(base, h - 1, buf.len() as int),
                None,
            ),
            base,
            s,
            h - 1,
        ),
{
    let cap = buf.len() as int;
    let from = slot(base, h - 1, cap);
    let to = slot(base, h, cap);
    lemma_slot_distinct(base, cap);
    let b2 = buf.update(to, buf[from]).update(from, None);
    assert(buf[from] == Some(s[h - 1]));
    assert forall|p: int| 0 <= p < cap implies #[trigger] b2[slot(base, p, cap)] == if p < h - 1 {
        Some(s[p])
    } else if p == h - 1 {
        None
    } else if p <= s.len() {
        Some(s[p - 1])
    } else {
        None
    } by {
        if p != h && p != h - 1 {
            assert(slot(base, p, cap) != from);
            assert(slot(base, p, cap) != to);
            assert(b2[slot(base, p, cap)] == buf[slot(base, p, cap)]);
        }
    }
}

/// Writing `x` into the vacant slot yields a live range holding `s` with `x`
/// inserted at the vacancy.
pub proof fn lemma_fill<T>(buf: Seq<Option<T>>, base: int, s: Seq<T>, h: int, x: T)
    requires
        holed(buf, base, s, h),
    ensures
        0 <= slot(base, h, buf.len() as int) < buf.len(),
        ring_live(buf.update(slot(base, h, buf.len() as int), Some(x)), base, s.len() + 1 as int),
        ring_view(buf.update(slot(base, h, buf.len() as int), Some(x)), base, s.len() + 1 as int)
            == s.insert(h, x),
{
    let cap = buf.len() as int;
    let b2 = buf.update(slot(base, h, cap), Some(x));
    lemma_slot_distinct(base, cap);
    assert forall|p: int| 0 <= p < cap implies (#[trigger] b2[slot(base, p, cap)] is Some <==> p
        < s.len() + 1) by {
        if p != h {
            assert(slot(base, p, cap) != slot(base, h, cap));
            assert(b2[slot(base, p, cap)] == buf[slot(base, p, cap)]);
        }
    }
    let v = ring_view(b2, base, s.len() + 1 as int);
    assert forall|i: int| 0 <= i < s.len() + 1 implies v[i] == s.insert(h, x)[i] by {
        if i != h {
            assert(slot(base, i, cap) != slot(base, h, cap));
            assert(b2[slot(base, i, cap)] == buf[slot(base, i, cap)]);
        }
    }
    assert(v =~= s.insert(h, x));
}

/// A store whose vacancy sits after the last element is a plain live range.
pub proof fn lemma_close_at_end<T>(buf: Seq<Option<T>>, base: int, s: Seq<T>)
    requires
        holed(buf, base, s, s.len() as int),
    ensures
        ring_live(buf, base, s.len() as int),
        ring_view(buf, base, s.len() as int) == s,
{
    let cap = buf.len() as int;
    assert forall|p: int| 0 <= p < cap implies (#[trigger] buf[slot(base, p, cap)] is Some <==> p
        < s.len()) by {
    }
    assert(ring_view(buf, base, s.len() as int) =~= s);
}

/// A store whose vacancy sits in front of the first element is a plain live
/// range from one slot further on.
pub proof fn lemma_close_at_front<T>(buf: Seq<Option<T>>, base: int, s: Seq<T>)
    requires
        holed(buf, base, s, 0),
    ensures
        ring_live(buf, next_base(base, buf.len() as int), s.len() as int),
        ring_view(buf, next_base(base, buf.len() as int), s.len() as int) == s,
{
    let cap = buf.len() as int;
    let nb = next_base(base, cap);
    assert forall|p: int| 0 <= p < cap implies (#[trigger] buf[slot(nb, p, cap)] is Some <==> p
        < s.len()) by {
        if p + 1 < cap {
            assert(slot(nb, p, cap) == slot(base, p + 1, cap));
        } else {
            assert(slot(nb, p, cap) == slot(base, 0, cap));
        }
    }
    let v = ring_view(buf, nb, s.len() as int);
    assert forall|i: int| 0 <= i < s.len() implies v[i] == s[i] by {
        assert(slot(nb, i, cap) == slot(base, i + 1, cap));
    }
    assert(v =~= s);
}

/// Computes `slot(base, p, cap)` without overflow.
pub fn slot_of(base: usize, p: usize, cap: usize) -> (r: usize)
    requires
        base < cap,
        p < cap,
    ensures
        r == slot(base as int, p as int, cap as int),
{
    if p < cap - base {
        base + p
    } else {
        p - (cap - base)
    }
}

/// Moves the content of slot `from` into slot `to`, leaving `from` vacant.
pub fn move_slot<T>(buf: &mut Vec<Option<T>>, from: usize, to: usize)
    requires
        from < old(buf).len(),
        to < old(buf).len(),
        from != to,
    ensures
        final(buf)@ == old(buf)@.update(to as int, old(buf)@[from as int]).update(from as int, None),
{
    let v = buf[from].take();
    buf.set(to, v);
    assert(buf@ =~= old(buf)@.update(to as int, old(buf)@[from as int]).update(from as int, None));
}

/// A store of `n` vacant slots.
pub fn vacant_slots<T>(n: usize) -> (r: Vec<Option<T>>)
    ensures
        r@.len() == n,
        forall|k: int| 0 <= k < n ==> r@[k] is None,
{
    let mut r: Vec<Option<T>> = Vec::with_capacity(n);
    let mut j: usize = 0;
    while j < n
        invariant
            j <= n,
            r@.len() == j,
            forall|k: int| 0 <= k < j ==> r@[k] is None,
        decreases n - j,
    {
        r.push(None);
        j += 1;
    }
    r
}

/// Moves the `len` live elements read from `offset`, in logical order, into
/// a fresh store of `max(1, 2 * len)` slots starting at slot 0; the old
/// store is left with every slot vacant.
pub fn relocated<T>(buf: &mut Vec<Option<T>>, offset: usize, len: usize) -> (fresh: Vec<Option<T>>)
    requires
    ring_live(old(buf)@, offset as int, len as int),
    2 * len <= usize::MAX,
    ensures
    ring_live(fresh@, 0, len as int),
    ring_view(fresh@, 0, len as int) == ring_view(old(buf)@, offset as int, len as int),
    fresh@.len() == resized_capacity(len as int),
{
    let cap = buf.len();
    let new_cap: usize = if len > 0 {
        2 * len
    } else {
        1
    };
    let mut fresh: Vec<Option<T>> = vacant_slots(new_cap);
    let ghost s = ring_view(old(buf)@, offset as int, len as int);
    let mut i: usize = 0;
    while i < len
        invariant
            i <= len,
            len < new_cap,
            cap == buf@.len(),
            s == ring_view(old(buf)@, offset as int, len as int),
            ring_live(old(buf)@, offset as int, len as int),
            old(buf)@.len() == cap,
            fresh@.len() == new_cap,
            forall|k: int| 0 <= k < i ==> #[trigger] fresh@[k] == Some(s[k]),
            forall|k: int| i <= k < new_cap ==> #[trigger] fresh@[k] is None,
            forall|k: int|
                i <= k < len ==> #[trigger] buf@[slot(offset as int, k, cap as int)]
                    == old(buf)@[slot(offset as int, k, cap as int)],
        decreases len - i,
    {
        proof {
            lemma_slot_distinct(offset as int, cap as int);
            assert(buf@[slot(offset as int, i as int, cap as int)] == Some(s[i as int]));
        }
        let j = slot_of(offset, i, cap);
        let v = buf[j].take();
        fresh.set(i, v);
        proof {
            assert forall|k: int| i + 1 <= k < len implies #[trigger] buf@[slot(
                offset as int,
                k,
                cap as int,
            )] == old(buf)@[slot(offset as int, k, cap as int)] by {
                assert(slot(offset as int, k, cap as int) != slot(
                    offset as int,
                    i as int,
                    cap as int,
                ));
            }
        }
        i += 1;
    }
    proof {
        assert forall|p: int| 0 <= p < new_cap implies (#[trigger] fresh@[slot(
            0,
            p,
            new_cap as int,
        )] is Some <==> p < len) by {
            assert(slot(0, p, new_cap as int) == p);
        }
        assert forall|k: int| 0 <= k < len implies ring_view(fresh@, 0, len as int)[k] == s[k] by {
            assert(slot(0, k, new_cap as int) == k);
        }
        assert(ring_view(fresh@, 0, len as int) =~= s);
    }
    fresh
}

} // verus!
