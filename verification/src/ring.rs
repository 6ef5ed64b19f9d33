//! Index arithmetic shared by the ring buffers: reading the slots of a ring in
//! order from a given slot, and writing a run of items into consecutive slots.

use vstd::prelude::*;

verus! {

/// The slots of `slots` read in ring order, beginning at slot `from`.
pub open spec fn ring_rotate<T>(slots: Seq<T>, from: int) -> Seq<T> {
    Seq::new(slots.len(), |k: int| slots[(from + k) % (slots.len() as int)])
}

/// `slots` after writing `items`, one after another, into consecutive ring
/// slots beginning at slot `from`; a later item overwrites an earlier one that
/// went to the same slot.
pub open spec fn ring_write<T>(slots: Seq<T>, from: int, items: Seq<T>) -> Seq<T>
    decreases items.len(),
{
    if items.len() == 0 {
        slots
    } else {
        ring_write(slots, from, items.drop_last()).update(
            (from + items.len() - 1) % (slots.len() as int),
            items.last(),
        )
    }
}

/// Reducing a value below twice the modulus takes at most one subtraction.
pub proof fn lemma_mod_wrap(x: int, m: int)
    requires
        0 < m,
        0 <= x < 2 * m,
    ensures
        x % m == (if x < m { x } else { x - m }),
{
    if x < m {
        vstd::arithmetic::div_mod::lemma_small_mod(x as nat, m as nat);
    } else {
        vstd::arithmetic::div_mod::lemma_fundamental_div_mod_converse(x, m, 1, x - m);
    }
}

/// Writing into a ring never changes how many slots it has.
pub proof fn lemma_ring_write_len<T>(slots: Seq<T>, from: int, items: Seq<T>)
    requires
        0 < slots.len(),
    ensures
        ring_write(slots, from, items).len() == slots.len(),
    decreases items.len(),
{
    if items.len() > 0 {
        lemma_ring_write_len(slots, from, items.drop_last());
    }
}

/// Read from the slot where the writing began, a ring holds the written items
/// followed by the slots that no item reached (when no more items are written
/// than the ring has slots).
pub proof fn lemma_ring_write_rotated<T>(slots: Seq<T>, from: int, items: Seq<T>)
    requires
        0 <= from < slots.len(),
        items.len() <= slots.len(),
    ensures
        ring_rotate(ring_write(slots, from, items), from) =~= items + ring_rotate(
            slots,
            from,
        ).skip(items.len() as int),
    decreases items.len(),
{
    let len = slots.len() as int;
    let n = items.len() as int;
    lemma_ring_write_len(slots, from, items);
    if n > 0 {
        let prev = ring_write(slots, from, items.drop_last());
        lemma_ring_write_len(slots, from, items.drop_last());
        lemma_ring_write_rotated(slots, from, items.drop_last());
        let target = (from + n - 1) % len;
        lemma_mod_wrap(from + n - 1, len);
        assert forall|k: int| 0 <= k < len implies ring_rotate(
            ring_write(slots, from, items),
            from,
        )[k] == (items + ring_rotate(slots, from).skip(n))[k] by {
            lemma_mod_wrap(from + k, len);
            assert(ring_rotate(prev, from)[k] == (items.drop_last() + ring_rotate(
                slots,
                from,
            ).skip(n - 1))[k]);
        }
    }
}

/// Reading a ring from `shift` slots further on is reading it from `from` with
/// the first `shift` items moved to the back.
pub proof fn lemma_ring_rotate_shift<T>(slots: Seq<T>, from: int, shift: int)
    requires
        0 <= from < slots.len(),
        0 <= shift <= slots.len(),
    ensures
        ring_rotate(slots, (from + shift) % (slots.len() as int)) =~= ring_rotate(
            slots,
            from,
        ).skip(shift) + ring_rotate(slots, from).take(shift),
{
    let len = slots.len() as int;
    lemma_mod_wrap(from + shift, len);
    let start = (from + shift) % len;
    assert forall|k: int| 0 <= k < len implies ring_rotate(slots, start)[k] == (ring_rotate(
        slots,
        from,
    ).skip(shift) + ring_rotate(slots, from).take(shift))[k] by {
        lemma_mod_wrap(start + k, len);
        if k < len - shift {
            lemma_mod_wrap(from + shift + k, len);
        } else {
            lemma_mod_wrap(from + k + shift - len, len);
        }
    }
}

} // verus!
