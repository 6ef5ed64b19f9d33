//! The ring buffer of the first firmware: it keeps the `B` most recent
//! samples and hands out a copy of all its slots, written samples oldest
//! first, each time `S` new samples have arrived.

use vstd::prelude::*;
use crate::ring::ring_rotate;
use crate::ring::ring_write;
use crate::ring::lemma_mod_wrap;
use crate::ring::lemma_ring_write_len;
use crate::ring::lemma_ring_write_rotated;
use crate::ring::lemma_ring_rotate_shift;

verus! {

/// Error of a ring buffer write.
#[derive(Debug, Clone, Copy, PartialEq, Eq, Structural)]
pub enum WakeWordError {
    /// The items do not fit in the free space of the buffer.
    WouldOverflow,
}

impl WakeWordError {
    /// The human-readable description of the error.
    pub fn message(&self) -> (m: &'static str)
        ensures
            m@ == "Update would overflow ringbuffer"@,
    {
        "Update would overflow ringbuffer"
    }
}

/// The last `n` items of `items` (all of them when there are fewer).
pub open spec fn keep_newest<T>(items: Seq<T>, n: nat) -> Seq<T> {
    if items.len() <= n {
        items
    } else {
        items.skip(items.len() - n)
    }
}

/// What a buffer keeps of the samples written to it: the newest `b`, and of
/// them the items just written come last (when no more are written than the
/// buffer holds).
pub proof fn lemma_keep_newest_ends_with_write<T>(kept: Seq<T>, items: Seq<T>, b: nat)
    requires
        kept.len() <= b,
        items.len() <= b,
    ensures
        keep_newest(kept + items, b).len() <= b,
        keep_newest(kept + items, b).skip(keep_newest(kept + items, b).len() - items.len())
            == items,
{
    let k = keep_newest(kept + items, b);
    assert(k.skip(k.len() - items.len()) =~= items);
}

/// Sliding `items` into slots read from the write position, `kept` of which
/// hold written samples after the blank ones, keeps the newest samples and
/// uses up the blank slots first.
proof fn lemma_slide_split<T>(before: Seq<T>, items: Seq<T>, kept: int)
    requires
        0 <= kept <= before.len(),
        items.len() <= before.len(),
    ensures
        ({
            let len = before.len() as int;
            let n = items.len() as int;
            let after = (before + items).skip(n);
            let kept_after = if kept + n <= len { kept + n } else { len };
            &&& after.skip(len - kept_after) == keep_newest(before.skip(len - kept) + items, len as nat)
            &&& after.take(len - kept_after) == (if n <= len - kept {
                before.take(len - kept).skip(n)
            } else {
                Seq::<T>::empty()
            })
        }),
{
    let len = before.len() as int;
    let n = items.len() as int;
    let after = (before + items).skip(n);
    let kept_after = if kept + n <= len { kept + n } else { len };
    assert(after.skip(len - kept_after) =~= keep_newest(before.skip(len - kept) + items, len as nat));
    assert(after.take(len - kept_after) =~= (if n <= len - kept {
        before.take(len - kept).skip(n)
    } else {
        Seq::<T>::empty()
    }));
}

/// A RingBuffer that returns a copy of the entire buffer: the written
/// samples from least to most recent, then the slots not written yet.
///
/// ## Generic params
/// B is the size of the buffer, S is the amount of new samples that must be
/// written to the buffer before getting a new read, and T is the underlying
/// data type.
///
/// The buffer is modelled by the samples it keeps (the newest written ones,
/// oldest first), the slots never written (still holding the initial value),
/// and how many of the kept samples are unread.
pub struct RingBuffer<const B: usize, const S: usize, T> {
    b: [T; B],
    start: usize,
    last_read: usize,
    free_space: usize,
    stored: usize,
}

impl<const B: usize, const S: usize, T: Copy> RingBuffer<B, S, T> {
    /// The slots read in ring order from the write position: the never
    /// written slots, then the kept samples oldest first.
    closed spec fn from_write_pos(&self) -> Seq<T> {
        ring_rotate(self.b@, self.start as int)
    }

    /// The written samples that the buffer still holds, oldest first.
    pub closed spec fn kept(&self) -> Seq<T> {
        self.from_write_pos().skip(B - self.stored)
    }

    /// The slots never written, in slot order.
    pub closed spec fn blank(&self) -> Seq<T> {
        self.from_write_pos().take(B - self.stored)
    }

    /// How many samples were written and not yet passed by a read.
    pub closed spec fn unread(&self) -> nat {
        (B - self.free_space) as nat
    }

    /// The buffer's own consistency: the positions are slots of the ring,
    /// until the ring has been filled once the samples fill it from slot 0,
    /// and the unread samples are at most `B` and end at the write position.
    pub closed spec fn wf(&self) -> bool {
        &&& 0 < B
        &&& 2 * B <= usize::MAX
        &&& self.start < B
        &&& self.last_read < B
        &&& self.stored <= B
        &&& self.stored < B ==> self.start == self.stored
        &&& self.free_space <= B
        &&& self.start == (self.last_read + (B - self.free_space)) % (B as int)
    }

    /// A well-formed buffer's kept samples and blank slots make up its `B`
    /// slots, and at most `B` samples are unread.
    pub proof fn lemma_bounds(&self)
        requires
            self.wf(),
        ensures
            self.kept().len() + self.blank().len() == B,
            self.unread() <= B,
    {
    }

    /// A buffer whose slots all hold `init`, with nothing written yet.
    ///
    /// A buffer needs at least one slot, and positions that cannot overflow
    /// when the buffer length is added to them (`2 * B` fits in `usize`, which
    /// holds for every array of a type that takes up memory).
    pub fn new(init: T) -> (r: Self)
        requires
            0 < B,
            2 * B <= usize::MAX,
        ensures
            r.wf(),
            r.kept() == Seq::<T>::empty(),
            r.blank() == Seq::new(B as nat, |i: int| init),
            r.unread() == 0,
    {
        let b = [init; B];
        let start: usize = 0;
        let last_read: usize = 0;
        let free_space: usize = B;
        let stored: usize = 0;
        let r = RingBuffer { b, start, last_read, free_space, stored };
        proof {
            lemma_mod_wrap(0, B as int);
            assert(r.kept() =~= Seq::<T>::empty());
            assert(r.blank() =~= Seq::new(B as nat, |i: int| init));
        }
        r
    }

    /// This function writes the samples contained in `u` to the buffer.
    ///
    /// Nothing is written, and `WouldOverflow` returned, when `u` is longer
    /// than the free space: `B` minus the unread samples.
    pub fn update(&mut self, u: &[T]) -> (res: Result<(), WakeWordError>)
        requires
            old(self).wf(),
        ensures
            final(self).wf(),
            res is Ok <==> old(self).unread() + u@.len() <= B,
            res is Ok ==> final(self).kept() == keep_newest(old(self).kept() + u@, B as nat),
            res is Ok ==> final(self).blank() == (if u@.len() <= old(self).blank().len() {
                old(self).blank().skip(u@.len() as int)
            } else {
                Seq::<T>::empty()
            }),
            res is Ok ==> final(self).unread() == old(self).unread() + u@.len(),
            res is Err ==> res == Err::<(), WakeWordError>(WakeWordError::WouldOverflow),
            res is Err ==> *final(self) == *old(self),
    {
        if u.len() > self.free_space {
            return Err(WakeWordError::WouldOverflow);
        }
        let ghost slots = self.b@;
        let ghost start = self.start as int;
        let mut i: usize = 0;
        while i < u.len()
            invariant
                0 < B,
                2 * B <= usize::MAX,
                0 <= start < B,
                self.start == start,
                self.last_read == old(self).last_read,
                self.free_space == old(self).free_space,
                self.stored == old(self).stored,
                u@.len() <= self.free_space <= B,
                i <= u@.len(),
                slots.len() == B,
                self.b@ == ring_write(slots, start, u@.take(i as int)),
            decreases u@.len() - i,
        {
            proof {
                lemma_mod_wrap(self.start + i, B as int);
                assert(u@.take(i + 1).drop_last() =~= u@.take(i as int));
            }
            self.b[(self.start + i) % B] = u[i];
            i += 1;
        }
        let ghost k = self.stored as int;
        proof {
            let n = u@.len() as int;
            let rd = self.last_read as int;
            let len = (B - self.free_space) as int;
            assert(u@.take(n) =~= u@);
            lemma_ring_write_len(slots, start, u@);
            lemma_ring_write_rotated(slots, start, u@);
            lemma_ring_rotate_shift(self.b@, start, n);
            lemma_mod_wrap(start + n, B as int);
            lemma_mod_wrap(rd + len, B as int);
            lemma_mod_wrap(rd + len + n, B as int);
            let before = ring_rotate(slots, start);
            let after = ring_rotate(self.b@, (start + n) % (B as int));
            assert(after =~= (before + u@).skip(n));
            lemma_slide_split(before, u@, k);
        }
        self.start = (self.start + u.len()) % B;
        self.free_space -= u.len();
        self.stored = if u.len() <= B - self.stored {
            self.stored + u.len()
        } else {
            B
        };
        Ok(())
    }

    /// This function returns the data contained in the buffer from least to
    /// most recent. If fewer than `S` unread samples are present in the buffer,
    /// returns None.
    ///
    /// The copy holds the kept samples oldest first, then the slots not
    /// written yet: the ring is read from slot 0 until it has been filled
    /// once, and from the write position after that. A read passes `S` unread
    /// samples, which frees their slots.
    pub fn frame(&mut self) -> (res: Option<[T; B]>)
        requires
            old(self).wf(),
        ensures
            final(self).wf(),
            res is Some <==> old(self).unread() >= S,
            res matches Some(a) ==> {
                &&& a@ == old(self).kept() + old(self).blank()
                &&& final(self).kept() == old(self).kept()
                &&& final(self).blank() == old(self).blank()
                &&& final(self).unread() == old(self).unread() - S
            },
            res is None ==> *final(self) == *old(self),
    {
        let to_read = B - self.free_space;
        if to_read >= S {
            self.free_space += S;
            let origin = if self.stored < B {
                0
            } else {
                self.start
            };
            let mut buf = [self.b[origin]; B];
            let mut i: usize = 0;
            while i < B
                invariant
                    0 < B,
                    2 * B <= usize::MAX,
                    origin < B,
                    self.b == old(self).b,
                    i <= B,
                    forall|k: int| 0 <= k < i ==> buf@[k] == ring_rotate(self.b@, origin as int)[k],
                decreases B - i,
            {
                buf[i] = self.b[(origin + i) % B];
                i += 1;
            }
            proof {
                let rd = self.last_read as int;
                let k = self.stored as int;
                lemma_mod_wrap(rd + S, B as int);
                lemma_mod_wrap(rd + to_read, B as int);
                lemma_mod_wrap((rd + S) % (B as int) + (to_read - S), B as int);
                lemma_mod_wrap(self.start + (B - k), B as int);
                lemma_ring_rotate_shift(self.b@, self.start as int, B - k);
                assert(buf@ =~= old(self).kept() + old(self).blank());
            }
            self.last_read = (self.last_read + S) % B;
            Some(buf)
        } else {
            None
        }
    }
}

} // verus!
