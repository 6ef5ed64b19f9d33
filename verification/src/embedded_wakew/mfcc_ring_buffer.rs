//! The ring buffer of the first firmware's feature frames: it never refuses a
//! write, and hands out the whole buffer, from the slot just past the advanced
//! read position, once more than `S` frames arrived since the last read.

use vstd::prelude::*;
use crate::ring::ring_rotate;
use crate::ring::ring_write;
use crate::ring::lemma_mod_wrap;

verus! {

/// How many slots lie from the read position up to the write position, going
/// round the ring (0 when the two coincide).
pub open spec fn ring_distance(read_pos: nat, write_pos: nat, len: nat) -> nat {
    if write_pos >= read_pos {
        (write_pos - read_pos) as nat
    } else {
        (write_pos + len - read_pos) as nat
    }
}

/// A ring buffer of feature frames that overwrites its oldest slots when
/// written past its length.
///
/// ## Generic params
/// B is the size of the buffer, S is the amount of new items that must be
/// written before getting a new read, and T is the underlying data type.
pub struct MfccRingBuffer<const B: usize, const S: usize, T> {
    b: [T; B],
    start: usize,
    last_read: usize,
}

impl<const B: usize, const S: usize, T: Copy> MfccRingBuffer<B, S, T> {
    /// The stored slots, in slot order.
    pub closed spec fn slots(&self) -> Seq<T> {
        self.b@
    }

    /// The slot that the next write goes to.
    pub closed spec fn write_pos(&self) -> nat {
        self.start as nat
    }

    /// The read position: a copy of the buffer begins at the slot it reaches
    /// after moving `S` slots on.
    pub closed spec fn read_pos(&self) -> nat {
        self.last_read as nat
    }

    /// The items written since the last read, as the positions show them.
    pub open spec fn pending(&self) -> nat {
        ring_distance(self.read_pos(), self.write_pos(), B as nat)
    }

    /// The buffer's own consistency: both positions are slots of the ring.
    pub closed spec fn wf(&self) -> bool {
        &&& 0 < B
        &&& 2 * B <= usize::MAX
        &&& self.start < B
        &&& self.last_read < B
    }

    /// The pending items are counted forward round the ring: stepping that
    /// many slots on from the read position reaches the write position, and
    /// fewer than `B` lie between them.
    pub proof fn lemma_pending_counts_forward(&self)
        requires
            self.wf(),
        ensures
            self.pending() < B,
            (self.read_pos() + self.pending()) % (B as nat) == self.write_pos(),
    {
        lemma_mod_wrap((self.read_pos() + self.pending()) as int, B as int);
    }

    /// Writing `k` items adds `k` to the pending count, as long as the count
    /// stays below `B`; a read that moves the read position `S` slots on
    /// takes `S` off it.
    pub proof fn lemma_pending_after_moves(&self, k: nat)
        requires
            self.wf(),
            self.pending() + k < B,
        ensures
            ring_distance(self.read_pos(), (self.write_pos() + k) % (B as nat), B as nat)
                == self.pending() + k,
            self.pending() >= S ==> ring_distance(
                (self.read_pos() + S as nat) % (B as nat),
                self.write_pos(),
                B as nat,
            ) == self.pending() - S,
    {
        lemma_mod_wrap((self.write_pos() + k) as int, B as int);
        if self.pending() >= S {
            lemma_mod_wrap((self.read_pos() + S) as int, B as int);
        }
        lemma_mod_wrap((self.read_pos() + self.pending()) as int, B as int);
    }

    /// A well-formed buffer has `B` slots and both positions within them.
    pub proof fn lemma_positions(&self)
        requires
            self.wf(),
        ensures
            self.slots().len() == B,
            self.write_pos() < B,
            self.read_pos() < B,
            self.pending() < B,
    {
    }

    /// A buffer whose slots all hold `init`, with nothing written yet.
    ///
    /// A buffer needs at least one slot, and positions that cannot overflow
    /// when the buffer length is added to them (`2 * B` fits in `usize`, which
    /// holds for every array of a type that takes up memory).
    pub fn new(init: T) -> (r: Self)
        requires
            0 < B,
            2 * B <= usize::MAX,
        ensures
            r.wf(),
            r.slots() == Seq::new(B as nat, |i: int| init),
            r.write_pos() == 0,
            r.read_pos() == 0,
    {
        let b = [init; B];
        let start: usize = 0;
        let last_read: usize = 0;
        let r = MfccRingBuffer { b, start, last_read };
        proof {
            assert(r.slots() =~= Seq::new(B as nat, |i: int| init));
        }
        r
    }

    /// Writes the items of `u` into consecutive slots from the write position
    /// on, wrapping round and overwriting as needed.
    pub fn update(&mut self, u: &[T])
        requires
            old(self).wf(),
            old(self).write_pos() + u@.len() <= usize::MAX,
        ensures
            final(self).wf(),
            final(self).slots() == ring_write(old(self).slots(), old(self).write_pos() as int, u@),
            final(self).write_pos() == (old(self).write_pos() + u@.len()) % (B as nat),
            final(self).read_pos() == old(self).read_pos(),
    {
        let ghost slots = self.b@;
        let mut i: usize = 0;
        while i < u.len()
            invariant
                0 < B,
                self.start == old(self).start,
                self.last_read == old(self).last_read,
                self.start + u@.len() <= usize::MAX,
                i <= u@.len(),
                slots.len() == B,
                self.b@ == ring_write(slots, self.start as int, u@.take(i as int)),
            decreases u@.len() - i,
        {
            proof {
                assert(u@.take(i + 1).drop_last() =~= u@.take(i as int));
            }
            self.b[(self.start + i) % B] = u[i];
            i += 1;
        }
        proof {
            assert(u@.take(u@.len() as int) =~= u@);
        }
        self.start = (self.start + u.len()) % B;
    }

    /// Once more than `S` items lie between the read and the write position,
    /// moves the read position `S` slots on and returns every slot, read in
    /// ring order from the new read position; otherwise returns None.
    pub fn frame(&mut self) -> (res: Option<[T; B]>)
        requires
            old(self).wf(),
        ensures
            final(self).wf(),
            res is Some <==> old(self).pending() > S,
            res matches Some(a) ==> {
                &&& final(self).read_pos() == (old(self).read_pos() + S as nat) % (B as nat)
                &&& a@ == ring_rotate(old(self).slots(), final(self).read_pos() as int)
                &&& final(self).slots() == old(self).slots()
                &&& final(self).write_pos() == old(self).write_pos()
            },
            res is None ==> *final(self) == *old(self),
    {
        let start = if self.start >= self.last_read {
            self.start
        } else {
            self.start + B
        };
        let to_read = start - self.last_read;
        if to_read > S {
            self.last_read = (self.last_read + S) % B;
            let mut buf = [self.b[self.last_read]; B];
            let mut i: usize = 0;
            while i < B
                invariant
                    0 < B,
                    2 * B <= usize::MAX,
                    self.last_read < B,
                    self.b == old(self).b,
                    i <= B,
                    forall|k: int|
                        0 <= k < i ==> buf@[k] == ring_rotate(self.b@, self.last_read as int)[k],
                decreases B - i,
            {
                buf[i] = self.b[(self.last_read + i) % B];
                i += 1;
            }
            proof {
                assert(buf@ =~= ring_rotate(self.b@, self.last_read as int));
            }
            Some(buf)
        } else {
            None
        }
    }
}

} // verus!
