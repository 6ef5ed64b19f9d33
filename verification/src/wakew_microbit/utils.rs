//! The sliding-window ring buffer that feeds audio samples to the feature
//! extractor and feature frames to the template matcher.

use vstd::prelude::*;
use crate::ring::ring_rotate;
use crate::ring::ring_write;
use crate::ring::lemma_mod_wrap;
use crate::ring::lemma_ring_write_len;
use crate::ring::lemma_ring_write_rotated;
use crate::ring::lemma_ring_rotate_shift;

verus! {

/// Error of a ring buffer write.
#[derive(Debug, Clone, Copy, PartialEq, Eq, Structural)]
pub enum WakeWordError {
    /// The items do not fit in the free space of the buffer.
    WouldOverflow,
}

impl WakeWordError {
    /// The human-readable description of the error.
    pub fn message(&self) -> (m: &'static str)
        ensures
            m@ == "Update would overflow ringbuffer"@,
    {
        "Update would overflow ringbuffer"
    }
}

/// A RingBuffer that returns windows size `W` shifting `S` elements ahead each
/// time.
///
/// ## Generic params
/// B is the size of the buffer, W is the size of the window, S is the amount of
/// the shift, and T is the underlying data type.
///
/// The buffer is modelled (its view) as the queue of unread items, oldest
/// first.
pub struct RingBuffer<const B: usize, const W: usize, const S: usize, T> {
    b: [T; B],
    next_write: usize,
    next_read: usize,
    free_space: usize,
}

/// Whether a queue of unread items holds a whole window.
pub open spec fn window_ready<T>(queue: Seq<T>, w: nat) -> bool {
    queue.len() >= w
}

/// The window that the next read hands out: the `w` oldest unread items.
pub open spec fn next_window<T>(queue: Seq<T>, w: nat) -> Seq<T> {
    queue.take(w as int)
}

/// The unread items once a window has been read: the `s` oldest are dropped.
pub open spec fn after_window<T>(queue: Seq<T>, s: nat) -> Seq<T> {
    queue.skip(s as int)
}

/// The unread items after `k` windows have been read in a row.
pub open spec fn after_windows<T>(queue: Seq<T>, s: nat, k: nat) -> Seq<T>
    decreases k,
{
    if k == 0 {
        queue
    } else {
        after_window(after_windows(queue, s, (k - 1) as nat), s)
    }
}

/// Consecutive windows overlap: when two windows are read one after the
/// other, the second begins with the last `w - s` items of the first.
pub proof fn lemma_consecutive_windows_overlap<T>(queue: Seq<T>, w: nat, s: nat)
    requires
        s <= w,
        window_ready(queue, w),
        window_ready(after_window(queue, s), w),
    ensures
        next_window(after_window(queue, s), w).take(w - s) == next_window(queue, w).skip(
            s as int,
        ),
{
    assert(next_window(after_window(queue, s), w).take(w - s) =~= next_window(queue, w).skip(
        s as int,
    ));
}

/// The windows slide over the written items: the `k`-th window read (counting
/// from 0) holds the items `k * s .. k * s + w` of the queue it was read from.
pub proof fn lemma_kth_window<T>(queue: Seq<T>, w: nat, s: nat, k: nat)
    requires
        k * s + w <= queue.len(),
    ensures
        after_windows(queue, s, k) == queue.skip((k * s) as int),
        window_ready(after_windows(queue, s, k), w),
        next_window(after_windows(queue, s, k), w) == queue.subrange((k * s) as int, (k * s + w) as int),
    decreases k,
{
    let start = (k * s) as int;
    if k == 0 {
        assert(start == 0);
        assert(queue.skip(0) =~= queue);
    } else {
        let prev = ((k - 1) * s) as int;
        assert(start == prev + s) by (nonlinear_arith)
            requires
                start == k * s,
                prev == (k - 1) * s,
                k > 0,
        ;
        assert(0 <= prev <= start);
        lemma_kth_window(queue, w, s, (k - 1) as nat);
        assert(after_windows(queue, s, k) == after_window(after_windows(queue, s, (k - 1) as nat), s));
        assert(queue.skip(prev).skip(s as int) =~= queue.skip(start));
    }
    assert(next_window(after_windows(queue, s, k), w) =~= queue.subrange(start, start + w));
}

/// Writing more items never changes a window that is already complete.
pub proof fn lemma_write_keeps_ready_window<T>(queue: Seq<T>, items: Seq<T>, w: nat)
    requires
        window_ready(queue, w),
    ensures
        window_ready(queue + items, w),
        next_window(queue + items, w) == next_window(queue, w),
{
    assert(next_window(queue + items, w) =~= next_window(queue, w));
}

impl<const B: usize, const W: usize, const S: usize, T> View for RingBuffer<B, W, S, T> {
    type V = Seq<T>;

    closed spec fn view(&self) -> Seq<T> {
        ring_rotate(self.b@, self.next_read as int).take(B - self.free_space)
    }
}

impl<const B: usize, const W: usize, const S: usize, T: Copy> RingBuffer<B, W, S, T> {
    /// The buffer's own consistency: the write position lies just past the
    /// unread items, and the parameters allow every operation.
    pub closed spec fn wf(&self) -> bool {
        &&& 0 < B
        &&& 2 * B <= usize::MAX
        &&& S <= W
        &&& self.free_space <= B
        &&& self.next_read < B
        &&& self.next_write == (self.next_read + (B - self.free_space)) % (B as int)
    }

    /// A well-formed buffer never holds more unread items than it has slots.
    pub proof fn lemma_len_bounded(&self)
        requires
            self.wf(),
        ensures
            self@.len() <= B,
    {
    }

    /// An empty buffer whose slots all hold `init`.
    ///
    /// A buffer needs at least one slot, a shift no longer than its window,
    /// and positions that cannot overflow when a window is added to them
    /// (`2 * B` fits in `usize`, which holds for every array of a type that
    /// takes up memory).
    pub fn new(init: T) -> (r: Self)
        requires
            0 < B,
            S <= W,
            2 * B <= usize::MAX,
        ensures
            r.wf(),
            r@ == Seq::<T>::empty(),
    {
        let b = [init; B];
        let next_write: usize = 0;
        let next_read: usize = 0;
        let free_space: usize = B;
        let r = RingBuffer { b, next_write, next_read, free_space };
        proof {
            lemma_mod_wrap(0, B as int);
            assert(r@ =~= Seq::<T>::empty());
        }
        r
    }

    /// This function writes the samples contained in `u` to the buffer.
    ///
    /// It returns an `Err(WakewordError::WouldOverflow)` and writes nothing if
    /// `u` is longer than the free spaces available in the buffer.
    pub fn update(&mut self, u: &[T]) -> (res: Result<(), WakeWordError>)
        requires
            old(self).wf(),
        ensures
            final(self).wf(),
            res is Ok <==> old(self)@.len() + u@.len() <= B,
            res is Ok ==> final(self)@ == old(self)@ + u@,
            res is Err ==> res == Err::<(), WakeWordError>(WakeWordError::WouldOverflow),
            res is Err ==> *final(self) == *old(self),
    {
        if u.len() > self.free_space {
            return Err(WakeWordError::WouldOverflow);
        }
        let ghost slots = self.b@;
        let ghost start = self.next_write as int;
        proof {
            lemma_mod_wrap(self.next_read + (B - self.free_space), B as int);
        }
        let mut i: usize = 0;
        while i < u.len()
            invariant
                0 < B,
                2 * B <= usize::MAX,
                0 <= start < B,
                self.next_write == start,
                self.next_read == old(self).next_read,
                self.free_space == old(self).free_space,
                self.next_read < B,
                self.free_space <= B,
                u@.len() <= self.free_space,
                start == (self.next_read + (B - self.free_space)) % (B as int),
                u@.len() <= B,
                i <= u@.len(),
                slots.len() == B,
                self.b@ == ring_write(slots, start, u@.take(i as int)),
            decreases u@.len() - i,
        {
            proof {
                lemma_mod_wrap(self.next_write + i, B as int);
                assert(u@.take(i + 1).drop_last() =~= u@.take(i as int));
            }
            self.b[(self.next_write + i) % B] = u[i];
            i += 1;
        }
        proof {
            assert(u@.take(u@.len() as int) =~= u@);
            let len = (B - self.free_space) as int;
            let n = u@.len() as int;
            let rd = self.next_read as int;
            let new_slots = self.b@;
            lemma_ring_write_len(slots, start, u@);
            lemma_ring_write_rotated(slots, start, u@);
            lemma_mod_wrap(start + (B - len), B as int);
            lemma_mod_wrap(rd + len, B as int);
            assert((start + (B - len)) % (B as int) == rd);
            lemma_ring_rotate_shift(new_slots, start, B - len);
            lemma_ring_rotate_shift(slots, start, B - len);
            lemma_mod_wrap(start + n, B as int);
            lemma_mod_wrap(rd + len + n, B as int);
        }
        self.next_write = (self.next_write + u.len()) % B;
        self.free_space -= u.len();
        proof {
            assert(self@ =~= old(self)@ + u@);
        }
        Ok(())
    }

    /// This function returns a window of size `W` shifting `S` samples ahead at
    /// every call. If fewer than `W` unread samples are present in the buffer,
    /// returns None.
    pub fn frame(&mut self) -> (res: Option<[T; W]>)
        requires
            old(self).wf(),
        ensures
            final(self).wf(),
            res is Some <==> window_ready(old(self)@, W as nat),
            res matches Some(w) ==> w@ == next_window(old(self)@, W as nat) && final(self)@
                == after_window(old(self)@, S as nat),
            res is None ==> *final(self) == *old(self),
    {
        let to_read = B - self.free_space;
        if to_read >= W {
            self.free_space += S;
            let mut buf = [self.b[self.next_read]; W];
            let mut i: usize = 0;
            while i < W
                invariant
                    0 < B,
                    2 * B <= usize::MAX,
                    W <= B,
                    self.next_read < B,
                    self.b == old(self).b,
                    self.next_read == old(self).next_read,
                    i <= W,
                    forall|k: int|
                        0 <= k < i ==> buf@[k] == ring_rotate(self.b@, self.next_read as int)[k],
                decreases W - i,
            {
                proof {
                    lemma_mod_wrap(self.next_read + i, B as int);
                }
                buf[i] = self.b[(self.next_read + i) % B];
                i += 1;
            }
            proof {
                lemma_mod_wrap(self.next_read + S, B as int);
                lemma_mod_wrap(self.next_read + to_read, B as int);
                lemma_mod_wrap((self.next_read + S) % (B as int) + (to_read - S), B as int);
                lemma_ring_rotate_shift(self.b@, self.next_read as int, S as int);
            }
            self.next_read = (self.next_read + S) % B;
            proof {
                assert(buf@ =~= next_window(old(self)@, W as nat));
                assert(self@ =~= after_window(old(self)@, S as nat));
            }
            Some(buf)
        } else {
            None
        }
    }
}

} // verus!
