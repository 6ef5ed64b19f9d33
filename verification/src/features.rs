//! The integer side of feature extraction: frame sizes, how many frames a
//! clip is cut into, and which neighbouring frames a delta coefficient
//! compares.

use vstd::prelude::*;

verus! {

/// 25ms of audio @ 16kHz
///
/// We calculate MFCCs for 400 samples
pub const FRAME_SIZE: usize = 400;

/// Number of MFCCs for each `FRAME_SIZE` samples
pub const NUM_MFCC: usize = 12;

/// Feature vector size per frame: base MFCCs + delta
pub const FEATURE_SIZE: usize = NUM_MFCC * 2;

/// How many samples to shift for each MFCC calculation
pub const SHIFT_WIDTH: usize = 200;

/// Half-window size for delta computation (uses frames i-N..=i+N)
pub const DELTA_N: usize = 2;

/// How many frames a clip of `len` samples is cut into: one every
/// `SHIFT_WIDTH` samples, `(len - FRAME_SIZE) / SHIFT_WIDTH` rounded up.
pub open spec fn spec_frame_count(len: int) -> int {
    (len - FRAME_SIZE + SHIFT_WIDTH - 1) / (SHIFT_WIDTH as int)
}

/// The number of feature frames of a clip of `len` samples.
pub fn frame_count(len: usize) -> (n: usize)
    requires
        FRAME_SIZE <= len,
    ensures
        n == spec_frame_count(len as int),
{
    (len - FRAME_SIZE + SHIFT_WIDTH - 1) / SHIFT_WIDTH
}

/// Every frame that is counted lies wholly inside the clip, and the frame
/// after the last one counted would reach the clip's end.
pub proof fn lemma_frames_inside_clip(len: int, i: int)
    requires
        FRAME_SIZE <= len,
        0 <= i < spec_frame_count(len),
    ensures
        i * SHIFT_WIDTH + FRAME_SIZE <= len,
        spec_frame_count(len) * SHIFT_WIDTH + FRAME_SIZE >= len,
{
}

/// The frame of `F` items that begins at item `start` of `seq`, padded with
/// `fill` where it runs past the end of `seq`.
pub fn cut_frame<T: Copy, const N: usize, const F: usize>(seq: &[T; N], start: usize, fill: T) -> (frame: [T; F])
    requires
        start <= N,
    ensures
        forall|k: int|
            0 <= k < F ==> frame@[k] == (if start + k < N {
                seq@[start + k]
            } else {
                fill
            }),
{
    let mut frame = [fill; F];
    let len = (N - start).min(F);
    let mut k: usize = 0;
    while k < len
        invariant
            start <= N,
            len == (if N - start <= F { N - start } else { F as int }),
            k <= len,
            forall|j: int| 0 <= j < k ==> frame@[j] == seq@[start + j],
            forall|j: int| k <= j < F ==> frame@[j] == fill,
        decreases len - k,
    {
        frame[k] = seq[start + k];
        k += 1;
    }
    frame
}

/// The frames that the delta coefficient of frame `i` compares at distance
/// `n`: the one `n` before (the first frame when there is none) and the one
/// `n` after (the last frame when there is none).
pub fn delta_neighbours(i: usize, n: usize, len: usize) -> (pair: (usize, usize))
    requires
        1 <= len,
        i + n <= usize::MAX,
    ensures
        pair.0 == (if i >= n { i - n } else { 0 }),
        pair.1 == (if i + n <= len - 1 { i + n } else { len - 1 }),
{
    (i.saturating_sub(n), (i + n).min(len - 1))
}

/// The neighbours of a frame of the clip are frames of the clip, the earlier
/// one no later and the later one no earlier than the frame itself.
pub proof fn lemma_delta_neighbours_in_clip(i: int, n: int, len: int)
    requires
        0 <= i < len,
        0 <= n,
    ensures
        0 <= (if i >= n { i - n } else { 0 }) <= i,
        i <= (if i + n <= len - 1 { i + n } else { len - 1 }) < len,
{
}

} // verus!
