//! The band round the diagonal to which the dynamic time warping of a live
//! window against a reference template is restricted.

use vstd::prelude::*;

verus! {

/// How many steps a matched pair of frames may lie off the diagonal.
pub const MAX_DELAY: usize = 17;

/// The absolute difference of two `usize` values.
///
/// `usize::abs_diff` computes `|self - other|`; the contract says so, and
/// nothing more.
pub assume_specification[ <usize>::abs_diff ](x: usize, other: usize) -> (r: usize)
    ensures
        r == (if x >= other { x - other } else { other - x }),
;

/// Whether cell `(i, j)` of an `n` by `m` grid lies within `max_delay` steps of
/// the diagonal from `(0, 0)` to `(n - 1, m - 1)`, measured along `j` and
/// scaled so that no division is needed: `|j (n - 1) - i (m - 1)| <=
/// max_delay (n - 1)`.
pub open spec fn band_contains(i: int, j: int, n: int, m: int, max_delay: int) -> bool {
    let off = j * (n - 1) - i * (m - 1);
    (if off >= 0 { off } else { -off }) <= max_delay * (n - 1)
}

/// Check if (i, j) is within max_delay steps of the diagonal from (0,0) to
/// (N-1,M-1). j_diag = i * (M-1) / (N-1); we compare using cross-multiplication
/// to avoid floats.
pub fn in_band(i: usize, j: usize, n: usize, m: usize, max_delay: usize) -> (r: bool)
    requires
        1 <= n,
        1 <= m,
        j * (n - 1) <= usize::MAX,
        i * (m - 1) <= usize::MAX,
        max_delay * (n - 1) <= usize::MAX,
    ensures
        r == band_contains(i as int, j as int, n as int, m as int, max_delay as int),
{
    let lhs = j * (n - 1);
    let rhs = i * (m - 1);
    lhs.abs_diff(rhs) <= max_delay * (n - 1)
}

/// Both ends of the diagonal lie in the band, whatever its width: the first
/// pair of frames and the last pair are always compared.
pub proof fn lemma_band_contains_ends(n: int, m: int, max_delay: int)
    requires
        1 <= n,
        1 <= m,
        0 <= max_delay,
    ensures
        band_contains(0, 0, n, m, max_delay),
        band_contains(n - 1, m - 1, n, m, max_delay),
{
    assert((m - 1) * (n - 1) - (n - 1) * (m - 1) == 0) by (nonlinear_arith);
    assert(0 <= max_delay * (n - 1)) by (nonlinear_arith)
        requires
            1 <= n,
            0 <= max_delay,
    ;
}

/// For two sequences of the same length the band is exactly the cells whose
/// indices differ by at most `max_delay`.
pub proof fn lemma_band_square(i: int, j: int, n: int, max_delay: int)
    requires
        2 <= n,
    ensures
        band_contains(i, j, n, n, max_delay) <==> (if j >= i { j - i } else { i - j })
            <= max_delay,
{
    let k = n - 1;
    assert(j * k - i * k == (j - i) * k) by (nonlinear_arith);
    if j >= i {
        assert((j - i) * k <= max_delay * k <==> j - i <= max_delay) by (nonlinear_arith)
            requires
                k >= 1,
        ;
    } else {
        assert(-((j - i) * k) == (i - j) * k) by (nonlinear_arith);
        assert((i - j) * k <= max_delay * k <==> i - j <= max_delay) by (nonlinear_arith)
            requires
                k >= 1,
        ;
    }
}

/// A wider band holds every cell of a narrower one.
pub proof fn lemma_band_widens(i: int, j: int, n: int, m: int, narrow: int, wide: int)
    requires
        1 <= n,
        narrow <= wide,
        band_contains(i, j, n, m, narrow),
    ensures
        band_contains(i, j, n, m, wide),
{
    assert(narrow * (n - 1) <= wide * (n - 1)) by (nonlinear_arith)
        requires
            1 <= n,
            narrow <= wide,
    ;
}

} // verus!
