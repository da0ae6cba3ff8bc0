//! Facts about row-major indexing of rectangular grids.
use vstd::prelude::*;
use vstd::arithmetic::div_mod::{
    lemma_fundamental_div_mod, lemma_fundamental_div_mod_converse, lemma_mod_pos_bound,
};

verus! {

/// A cell (`r`, `c`) of a grid `w` wide and `h` high lies inside a buffer of
/// `h * w` entries, and `r * w + c` recovers `r` and `c` by division.
pub proof fn lemma_cell_index(r: int, c: int, w: int, h: int)
    requires
        0 <= r < h,
        0 <= c < w,
    ensures
        0 <= r * w + c < h * w,
        0 <= r * w,
        (r * w + c) / w == r,
        (r * w + c) % w == c,
{
    assert(0 <= r * w + c < h * w) by (nonlinear_arith)
        requires
            0 <= r < h,
            0 <= c < w,
    ;
    assert(0 <= r * w) by (nonlinear_arith)
        requires
            0 <= r,
            0 <= c < w,
    ;
    lemma_fundamental_div_mod_converse(r * w + c, w, r, c);
}

/// Filling one more row of `w` entries after `r` full rows gives `r + 1` full rows.
pub proof fn lemma_next_row(r: int, w: int)
    ensures
        r * w + w == (r + 1) * w,
{
    assert(r * w + w == (r + 1) * w) by (nonlinear_arith);
}

/// The block of size `d` that holds position `x` starts at `(x / d) * d`,
/// which is at most `x`, and `x` lies `x % d` past that start.
pub proof fn lemma_block_start(x: int, d: int)
    requires
        0 <= x,
        0 < d,
    ensures
        0 <= (x / d) * d <= x,
        0 <= x % d < d,
        (x / d) * d + x % d == x,
        0 <= x / d <= x,
{
    lemma_fundamental_div_mod(x, d);
    lemma_mod_pos_bound(x, d);
    assert((x / d) * d == d * (x / d)) by (nonlinear_arith);
    assert(0 <= x / d) by (nonlinear_arith)
        requires
            0 <= x,
            0 < d,
    ;
    assert(x / d <= x) by (nonlinear_arith)
        requires
            0 <= x,
            0 < d,
            x == d * (x / d) + x % d,
            0 <= x % d,
    ;
}

/// Inside a block of `5 * k` positions, position `a` lies in sub-block `a / k`,
/// one of the five.
pub proof fn lemma_sub_block(a: int, k: int)
    requires
        0 <= a < 5 * k,
        0 < k,
    ensures
        0 <= a / k < 5,
{
    lemma_fundamental_div_mod(a, k);
    lemma_mod_pos_bound(a, k);
    assert(0 <= a / k < 5) by (nonlinear_arith)
        requires
            0 <= a < 5 * k,
            0 < k,
            a == k * (a / k) + a % k,
            0 <= a % k < k,
    ;
}

/// In a buffer of rows of `pw` pixels of three channels each, entry `j` of
/// row `y` is channel `j % 3` of pixel `j / 3` of that row.
pub proof fn lemma_channel_row(y: int, pw: int, j: int)
    requires
        0 <= y,
        0 < pw,
        0 <= j < pw * 3,
    ensures
        (y * (pw * 3) + j) / 3 == y * pw + j / 3,
        (y * (pw * 3) + j) % 3 == j % 3,
        (y * pw + j / 3) / pw == y,
        (y * pw + j / 3) % pw == j / 3,
{
    lemma_fundamental_div_mod(j, 3);
    lemma_mod_pos_bound(j, 3);
    assert(y * (pw * 3) + j == (y * pw + j / 3) * 3 + j % 3) by (nonlinear_arith)
        requires
            j == 3 * (j / 3) + j % 3,
    ;
    assert(0 <= j / 3 < pw) by (nonlinear_arith)
        requires
            0 <= j < pw * 3,
            j == 3 * (j / 3) + j % 3,
            0 <= j % 3 < 3,
    ;
    assert(0 <= y * pw) by (nonlinear_arith)
        requires
            0 <= y,
            0 < pw,
    ;
    lemma_fundamental_div_mod_converse(y * (pw * 3) + j, 3, y * pw + j / 3, j % 3);
    lemma_fundamental_div_mod_converse(y * pw + j / 3, pw, y, j / 3);
}

} // verus!
