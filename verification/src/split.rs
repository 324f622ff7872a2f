//! Where the whole chunks end.
use vstd::arithmetic::div_mod::{
    lemma_fundamental_div_mod, lemma_mod_add_multiples_vanish, lemma_mod_multiples_basic,
    lemma_mod_pos_bound,
};
use vstd::prelude::*;

verus! {

/// The number of leading positions that whole chunks of `width` cover, out of
/// `len`: `floor(len / width) * width`.
pub open spec fn split_point(len: int, width: int) -> int {
    (len / width) * width
}

/// The split point is the largest multiple of `width` that does not exceed
/// `len`: what is left over is shorter than a chunk.
pub proof fn lemma_split_point(len: int, width: int)
    requires
        0 <= len,
        0 < width,
    ensures
        0 <= split_point(len, width) <= len,
        split_point(len, width) % width == 0,
        len - split_point(len, width) == len % width,
        len - split_point(len, width) < width,
{
    lemma_fundamental_div_mod(len, width);
    lemma_mod_pos_bound(len, width);
    lemma_mod_multiples_basic(len / width, width);
    assert(width * (len / width) == (len / width) * width) by (nonlinear_arith);
}

/// Below a multiple of `width`, a smaller multiple leaves room for a whole
/// chunk, and the chunk ends on a multiple again.
pub proof fn lemma_next_chunk(i: int, end: int, width: int)
    requires
        0 < width,
        0 <= i < end,
        i % width == 0,
        end % width == 0,
    ensures
        i + width <= end,
        (i + width) % width == 0,
{
    lemma_fundamental_div_mod(i, width);
    lemma_fundamental_div_mod(end, width);
    let a = i / width;
    let b = end / width;
    assert(a < b) by (nonlinear_arith)
        requires
            width * a < width * b,
            0 < width,
    ;
    assert(width * (a + 1) <= width * b) by (nonlinear_arith)
        requires
            a + 1 <= b,
            0 < width,
    ;
    assert(width * (a + 1) == width * a + width) by (nonlinear_arith);
    lemma_mod_add_multiples_vanish(i, width);
}

/// The number of leading positions, out of `len`, that whole chunks of `width`
/// cover.
pub fn split_index(len: usize, width: usize) -> (split: usize)
    requires
        width > 0,
    ensures
        split == split_point(len as int, width as int),
        split <= len,
        split % width == 0,
        len - split < width,
{
    proof {
        lemma_split_point(len as int, width as int);
    }
    len / width * width
}

} // verus!
