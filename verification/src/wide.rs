//! The lane-wise kernels over two inputs: a row of accumulators takes the
//! whole chunks, one accumulator takes what is left, and the two are joined.
use crate::arith::{
    can_add, exact, is_sum, is_zero, plus, sum_of, total, zero, zero_plus_zero, Scalar,
};
use crate::lane::{
    accumulate_mac, are_lanes, lanes_fit, lanes_value, mac_step, run_fits, run_rel, run_value,
    sequential, Step,
};
use crate::laws::law_empty_wide;
use crate::reduce::{sum_fits, sum_from, sum_rel, sum_value};
use crate::split::{split_index, split_point};
use vstd::prelude::*;

verus! {

/// The number of positions that both inputs have: the length of the shorter.
pub open spec fn overlap<T>(xs: Seq<T>, ys: Seq<T>) -> int {
    if xs.len() <= ys.len() {
        xs.len() as int
    } else {
        ys.len() as int
    }
}

/// A filled row of accumulators `lanes` is joined with the remainder to `r`:
/// the row adds up from `z` to `h`, one more accumulator takes in the pairs at
/// `s .. m` from `z` and gets to `t`, and `t + h` can evaluate to `r`.
pub open spec fn joined<T: Scalar>(
    z: T,
    xs: Seq<T>,
    ys: Seq<T>,
    s: int,
    m: int,
    lanes: Seq<T>,
    h: T,
    t: T,
    r: T,
) -> bool {
    &&& sum_rel(z, lanes, h)
    &&& run_rel(z, xs, ys, s, m, t)
    &&& is_sum(t, h, r)
}

/// `r` is a value that the lane-wise inner product of `xs` and `ys` can
/// evaluate to. With `m` the overlap of the inputs and `s` its split point:
///
/// * accumulator `lane` of `width` takes in, from `z` and by `step`, the pairs
///   at the positions below `s` that are `lane` modulo `width`;
/// * the accumulators are added up from `z`, in the order `0 .. width`;
/// * one more accumulator takes in, from `z`, the pairs at `s .. m`,
///   multiplying and then adding;
/// * the result is that last accumulator plus the sum of the others.
///
/// Positions from `m` on are not read.
pub open spec fn wide_rel<T: Scalar>(
    step: Step<T>,
    z: T,
    xs: Seq<T>,
    ys: Seq<T>,
    width: int,
    r: T,
) -> bool {
    let m = overlap(xs, ys);
    let s = split_point(m, width);
    exists|lanes: Seq<T>, h: T, t: T|
        are_lanes(step, z, xs, ys, width, s, lanes) && #[trigger] joined(
            z,
            xs,
            ys,
            s,
            m,
            lanes,
            h,
            t,
            r,
        )
}

/// The lane-wise inner product of `xs` and `ys` where `T` is exact.
pub open spec fn wide_value<T: Scalar>(z: T, xs: Seq<T>, ys: Seq<T>, width: int) -> T {
    let m = overlap(xs, ys);
    let s = split_point(m, width);
    sum_of(run_value(z, xs, ys, s, m), sum_value(z, lanes_value(z, xs, ys, width, s)))
}

/// Where `T` is exact: once the row of accumulators is filled, nothing that
/// follows leaves the limits of `T`: not the remainder, not the sum of the
/// row, not the last addition.
pub open spec fn wide_rest_fits<T: Scalar>(z: T, xs: Seq<T>, ys: Seq<T>, width: int) -> bool {
    let m = overlap(xs, ys);
    let s = split_point(m, width);
    let lanes = lanes_value(z, xs, ys, width, s);
    &&& run_fits(z, xs, ys, s, m)
    &&& sum_fits(z, lanes)
    &&& can_add(run_value(z, xs, ys, s, m), sum_value(z, lanes))
}

/// Where `T` is exact: no step of the lane-wise inner product leaves the
/// limits of `T`.
pub open spec fn wide_fits<T: Scalar>(z: T, xs: Seq<T>, ys: Seq<T>, width: int) -> bool {
    lanes_fit(z, xs, ys, width, split_point(overlap(xs, ys), width)) && wide_rest_fits(
        z,
        xs,
        ys,
        width,
    )
}

/// A lane-wise kernel of this width may be called on `xs` and `ys`: the
/// operators of `T` are total, or `T` is exact and the computation stays
/// within its limits.
pub open spec fn wide_permitted<T: Scalar>(xs: Seq<T>, ys: Seq<T>, width: int) -> bool {
    total::<T>() || (exact::<T>() && forall|z: T| is_zero(z) ==> wide_fits(z, xs, ys, width))
}

/// `r` is a result of the lane-wise kernel of this width on `xs` and `ys`.
pub open spec fn wide_returns<T: Scalar>(xs: Seq<T>, ys: Seq<T>, width: int, r: T) -> bool {
    exists|z: T|
        #![trigger wide_rel(mac_step(), z, xs, ys, width, r)]
        is_zero(z) && wide_rel(mac_step(), z, xs, ys, width, r) && (exact::<T>() ==> r
            == wide_value(z, xs, ys, width))
}

/// The length of the shorter of two slices.
pub(crate) fn shorter<T>(xs: &[T], ys: &[T]) -> (m: usize)
    ensures
        m == overlap(xs@, ys@),
{
    if xs.len() <= ys.len() {
        xs.len()
    } else {
        ys.len()
    }
}

/// Joins a filled row of accumulators with the remainder: runs one
/// accumulator over the positions `split .. m`, adds up the row from `z`, and
/// adds the two.
pub(crate) fn finish<T: Scalar, const W: usize>(
    z: T,
    xs: &[T],
    ys: &[T],
    split: usize,
    m: usize,
    acc: &[T; W],
) -> (r: T)
    requires
        W > 0,
        m == overlap(xs@, ys@),
        split == split_point(m as int, W as int),
        split <= m,
        total::<T>() || (exact::<T>() && acc@ == lanes_value(z, xs@, ys@, W as int, split as int)
            && wide_rest_fits(z, xs@, ys@, W as int)),
    ensures
        exists|h: T, t: T| #[trigger] joined(z, xs@, ys@, split as int, m as int, acc@, h, t, r),
        exact::<T>() ==> r == sum_of(
            run_value(z, xs@, ys@, split as int, m as int),
            sum_value(z, acc@),
        ),
{
    assert(acc@.skip(0) =~= acc@);
    let t = sequential(z, xs, ys, split, m);
    let h = sum_from(z, acc, 0);
    let r = plus(t, h);
    assert(joined(z, xs@, ys@, split as int, m as int, acc@, h, t, r));
    r
}

/// The lane-wise kernel with `W` accumulators.
fn wide_kernel<T: Scalar, const W: usize>(xs: &[T], ys: &[T]) -> (r: T)
    requires
        W > 0,
        wide_permitted(xs@, ys@, W as int),
    ensures
        wide_returns(xs@, ys@, W as int, r),
        (xs@.len() == 0 || ys@.len() == 0) && zero_plus_zero::<T>() ==> is_zero(r),
{
    let z = zero::<T>();
    let m = shorter(xs, ys);
    let split = split_index(m, W);
    let acc = accumulate_mac::<T, W>(z, xs, ys, split);
    let r = finish(z, xs, ys, split, m, &acc);
    proof {
        assert(wide_rel(mac_step(), z, xs@, ys@, W as int, r));
        if (xs@.len() == 0 || ys@.len() == 0) && zero_plus_zero::<T>() {
            law_empty_wide(xs@, ys@, W as int, r);
        }
    }
    r
}

/// The inner product of `xs` and `ys` over the positions that both have,
/// with four accumulators side by side for the whole chunks of four and one
/// for the remainder. Where one input is longer, its surplus is not read; where
/// one is empty, every accumulator stays at zero.
pub fn dot_stdsimd4<T: Scalar>(xs: &[T], ys: &[T]) -> (r: T)
    requires
        wide_permitted(xs@, ys@, 4),
    ensures
        wide_returns(xs@, ys@, 4, r),
        (xs@.len() == 0 || ys@.len() == 0) && zero_plus_zero::<T>() ==> is_zero(r),
{
    wide_kernel::<T, 4>(xs, ys)
}

/// The inner product of `xs` and `ys` over the positions that both have,
/// with eight accumulators side by side for the whole chunks of eight and one
/// for the remainder. Where one input is longer, its surplus is not read; where
/// one is empty, every accumulator stays at zero.
pub fn dot_stdsimd8<T: Scalar>(xs: &[T], ys: &[T]) -> (r: T)
    requires
        wide_permitted(xs@, ys@, 8),
    ensures
        wide_returns(xs@, ys@, 8, r),
        (xs@.len() == 0 || ys@.len() == 0) && zero_plus_zero::<T>() ==> is_zero(r),
{
    wide_kernel::<T, 8>(xs, ys)
}

} // verus!
