//! What holds between the kernels.
//!
//! The kernels differ in the order in which they add. On a type whose
//! addition is exact, associative and commutative, with zero neutral, the
//! order does not matter and all of them return the sequential inner product.
//! Whatever the type, a kernel reads only the positions that both inputs have,
//! and returns zero where there are none.
use crate::arith::{exact, is_sum, is_zero, product_of, sum_of, zero_plus_zero, Scalar};
use crate::fused::{fused_exact, neon_returns};
use crate::lane::{
    are_lanes, call_step, lane_rel, lane_value, lanes_value, lemma_lane_rel_reads_prefix,
    lemma_lane_value_reads_prefix, mac_step, Step,
};
use crate::reduce::{row_value, sum_rel, sum_value};
use crate::scalar::{dot_rel, dot_returns, dot_value};
use crate::split::{lemma_split_point, split_point};
use crate::unrolled::{unrolled_rel, unrolled_returns, unrolled_value};
use crate::wide::{joined, overlap, wide_rel, wide_returns, wide_value};
use vstd::prelude::*;

verus! {

/// Addition in `T` is commutative.
pub open spec fn sums_commute<T: Scalar>() -> bool {
    forall|a: T, b: T| #[trigger] sum_of(a, b) == sum_of(b, a)
}

/// Addition in `T` is associative.
pub open spec fn sums_associate<T: Scalar>() -> bool {
    forall|a: T, b: T, c: T| #[trigger] sum_of(sum_of(a, b), c) == sum_of(a, sum_of(b, c))
}

/// `z` is neutral on the left of an addition.
pub open spec fn neutral<T: Scalar>(z: T) -> bool {
    forall|a: T| #[trigger] sum_of(z, a) == a
}

/// `T::default()` has one value.
pub open spec fn one_zero<T: Scalar>() -> bool {
    forall|z1: T, z2: T| is_zero(z1) && is_zero(z2) ==> z1 == z2
}

/// The sequential inner product of `xs` and `ys` over the positions that both
/// have, taken from `z` in their order, where `T` is exact:
/// `(..((z + xs[0] * ys[0]) + xs[1] * ys[1]) + ..) + xs[m - 1] * ys[m - 1]`.
pub open spec fn inner_value<T: Scalar>(z: T, xs: Seq<T>, ys: Seq<T>) -> T {
    lane_value(z, xs, ys, 1, 0, overlap(xs, ys))
}

/// The products of the pairs at the positions `from .. to`.
pub open spec fn products<T: Scalar>(xs: Seq<T>, ys: Seq<T>, from: int, to: int) -> Seq<T> {
    Seq::new((to - from) as nat, |j: int| product_of(xs[from + j], ys[from + j]))
}

proof fn lemma_interchange<T: Scalar>(a: T, b: T, c: T, d: T)
    requires
        sums_commute::<T>(),
        sums_associate::<T>(),
    ensures
        sum_of(sum_of(a, b), sum_of(c, d)) == sum_of(sum_of(a, c), sum_of(b, d)),
{
    let cd = sum_of(c, d);
    assert(sum_of(sum_of(a, b), cd) == sum_of(a, sum_of(b, cd)));
    assert(sum_of(b, cd) == sum_of(sum_of(b, c), d));
    assert(sum_of(b, c) == sum_of(c, b));
    assert(sum_of(sum_of(c, b), d) == sum_of(c, sum_of(b, d)));
    let bd = sum_of(b, d);
    assert(sum_of(sum_of(a, c), bd) == sum_of(a, sum_of(c, bd)));
}

/// A row grows at its end.
proof fn lemma_row_last<T: Scalar>(s: Seq<T>)
    requires
        s.len() >= 2,
    ensures
        row_value(s) == sum_of(row_value(s.drop_last()), s.last()),
{
    assert(s.skip(1).drop_last() =~= s.drop_last().skip(1));
    assert(s.skip(1).last() == s.last());
    assert(s.drop_last()[0] == s[0]);
}

/// A sum from `a` over a row is `a` plus the sum of the row.
proof fn lemma_sum_from_any<T: Scalar>(a: T, s: Seq<T>)
    requires
        sums_associate::<T>(),
        s.len() >= 1,
    ensures
        sum_value(a, s) == sum_of(a, row_value(s)),
    decreases s.len(),
{
    if s.len() == 1 {
        assert(s.drop_last().len() == 0);
        assert(s.skip(1).len() == 0);
        assert(sum_value(a, s.drop_last()) == a);
        assert(s.last() == s[0]);
    } else {
        lemma_sum_from_any(a, s.drop_last());
        lemma_row_last(s);
        let head = row_value(s.drop_last());
        assert(sum_of(sum_of(a, head), s.last()) == sum_of(a, sum_of(head, s.last())));
    }
}

/// The row of the sums of two rows is the sum of the rows.
proof fn lemma_row_pointwise<T: Scalar>(a: Seq<T>, b: Seq<T>, c: Seq<T>)
    requires
        sums_commute::<T>(),
        sums_associate::<T>(),
        a.len() >= 1,
        a.len() == b.len(),
        a.len() == c.len(),
        forall|j: int| 0 <= j < c.len() ==> c[j] == sum_of(a[j], b[j]),
    ensures
        row_value(c) == sum_of(row_value(a), row_value(b)),
    decreases a.len(),
{
    if a.len() == 1 {
        assert(a.skip(1).len() == 0 && b.skip(1).len() == 0 && c.skip(1).len() == 0);
    } else {
        lemma_row_pointwise(a.drop_last(), b.drop_last(), c.drop_last());
        lemma_row_last(a);
        lemma_row_last(b);
        lemma_row_last(c);
        lemma_interchange(row_value(a.drop_last()), row_value(b.drop_last()), a.last(), b.last());
    }
}

/// A row of zeros adds up to zero.
proof fn lemma_row_of_zeros<T: Scalar>(z: T, s: Seq<T>)
    requires
        sum_of(z, z) == z,
        s.len() >= 1,
        forall|j: int| 0 <= j < s.len() ==> s[j] == z,
    ensures
        row_value(s) == z,
    decreases s.len(),
{
    if s.len() == 1 {
        assert(s.skip(1).len() == 0);
    } else {
        lemma_row_of_zeros(z, s.drop_last());
        lemma_row_last(s);
    }
}

/// The sequential accumulator goes on from where it stands by adding the
/// products that follow, one after the other.
proof fn lemma_sequential_is_sum<T: Scalar>(z: T, xs: Seq<T>, ys: Seq<T>, k: int, c: int)
    requires
        0 <= k,
        0 <= c,
    ensures
        lane_value(z, xs, ys, 1, 0, k + c) == sum_value(
            lane_value(z, xs, ys, 1, 0, k),
            products(xs, ys, k, k + c),
        ),
    decreases c,
{
    let p = products(xs, ys, k, k + c);
    if c > 0 {
        lemma_sequential_is_sum(z, xs, ys, k, c - 1);
        assert(p.drop_last() =~= products(xs, ys, k, k + c - 1));
        assert(p.last() == product_of(xs[k + c - 1], ys[k + c - 1]));
        assert(k + c - 1 + 0 == k + c - 1);
    }
}

/// On exact, associative and commutative sums with a neutral zero, a row of
/// accumulators holds between its members what the sequential accumulator
/// holds alone.
proof fn lemma_lanes_are_sequential<T: Scalar>(z: T, xs: Seq<T>, ys: Seq<T>, width: int, k: int)
    requires
        sums_commute::<T>(),
        sums_associate::<T>(),
        neutral(z),
        0 < width,
        0 <= k,
        k % width == 0,
    ensures
        row_value(lanes_value(z, xs, ys, width, k)) == lane_value(z, xs, ys, 1, 0, k),
    decreases k,
{
    let lanes = lanes_value(z, xs, ys, width, k);
    if k == 0 {
        lemma_row_of_zeros(z, lanes);
    } else {
        assert(k >= width && (k - width) % width == 0) by {
            vstd::arithmetic::div_mod::lemma_mod_is_zero(k as nat, width as nat);
            vstd::arithmetic::div_mod::lemma_mod_sub_multiples_vanish(k, width);
        }
        let before = lanes_value(z, xs, ys, width, k - width);
        let fed = products(xs, ys, k - width, k);
        lemma_lanes_are_sequential(z, xs, ys, width, k - width);
        lemma_row_pointwise(before, fed, lanes);
        lemma_sum_from_any(lane_value(z, xs, ys, 1, 0, k - width), fed);
        lemma_sequential_is_sum(z, xs, ys, k - width, width);
    }
}

/// On a type whose sums are exact, associative and commutative, with a
/// neutral zero, the unrolled sum of squares is the sequential one: the order
/// of the additions does not show.
pub proof fn law_unrolled_value_is_sequential<T: Scalar>(z: T, x: Seq<T>, width: int)
    requires
        sums_commute::<T>(),
        sums_associate::<T>(),
        neutral(z),
        0 < width,
        x.len() % (width as nat) == 0,
    ensures
        unrolled_value(z, x, width) == dot_value(z, x),
{
    lemma_lanes_are_sequential(z, x, x, width, x.len() as int);
}

/// On a type whose sums are exact, associative and commutative, with a
/// neutral zero, the lane-wise inner product is the sequential one.
pub proof fn law_wide_value_is_sequential<T: Scalar>(z: T, xs: Seq<T>, ys: Seq<T>, width: int)
    requires
        sums_commute::<T>(),
        sums_associate::<T>(),
        neutral(z),
        0 < width,
    ensures
        wide_value(z, xs, ys, width) == inner_value(z, xs, ys),
{
    let m = overlap(xs, ys);
    let s = split_point(m, width);
    lemma_split_point(m, width);
    let lanes = lanes_value(z, xs, ys, width, s);
    let whole = lane_value(z, xs, ys, 1, 0, s);
    lemma_lanes_are_sequential(z, xs, ys, width, s);
    lemma_sum_from_any(z, lanes);
    assert(sum_value(z, lanes) == whole);
    let xt = xs.subrange(s, m);
    let yt = ys.subrange(s, m);
    let rest = products(xs, ys, s, m);
    assert(products(xt, yt, 0, m - s) =~= rest);
    lemma_sequential_is_sum(z, xt, yt, 0, m - s);
    lemma_sequential_is_sum(z, xs, ys, s, m - s);
    if m > s {
        lemma_sum_from_any(z, rest);
        lemma_sum_from_any(whole, rest);
    }
}

/// The sums of `T` are exact, associative and commutative, and every zero is
/// neutral: the order of additions does not show in a result.
pub open spec fn order_free<T: Scalar>() -> bool {
    &&& exact::<T>()
    &&& sums_commute::<T>()
    &&& sums_associate::<T>()
    &&& forall|z: T| #[trigger] is_zero(z) ==> neutral(z)
}

proof fn lemma_neutral_zero_unique<T: Scalar>(z1: T, z2: T)
    requires
        sums_commute::<T>(),
        neutral(z1),
        neutral(z2),
    ensures
        z1 == z2,
{
    assert(sum_of(z1, z2) == z2);
    assert(sum_of(z2, z1) == z1);
}

/// Where the order of additions does not show, an unrolled kernel returns
/// what `dot` returns: of one input, whose length is a multiple of the
/// width, the two have the same result.
pub proof fn law_unrolled_equals_sequential<T: Scalar>(
    x: Seq<T>,
    width: int,
    unrolled: T,
    sequential: T,
)
    requires
        order_free::<T>(),
        0 < width,
        x.len() % (width as nat) == 0,
        unrolled_returns(x, width, unrolled),
        dot_returns(x, sequential),
    ensures
        unrolled == sequential,
{
    let z1 = choose|z: T|
        #![trigger unrolled_rel(z, x, width, unrolled)]
        is_zero(z) && unrolled_rel(z, x, width, unrolled) && (exact::<T>() ==> unrolled
            == unrolled_value(z, x, width));
    let z2 = choose|z: T|
        #![trigger dot_rel(z, x, sequential)]
        is_zero(z) && dot_rel(z, x, sequential) && (exact::<T>() ==> sequential == dot_value(z, x));
    lemma_neutral_zero_unique(z1, z2);
    law_unrolled_value_is_sequential(z1, x, width);
}

/// Where the order of additions does not show, a lane-wise kernel given one
/// input twice returns what `dot` returns on it.
pub proof fn law_wide_equals_sequential<T: Scalar>(x: Seq<T>, width: int, wide: T, sequential: T)
    requires
        order_free::<T>(),
        0 < width,
        wide_returns(x, x, width, wide),
        dot_returns(x, sequential),
    ensures
        wide == sequential,
{
    let z1 = choose|z: T|
        #![trigger wide_rel(mac_step(), z, x, x, width, wide)]
        is_zero(z) && wide_rel(mac_step(), z, x, x, width, wide) && (exact::<T>() ==> wide
            == wide_value(z, x, x, width));
    let z2 = choose|z: T|
        #![trigger dot_rel(z, x, sequential)]
        is_zero(z) && dot_rel(z, x, sequential) && (exact::<T>() ==> sequential == dot_value(z, x));
    lemma_neutral_zero_unique(z1, z2);
    law_wide_value_is_sequential(z1, x, x, width);
}

/// With an exact fused multiply-add, on an exact type with one zero,
/// `dot_neon` returns what `dot_stdsimd4` returns.
pub proof fn law_fused_equals_wide<T: Scalar, F: Fn(T, T, T) -> T>(
    fma: F,
    xs: Seq<T>,
    ys: Seq<T>,
    fused: T,
    wide: T,
)
    requires
        exact::<T>(),
        fused_exact(fma),
        one_zero::<T>(),
        neon_returns(fma, xs, ys, fused),
        wide_returns(xs, ys, 4, wide),
    ensures
        fused == wide,
{
}

/// On an exact type with one zero, a kernel called again on the same input
/// returns the same result: `dot`.
pub proof fn law_dot_repeats<T: Scalar>(x: Seq<T>, first: T, second: T)
    requires
        exact::<T>(),
        one_zero::<T>(),
        dot_returns(x, first),
        dot_returns(x, second),
    ensures
        first == second,
{
}

/// On an exact type with one zero, a kernel called again on the same input
/// returns the same result: the unrolled kernels.
pub proof fn law_unrolled_repeats<T: Scalar>(x: Seq<T>, width: int, first: T, second: T)
    requires
        exact::<T>(),
        one_zero::<T>(),
        unrolled_returns(x, width, first),
        unrolled_returns(x, width, second),
    ensures
        first == second,
{
}

/// On an exact type with one zero, a kernel called again on the same inputs
/// returns the same result: the lane-wise kernels.
pub proof fn law_wide_repeats<T: Scalar>(xs: Seq<T>, ys: Seq<T>, width: int, first: T, second: T)
    requires
        exact::<T>(),
        one_zero::<T>(),
        wide_returns(xs, ys, width, first),
        wide_returns(xs, ys, width, second),
    ensures
        first == second,
{
}

/// On an exact type with one zero, a kernel called again on the same inputs
/// returns the same result: `dot_neon` with an exact fused multiply-add.
pub proof fn law_fused_repeats<T: Scalar, F: Fn(T, T, T) -> T>(
    fma: F,
    xs: Seq<T>,
    ys: Seq<T>,
    first: T,
    second: T,
)
    requires
        exact::<T>(),
        fused_exact(fma),
        one_zero::<T>(),
        neon_returns(fma, xs, ys, first),
        neon_returns(fma, xs, ys, second),
    ensures
        first == second,
{
}

/// Zeros add up to zero.
proof fn lemma_sum_rel_zeros<T: Scalar>(z: T, s: Seq<T>, h: T)
    requires
        forall|r: T| #[trigger] is_sum(z, z, r) ==> r == z,
        forall|j: int| 0 <= j < s.len() ==> s[j] == z,
        sum_rel(z, s, h),
    ensures
        h == z,
    decreases s.len(),
{
    if s.len() > 0 {
        let p = choose|p: T| sum_rel(z, s.drop_last(), p) && #[trigger] is_sum(p, s.last(), h);
        lemma_sum_rel_zeros(z, s.drop_last(), p);
    }
}

/// With no position that both inputs have, every accumulator stays at zero
/// and the lane-wise result is a sum of zeros.
proof fn lemma_wide_rel_empty<T: Scalar>(
    step: Step<T>,
    z: T,
    xs: Seq<T>,
    ys: Seq<T>,
    width: int,
    r: T,
)
    requires
        0 < width,
        overlap(xs, ys) == 0,
        forall|r: T| #[trigger] is_sum(z, z, r) ==> r == z,
        wide_rel(step, z, xs, ys, width, r),
    ensures
        r == z,
{
    lemma_split_point(0, width);
    let (lanes, h, t) = choose|lanes: Seq<T>, h: T, t: T|
        are_lanes(step, z, xs, ys, width, 0, lanes) && #[trigger] joined(
            z,
            xs,
            ys,
            0,
            0,
            lanes,
            h,
            t,
            r,
        );
    assert forall|j: int| 0 <= j < lanes.len() implies lanes[j] == z by {
        assert(lane_rel(step, z, xs, ys, width, j, 0, lanes[j]));
    }
    lemma_sum_rel_zeros(z, lanes, h);
}

/// Where zero plus zero is zero, `dot_unrolled4` and `dot_unrolled8` return
/// zero on the empty input.
pub proof fn law_empty_unrolled<T: Scalar>(x: Seq<T>, width: int, r: T)
    requires
        zero_plus_zero::<T>(),
        0 < width,
        x.len() == 0,
        unrolled_returns(x, width, r),
    ensures
        is_zero(r),
{
    let z = choose|z: T|
        #![trigger unrolled_rel(z, x, width, r)]
        is_zero(z) && unrolled_rel(z, x, width, r) && (exact::<T>() ==> r == unrolled_value(
            z,
            x,
            width,
        ));
    let lanes = choose|lanes: Seq<T>|
        #![trigger are_lanes(mac_step(), z, x, x, width, x.len() as int, lanes)]
        are_lanes(mac_step(), z, x, x, width, x.len() as int, lanes) && sum_rel(
            lanes[0],
            lanes.skip(1),
            r,
        );
    assert forall|j: int| 0 <= j < lanes.len() implies lanes[j] == z by {
        assert(lane_rel(mac_step(), z, x, x, width, j, 0, lanes[j]));
    }
    assert forall|r: T| #[trigger] is_sum(z, z, r) implies r == z by {}
    lemma_sum_rel_zeros(z, lanes.skip(1), r);
}

/// Where zero plus zero is zero, `dot_stdsimd4` and `dot_stdsimd8` return
/// zero when one of the inputs is empty.
pub proof fn law_empty_wide<T: Scalar>(xs: Seq<T>, ys: Seq<T>, width: int, r: T)
    requires
        zero_plus_zero::<T>(),
        0 < width,
        xs.len() == 0 || ys.len() == 0,
        wide_returns(xs, ys, width, r),
    ensures
        is_zero(r),
{
    let z = choose|z: T|
        #![trigger wide_rel(mac_step(), z, xs, ys, width, r)]
        is_zero(z) && wide_rel(mac_step(), z, xs, ys, width, r) && (exact::<T>() ==> r
            == wide_value(z, xs, ys, width));
    assert forall|r: T| #[trigger] is_sum(z, z, r) implies r == z by {}
    lemma_wide_rel_empty(mac_step(), z, xs, ys, width, r);
}

/// Where zero plus zero is zero, `dot_neon` returns zero when one of the
/// inputs is empty.
pub proof fn law_empty_fused<T: Scalar, F: Fn(T, T, T) -> T>(fma: F, xs: Seq<T>, ys: Seq<T>, r: T)
    requires
        zero_plus_zero::<T>(),
        xs.len() == 0 || ys.len() == 0,
        neon_returns(fma, xs, ys, r),
    ensures
        is_zero(r),
{
    let z = choose|z: T|
        #![trigger wide_rel(call_step(fma), z, xs, ys, 4, r)]
        is_zero(z) && wide_rel(call_step(fma), z, xs, ys, 4, r) && (exact::<T>() && fused_exact(
            fma,
        ) ==> r == wide_value(z, xs, ys, 4));
    assert forall|r: T| #[trigger] is_sum(z, z, r) implies r == z by {}
    lemma_wide_rel_empty(call_step(fma), z, xs, ys, 4, r);
}

/// What a lane-wise kernel can return depends on the positions that both
/// inputs have, and on nothing else.
proof fn lemma_wide_rel_reads_overlap<T: Scalar>(
    step: Step<T>,
    z: T,
    xs: Seq<T>,
    ys: Seq<T>,
    xs2: Seq<T>,
    ys2: Seq<T>,
    width: int,
    r: T,
)
    requires
        0 < width,
        overlap(xs, ys) == overlap(xs2, ys2),
        forall|i: int| 0 <= i < overlap(xs, ys) ==> xs[i] == xs2[i] && ys[i] == ys2[i],
        wide_rel(step, z, xs, ys, width, r),
    ensures
        wide_rel(step, z, xs2, ys2, width, r),
        wide_value(z, xs, ys, width) == wide_value(z, xs2, ys2, width),
{
    let m = overlap(xs, ys);
    let s = split_point(m, width);
    lemma_split_point(m, width);
    let (lanes, h, t) = choose|lanes: Seq<T>, h: T, t: T|
        are_lanes(step, z, xs, ys, width, s, lanes) && #[trigger] joined(
            z,
            xs,
            ys,
            s,
            m,
            lanes,
            h,
            t,
            r,
        );
    assert forall|lane: int| 0 <= lane < width implies lane_rel(
        step,
        z,
        xs2,
        ys2,
        width,
        lane,
        s,
        #[trigger] lanes[lane],
    ) by {
        lemma_lane_rel_reads_prefix(step, z, xs, ys, xs2, ys2, width, lane, s, lanes[lane]);
    }
    assert forall|lane: int| 0 <= lane < width implies #[trigger] lane_value(
        z,
        xs,
        ys,
        width,
        lane,
        s,
    ) == lane_value(z, xs2, ys2, width, lane, s) by {
        lemma_lane_value_reads_prefix(z, xs, ys, xs2, ys2, width, lane, s);
    }
    assert(xs.subrange(s, m) =~= xs2.subrange(s, m));
    assert(ys.subrange(s, m) =~= ys2.subrange(s, m));
    assert(joined(z, xs2, ys2, s, m, lanes, h, t, r));
    assert(lanes_value(z, xs, ys, width, s) =~= lanes_value(z, xs2, ys2, width, s));
}

/// The surplus of the longer input is not read: inputs with the same overlap
/// that agree on it have the same lane-wise results.
pub proof fn law_surplus_not_read<T: Scalar>(
    xs: Seq<T>,
    ys: Seq<T>,
    xs2: Seq<T>,
    ys2: Seq<T>,
    width: int,
    r: T,
)
    requires
        0 < width,
        overlap(xs, ys) == overlap(xs2, ys2),
        forall|i: int| 0 <= i < overlap(xs, ys) ==> xs[i] == xs2[i] && ys[i] == ys2[i],
    ensures
        wide_returns(xs, ys, width, r) == wide_returns(xs2, ys2, width, r),
{
    if wide_returns(xs, ys, width, r) {
        let z = choose|z: T|
            #![trigger wide_rel(mac_step(), z, xs, ys, width, r)]
            is_zero(z) && wide_rel(mac_step(), z, xs, ys, width, r) && (exact::<T>() ==> r
                == wide_value(z, xs, ys, width));
        lemma_wide_rel_reads_overlap(mac_step(), z, xs, ys, xs2, ys2, width, r);
    }
    if wide_returns(xs2, ys2, width, r) {
        let z = choose|z: T|
            #![trigger wide_rel(mac_step(), z, xs2, ys2, width, r)]
            is_zero(z) && wide_rel(mac_step(), z, xs2, ys2, width, r) && (exact::<T>() ==> r
                == wide_value(z, xs2, ys2, width));
        lemma_wide_rel_reads_overlap(mac_step(), z, xs2, ys2, xs, ys, width, r);
    }
}

/// Truncation: where `xs` is longer than `ys`, a lane-wise kernel returns on
/// `xs` and `ys` what it returns on the first `ys.len()` elements of `xs`
/// and `ys`.
pub proof fn law_truncation<T: Scalar>(xs: Seq<T>, ys: Seq<T>, width: int, r: T)
    requires
        0 < width,
        xs.len() > ys.len(),
    ensures
        wide_returns(xs, ys, width, r) == wide_returns(xs.take(ys.len() as int), ys, width, r),
{
    law_surplus_not_read(xs, ys, xs.take(ys.len() as int), ys, width, r);
}

/// Truncation for `dot_neon`: where `xs` is longer than `ys`, it returns on
/// `xs` and `ys` what it returns on the first `ys.len()` elements of `xs` and
/// `ys`.
pub proof fn law_truncation_fused<T: Scalar, F: Fn(T, T, T) -> T>(
    fma: F,
    xs: Seq<T>,
    ys: Seq<T>,
    r: T,
)
    requires
        xs.len() > ys.len(),
    ensures
        neon_returns(fma, xs, ys, r) == neon_returns(fma, xs.take(ys.len() as int), ys, r),
{
    let cut = xs.take(ys.len() as int);
    if neon_returns(fma, xs, ys, r) {
        let z = choose|z: T|
            #![trigger wide_rel(call_step(fma), z, xs, ys, 4, r)]
            is_zero(z) && wide_rel(call_step(fma), z, xs, ys, 4, r) && (exact::<T>()
                && fused_exact(fma) ==> r == wide_value(z, xs, ys, 4));
        lemma_wide_rel_reads_overlap(call_step(fma), z, xs, ys, cut, ys, 4, r);
    }
    if neon_returns(fma, cut, ys, r) {
        let z = choose|z: T|
            #![trigger wide_rel(call_step(fma), z, cut, ys, 4, r)]
            is_zero(z) && wide_rel(call_step(fma), z, cut, ys, 4, r) && (exact::<T>()
                && fused_exact(fma) ==> r == wide_value(z, cut, ys, 4));
        lemma_wide_rel_reads_overlap(call_step(fma), z, cut, ys, xs, ys, 4, r);
    }
}

} // verus!
