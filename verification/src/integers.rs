//! The 64-bit signed integers as scalars.
//!
//! Their sums and products are exact, and what the laws ask of an addition
//! holds of theirs. Their operators are not total: a kernel may be called
//! where nothing it computes leaves the range of the type, which is the case
//! where the elements are small enough for the length of the input. There
//! every kernel returns the inner product as the integers have it.
use crate::arith::{
    can_add, can_mul, exact, is_sum, is_zero, mac_fits, mac_of, product_of, sum_of,
    zero_plus_zero,
};
use crate::lane::{lane_fits, lane_value, lanes_fit, lanes_value};
use crate::laws::{
    inner_value, law_unrolled_value_is_sequential, law_wide_value_is_sequential, neutral,
    one_zero, order_free,
};
use crate::reduce::{sum_fits, sum_value};
use crate::scalar::{dot_permitted, dot_value};
use crate::split::{lemma_next_chunk, lemma_split_point, split_point};
use crate::unrolled::{unrolled_permitted, unrolled_value};
use crate::wide::{overlap, wide_permitted, wide_value};
use vstd::arithmetic::div_mod::{lemma_fundamental_div_mod, lemma_mod_multiples_basic};
use vstd::prelude::*;

verus! {

proof fn lemma_i64_wrapping_associates(a: i64, b: i64, c: i64)
    ensures
        (((a + b) as i64) + c) as i64 == (a + ((b + c) as i64)) as i64,
{
    assert((((a + b) as i64) + c) as i64 == (a + ((b + c) as i64)) as i64) by (bit_vector);
}

/// The sums of `i64` are exact, associative and commutative, zero is neutral,
/// and there is one zero.
pub proof fn lemma_i64_order_free()
    ensures
        order_free::<i64>(),
        one_zero::<i64>(),
        zero_plus_zero::<i64>(),
{
    assert(exact::<i64>());
    assert forall|a: i64, b: i64| #[trigger] sum_of(a, b) == sum_of(b, a) by {
        assert(a + b == b + a);
    }
    assert forall|a: i64, b: i64, c: i64| #[trigger]
        sum_of(sum_of(a, b), c) == sum_of(a, sum_of(b, c)) by {
        lemma_i64_wrapping_associates(a, b, c);
    }
    assert forall|z: i64| #[trigger] is_zero(z) implies neutral(z) by {
        assert(z == 0);
        assert forall|a: i64| #[trigger] sum_of(z, a) == a by {
            assert(0 + a == a);
        }
    }
    assert forall|z: i64, s: i64| is_zero(z) && #[trigger] is_sum(z, z, s) implies s == z by {}
}

/// The first `n` elements of `xs` lie within `-bound ..= bound`.
pub open spec fn all_small(xs: Seq<i64>, n: int, bound: int) -> bool {
    forall|i: int| 0 <= i < n ==> -bound <= #[trigger] xs[i] <= bound
}

/// The inner product of the first `n` elements of `xs` and `ys`, in the
/// integers: the sum of `xs[i] * ys[i]` over `0 <= i < n`.
pub open spec fn inner_sum(xs: Seq<i64>, ys: Seq<i64>, n: int) -> int
    decreases n,
{
    if n <= 0 {
        0
    } else {
        inner_sum(xs, ys, n - 1) + xs[n - 1] * ys[n - 1]
    }
}

/// The inputs are small enough for their length: no element of the positions
/// that both have exceeds `bound` in size, and as many products of that size
/// as there are positions still fit an `i64`.
pub open spec fn small_enough(xs: Seq<i64>, ys: Seq<i64>, bound: int) -> bool {
    &&& 0 <= bound
    &&& all_small(xs, overlap(xs, ys), bound)
    &&& all_small(ys, overlap(xs, ys), bound)
    &&& overlap(xs, ys) * (bound * bound) <= i64::MAX
}

proof fn lemma_small_product(a: int, b: int, bound: int)
    requires
        -bound <= a <= bound,
        -bound <= b <= bound,
    ensures
        -(bound * bound) <= a * b <= bound * bound,
{
    assert((bound - a) * (bound - b) >= 0) by (nonlinear_arith)
        requires
            bound - a >= 0,
            bound - b >= 0,
    ;
    assert((bound + a) * (bound + b) >= 0) by (nonlinear_arith)
        requires
            bound + a >= 0,
            bound + b >= 0,
    ;
    assert((bound - a) * (bound + b) >= 0) by (nonlinear_arith)
        requires
            bound - a >= 0,
            bound + b >= 0,
    ;
    assert((bound + a) * (bound - b) >= 0) by (nonlinear_arith)
        requires
            bound + a >= 0,
            bound - b >= 0,
    ;
    assert((bound - a) * (bound - b) == bound * bound - bound * b - a * bound + a * b)
        by (nonlinear_arith);
    assert((bound + a) * (bound + b) == bound * bound + bound * b + a * bound + a * b)
        by (nonlinear_arith);
    assert((bound - a) * (bound + b) == bound * bound + bound * b - a * bound - a * b)
        by (nonlinear_arith);
    assert((bound + a) * (bound - b) == bound * bound - bound * b + a * bound - a * b)
        by (nonlinear_arith);
}

/// A step from a small accumulator on a small product is the step of the
/// integers.
proof fn lemma_mac_in_range(acc: i64, a: i64, b: i64, room: int, most: int)
    requires
        -room <= acc <= room,
        -most <= a * b <= most,
        0 <= room,
        0 <= most,
        room + most <= i64::MAX,
    ensures
        mac_fits(acc, a, b),
        mac_of(acc, a, b) == acc + a * b,
{
    assert(can_mul(a, b));
    assert(product_of(a, b) == a * b);
    assert(can_add(acc, (a * b) as i64));
}

/// An accumulator whose steps fit up to the last chunk, and whose last step
/// fits, has steps that fit.
proof fn lemma_lane_fits_step(xs: Seq<i64>, ys: Seq<i64>, width: int, lane: int, n: int)
    requires
        0 < width,
        width <= n,
        n % width == 0,
        lane_fits(0i64, xs, ys, width, lane, n - width),
        mac_fits(
            lane_value(0i64, xs, ys, width, lane, n - width),
            xs[n - width + lane],
            ys[n - width + lane],
        ),
    ensures
        lane_fits(0i64, xs, ys, width, lane, n),
{
    assert forall|k: int| 0 <= k && k + width <= n && k % width == 0 implies mac_fits(
        #[trigger] lane_value(0i64, xs, ys, width, lane, k),
        xs[k + lane],
        ys[k + lane],
    ) by {
        if k + width > n - width {
            if k < n - width {
                vstd::arithmetic::div_mod::lemma_mod_sub_multiples_vanish(n, width);
                assert((n - width) % width == 0);
                lemma_next_chunk(k, n - width, width);
            }
            assert(k == n - width);
        }
    }
}

/// After `count` chunks an accumulator over small elements holds at most
/// `count` products of the largest size, and its steps fit.
proof fn lemma_lane_bounded(
    xs: Seq<i64>,
    ys: Seq<i64>,
    width: int,
    lane: int,
    count: int,
    n: int,
    bound: int,
)
    requires
        0 < width,
        0 <= lane < width,
        0 <= count,
        n == count * width,
        n <= xs.len(),
        n <= ys.len(),
        0 <= bound,
        all_small(xs, n, bound),
        all_small(ys, n, bound),
        count * (bound * bound) <= i64::MAX,
    ensures
        -(count * (bound * bound)) <= lane_value(0i64, xs, ys, width, lane, n) <= count * (bound
            * bound),
        lane_fits(0i64, xs, ys, width, lane, n),
    decreases count,
{
    let most = bound * bound;
    assert(most >= 0) by (nonlinear_arith)
        requires
            most == bound * bound,
    ;
    if count == 0 {
        assert(n == 0 && count * most == 0) by (nonlinear_arith)
            requires
                n == count * width,
                count == 0,
        ;
    } else {
        let m = n - width;
        assert(m == (count - 1) * width && m >= 0) by (nonlinear_arith)
            requires
                n == count * width,
                m == n - width,
                count >= 1,
                width > 0,
        ;
        assert((count - 1) * most + most == count * most) by (nonlinear_arith);
        assert((count - 1) * most >= 0) by (nonlinear_arith)
            requires
                count >= 1,
                most >= 0,
        ;
        lemma_lane_bounded(xs, ys, width, lane, count - 1, m, bound);
        let before = lane_value(0i64, xs, ys, width, lane, m);
        let a = xs[m + lane];
        let b = ys[m + lane];
        lemma_small_product(a as int, b as int, bound);
        lemma_mac_in_range(before, a, b, (count - 1) * most, most);
        lemma_mod_multiples_basic(count, width);
        lemma_lane_fits_step(xs, ys, width, lane, n);
    }
}

/// A sum over small values from a small start stays small, and its additions
/// fit.
proof fn lemma_sum_bounded(init: i64, s: Seq<i64>, start: int, each: int)
    requires
        0 <= start,
        0 <= each,
        -start <= init <= start,
        forall|j: int| 0 <= j < s.len() ==> -each <= #[trigger] s[j] <= each,
        start + s.len() * each <= i64::MAX,
    ensures
        -(start + s.len() * each) <= sum_value(init, s) <= start + s.len() * each,
        sum_fits(init, s),
    decreases s.len(),
{
    if s.len() == 0 {
        assert(s.len() * each == 0) by (nonlinear_arith)
            requires
                s.len() == 0,
        ;
    } else {
        let head = s.drop_last();
        assert(head.len() * each + each == s.len() * each) by (nonlinear_arith)
            requires
                head.len() + 1 == s.len(),
        ;
        assert(head.len() * each >= 0) by (nonlinear_arith)
            requires
                each >= 0,
        ;
        lemma_sum_bounded(init, head, start, each);
        let before = sum_value(init, head);
        assert(-each <= s.last() <= each);
        assert(can_add(before, s.last()));
        assert forall|k: int| 0 <= k < s.len() implies can_add(
            #[trigger] sum_value(init, s.take(k)),
            s[k],
        ) by {
            if k < s.len() - 1 {
                assert(s.take(k) =~= head.take(k));
                assert(s[k] == head[k]);
            } else {
                assert(s.take(k) =~= head);
            }
        }
    }
}

/// On small enough inputs the sequential accumulator holds the inner
/// product of the integers.
proof fn lemma_sequential_is_inner_sum(xs: Seq<i64>, ys: Seq<i64>, n: int, bound: int)
    requires
        0 <= n,
        n <= xs.len(),
        n <= ys.len(),
        0 <= bound,
        all_small(xs, n, bound),
        all_small(ys, n, bound),
        n * (bound * bound) <= i64::MAX,
    ensures
        lane_value(0i64, xs, ys, 1, 0, n) == inner_sum(xs, ys, n),
    decreases n,
{
    if n > 0 {
        let most = bound * bound;
        assert(most >= 0) by (nonlinear_arith)
            requires
                most == bound * bound,
        ;
        assert((n - 1) * most + most == n * most) by (nonlinear_arith);
        assert((n - 1) * most >= 0) by (nonlinear_arith)
            requires
                n >= 1,
                most >= 0,
        ;
        lemma_sequential_is_inner_sum(xs, ys, n - 1, bound);
        lemma_lane_bounded(xs, ys, 1, 0, n - 1, n - 1, bound);
        let a = xs[n - 1];
        let b = ys[n - 1];
        assert(n - 1 + 0 == n - 1);
        lemma_small_product(a as int, b as int, bound);
        lemma_mac_in_range(lane_value(0i64, xs, ys, 1, 0, n - 1), a, b, (n - 1) * most, most);
    }
}

/// `dot` may be called on an input that is small enough, and returns the sum
/// of the squares as the integers have it.
pub proof fn lemma_i64_dot(x: Seq<i64>, bound: int)
    requires
        small_enough(x, x, bound),
    ensures
        dot_permitted(x),
        dot_value(0i64, x) == inner_sum(x, x, x.len() as int),
{
    let n = x.len() as int;
    assert(n * 1 == n);
    lemma_lane_bounded(x, x, 1, 0, n, n, bound);
    lemma_sequential_is_inner_sum(x, x, n, bound);
    assert(exact::<i64>());
}

/// An unrolled kernel may be called on an input that is small enough and
/// whose length is a multiple of the width, and returns the sum of the
/// squares as the integers have it.
pub proof fn lemma_i64_unrolled(x: Seq<i64>, width: int, bound: int)
    requires
        0 < width,
        x.len() % (width as nat) == 0,
        small_enough(x, x, bound),
    ensures
        unrolled_permitted(x, width),
        unrolled_value(0i64, x, width) == inner_sum(x, x, x.len() as int),
{
    let n = x.len() as int;
    let count = n / width;
    let most = bound * bound;
    lemma_fundamental_div_mod(n, width);
    assert(n == count * width) by (nonlinear_arith)
        requires
            n == width * count + 0,
    ;
    assert(0 <= count <= n && count * most >= 0 && count * most <= n * most && width * (count
        * most) == n * most) by (nonlinear_arith)
        requires
            n == count * width,
            width >= 1,
            n >= 0,
            most == bound * bound,
    ;
    let lanes = lanes_value(0i64, x, x, width, n);
    assert forall|lane: int| 0 <= lane < width implies #[trigger] lane_fits(
        0i64,
        x,
        x,
        width,
        lane,
        n,
    ) && -(count * most) <= lanes[lane] <= count * most by {
        lemma_lane_bounded(x, x, width, lane, count, n, bound);
    }
    assert(lanes_fit(0i64, x, x, width, n));
    let rest = lanes.skip(1);
    assert forall|j: int| 0 <= j < rest.len() implies -(count * most) <= #[trigger] rest[j]
        <= count * most by {
        assert(rest[j] == lanes[j + 1]);
        assert(lane_fits(0i64, x, x, width, j + 1, n));
    }
    assert(lane_fits(0i64, x, x, width, 0, n));
    assert(count * most + rest.len() * (count * most) == width * (count * most))
        by (nonlinear_arith)
        requires
            rest.len() == width - 1,
    ;
    lemma_sum_bounded(lanes[0], rest, count * most, count * most);
    assert(exact::<i64>());
    lemma_i64_order_free();
    law_unrolled_value_is_sequential(0i64, x, width);
    lemma_sequential_is_inner_sum(x, x, n, bound);
}

/// A lane-wise kernel may be called on inputs that are small enough, and
/// returns the inner product, over the positions that both have, as the
/// integers have it.
pub proof fn lemma_i64_wide(xs: Seq<i64>, ys: Seq<i64>, width: int, bound: int)
    requires
        0 < width,
        small_enough(xs, ys, bound),
    ensures
        wide_permitted(xs, ys, width),
        wide_value(0i64, xs, ys, width) == inner_sum(xs, ys, overlap(xs, ys)),
{
    let m = overlap(xs, ys);
    let s = split_point(m, width);
    let count = m / width;
    let most = bound * bound;
    lemma_split_point(m, width);
    assert(0 <= count && count * most >= 0 && count * most <= m * most && width * (count * most)
        == s * most && (m - s) * most >= 0 && (m - s) * most + s * most == m * most
        && (m - s) * most <= m * most) by (nonlinear_arith)
        requires
            s == count * width,
            width >= 1,
            0 <= s <= m,
            most == bound * bound,
    ;
    let lanes = lanes_value(0i64, xs, ys, width, s);
    assert forall|lane: int| 0 <= lane < width implies #[trigger] lane_fits(
        0i64,
        xs,
        ys,
        width,
        lane,
        s,
    ) && -(count * most) <= lanes[lane] <= count * most by {
        lemma_lane_bounded(xs, ys, width, lane, count, s, bound);
    }
    assert forall|j: int| 0 <= j < lanes.len() implies -(count * most) <= #[trigger] lanes[j]
        <= count * most by {
        assert(lane_fits(0i64, xs, ys, width, j, s));
    }
    assert(0 + lanes.len() * (count * most) == width * (count * most)) by (nonlinear_arith)
        requires
            lanes.len() == width,
    ;
    lemma_sum_bounded(0i64, lanes, 0, count * most);
    let xt = xs.subrange(s, m);
    let yt = ys.subrange(s, m);
    assert((m - s) * 1 == m - s);
    lemma_lane_bounded(xt, yt, 1, 0, m - s, m - s, bound);
    let tail = lane_value(0i64, xt, yt, 1, 0, m - s);
    let row = sum_value(0i64, lanes);
    assert(can_add(tail, row));
    assert(exact::<i64>());
    lemma_i64_order_free();
    law_wide_value_is_sequential(0i64, xs, ys, width);
    lemma_sequential_is_inner_sum(xs, ys, m, bound);
    assert(inner_value(0i64, xs, ys) == inner_sum(xs, ys, m));
}

} // verus!
