//! Accumulators and their walk through the input.
//!
//! An accumulator starts at zero and takes in one pair of elements per chunk:
//! with chunks of `width` elements, accumulator `lane` is fed the pairs at the
//! positions `lane`, `lane + width`, `lane + 2 * width`, and so on. A kernel
//! keeps `width` of them side by side; the sequential kernels are the case of
//! width 1.
use crate::arith::{
    can_mac, exact, is_mac, lemma_can_mac, lemma_exact_mac, mac, mac_fits, mac_of, total, Scalar,
};
use crate::split::lemma_next_chunk;
use vstd::prelude::*;

verus! {

/// A step of an accumulator, as a relation: `step(acc, a, b, r)` says that
/// from `acc`, fed the pair `(a, b)`, the accumulator can go to `r`.
pub type Step<T> = spec_fn(T, T, T, T) -> bool;

/// `step(acc, a, b, r)`, under a name.
pub open spec fn steps<T>(step: Step<T>, acc: T, a: T, b: T, r: T) -> bool {
    step(acc, a, b, r)
}

/// The step that multiplies and then adds, with the operators of `T`.
pub open spec fn mac_step<T: Scalar>() -> Step<T> {
    |acc: T, a: T, b: T, r: T| is_mac(acc, a, b, r)
}

/// The step that one call of `f` makes: `f(acc, a, b)` for `acc + a * b`,
/// computed as `f` likes.
pub open spec fn call_step<T, F: Fn(T, T, T) -> T>(f: F) -> Step<T> {
    |acc: T, a: T, b: T, r: T| call_ensures(f, (acc, a, b), r)
}

/// The step has one result, the value of `acc + a * b` on an exact type.
pub open spec fn step_exact<T: Scalar>(step: Step<T>) -> bool {
    forall|acc: T, a: T, b: T, r: T| #[trigger] steps(step, acc, a, b, r) ==> r == mac_of(acc, a, b)
}

/// `r` is a value that accumulator `lane` can hold after the chunks that lie
/// wholly in the first `n` positions, `n` a multiple of `width`.
pub open spec fn lane_rel<T>(
    step: Step<T>,
    z: T,
    xs: Seq<T>,
    ys: Seq<T>,
    width: int,
    lane: int,
    n: int,
    r: T,
) -> bool
    decreases n,
{
    if width <= 0 || n < width {
        r == z
    } else {
        exists|acc: T|
            lane_rel(step, z, xs, ys, width, lane, n - width, acc) && #[trigger] steps(
                step,
                acc,
                xs[n - width + lane],
                ys[n - width + lane],
                r,
            )
    }
}

/// What accumulator `lane` holds after the chunks that lie wholly in the
/// first `n` positions, where `T` is exact.
pub open spec fn lane_value<T: Scalar>(
    z: T,
    xs: Seq<T>,
    ys: Seq<T>,
    width: int,
    lane: int,
    n: int,
) -> T
    decreases n,
{
    if width <= 0 || n < width {
        z
    } else {
        mac_of(
            lane_value(z, xs, ys, width, lane, n - width),
            xs[n - width + lane],
            ys[n - width + lane],
        )
    }
}

/// Where `T` is exact: every step of accumulator `lane` over the first `n`
/// positions stays within the limits of `T`.
pub open spec fn lane_fits<T: Scalar>(
    z: T,
    xs: Seq<T>,
    ys: Seq<T>,
    width: int,
    lane: int,
    n: int,
) -> bool {
    forall|k: int|
        0 <= k && k + width <= n && k % width == 0 ==> mac_fits(
            #[trigger] lane_value(z, xs, ys, width, lane, k),
            xs[k + lane],
            ys[k + lane],
        )
}

/// One more chunk: a step from a value at `n` gives a value at `n + width`.
pub proof fn lemma_lane_rel_step<T>(
    step: Step<T>,
    z: T,
    xs: Seq<T>,
    ys: Seq<T>,
    width: int,
    lane: int,
    n: int,
    acc: T,
    r: T,
)
    requires
        width > 0,
        n >= 0,
        lane_rel(step, z, xs, ys, width, lane, n, acc),
        steps(step, acc, xs[n + lane], ys[n + lane], r),
    ensures
        lane_rel(step, z, xs, ys, width, lane, n + width, r),
{
    assert(n + width - width == n);
}

/// On an exact type the step that multiplies and adds has one result.
pub proof fn lemma_mac_step_exact<T: Scalar>()
    requires
        exact::<T>(),
    ensures
        step_exact(mac_step::<T>()),
{
    assert forall|acc: T, a: T, b: T, r: T| #[trigger]
        steps(mac_step::<T>(), acc, a, b, r) implies r == mac_of(acc, a, b) by {
        lemma_exact_mac(acc, a, b, r);
    }
}

/// An accumulator whose step has one result holds one value.
pub proof fn lemma_lane_rel_exact<T: Scalar>(
    step: Step<T>,
    z: T,
    xs: Seq<T>,
    ys: Seq<T>,
    width: int,
    lane: int,
    n: int,
    r: T,
)
    requires
        step_exact(step),
        lane_rel(step, z, xs, ys, width, lane, n, r),
    ensures
        r == lane_value(z, xs, ys, width, lane, n),
    decreases n,
{
    if width > 0 && n >= width {
        let acc = choose|acc: T|
            lane_rel(step, z, xs, ys, width, lane, n - width, acc) && #[trigger] steps(
                step,
                acc,
                xs[n - width + lane],
                ys[n - width + lane],
                r,
            );
        lemma_lane_rel_exact(step, z, xs, ys, width, lane, n - width, acc);
    }
}

/// What an accumulator can hold under one step it can hold under any step
/// that allows as much.
pub proof fn lemma_lane_rel_weaken<T>(
    step: Step<T>,
    weaker: Step<T>,
    z: T,
    xs: Seq<T>,
    ys: Seq<T>,
    width: int,
    lane: int,
    n: int,
    r: T,
)
    requires
        forall|acc: T, a: T, b: T, r: T| #[trigger]
            steps(step, acc, a, b, r) ==> steps(weaker, acc, a, b, r),
        lane_rel(step, z, xs, ys, width, lane, n, r),
    ensures
        lane_rel(weaker, z, xs, ys, width, lane, n, r),
    decreases n,
{
    if width > 0 && n >= width {
        let i = n - width + lane;
        let acc = choose|acc: T|
            lane_rel(step, z, xs, ys, width, lane, n - width, acc) && #[trigger] steps(
                step,
                acc,
                xs[i],
                ys[i],
                r,
            );
        lemma_lane_rel_weaken(step, weaker, z, xs, ys, width, lane, n - width, acc);
        assert(steps(weaker, acc, xs[i], ys[i], r));
    }
}

/// An accumulator reads only the positions below `n`: what it can hold on one
/// input it can hold on any other that agrees with the first there.
pub proof fn lemma_lane_rel_reads_prefix<T>(
    step: Step<T>,
    z: T,
    xs: Seq<T>,
    ys: Seq<T>,
    xs2: Seq<T>,
    ys2: Seq<T>,
    width: int,
    lane: int,
    n: int,
    r: T,
)
    requires
        0 <= lane < width,
        forall|i: int| 0 <= i < n ==> xs[i] == xs2[i] && ys[i] == ys2[i],
        lane_rel(step, z, xs, ys, width, lane, n, r),
    ensures
        lane_rel(step, z, xs2, ys2, width, lane, n, r),
    decreases n,
{
    if n >= width {
        let i = n - width + lane;
        let acc = choose|acc: T|
            lane_rel(step, z, xs, ys, width, lane, n - width, acc) && #[trigger] steps(
                step,
                acc,
                xs[i],
                ys[i],
                r,
            );
        lemma_lane_rel_reads_prefix(step, z, xs, ys, xs2, ys2, width, lane, n - width, acc);
        assert(xs[i] == xs2[i] && ys[i] == ys2[i]);
        assert(steps(step, acc, xs2[i], ys2[i], r));
    }
}

/// The same of the value on an exact type.
pub proof fn lemma_lane_value_reads_prefix<T: Scalar>(
    z: T,
    xs: Seq<T>,
    ys: Seq<T>,
    xs2: Seq<T>,
    ys2: Seq<T>,
    width: int,
    lane: int,
    n: int,
)
    requires
        0 <= lane < width,
        forall|i: int| 0 <= i < n ==> xs[i] == xs2[i] && ys[i] == ys2[i],
    ensures
        lane_value(z, xs, ys, width, lane, n) == lane_value(z, xs2, ys2, width, lane, n),
    decreases n,
{
    if n >= width {
        let i = n - width + lane;
        assert(xs[i] == xs2[i] && ys[i] == ys2[i]);
        lemma_lane_value_reads_prefix(z, xs, ys, xs2, ys2, width, lane, n - width);
    }
}

/// `r` is a value that one accumulator can hold after it has taken in, from
/// `z`, the pairs at the positions `from .. to` in their order.
pub open spec fn run_rel<T: Scalar>(
    z: T,
    xs: Seq<T>,
    ys: Seq<T>,
    from: int,
    to: int,
    r: T,
) -> bool {
    lane_rel(mac_step(), z, xs.subrange(from, to), ys.subrange(from, to), 1, 0, to - from, r)
}

/// What one accumulator holds after it has taken in, from `z`, the pairs at
/// the positions `from .. to` in their order, where `T` is exact.
pub open spec fn run_value<T: Scalar>(z: T, xs: Seq<T>, ys: Seq<T>, from: int, to: int) -> T {
    lane_value(z, xs.subrange(from, to), ys.subrange(from, to), 1, 0, to - from)
}

/// Where `T` is exact: every step of that accumulator stays within the limits
/// of `T`.
pub open spec fn run_fits<T: Scalar>(z: T, xs: Seq<T>, ys: Seq<T>, from: int, to: int) -> bool {
    lane_fits(z, xs.subrange(from, to), ys.subrange(from, to), 1, 0, to - from)
}

/// The accumulators `0 .. width` side by side, each with what it holds after
/// the first `n` positions, where `T` is exact.
pub open spec fn lanes_value<T: Scalar>(
    z: T,
    xs: Seq<T>,
    ys: Seq<T>,
    width: int,
    n: int,
) -> Seq<T> {
    Seq::new(width as nat, |lane: int| lane_value(z, xs, ys, width, lane, n))
}

/// `lanes` holds, for each of the accumulators `0 .. width`, a value that it
/// can hold after the first `n` positions.
pub open spec fn are_lanes<T>(
    step: Step<T>,
    z: T,
    xs: Seq<T>,
    ys: Seq<T>,
    width: int,
    n: int,
    lanes: Seq<T>,
) -> bool {
    &&& lanes.len() == width
    &&& forall|lane: int|
        0 <= lane < width ==> lane_rel(step, z, xs, ys, width, lane, n, #[trigger] lanes[lane])
}

/// Where `T` is exact: every step of every accumulator over the first `n`
/// positions stays within the limits of `T`.
pub open spec fn lanes_fit<T: Scalar>(z: T, xs: Seq<T>, ys: Seq<T>, width: int, n: int) -> bool {
    forall|lane: int| 0 <= lane < width ==> #[trigger] lane_fits(z, xs, ys, width, lane, n)
}

/// `f` may be called at every step of the accumulators `0 .. width` over the
/// first `n` positions, whatever they hold by then.
pub open spec fn step_permitted<T, F: Fn(T, T, T) -> T>(
    f: F,
    z: T,
    xs: Seq<T>,
    ys: Seq<T>,
    width: int,
    n: int,
) -> bool {
    forall|lane: int, k: int, acc: T|
        0 <= lane < width && 0 <= k && k + width <= n && k % width == 0 && #[trigger] lane_rel(
            call_step(f),
            z,
            xs,
            ys,
            width,
            lane,
            k,
            acc,
        ) ==> call_requires(f, (acc, xs[k + lane], ys[k + lane]))
}

/// Runs `W` accumulators from `z` over the first `end` positions of `xs` and
/// `ys`, chunk by chunk: in each chunk accumulator `lane` takes one step, by
/// `f`, on the pair at the chunk's position `lane`.
pub(crate) fn accumulate<T: Copy, F: Fn(T, T, T) -> T, const W: usize>(
    z: T,
    xs: &[T],
    ys: &[T],
    end: usize,
    f: &F,
) -> (acc: [T; W])
    requires
        W > 0,
        end % W == 0,
        end <= xs@.len(),
        end <= ys@.len(),
        step_permitted(*f, z, xs@, ys@, W as int, end as int),
    ensures
        are_lanes(call_step(*f), z, xs@, ys@, W as int, end as int, acc@),
{
    let ghost step = call_step(*f);
    let mut acc: [T; W] = [z; W];
    let mut i: usize = 0;
    while i < end
        invariant
            W > 0,
            end % W == 0,
            end <= xs@.len(),
            end <= ys@.len(),
            i <= end,
            i % W == 0,
            step == call_step(*f),
            step_permitted(*f, z, xs@, ys@, W as int, end as int),
            are_lanes(step, z, xs@, ys@, W as int, i as int, acc@),
        decreases end - i,
    {
        proof {
            lemma_next_chunk(i as int, end as int, W as int);
        }
        let mut j: usize = 0;
        while j < W
            invariant
                W > 0,
                j <= W,
                i + W <= end,
                end <= xs@.len(),
                end <= ys@.len(),
                i % W == 0,
                acc@.len() == W,
                step == call_step(*f),
                step_permitted(*f, z, xs@, ys@, W as int, end as int),
                forall|l: int|
                    0 <= l < j ==> lane_rel(
                        step,
                        z,
                        xs@,
                        ys@,
                        W as int,
                        l,
                        i + W,
                        #[trigger] acc@[l],
                    ),
                forall|l: int|
                    j <= l < W ==> lane_rel(
                        step,
                        z,
                        xs@,
                        ys@,
                        W as int,
                        l,
                        i as int,
                        #[trigger] acc@[l],
                    ),
            decreases W - j,
        {
            let a = xs[i + j];
            let b = ys[i + j];
            let before = acc[j];
            assert(lane_rel(step, z, xs@, ys@, W as int, j as int, i as int, before));
            let next = f(before, a, b);
            proof {
                assert(steps(step, before, a, b, next));
                lemma_lane_rel_step(step, z, xs@, ys@, W as int, j as int, i as int, before, next);
            }
            acc[j] = next;
            j += 1;
        }
        i += W;
    }
    acc
}

/// The multiply-accumulate step may be taken at every step of the
/// accumulators `0 .. width` over the first `n` positions, whatever they hold
/// by then.
pub open spec fn mac_permitted<T: Scalar>(
    z: T,
    xs: Seq<T>,
    ys: Seq<T>,
    width: int,
    n: int,
) -> bool {
    forall|lane: int, k: int, acc: T|
        0 <= lane < width && 0 <= k && k + width <= n && k % width == 0 && #[trigger] lane_rel(
            mac_step(),
            z,
            xs,
            ys,
            width,
            lane,
            k,
            acc,
        ) ==> can_mac(acc, xs[k + lane], ys[k + lane])
}

/// Where `T` is total, or exact with accumulators whose steps fit, the
/// multiply-accumulate step may be taken wherever the accumulators get to.
pub proof fn lemma_mac_permitted<T: Scalar>(z: T, xs: Seq<T>, ys: Seq<T>, width: int, n: int)
    requires
        total::<T>() || (exact::<T>() && lanes_fit(z, xs, ys, width, n)),
    ensures
        mac_permitted(z, xs, ys, width, n),
{
    assert forall|lane: int, k: int, acc: T|
        0 <= lane < width && 0 <= k && k + width <= n && k % width == 0 && #[trigger] lane_rel(
            mac_step(),
            z,
            xs,
            ys,
            width,
            lane,
            k,
            acc,
        ) implies can_mac(acc, xs[k + lane], ys[k + lane]) by {
        if !total::<T>() {
            lemma_mac_step_exact::<T>();
            lemma_lane_rel_exact(mac_step(), z, xs, ys, width, lane, k, acc);
            assert(lane_fits(z, xs, ys, width, lane, n));
        }
        lemma_can_mac(acc, xs[k + lane], ys[k + lane]);
    }
}

/// Runs `W` accumulators from `z` over the first `end` positions of `xs` and
/// `ys`, each step multiplying and then adding.
pub(crate) fn accumulate_mac<T: Scalar, const W: usize>(
    z: T,
    xs: &[T],
    ys: &[T],
    end: usize,
) -> (acc: [T; W])
    requires
        W > 0,
        end % W == 0,
        end <= xs@.len(),
        end <= ys@.len(),
        total::<T>() || (exact::<T>() && lanes_fit(z, xs@, ys@, W as int, end as int)),
    ensures
        are_lanes(mac_step(), z, xs@, ys@, W as int, end as int, acc@),
        exact::<T>() ==> acc@ == lanes_value(z, xs@, ys@, W as int, end as int),
{
    let ghost by_call = call_step(mac::<T>);
    proof {
        lemma_mac_permitted(z, xs@, ys@, W as int, end as int);
        assert forall|lane: int, k: int, acc: T|
            0 <= lane < W && 0 <= k && k + W <= end && k % (W as int) == 0 && #[trigger] lane_rel(
                by_call,
                z,
                xs@,
                ys@,
                W as int,
                lane,
                k,
                acc,
            ) implies call_requires(mac::<T>, (acc, xs@[k + lane], ys@[k + lane])) by {
            lemma_lane_rel_weaken(by_call, mac_step(), z, xs@, ys@, W as int, lane, k, acc);
        }
    }
    let acc = accumulate::<T, _, W>(z, xs, ys, end, &mac::<T>);
    proof {
        assert forall|lane: int| 0 <= lane < W implies lane_rel(
            mac_step(),
            z,
            xs@,
            ys@,
            W as int,
            lane,
            end as int,
            #[trigger] acc@[lane],
        ) by {
            lemma_lane_rel_weaken(
                by_call,
                mac_step(),
                z,
                xs@,
                ys@,
                W as int,
                lane,
                end as int,
                acc@[lane],
            );
        }
        if exact::<T>() {
            lemma_mac_step_exact::<T>();
            assert forall|lane: int| 0 <= lane < W implies #[trigger] acc@[lane] == lane_value(
                z,
                xs@,
                ys@,
                W as int,
                lane,
                end as int,
            ) by {
                lemma_lane_rel_exact(
                    mac_step(),
                    z,
                    xs@,
                    ys@,
                    W as int,
                    lane,
                    end as int,
                    acc@[lane],
                );
            }
            assert(acc@ =~= lanes_value(z, xs@, ys@, W as int, end as int));
        }
    }
    acc
}

/// Runs one accumulator from `z` over the positions `from .. to` of `xs` and
/// `ys`, one pair at a time, multiplying and then adding.
pub(crate) fn sequential<T: Scalar>(z: T, xs: &[T], ys: &[T], from: usize, to: usize) -> (r: T)
    requires
        from <= to,
        to <= xs@.len(),
        to <= ys@.len(),
        total::<T>() || (exact::<T>() && run_fits(z, xs@, ys@, from as int, to as int)),
    ensures
        run_rel(z, xs@, ys@, from as int, to as int, r),
        exact::<T>() ==> r == run_value(z, xs@, ys@, from as int, to as int),
{
    let ghost xt = xs@.subrange(from as int, to as int);
    let ghost yt = ys@.subrange(from as int, to as int);
    let mut acc = z;
    let mut k: usize = from;
    proof {
        lemma_mac_permitted(z, xt, yt, 1, to - from);
    }
    while k < to
        invariant
            from <= k <= to,
            to <= xs@.len(),
            to <= ys@.len(),
            xt == xs@.subrange(from as int, to as int),
            yt == ys@.subrange(from as int, to as int),
            mac_permitted(z, xt, yt, 1, to - from),
            lane_rel(mac_step(), z, xt, yt, 1, 0, k - from, acc),
        decreases to - k,
    {
        let a = xs[k];
        let b = ys[k];
        assert(a == xt[k - from + 0] && b == yt[k - from + 0]);
        let next = mac(acc, a, b);
        proof {
            assert(steps(mac_step(), acc, a, b, next));
            lemma_lane_rel_step(mac_step(), z, xt, yt, 1, 0, k - from, acc, next);
        }
        acc = next;
        k += 1;
    }
    proof {
        if exact::<T>() {
            lemma_mac_step_exact::<T>();
            lemma_lane_rel_exact(mac_step(), z, xt, yt, 1, 0, to - from, acc);
        }
    }
    acc
}

} // verus!
