//! The lane-wise kernel of width four whose accumulators step by a fused
//! multiply-add that the caller supplies.
use crate::arith::{exact, is_zero, total, zero, zero_plus_zero, Scalar};
use crate::lane::{
    accumulate, call_step, lane_value, lanes_value, lemma_lane_rel_exact, step_exact,
    step_permitted,
};
use crate::laws::law_empty_fused;
use crate::split::{split_index, split_point};
use crate::wide::{finish, overlap, shorter, wide_rel, wide_rest_fits, wide_value};
use vstd::prelude::*;

verus! {

/// `fma` is exact: `fma(acc, a, b)` has one result, the value of
/// `acc + a * b`.
pub open spec fn fused_exact<T: Scalar, F: Fn(T, T, T) -> T>(fma: F) -> bool {
    step_exact(call_step(fma))
}

/// `dot_neon` may be called on `xs` and `ys` with `fma`: `fma` may be called
/// at every step of the four accumulators; and the operators of `T` are
/// total, or `T` and `fma` are exact and what follows the accumulators stays
/// within the limits of `T`.
pub open spec fn neon_permitted<T: Scalar, F: Fn(T, T, T) -> T>(
    fma: F,
    xs: Seq<T>,
    ys: Seq<T>,
) -> bool {
    &&& forall|z: T|
        is_zero(z) ==> step_permitted(fma, z, xs, ys, 4, split_point(overlap(xs, ys), 4))
    &&& total::<T>() || (exact::<T>() && fused_exact(fma) && forall|z: T|
        is_zero(z) ==> wide_rest_fits(z, xs, ys, 4))
}

/// `r` is a result of `dot_neon` on `xs` and `ys` with `fma`.
pub open spec fn neon_returns<T: Scalar, F: Fn(T, T, T) -> T>(
    fma: F,
    xs: Seq<T>,
    ys: Seq<T>,
    r: T,
) -> bool {
    exists|z: T|
        #![trigger wide_rel(call_step(fma), z, xs, ys, 4, r)]
        is_zero(z) && wide_rel(call_step(fma), z, xs, ys, 4, r) && (exact::<T>() && fused_exact(
            fma,
        ) ==> r == wide_value(z, xs, ys, 4))
}

/// The inner product of `xs` and `ys` over the positions that both have, as
/// `dot_stdsimd4` computes it, but for the step of the four accumulators:
/// each takes `fma(acc, x, y)` for `acc + x * y`. The remainder is still
/// multiplied and then added.
///
/// `fma` stands for the fused multiply-add of the platform, which rounds
/// once where a product and a sum round twice. Where it is exact the result
/// is that of `dot_stdsimd4`.
pub fn dot_neon<T: Scalar, F: Fn(T, T, T) -> T>(xs: &[T], ys: &[T], fma: F) -> (r: T)
    requires
        neon_permitted(fma, xs@, ys@),
    ensures
        neon_returns(fma, xs@, ys@, r),
        (xs@.len() == 0 || ys@.len() == 0) && zero_plus_zero::<T>() ==> is_zero(r),
{
    let z = zero::<T>();
    let m = shorter(xs, ys);
    let split = split_index(m, 4);
    let acc = accumulate::<T, F, 4>(z, xs, ys, split, &fma);
    proof {
        if exact::<T>() && fused_exact(fma) {
            assert forall|lane: int| 0 <= lane < 4 implies #[trigger] acc@[lane] == lane_value(
                z,
                xs@,
                ys@,
                4,
                lane,
                split as int,
            ) by {
                lemma_lane_rel_exact(
                    call_step(fma),
                    z,
                    xs@,
                    ys@,
                    4,
                    lane,
                    split as int,
                    acc@[lane],
                );
            }
            assert(acc@ =~= lanes_value(z, xs@, ys@, 4, split as int));
        }
    }
    let r = finish(z, xs, ys, split, m, &acc);
    proof {
        assert(wide_rel(call_step(fma), z, xs@, ys@, 4, r));
        if (xs@.len() == 0 || ys@.len() == 0) && zero_plus_zero::<T>() {
            law_empty_fused(fma, xs@, ys@, r);
        }
    }
    r
}

} // verus!
