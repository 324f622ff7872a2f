//! The unrolled kernels: independent accumulators over one input, each taking
//! every `width`-th element, summed at the end.
use crate::arith::{exact, is_zero, total, zero, zero_plus_zero, Scalar};
use crate::lane::{accumulate_mac, are_lanes, lanes_fit, lanes_value, mac_step};
use crate::laws::law_empty_unrolled;
use crate::reduce::{row_value, sum_fits, sum_from, sum_rel};
use vstd::prelude::*;

verus! {

/// `r` is a value that the unrolled sum of squares of `x` can evaluate to:
/// accumulator `i mod width` takes in the square of `x[i]`, each from `z` in
/// the order of the elements, and the accumulators are added up in the order
/// `0 .. width`, starting from the first.
pub open spec fn unrolled_rel<T: Scalar>(z: T, x: Seq<T>, width: int, r: T) -> bool {
    exists|lanes: Seq<T>|
        #![trigger are_lanes(mac_step(), z, x, x, width, x.len() as int, lanes)]
        are_lanes(mac_step(), z, x, x, width, x.len() as int, lanes) && sum_rel(
            lanes[0],
            lanes.skip(1),
            r,
        )
}

/// The unrolled sum of squares of `x` where `T` is exact.
pub open spec fn unrolled_value<T: Scalar>(z: T, x: Seq<T>, width: int) -> T {
    row_value(lanes_value(z, x, x, width, x.len() as int))
}

/// Where `T` is exact: no step of the unrolled sum leaves the limits of `T`.
pub open spec fn unrolled_fits<T: Scalar>(z: T, x: Seq<T>, width: int) -> bool {
    let lanes = lanes_value(z, x, x, width, x.len() as int);
    lanes_fit(z, x, x, width, x.len() as int) && sum_fits(lanes[0], lanes.skip(1))
}

/// An unrolled kernel of this width may be called on `x`, as far as the
/// arithmetic goes: the operators of `T` are total, or `T` is exact and the
/// sum stays within its limits.
pub open spec fn unrolled_permitted<T: Scalar>(x: Seq<T>, width: int) -> bool {
    total::<T>() || (exact::<T>() && forall|z: T| is_zero(z) ==> unrolled_fits(z, x, width))
}

/// `r` is a result of the unrolled kernel of this width on `x`.
pub open spec fn unrolled_returns<T: Scalar>(x: Seq<T>, width: int, r: T) -> bool {
    exists|z: T|
        #![trigger unrolled_rel(z, x, width, r)]
        is_zero(z) && unrolled_rel(z, x, width, r) && (exact::<T>() ==> r == unrolled_value(
            z,
            x,
            width,
        ))
}

/// The unrolled kernel with `N` accumulators.
fn unrolled_kernel<T: Scalar, const N: usize>(x: &[T]) -> (r: T)
    requires
        N > 0,
        x@.len() % (N as nat) == 0,
        unrolled_permitted(x@, N as int),
    ensures
        unrolled_returns(x@, N as int, r),
        x@.len() == 0 && zero_plus_zero::<T>() ==> is_zero(r),
{
    let z = zero::<T>();
    let acc = accumulate_mac::<T, N>(z, x, x, x.len());
    let r = sum_from(acc[0], &acc, 1);
    proof {
        assert(unrolled_rel(z, x@, N as int, r));
        if x@.len() == 0 && zero_plus_zero::<T>() {
            law_empty_unrolled(x@, N as int, r);
        }
    }
    r
}

/// The sum of the squares of the elements of `x`, accumulated in four
/// accumulators that take the elements in turn. The length of `x` is a
/// multiple of four.
pub fn dot_unrolled4<T: Scalar>(x: &[T]) -> (r: T)
    requires
        x@.len() % 4 == 0,
        unrolled_permitted(x@, 4),
    ensures
        unrolled_returns(x@, 4, r),
        x@.len() == 0 && zero_plus_zero::<T>() ==> is_zero(r),
{
    unrolled_kernel::<T, 4>(x)
}

/// The sum of the squares of the elements of `x`, accumulated in eight
/// accumulators that take the elements in turn. The length of `x` is a
/// multiple of eight.
pub fn dot_unrolled8<T: Scalar>(x: &[T]) -> (r: T)
    requires
        x@.len() % 8 == 0,
        unrolled_permitted(x@, 8),
    ensures
        unrolled_returns(x@, 8, r),
        x@.len() == 0 && zero_plus_zero::<T>() ==> is_zero(r),
{
    unrolled_kernel::<T, 8>(x)
}

} // verus!
