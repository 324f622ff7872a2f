//! The sequential baseline: one accumulator, one element at a time.
use crate::arith::{exact, is_zero, total, zero, Scalar};
use crate::lane::{lane_fits, lane_rel, lane_value, mac_step, sequential};
use vstd::prelude::*;

verus! {

/// `r` is a value that the sum of squares of `x`, taken from `z` in the order
/// of the elements, can evaluate to:
/// `(..((z + x[0] * x[0]) + x[1] * x[1]) + ..) + x[n - 1] * x[n - 1]`.
pub open spec fn dot_rel<T: Scalar>(z: T, x: Seq<T>, r: T) -> bool {
    lane_rel(mac_step(), z, x, x, 1, 0, x.len() as int, r)
}

/// The sum of squares of `x`, taken from `z` in the order of the elements,
/// where `T` is exact.
pub open spec fn dot_value<T: Scalar>(z: T, x: Seq<T>) -> T {
    lane_value(z, x, x, 1, 0, x.len() as int)
}

/// Where `T` is exact: no step of that sum leaves the limits of `T`.
pub open spec fn dot_fits<T: Scalar>(z: T, x: Seq<T>) -> bool {
    lane_fits(z, x, x, 1, 0, x.len() as int)
}

/// `dot` may be called on `x`: the operators of `T` are total, or `T` is exact
/// and the sum stays within its limits.
pub open spec fn dot_permitted<T: Scalar>(x: Seq<T>) -> bool {
    total::<T>() || (exact::<T>() && forall|z: T| is_zero(z) ==> dot_fits(z, x))
}

/// `r` is a result of `dot` on `x`.
pub open spec fn dot_returns<T: Scalar>(x: Seq<T>, r: T) -> bool {
    exists|z: T|
        #![trigger dot_rel(z, x, r)]
        is_zero(z) && dot_rel(z, x, r) && (exact::<T>() ==> r == dot_value(z, x))
}

/// The sum of the squares of the elements of `x`, accumulated from zero in
/// the order of the elements. The empty slice gives zero.
pub fn dot<T: Scalar>(x: &[T]) -> (r: T)
    requires
        dot_permitted(x@),
    ensures
        dot_returns(x@, r),
        x@.len() == 0 ==> is_zero(r),
{
    let z = zero::<T>();
    assert(x@.subrange(0, x@.len() as int) =~= x@);
    let r = sequential(z, x, x, 0, x.len());
    assert(dot_rel(z, x@, r));
    r
}

} // verus!
