//! The arithmetic of a scalar type, as the kernels see it.
//!
//! A kernel is generic in its element type and touches it through three
//! operations only: `Default::default()` for the additive zero, `+` and `*`.
//! Nothing is assumed of them. Machine integers overflow, floating-point types
//! round and need not repeat their results to the bit, so every operation
//! is described twice:
//!
//! * as a relation between operands and a possible result (`is_sum`,
//!   `is_product`, `is_zero`), which holds of every type, and
//! * as a value (`sum_of`, `product_of`), which is the result on every type
//!   whose operators are functions of their operands ([`exact`]).
use core::ops::{Add, Mul};
use vstd::prelude::*;
use vstd::std_specs::ops::{AddSpec, MulSpec};

verus! {

/// The element types of the kernels: anything that can be copied, has a
/// default value to start a sum from, and can be added and multiplied.
pub trait Scalar: Copy + Default + Add<Output = Self> + Mul<Output = Self> {

}

impl<T: Copy + Default + Add<Output = T> + Mul<Output = T>> Scalar for T {

}

/// `z` is a value that `T::default()` can return: the zero that sums start from.
pub open spec fn is_zero<T: Scalar>(z: T) -> bool {
    call_ensures(T::default, (), z)
}

/// `a + b` may be evaluated.
pub open spec fn can_add<T: Scalar>(a: T, b: T) -> bool {
    call_requires(<T as Add>::add, (a, b))
}

/// `s` is a value that `a + b` can evaluate to.
pub open spec fn is_sum<T: Scalar>(a: T, b: T, s: T) -> bool {
    call_ensures(<T as Add>::add, (a, b), s)
}

/// `a * b` may be evaluated.
pub open spec fn can_mul<T: Scalar>(a: T, b: T) -> bool {
    call_requires(<T as Mul>::mul, (a, b))
}

/// `p` is a value that `a * b` can evaluate to.
pub open spec fn is_product<T: Scalar>(a: T, b: T, p: T) -> bool {
    call_ensures(<T as Mul>::mul, (a, b), p)
}

/// `r` is a value that the multiply-accumulate step `acc + a * b` can evaluate to.
pub open spec fn is_mac<T: Scalar>(acc: T, a: T, b: T, r: T) -> bool {
    exists|p: T| #[trigger] is_product(a, b, p) && is_sum(acc, p, r)
}

/// The multiply-accumulate step `acc + a * b` may be evaluated, whatever the
/// product turns out to be.
pub open spec fn can_mac<T: Scalar>(acc: T, a: T, b: T) -> bool {
    &&& can_mul(a, b)
    &&& forall|p: T| #[trigger] is_product(a, b, p) ==> can_add(acc, p)
}

/// Every sum and every product of `T` may be evaluated: the operators have no
/// precondition. This is the case for floating-point types and for types with
/// wrapping or saturating operators, not for the machine integers.
pub open spec fn total<T: Scalar>() -> bool {
    &&& forall|a: T, b: T| #[trigger] can_add(a, b)
    &&& forall|a: T, b: T| #[trigger] can_mul(a, b)
}

/// The operators of `T` are functions of their operands: `a + b` evaluates to
/// `sum_of(a, b)` and `a * b` to `product_of(a, b)`, nothing else.
pub open spec fn exact<T: Scalar>() -> bool {
    <T as AddSpec<T>>::obeys_add_spec() && <T as MulSpec<T>>::obeys_mul_spec()
}

/// Zero plus zero is zero, and nothing else.
pub open spec fn zero_plus_zero<T: Scalar>() -> bool {
    forall|z: T, s: T| is_zero(z) && #[trigger] is_sum(z, z, s) ==> s == z
}

/// The value of `a + b` where `T` is exact.
pub open spec fn sum_of<T: Scalar>(a: T, b: T) -> T {
    a.add_spec(b)
}

/// The value of `a * b` where `T` is exact.
pub open spec fn product_of<T: Scalar>(a: T, b: T) -> T {
    a.mul_spec(b)
}

/// The value of the multiply-accumulate step `acc + a * b` where `T` is exact.
pub open spec fn mac_of<T: Scalar>(acc: T, a: T, b: T) -> T {
    sum_of(acc, product_of(a, b))
}

/// Where `T` is exact: the step `acc + a * b` stays within the limits of `T`.
pub open spec fn mac_fits<T: Scalar>(acc: T, a: T, b: T) -> bool {
    can_mul(a, b) && can_add(acc, product_of(a, b))
}

/// On an exact type a product, and a sum, is what the value functions say.
pub proof fn lemma_exact_results<T: Scalar>(a: T, b: T, r: T)
    requires
        exact::<T>(),
    ensures
        is_sum(a, b, r) ==> r == sum_of(a, b),
        is_product(a, b, r) ==> r == product_of(a, b),
{
}

/// A step that fits on an exact type, and any step on a total type, may be
/// evaluated.
pub proof fn lemma_can_mac<T: Scalar>(acc: T, a: T, b: T)
    requires
        total::<T>() || (exact::<T>() && mac_fits(acc, a, b)),
    ensures
        can_mac(acc, a, b),
{
    assert forall|p: T| #[trigger] is_product(a, b, p) implies can_add(acc, p) by {
        if !total::<T>() {
            lemma_exact_results(a, b, p);
        }
    }
}

/// On an exact type the multiply-accumulate step has one result.
pub proof fn lemma_exact_mac<T: Scalar>(acc: T, a: T, b: T, r: T)
    requires
        exact::<T>(),
        is_mac(acc, a, b, r),
    ensures
        r == mac_of(acc, a, b),
{
    let p = choose|p: T| #[trigger] is_product(a, b, p) && is_sum(acc, p, r);
    lemma_exact_results(a, b, p);
    lemma_exact_results(acc, p, r);
}

/// The zero that a sum starts from.
pub(crate) fn zero<T: Scalar>() -> (z: T)
    ensures
        is_zero(z),
{
    T::default()
}

/// `a + b`.
pub(crate) fn plus<T: Scalar>(a: T, b: T) -> (s: T)
    requires
        can_add(a, b),
    ensures
        is_sum(a, b, s),
        exact::<T>() ==> s == sum_of(a, b),
{
    a + b
}

/// The multiply-accumulate step `acc + a * b`, the product taken first.
pub(crate) fn mac<T: Scalar>(acc: T, a: T, b: T) -> (r: T)
    requires
        can_mac(acc, a, b),
    ensures
        is_mac(acc, a, b, r),
        exact::<T>() ==> r == mac_of(acc, a, b),
{
    let p = a * b;
    assert(is_product(a, b, p));
    acc + p
}

} // verus!
