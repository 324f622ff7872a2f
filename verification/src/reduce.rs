//! Adding up a row of values, left to right.
use crate::arith::{can_add, exact, is_sum, lemma_exact_results, plus, sum_of, total, Scalar};
use vstd::prelude::*;

verus! {

/// `r` is a value that `(..((init + s[0]) + s[1]) + ..) + s[n - 1]` can
/// evaluate to.
pub open spec fn sum_rel<T: Scalar>(init: T, s: Seq<T>, r: T) -> bool
    decreases s.len(),
{
    if s.len() == 0 {
        r == init
    } else {
        exists|p: T| sum_rel(init, s.drop_last(), p) && #[trigger] is_sum(p, s.last(), r)
    }
}

/// The value of `(..((init + s[0]) + s[1]) + ..) + s[n - 1]` where `T` is
/// exact.
pub open spec fn sum_value<T: Scalar>(init: T, s: Seq<T>) -> T
    decreases s.len(),
{
    if s.len() == 0 {
        init
    } else {
        sum_of(sum_value(init, s.drop_last()), s.last())
    }
}

/// The value of `(..(s[0] + s[1]) + ..) + s[n - 1]` where `T` is exact: the
/// sum of a row that starts from its first value.
pub open spec fn row_value<T: Scalar>(s: Seq<T>) -> T {
    sum_value(s[0], s.skip(1))
}

/// Where `T` is exact: every addition of that sum stays within the limits of
/// `T`.
pub open spec fn sum_fits<T: Scalar>(init: T, s: Seq<T>) -> bool {
    forall|k: int| 0 <= k < s.len() ==> can_add(#[trigger] sum_value(init, s.take(k)), s[k])
}

/// On an exact type the sum has one value.
pub proof fn lemma_sum_rel_exact<T: Scalar>(init: T, s: Seq<T>, r: T)
    requires
        exact::<T>(),
        sum_rel(init, s, r),
    ensures
        r == sum_value(init, s),
    decreases s.len(),
{
    if s.len() > 0 {
        let p = choose|p: T| sum_rel(init, s.drop_last(), p) && #[trigger] is_sum(p, s.last(), r);
        lemma_sum_rel_exact(init, s.drop_last(), p);
        lemma_exact_results(p, s.last(), r);
    }
}

/// Adds the values of `lanes` from index `from` on to `init`, left to right.
pub(crate) fn sum_from<T: Scalar, const W: usize>(init: T, lanes: &[T; W], from: usize) -> (r: T)
    requires
        from <= W,
        total::<T>() || (exact::<T>() && sum_fits(init, lanes@.skip(from as int))),
    ensures
        sum_rel(init, lanes@.skip(from as int), r),
        exact::<T>() ==> r == sum_value(init, lanes@.skip(from as int)),
{
    let ghost s = lanes@.skip(from as int);
    let mut acc = init;
    let mut j: usize = from;
    assert(s.take(0).len() == 0);
    while j < W
        invariant
            from <= j <= W,
            s == lanes@.skip(from as int),
            total::<T>() || (exact::<T>() && sum_fits(init, s)),
            sum_rel(init, s.take(j - from), acc),
            exact::<T>() ==> acc == sum_value(init, s.take(j - from)),
        decreases W - j,
    {
        let ghost k = j - from;
        let a = lanes[j];
        assert(a == s[k]);
        let next = plus(acc, a);
        proof {
            assert(s.take(k + 1).drop_last() =~= s.take(k));
            assert(s.take(k + 1).last() == a);
        }
        acc = next;
        j += 1;
    }
    assert(s.take(s.len() as int) =~= s);
    acc
}

} // verus!
