use crate::ddot::common_len;
use crate::scalar::Scalar;
use vstd::prelude::*;

verus! {

/// The largest absolute difference among the first `n` entries of two
/// vectors, found by going through them in order from a largest difference
/// of zero.
pub open spec fn largest_gap<T: Scalar>(actual: Seq<T>, expected: Seq<T>, n: nat) -> T
    decreases n,
{
    if n == 0 {
        T::of_int(0)
    } else {
        let so_far = largest_gap(actual, expected, (n - 1) as nat);
        let here = actual[n - 1].gap(expected[n - 1]);
        if here.leq(so_far) {
            so_far
        } else {
            here
        }
    }
}

/// The largest absolute difference between the entries of two vectors, over
/// the entries that both have.
///
/// `_width` is accepted for the callers' convenience and not read.
pub fn compute_residual<T: Scalar>(_width: usize, actual: &[T], expected: &[T]) -> (residual: T)
    ensures
        residual == largest_gap(actual@, expected@, common_len(actual@, expected@)),
{
    let n: usize = if actual.len() <= expected.len() {
        actual.len()
    } else {
        expected.len()
    };
    let mut residual = T::from_i32(0);
    let mut i: usize = 0;
    while i < n
        invariant
            i <= n,
            n == common_len(actual@, expected@),
            residual == largest_gap(actual@, expected@, i as nat),
        decreases n - i,
    {
        let diff = actual[i].distance(expected[i]);
        if !diff.at_most(residual) {
            residual = diff;
        }
        i += 1;
    }
    residual
}

/// Over the integers, where no difference wraps, the residual is not below
/// any of the differences, and is zero or one of them.
pub proof fn lemma_residual_is_largest(actual: Seq<i64>, expected: Seq<i64>, n: nat)
    requires
        n <= actual.len(),
        n <= expected.len(),
        forall|i: int| 0 <= i < n ==> -i64::MAX <= #[trigger] actual[i] - expected[i] <= i64::MAX,
    ensures
        largest_gap(actual, expected, n) >= 0,
        forall|i: int|
            0 <= i < n ==> largest_gap(actual, expected, n) >= #[trigger] actual[i] - expected[i]
                && largest_gap(actual, expected, n) >= expected[i] - actual[i],
        n > 0 ==> exists|i: int|
            0 <= i < n && (largest_gap(actual, expected, n) == #[trigger] actual[i] - expected[i]
                || largest_gap(actual, expected, n) == expected[i] - actual[i]),
    decreases n,
{
    if n > 0 {
        lemma_residual_is_largest(actual, expected, (n - 1) as nat);
        let so_far = largest_gap(actual, expected, (n - 1) as nat);
        let here = actual[n - 1].gap(expected[n - 1]);
        assert(-i64::MAX <= actual[n - 1] - expected[n - 1] <= i64::MAX);
        if n == 1 {
            assert(actual[0] - expected[0] == actual[0] - expected[0]);
        } else {
            let w = choose|i: int|
                0 <= i < n - 1 && (so_far == #[trigger] actual[i] - expected[i] || so_far
                    == expected[i] - actual[i]);
            assert(actual[w] - expected[w] == actual[w] - expected[w]);
        }
    }
}

} // verus!
