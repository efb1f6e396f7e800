use crate::scalar::Scalar;
use vstd::prelude::*;

verus! {

/// One entry of the scaled sum `alpha * x + beta * y`.
///
/// A factor that is the unit is not multiplied in, and of the two factors
/// `alpha` is looked at first. The operations are applied exactly as written
/// here, so the same inputs always give the same entry.
pub open spec fn scaled_sum<T: Scalar>(alpha: T, x: T, beta: T, y: T) -> T {
    if alpha.is_unit() {
        x.plus(beta.times(y))
    } else if beta.is_unit() {
        alpha.times(x).plus(y)
    } else {
        alpha.times(x).plus(beta.times(y))
    }
}

/// The scaled sum `alpha * x + beta * y` of the first `width` entries of two
/// vectors.
pub open spec fn scaled_sums<T: Scalar>(width: nat, alpha: T, x: Seq<T>, beta: T, y: Seq<T>) -> Seq<
    T,
> {
    Seq::new(width, |i: int| scaled_sum(alpha, x[i], beta, y[i]))
}

/// The vector `alpha * x + beta * y` over the first `width` entries.
pub fn waxpby<T: Scalar>(width: usize, alpha: T, x: &[T], beta: T, y: &[T]) -> (w: Vec<T>)
    requires
        width <= x@.len(),
        width <= y@.len(),
    ensures
        w@ == scaled_sums(width as nat, alpha, x@, beta, y@),
{
    let mut result: Vec<T> = Vec::with_capacity(width);
    if alpha.is_one() {
        let mut i: usize = 0;
        while i < width
            invariant
                i <= width,
                width <= x@.len(),
                width <= y@.len(),
                alpha.is_unit(),
                result@.len() == i,
                forall|j: int|
                    0 <= j < i ==> #[trigger] result@[j] == scaled_sum(alpha, x@[j], beta, y@[j]),
            decreases width - i,
        {
            result.push(x[i].sum(beta.product(y[i])));
            i += 1;
        }
    } else if beta.is_one() {
        let mut i: usize = 0;
        while i < width
            invariant
                i <= width,
                width <= x@.len(),
                width <= y@.len(),
                !alpha.is_unit(),
                beta.is_unit(),
                result@.len() == i,
                forall|j: int|
                    0 <= j < i ==> #[trigger] result@[j] == scaled_sum(alpha, x@[j], beta, y@[j]),
            decreases width - i,
        {
            result.push(alpha.product(x[i]).sum(y[i]));
            i += 1;
        }
    } else {
        let mut i: usize = 0;
        while i < width
            invariant
                i <= width,
                width <= x@.len(),
                width <= y@.len(),
                !alpha.is_unit(),
                !beta.is_unit(),
                result@.len() == i,
                forall|j: int|
                    0 <= j < i ==> #[trigger] result@[j] == scaled_sum(alpha, x@[j], beta, y@[j]),
            decreases width - i,
        {
            result.push(alpha.product(x[i]).sum(beta.product(y[i])));
            i += 1;
        }
    }
    assert(result@ =~= scaled_sums(width as nat, alpha, x@, beta, y@));
    result
}

/// Over the integers, scaling the first vector by one and the second by
/// zero gives the first vector.
pub proof fn lemma_waxpby_keeps_first(x: Seq<i64>, y: Seq<i64>)
    ensures
        scaled_sums(x.len(), 1i64, x, 0i64, y) == x,
{
    assert forall|i: int| 0 <= i < x.len() implies scaled_sum(1i64, x[i], 0i64, y[i]) == x[i] by {
        let v = y[i];
        assert(0 * v == 0) by (nonlinear_arith);
    }
    assert(scaled_sums(x.len(), 1i64, x, 0i64, y) =~= x);
}

/// Over the integers, scaling the first vector by zero and the second by
/// one gives the second vector.
pub proof fn lemma_waxpby_keeps_second(x: Seq<i64>, y: Seq<i64>)
    ensures
        scaled_sums(y.len(), 0i64, x, 1i64, y) == y,
{
    assert forall|i: int| 0 <= i < y.len() implies scaled_sum(0i64, x[i], 1i64, y[i]) == y[i] by {
        let v = x[i];
        assert(0 * v == 0) by (nonlinear_arith);
    }
    assert(scaled_sums(y.len(), 0i64, x, 1i64, y) =~= y);
}

/// Over the integers the scaled sum does not depend on which of the two
/// scaled vectors is named first.
pub proof fn lemma_waxpby_symmetric(width: nat, alpha: i64, x: Seq<i64>, beta: i64, y: Seq<i64>)
    ensures
        scaled_sums(width, alpha, x, beta, y) == scaled_sums(width, beta, y, alpha, x),
{
    assert forall|i: int| 0 <= i < width implies scaled_sum(alpha, x[i], beta, y[i]) == scaled_sum(
        beta,
        y[i],
        alpha,
        x[i],
    ) by {
        let a = x[i];
        let b = y[i];
        assert(1 * a == a) by (nonlinear_arith);
        assert(1 * b == b) by (nonlinear_arith);
    }
    assert(scaled_sums(width, alpha, x, beta, y) =~= scaled_sums(width, beta, y, alpha, x));
}

} // verus!
