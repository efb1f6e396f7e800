use crate::scalar::Scalar;
use vstd::prelude::*;

verus! {

/// The dot product of the first `n` entries of `x` and `y`, accumulated from
/// zero in index order.
pub open spec fn dot_prefix<T: Scalar>(x: Seq<T>, y: Seq<T>, n: nat) -> T
    decreases n,
{
    if n == 0 {
        T::of_int(0)
    } else {
        dot_prefix(x, y, (n - 1) as nat).plus(x[n - 1].times(y[n - 1]))
    }
}

/// The number of entries that two vectors have in common.
pub open spec fn common_len<T>(x: Seq<T>, y: Seq<T>) -> nat {
    if x.len() <= y.len() {
        x.len()
    } else {
        y.len()
    }
}

/// The local dot product of two vectors, over the entries that both have.
///
/// `_width` is accepted for the callers' convenience and not read.
pub fn ddot<T: Scalar>(_width: usize, lhs: &[T], rhs: &[T]) -> (r: T)
    ensures
        r == dot_prefix(lhs@, rhs@, common_len(lhs@, rhs@)),
{
    let n: usize = if lhs.len() <= rhs.len() {
        lhs.len()
    } else {
        rhs.len()
    };
    let mut acc = T::from_i32(0);
    let mut i: usize = 0;
    while i < n
        invariant
            i <= n,
            n == common_len(lhs@, rhs@),
            acc == dot_prefix(lhs@, rhs@, i as nat),
        decreases n - i,
    {
        acc = acc.sum(lhs[i].product(rhs[i]));
        i += 1;
    }
    acc
}

/// The sum of the products of the first `n` entries of `x` and `y`, as an
/// integer without bound.
pub open spec fn exact_dot(x: Seq<i64>, y: Seq<i64>, n: nat) -> int
    decreases n,
{
    if n == 0 {
        0
    } else {
        exact_dot(x, y, (n - 1) as nat) + x[n - 1] * y[n - 1]
    }
}

/// Over the integers the dot product does not depend on the order of its
/// arguments: `ddot(x, y)` and `ddot(y, x)` return the same number.
pub proof fn lemma_ddot_commutes(x: Seq<i64>, y: Seq<i64>)
    ensures
        common_len(x, y) == common_len(y, x),
        dot_prefix(x, y, common_len(x, y)) == dot_prefix(y, x, common_len(y, x)),
{
    lemma_dot_prefix_commutes(x, y, common_len(x, y));
}

/// The dot product of two prefixes does not depend on the order of the
/// arguments.
pub proof fn lemma_dot_prefix_commutes(x: Seq<i64>, y: Seq<i64>, n: nat)
    ensures
        dot_prefix(x, y, n) == dot_prefix(y, x, n),
    decreases n,
{
    if n > 0 {
        lemma_dot_prefix_commutes(x, y, (n - 1) as nat);
        let a = x[n - 1];
        let b = y[n - 1];
        assert(a * b == b * a) by (nonlinear_arith);
    }
}

/// A sum of squares is at least each of its partial sums, and none is
/// negative.
proof fn lemma_exact_dot_squares(x: Seq<i64>, n: nat, m: nat)
    requires
        n <= m,
    ensures
        0 <= exact_dot(x, x, n) <= exact_dot(x, x, m),
    decreases m,
{
    if n < m {
        lemma_exact_dot_squares(x, n, (m - 1) as nat);
        let a = x[m - 1];
        assert(a * a >= 0) by (nonlinear_arith);
    } else if n > 0 {
        lemma_exact_dot_squares(x, (n - 1) as nat, (n - 1) as nat);
        let a = x[n - 1];
        assert(a * a >= 0) by (nonlinear_arith);
    }
}

/// The dot product of a vector with itself is not negative wherever the sum
/// of the squares fits the 64-bit integers, and is then that sum.
pub proof fn lemma_ddot_self_nonnegative(x: Seq<i64>, n: nat)
    requires
        exact_dot(x, x, n) <= i64::MAX,
    ensures
        dot_prefix(x, x, n) == exact_dot(x, x, n),
        dot_prefix(x, x, n) >= 0,
    decreases n,
{
    lemma_exact_dot_squares(x, n, n);
    if n > 0 {
        lemma_exact_dot_squares(x, (n - 1) as nat, n);
        lemma_ddot_self_nonnegative(x, (n - 1) as nat);
        let a = x[n - 1];
        assert(a * a >= 0) by (nonlinear_arith);
    }
}

} // verus!
