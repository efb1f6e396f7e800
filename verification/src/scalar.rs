use vstd::prelude::*;

verus! {

/// The arithmetic that the solver and its kernels need from an element
/// type.
///
/// Every operation has a specification function, which says what it
/// computes, and an executable function that computes it. The contracts of
/// the kernels are stated over the specification functions, so they fix the
/// order in which the operations are applied, not only their mathematical
/// value: with a floating-point element type the same inputs give the same
/// bits.
pub trait Scalar: Sized + Copy {
    /// The element that stands for the integer `v`.
    spec fn of_int(v: i32) -> Self;

    /// The sum of two elements.
    spec fn plus(self, rhs: Self) -> Self;

    /// The product of two elements.
    spec fn times(self, rhs: Self) -> Self;

    /// Whether the element is the multiplicative identity.
    spec fn is_unit(self) -> bool;

    /// The element with the opposite sign.
    spec fn negation(self) -> Self;

    /// The quotient of two elements.
    spec fn quotient(self, rhs: Self) -> Self;

    /// The square root of an element.
    spec fn root(self) -> Self;

    /// Whether the element is less than or equal to `rhs`.
    spec fn leq(self, rhs: Self) -> bool;

    /// The absolute value of the difference of two elements.
    spec fn gap(self, rhs: Self) -> Self;

    fn from_i32(v: i32) -> (r: Self)
        ensures
            r == Self::of_int(v),
    ;

    fn sum(self, rhs: Self) -> (r: Self)
        ensures
            r == self.plus(rhs),
    ;

    fn product(self, rhs: Self) -> (r: Self)
        ensures
            r == self.times(rhs),
    ;

    fn is_one(self) -> (b: bool)
        ensures
            b == self.is_unit(),
    ;

    fn negated(self) -> (r: Self)
        ensures
            r == self.negation(),
    ;

    fn divided_by(self, rhs: Self) -> (r: Self)
        ensures
            r == self.quotient(rhs),
    ;

    fn square_root(self) -> (r: Self)
        ensures
            r == self.root(),
    ;

    fn at_most(self, rhs: Self) -> (b: bool)
        ensures
            b == self.leq(rhs),
    ;

    fn distance(self, rhs: Self) -> (r: Self)
        ensures
            r == self.gap(rhs),
    ;
}

/// `r` is the integer square root of `a`: the largest integer whose square
/// is not above `a`.
pub open spec fn is_integer_root(a: int, r: int) -> bool {
    0 <= r && r * r <= a < (r + 1) * (r + 1)
}

/// The integer square root of `a`, and zero where `a` is negative.
pub open spec fn integer_root(a: int) -> int {
    if a < 0 {
        0
    } else {
        choose|r: int| is_integer_root(a, r)
    }
}

/// A number has at most one integer square root.
pub proof fn lemma_integer_root_unique(a: int, r: int, s: int)
    requires
        is_integer_root(a, r),
        is_integer_root(a, s),
    ensures
        r == s,
{
    if r < s {
        assert((r + 1) * (r + 1) <= s * s) by (nonlinear_arith)
            requires
                0 <= r + 1 <= s,
        ;
    }
    if s < r {
        assert((s + 1) * (s + 1) <= r * r) by (nonlinear_arith)
            requires
                0 <= s + 1 <= r,
        ;
    }
}

/// The integer square root of a 64-bit integer.
pub fn square_root_of(a: i64) -> (r: i64)
    ensures
        r == integer_root(a as int),
        a >= 0 ==> is_integer_root(a as int, r as int),
{
    if a < 0 {
        return 0;
    }
    let mut lo: i64 = 0;
    let mut hi: i64 = 3037000500;
    assert(3037000500 * 3037000500 > i64::MAX) by (nonlinear_arith);
    while hi - lo > 1
        invariant
            0 <= lo < hi <= 3037000500,
            lo * lo <= a < hi * hi,
        decreases hi - lo,
    {
        let mid = lo + (hi - lo) / 2;
        assert(0 <= mid * mid <= 3037000499 * 3037000499) by (nonlinear_arith)
            requires
                0 <= mid <= 3037000499,
        ;
        if mid * mid <= a {
            lo = mid;
        } else {
            hi = mid;
        }
    }
    proof {
        assert(is_integer_root(a as int, lo as int));
        lemma_integer_root_unique(a as int, lo as int, integer_root(a as int));
    }
    lo
}

/// The 64-bit integers with wrapping sums and products, with the truncated
/// quotient where there is one in range and zero where there is none, and
/// with the integer square root.
impl Scalar for i64 {
    open spec fn of_int(v: i32) -> i64 {
        v as i64
    }

    open spec fn plus(self, rhs: i64) -> i64 {
        self.wrapping_add(rhs)
    }

    open spec fn times(self, rhs: i64) -> i64 {
        self.wrapping_mul(rhs)
    }

    open spec fn is_unit(self) -> bool {
        self == 1
    }

    open spec fn negation(self) -> i64 {
        0i64.wrapping_sub(self)
    }

    open spec fn quotient(self, rhs: i64) -> i64 {
        match self.checked_div(rhs) {
            Some(q) => q,
            None => 0i64,
        }
    }

    open spec fn root(self) -> i64 {
        integer_root(self as int) as i64
    }

    open spec fn leq(self, rhs: i64) -> bool {
        self <= rhs
    }

    open spec fn gap(self, rhs: i64) -> i64 {
        if self >= rhs {
            self.wrapping_sub(rhs)
        } else {
            rhs.wrapping_sub(self)
        }
    }

    fn from_i32(v: i32) -> (r: i64) {
        v as i64
    }

    fn sum(self, rhs: i64) -> (r: i64) {
        self.wrapping_add(rhs)
    }

    fn product(self, rhs: i64) -> (r: i64) {
        self.wrapping_mul(rhs)
    }

    fn is_one(self) -> (b: bool) {
        self == 1
    }

    fn negated(self) -> (r: i64) {
        0i64.wrapping_sub(self)
    }

    fn divided_by(self, rhs: i64) -> (r: i64) {
        match self.checked_div(rhs) {
            Some(q) => q,
            None => 0i64,
        }
    }

    fn square_root(self) -> (r: i64) {
        square_root_of(self)
    }

    fn at_most(self, rhs: i64) -> (b: bool) {
        self <= rhs
    }

    fn distance(self, rhs: i64) -> (r: i64) {
        if self >= rhs {
            self.wrapping_sub(rhs)
        } else {
            rhs.wrapping_sub(self)
        }
    }
}

} // verus!
