//! The arithmetic that the solver is generic over.
//!
//! The solver never looks inside a scalar. It only combines scalars through the
//! operations of [`Scalar`], and its contracts say which operation produced
//! which value: `is_sum(a, b, r)` reads "`r` is a value that `a.add(b)` may
//! return". For an implementation whose operations are functions of their
//! arguments, such a statement fixes `r`.

use vstd::prelude::*;

verus! {

/// A number type the solver can compute with.
pub trait Scalar: Copy {
    /// The scalar that stands for the whole number `n`.
    fn from_index(n: usize) -> Self;

    /// `self + rhs`.
    fn add(self, rhs: Self) -> Self;

    /// `self - rhs`.
    fn sub(self, rhs: Self) -> Self;

    /// `self * rhs`.
    fn mul(self, rhs: Self) -> Self;

    /// `self / rhs`.
    fn div(self, rhs: Self) -> Self;

    /// The larger of `self` and `rhs`.
    fn max(self, rhs: Self) -> Self;

    /// The smaller of `self` and `rhs`.
    fn min(self, rhs: Self) -> Self;

    /// The largest whole number that is not above `self`, as an index; the
    /// nearest index where that number is outside the range of `usize`.
    fn floor_index(self) -> usize;
}

/// `r` stands for the whole number `n`.
pub open spec fn is_whole<T: Scalar>(n: usize, r: T) -> bool {
    call_ensures(T::from_index, (n,), r)
}

/// `r` is `a + b`.
pub open spec fn is_sum<T: Scalar>(a: T, b: T, r: T) -> bool {
    call_ensures(T::add, (a, b), r)
}

/// `r` is `a - b`.
pub open spec fn is_diff<T: Scalar>(a: T, b: T, r: T) -> bool {
    call_ensures(T::sub, (a, b), r)
}

/// `r` is `a * b`.
pub open spec fn is_prod<T: Scalar>(a: T, b: T, r: T) -> bool {
    call_ensures(T::mul, (a, b), r)
}

/// `r` is `a / b`.
pub open spec fn is_quot<T: Scalar>(a: T, b: T, r: T) -> bool {
    call_ensures(T::div, (a, b), r)
}

/// `r` is the larger of `a` and `b`.
pub open spec fn is_max<T: Scalar>(a: T, b: T, r: T) -> bool {
    call_ensures(T::max, (a, b), r)
}

/// `r` is the smaller of `a` and `b`.
pub open spec fn is_min<T: Scalar>(a: T, b: T, r: T) -> bool {
    call_ensures(T::min, (a, b), r)
}

/// `k` is the whole part of `a`.
pub open spec fn is_floor<T: Scalar>(a: T, k: usize) -> bool {
    call_ensures(T::floor_index, (a,), k)
}

} // verus!
