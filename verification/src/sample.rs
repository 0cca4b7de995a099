//! The sample type, which the graph is generic over.

use vstd::prelude::*;

verus! {

/// The arithmetic of one audio sample.
///
/// The graph is written once for every sample type. None of these
/// operations carries a contract: what a node computes is stated as a
/// relation between the arguments and the result of each call, through the
/// predicates below.
pub trait Sample: Copy {
    /// The sample of silence, zero.
    fn silence() -> Self;

    /// `self + other`.
    fn sum(self, other: Self) -> Self;

    /// `self - other`.
    fn difference(self, other: Self) -> Self;

    /// `self * other`.
    fn product(self, other: Self) -> Self;

    /// `self / other`.
    fn quotient(self, other: Self) -> Self;

    /// The sine of `self`, an angle in radians.
    fn sine(self) -> Self;

    /// The ratio of a circle's circumference to its diameter.
    fn pi() -> Self;

    /// The sample with the given binary encoding.
    fn from_bits(bits: u32) -> Self;

    /// The sample nearest to the integer `value`.
    fn from_int(value: i64) -> Self;

    /// `self` rounded up to a whole number, as a count.
    fn ceil_count(self) -> usize;
}

/// `r` is a result of `Sample::silence()`.
#[verifier::inline]
pub open spec fn silent<T: Sample>(r: T) -> bool {
    call_ensures(T::silence, (), r)
}

/// `r` is a result of `a.sum(b)`.
#[verifier::inline]
pub open spec fn sums<T: Sample>(a: T, b: T, r: T) -> bool {
    call_ensures(T::sum, (a, b), r)
}

/// `r` is a result of `a.difference(b)`.
#[verifier::inline]
pub open spec fn differs<T: Sample>(a: T, b: T, r: T) -> bool {
    call_ensures(T::difference, (a, b), r)
}

/// `r` is a result of `a.product(b)`.
#[verifier::inline]
pub open spec fn multiplies<T: Sample>(a: T, b: T, r: T) -> bool {
    call_ensures(T::product, (a, b), r)
}

/// `r` is a result of `a.quotient(b)`.
#[verifier::inline]
pub open spec fn divides<T: Sample>(a: T, b: T, r: T) -> bool {
    call_ensures(T::quotient, (a, b), r)
}

/// `r` is a result of `a.sine()`.
#[verifier::inline]
pub open spec fn is_sine<T: Sample>(a: T, r: T) -> bool {
    call_ensures(T::sine, (a,), r)
}

/// `r` is a result of `Sample::pi()`.
#[verifier::inline]
pub open spec fn is_pi<T: Sample>(r: T) -> bool {
    call_ensures(T::pi, (), r)
}

/// `r` is a result of `Sample::from_bits(bits)`.
#[verifier::inline]
pub open spec fn is_from_bits<T: Sample>(bits: u32, r: T) -> bool {
    call_ensures(T::from_bits, (bits,), r)
}

/// `r` is a result of `Sample::from_int(value)`.
#[verifier::inline]
pub open spec fn is_from_int<T: Sample>(value: i64, r: T) -> bool {
    call_ensures(T::from_int, (value,), r)
}

/// `n` is a result of `a.ceil_count()`.
#[verifier::inline]
pub open spec fn is_count<T: Sample>(a: T, n: usize) -> bool {
    call_ensures(T::ceil_count, (a,), n)
}

} // verus!
