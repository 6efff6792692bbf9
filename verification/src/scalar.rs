use vstd::prelude::*;

verus! {

/// The numbers a network computes with.
///
/// The methods carry no contract of their own: whatever a matrix or
/// network operation states about its result, it states as "this entry is
/// an outcome of that method on those arguments" (see the predicates
/// below). An implementation whose methods have an `ensures` hands those
/// facts on to its callers.
pub trait Scalar: Copy {
    /// The additive identity.
    fn zero() -> Self;

    /// The multiplicative identity.
    fn one() -> Self;

    /// `self + rhs`.
    fn plus(self, rhs: Self) -> Self;

    /// `self - rhs`.
    fn minus(self, rhs: Self) -> Self;

    /// `self * rhs`.
    fn times(self, rhs: Self) -> Self;

    /// `1 / count`, the weight of one example in a batch of `count`.
    fn reciprocal(count: usize) -> Self;

    /// The logistic function `1 / (1 + e^-self)`.
    fn sigmoid(self) -> Self;

    /// The first derivative of the logistic function at `self`.
    fn sigmoid_prime(self) -> Self;

    /// A draw from the uniform distribution on `[lower, upper]`.
    fn uniform(lower: Self, upper: Self) -> Self;
}

/// `r` is an outcome of `T::zero()`.
pub open spec fn is_zero<T: Scalar>(r: T) -> bool {
    call_ensures(T::zero, (), r)
}

/// `r` is an outcome of `T::one()`.
pub open spec fn is_one<T: Scalar>(r: T) -> bool {
    call_ensures(T::one, (), r)
}

/// `r` is an outcome of `a.plus(b)`.
pub open spec fn is_sum<T: Scalar>(a: T, b: T, r: T) -> bool {
    call_ensures(T::plus, (a, b), r)
}

/// `r` is an outcome of `a.minus(b)`.
pub open spec fn is_difference<T: Scalar>(a: T, b: T, r: T) -> bool {
    call_ensures(T::minus, (a, b), r)
}

/// `r` is an outcome of `a.times(b)`.
pub open spec fn is_product<T: Scalar>(a: T, b: T, r: T) -> bool {
    call_ensures(T::times, (a, b), r)
}

/// `r` is an outcome of `T::reciprocal(count)`.
pub open spec fn is_reciprocal<T: Scalar>(count: usize, r: T) -> bool {
    call_ensures(T::reciprocal, (count,), r)
}

/// `r` is an outcome of `x.sigmoid()`.
pub open spec fn is_sigmoid<T: Scalar>(x: T, r: T) -> bool {
    call_ensures(T::sigmoid, (x,), r)
}

/// `r` is an outcome of `x.sigmoid_prime()`.
pub open spec fn is_sigmoid_prime<T: Scalar>(x: T, r: T) -> bool {
    call_ensures(T::sigmoid_prime, (x,), r)
}

/// `r` is an outcome of `T::uniform(lower, upper)`.
pub open spec fn is_uniform<T: Scalar>(lower: T, upper: T, r: T) -> bool {
    call_ensures(T::uniform, (lower, upper), r)
}

/// `acc` is an outcome of the inner product of `xs` and `ys`, summed from
/// the left, starting at zero.
pub open spec fn is_dot<T: Scalar>(xs: Seq<T>, ys: Seq<T>, acc: T) -> bool
    recommends
        xs.len() == ys.len(),
    decreases xs.len(),
{
    if xs.len() == 0 {
        is_zero(acc)
    } else {
        exists|prev: T, term: T|
            is_dot(xs.drop_last(), ys.drop_last(), prev) && is_product(xs.last(), ys.last(), term)
                && #[trigger] is_sum(prev, term, acc)
    }
}

} // verus!
