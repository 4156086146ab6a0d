//! Numbers that the matrix and reduction kernels compute with.
//!
//! The kernels are stated for every type with a zero, a sum and a product.
//! Nothing is taken for granted of the sum: rounding makes the order of the
//! operands matter, so the contracts say in which order they are added up.
use vstd::prelude::*;

verus! {

/// A number.
pub trait Scalar: Copy {
    /// The number that sums start from.
    spec fn nothing() -> Self;

    /// The sum of two numbers.
    spec fn sum(self, rhs: Self) -> Self;

    /// The product of two numbers.
    spec fn product(self, rhs: Self) -> Self;

    /// The number that sums start from.
    fn zero() -> (r: Self)
        ensures
            r == Self::nothing(),
    ;

    /// The sum of two numbers.
    fn plus(self, rhs: Self) -> (r: Self)
        ensures
            r == self.sum(rhs),
    ;

    /// The product of two numbers.
    fn times(self, rhs: Self) -> (r: Self)
        ensures
            r == self.product(rhs),
    ;
}

/// Whole numbers modulo 2^32.
impl Scalar for u32 {
    open spec fn nothing() -> u32 {
        0
    }

    open spec fn sum(self, rhs: u32) -> u32 {
        self.wrapping_add(rhs)
    }

    open spec fn product(self, rhs: u32) -> u32 {
        self.wrapping_mul(rhs)
    }

    fn zero() -> u32 {
        0
    }

    fn plus(self, rhs: u32) -> u32 {
        self.wrapping_add(rhs)
    }

    fn times(self, rhs: u32) -> u32 {
        self.wrapping_mul(rhs)
    }
}

/// Sums can be taken in any order and any grouping, and zero adds nothing.
#[verifier::opaque]
pub open spec fn sums_freely<T: Scalar>() -> bool {
    &&& forall|x: T, y: T| #[trigger] x.sum(y) == y.sum(x)
    &&& forall|x: T, y: T, z: T| #[trigger] x.sum(y).sum(z) == x.sum(y.sum(z))
    &&& forall|x: T| #[trigger] x.sum(T::nothing()) == x
}

/// Two numbers can be swapped in a sum.
#[verifier::opaque]
pub open spec fn sums_commute<T: Scalar>() -> bool {
    forall|x: T, y: T| #[trigger] x.sum(y) == y.sum(x)
}

/// Whole numbers modulo 2^32 sum freely.
pub proof fn law_whole_numbers_sum_freely()
    ensures
        sums_freely::<u32>(),
        sums_commute::<u32>(),
{
    reveal(sums_freely);
    reveal(sums_commute);
}

/// Two numbers can be swapped.
pub(crate) proof fn lemma_commute<T: Scalar>(x: T, y: T)
    requires
        sums_commute::<T>(),
    ensures
        x.sum(y) == y.sum(x),
{
    reveal(sums_commute);
}

/// Two numbers can be swapped.
pub(crate) proof fn lemma_swap<T: Scalar>(x: T, y: T)
    requires
        sums_freely::<T>(),
    ensures
        x.sum(y) == y.sum(x),
{
    reveal(sums_freely);
}

/// Three numbers can be grouped either way.
pub(crate) proof fn lemma_regroup<T: Scalar>(x: T, y: T, z: T)
    requires
        sums_freely::<T>(),
    ensures
        x.sum(y).sum(z) == x.sum(y.sum(z)),
{
    reveal(sums_freely);
}

/// Zero adds nothing.
pub(crate) proof fn lemma_zero<T: Scalar>(x: T)
    requires
        sums_freely::<T>(),
    ensures
        x.sum(T::nothing()) == x,
        T::nothing().sum(x) == x,
{
    reveal(sums_freely);
    assert(T::nothing().sum(x) == x.sum(T::nothing()));
}

} // verus!
