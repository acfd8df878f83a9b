use vstd::prelude::*;
use vstd::arithmetic::power2::pow2;
use vstd::math::abs;
use crate::math::bits::{bit_and, is_power_of_two};
use crate::math::division::{trunc_div, trunc_rem};

verus! {

/// An integer-like value of fixed width.
///
/// Every value stands for one mathematical integer, its [`value`], within
/// the closed range from [`min_value`] to [`max_value`]. The operations say
/// over these integers what they compute, and ask of their operands that
/// the result is representable: none of them wraps.
///
/// [`value`]: Numeric::value
/// [`min_value`]: Numeric::min_value
/// [`max_value`]: Numeric::max_value
pub trait Numeric: Sized + Copy {
    /// The integer this value stands for.
    spec fn value(self) -> int;

    /// The least representable integer.
    spec fn min_value() -> int;

    /// The greatest representable integer.
    spec fn max_value() -> int;

    /// The total width in bits.
    spec fn bits() -> nat;

    /// The range reaches from below -1 to above 1, is symmetric up to one
    /// extra negative value, and the non-negative part fits the width, which
    /// is a power of two of at least eight.
    proof fn lemma_limits()
        ensures
            1 <= Self::max_value() < pow2(Self::bits()),
            -Self::max_value() - 1 <= Self::min_value() <= -Self::max_value(),
            Self::bits() >= 8,
            is_power_of_two(Self::bits()),
    ;

    /// Every value lies in the range.
    proof fn lemma_in_range(self)
        ensures
            Self::min_value() <= self.value() <= Self::max_value(),
    ;

    /// Zero.
    fn zero() -> (r: Self)
        ensures
            r.value() == 0,
    ;

    /// One.
    fn one() -> (r: Self)
        ensures
            r.value() == 1,
    ;

    /// The value of a small machine integer, where it is representable.
    fn from_i32(k: i32) -> (r: Option<Self>)
        ensures
            match r {
                Some(v) => v.value() == k,
                None => !(Self::min_value() <= k as int <= Self::max_value()),
            },
    ;

    /// The value of a machine count, where it is representable.
    fn from_usize(k: usize) -> (r: Option<Self>)
        ensures
            match r {
                Some(v) => v.value() == k,
                None => !(Self::min_value() <= k as int <= Self::max_value()),
            },
    ;

    /// Narrows to an `i32`, where the value fits one.
    fn to_i32(&self) -> (r: Option<i32>)
        ensures
            match r {
                Some(k) => k == self.value(),
                None => !(i32::MIN <= self.value() <= i32::MAX),
            },
    ;

    /// Narrows to a `usize`, where the value fits one.
    fn to_usize(&self) -> (r: Option<usize>)
        ensures
            match r {
                Some(k) => k == self.value(),
                None => !(0 <= self.value() <= usize::MAX),
            },
    ;

    /// The sum.
    fn add(self, rhs: Self) -> (r: Self)
        requires
            Self::min_value() <= self.value() + rhs.value() <= Self::max_value(),
        ensures
            r.value() == self.value() + rhs.value(),
    ;

    /// The difference.
    fn sub(self, rhs: Self) -> (r: Self)
        requires
            Self::min_value() <= self.value() - rhs.value() <= Self::max_value(),
        ensures
            r.value() == self.value() - rhs.value(),
    ;

    /// The product.
    fn mul(self, rhs: Self) -> (r: Self)
        requires
            Self::min_value() <= self.value() * rhs.value() <= Self::max_value(),
        ensures
            r.value() == self.value() * rhs.value(),
    ;

    /// The product, or `None` where it is not representable.
    fn checked_mul(&self, rhs: &Self) -> (r: Option<Self>)
        ensures
            match r {
                Some(v) => v.value() == self.value() * rhs.value(),
                None => !(Self::min_value() <= self.value() * rhs.value() <= Self::max_value()),
            },
    ;

    /// The quotient, rounded toward zero.
    fn div(self, rhs: Self) -> (r: Self)
        requires
            rhs.value() != 0,
            Self::min_value() <= trunc_div(self.value(), rhs.value()) <= Self::max_value(),
        ensures
            r.value() == trunc_div(self.value(), rhs.value()),
    ;

    /// The remainder of the division rounded toward zero; its sign is that
    /// of the dividend.
    fn rem(self, rhs: Self) -> (r: Self)
        requires
            rhs.value() != 0,
            Self::min_value() <= trunc_div(self.value(), rhs.value()) <= Self::max_value(),
        ensures
            r.value() == trunc_rem(self.value(), rhs.value()),
    ;

    /// The additive inverse.
    fn neg(self) -> (r: Self)
        requires
            Self::min_value() <= -self.value() <= Self::max_value(),
        ensures
            r.value() == -self.value(),
    ;

    /// The magnitude.
    fn abs(self) -> (r: Self)
        requires
            Self::min_value() <= -self.value() <= Self::max_value(),
        ensures
            r.value() == abs(self.value()),
    ;

    /// Whether both stand for the same integer.
    fn equals(&self, other: &Self) -> (r: bool)
        ensures
            r == (self.value() == other.value()),
    ;

    /// Whether `self` is the smaller integer.
    fn less_than(&self, other: &Self) -> (r: bool)
        ensures
            r == (self.value() < other.value()),
    ;

    /// The width in bits, as a machine count.
    fn bit_width() -> (r: usize)
        ensures
            r == Self::bits(),
    ;

    /// A non-negative value shifted left by `k` bits, where the result is
    /// representable.
    fn shl(self, k: usize) -> (r: Self)
        requires
            k < Self::bits(),
        ensures
            0 <= self.value() && self.value() * pow2(k as nat) <= Self::max_value() ==> r.value()
                == self.value() * pow2(k as nat),
    ;

    /// A non-negative value shifted right by `k` bits.
    fn shr(self, k: usize) -> (r: Self)
        requires
            k < Self::bits(),
        ensures
            0 <= self.value() ==> r.value() == self.value() / (pow2(k as nat) as int),
    ;

    /// The bitwise conjunction of two non-negative values.
    fn bitand(self, rhs: Self) -> (r: Self)
        ensures
            0 <= self.value() && 0 <= rhs.value() ==> r.value() == bit_and(
                self.value() as nat,
                rhs.value() as nat,
            ),
    ;
}

/// Whether `v` is representable in `T`.
pub open spec fn fits<T: Numeric>(v: int) -> bool {
    T::min_value() <= v <= T::max_value()
}

} // verus!
