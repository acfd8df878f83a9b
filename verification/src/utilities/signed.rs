use vstd::prelude::*;
use vstd::arithmetic::div_mod::lemma_small_mod;
use vstd::arithmetic::power2::{pow2, lemma2_to64};
use crate::math::bits::is_power_of_two;
use crate::math::division::lemma_machine_division;
use crate::utilities::numeric_trait::Numeric;
use crate::utilities::primitives::{
    num_abs, num_checked_mul, num_from_i32, num_from_usize, num_one, num_to_i32, num_to_usize,
    num_zero,
};
use crate::utilities::unsigned::{
    lemma_and_u128, lemma_and_u16, lemma_and_u32, lemma_and_u64, lemma_and_u8, lemma_shl_u128,
    lemma_shl_u16, lemma_shl_u32, lemma_shl_u64, lemma_shl_u8, lemma_shr_u128, lemma_shr_u16,
    lemma_shr_u32, lemma_shr_u64, lemma_shr_u8,
};

verus! {

impl Numeric for i8 {
    open spec fn value(self) -> int {
        self as int
    }

    open spec fn min_value() -> int {
        i8::MIN as int
    }

    open spec fn max_value() -> int {
        i8::MAX as int
    }

    open spec fn bits() -> nat {
        8
    }

    proof fn lemma_limits() {
        lemma2_to64();
        reveal_with_fuel(is_power_of_two, 8);
    }

    proof fn lemma_in_range(self) {
    }

    fn zero() -> (r: Self) {
        num_zero::<i8>()
    }

    fn one() -> (r: Self) {
        num_one::<i8>()
    }

    fn from_i32(k: i32) -> (r: Option<Self>) {
        num_from_i32::<i8>(k)
    }

    fn from_usize(k: usize) -> (r: Option<Self>) {
        num_from_usize::<i8>(k)
    }

    fn to_i32(&self) -> (r: Option<i32>) {
        num_to_i32::<i8>(self)
    }

    fn to_usize(&self) -> (r: Option<usize>) {
        num_to_usize::<i8>(self)
    }

    fn add(self, rhs: Self) -> (r: Self) {
        self + rhs
    }

    fn sub(self, rhs: Self) -> (r: Self) {
        self - rhs
    }

    fn mul(self, rhs: Self) -> (r: Self) {
        self * rhs
    }

    fn checked_mul(&self, rhs: &Self) -> (r: Option<Self>) {
        num_checked_mul::<i8>(self, rhs)
    }

    fn div(self, rhs: Self) -> (r: Self) {
        proof {
            lemma_machine_division(self as int, rhs as int);
        }
        self / rhs
    }

    fn rem(self, rhs: Self) -> (r: Self) {
        proof {
            lemma_machine_division(self as int, rhs as int);
        }
        self % rhs
    }

    fn neg(self) -> (r: Self) {
        -self
    }

    fn abs(self) -> (r: Self) {
        num_abs::<i8>(self)
    }

    fn equals(&self, other: &Self) -> (r: bool) {
        *self == *other
    }

    fn less_than(&self, other: &Self) -> (r: bool) {
        *self < *other
    }

    fn bit_width() -> (r: usize) {
        core::mem::size_of::<i8>() * 8
    }

    fn shl(self, k: usize) -> (r: Self) {
        proof {
            if 0 <= self && self * pow2(k as nat) <= i8::MAX {
                lemma_shl_u8(self as u8, k);
                lemma_small_mod((self * pow2(k as nat)) as nat, (u8::MAX + 1) as nat);
                assert(self >= 0 && k < 8 ==> (self << k) == ((self as u8) << k) as i8)
                    by (bit_vector);
            }
        }
        self << k
    }

    fn shr(self, k: usize) -> (r: Self) {
        proof {
            if self >= 0 {
                lemma_shr_u8(self as u8, k);
                assert(self >= 0 && k < 8 ==> (self >> k) == ((self as u8) >> k) as i8)
                    by (bit_vector);
            }
        }
        self >> k
    }

    fn bitand(self, rhs: Self) -> (r: Self) {
        proof {
            if self >= 0 && rhs >= 0 {
                lemma_and_u8(self as u8, rhs as u8);
                assert(self >= 0 && rhs >= 0 ==> (self & rhs) == ((self as u8) & (rhs as u8))
                    as i8) by (bit_vector);
            }
        }
        self & rhs
    }
}

impl Numeric for i16 {
    open spec fn value(self) -> int {
        self as int
    }

    open spec fn min_value() -> int {
        i16::MIN as int
    }

    open spec fn max_value() -> int {
        i16::MAX as int
    }

    open spec fn bits() -> nat {
        16
    }

    proof fn lemma_limits() {
        lemma2_to64();
        reveal_with_fuel(is_power_of_two, 8);
    }

    proof fn lemma_in_range(self) {
    }

    fn zero() -> (r: Self) {
        num_zero::<i16>()
    }

    fn one() -> (r: Self) {
        num_one::<i16>()
    }

    fn from_i32(k: i32) -> (r: Option<Self>) {
        num_from_i32::<i16>(k)
    }

    fn from_usize(k: usize) -> (r: Option<Self>) {
        num_from_usize::<i16>(k)
    }

    fn to_i32(&self) -> (r: Option<i32>) {
        num_to_i32::<i16>(self)
    }

    fn to_usize(&self) -> (r: Option<usize>) {
        num_to_usize::<i16>(self)
    }

    fn add(self, rhs: Self) -> (r: Self) {
        self + rhs
    }

    fn sub(self, rhs: Self) -> (r: Self) {
        self - rhs
    }

    fn mul(self, rhs: Self) -> (r: Self) {
        self * rhs
    }

    fn checked_mul(&self, rhs: &Self) -> (r: Option<Self>) {
        num_checked_mul::<i16>(self, rhs)
    }

    fn div(self, rhs: Self) -> (r: Self) {
        proof {
            lemma_machine_division(self as int, rhs as int);
        }
        self / rhs
    }

    fn rem(self, rhs: Self) -> (r: Self) {
        proof {
            lemma_machine_division(self as int, rhs as int);
        }
        self % rhs
    }

    fn neg(self) -> (r: Self) {
        -self
    }

    fn abs(self) -> (r: Self) {
        num_abs::<i16>(self)
    }

    fn equals(&self, other: &Self) -> (r: bool) {
        *self == *other
    }

    fn less_than(&self, other: &Self) -> (r: bool) {
        *self < *other
    }

    fn bit_width() -> (r: usize) {
        core::mem::size_of::<i16>() * 8
    }

    fn shl(self, k: usize) -> (r: Self) {
        proof {
            if 0 <= self && self * pow2(k as nat) <= i16::MAX {
                lemma_shl_u16(self as u16, k);
                lemma_small_mod((self * pow2(k as nat)) as nat, (u16::MAX + 1) as nat);
                assert(self >= 0 && k < 16 ==> (self << k) == ((self as u16) << k) as i16)
                    by (bit_vector);
            }
        }
        self << k
    }

    fn shr(self, k: usize) -> (r: Self) {
        proof {
            if self >= 0 {
                lemma_shr_u16(self as u16, k);
                assert(self >= 0 && k < 16 ==> (self >> k) == ((self as u16) >> k) as i16)
                    by (bit_vector);
            }
        }
        self >> k
    }

    fn bitand(self, rhs: Self) -> (r: Self) {
        proof {
            if self >= 0 && rhs >= 0 {
                lemma_and_u16(self as u16, rhs as u16);
                assert(self >= 0 && rhs >= 0 ==> (self & rhs) == ((self as u16) & (rhs as u16))
                    as i16) by (bit_vector);
            }
        }
        self & rhs
    }
}

impl Numeric for i32 {
    open spec fn value(self) -> int {
        self as int
    }

    open spec fn min_value() -> int {
        i32::MIN as int
    }

    open spec fn max_value() -> int {
        i32::MAX as int
    }

    open spec fn bits() -> nat {
        32
    }

    proof fn lemma_limits() {
        lemma2_to64();
        reveal_with_fuel(is_power_of_two, 8);
    }

    proof fn lemma_in_range(self) {
    }

    fn zero() -> (r: Self) {
        num_zero::<i32>()
    }

    fn one() -> (r: Self) {
        num_one::<i32>()
    }

    fn from_i32(k: i32) -> (r: Option<Self>) {
        num_from_i32::<i32>(k)
    }

    fn from_usize(k: usize) -> (r: Option<Self>) {
        num_from_usize::<i32>(k)
    }

    fn to_i32(&self) -> (r: Option<i32>) {
        num_to_i32::<i32>(self)
    }

    fn to_usize(&self) -> (r: Option<usize>) {
        num_to_usize::<i32>(self)
    }

    fn add(self, rhs: Self) -> (r: Self) {
        self + rhs
    }

    fn sub(self, rhs: Self) -> (r: Self) {
        self - rhs
    }

    fn mul(self, rhs: Self) -> (r: Self) {
        self * rhs
    }

    fn checked_mul(&self, rhs: &Self) -> (r: Option<Self>) {
        num_checked_mul::<i32>(self, rhs)
    }

    fn div(self, rhs: Self) -> (r: Self) {
        proof {
            lemma_machine_division(self as int, rhs as int);
        }
        self / rhs
    }

    fn rem(self, rhs: Self) -> (r: Self) {
        proof {
            lemma_machine_division(self as int, rhs as int);
        }
        self % rhs
    }

    fn neg(self) -> (r: Self) {
        -self
    }

    fn abs(self) -> (r: Self) {
        num_abs::<i32>(self)
    }

    fn equals(&self, other: &Self) -> (r: bool) {
        *self == *other
    }

    fn less_than(&self, other: &Self) -> (r: bool) {
        *self < *other
    }

    fn bit_width() -> (r: usize) {
        core::mem::size_of::<i32>() * 8
    }

    fn shl(self, k: usize) -> (r: Self) {
        proof {
            if 0 <= self && self * pow2(k as nat) <= i32::MAX {
                lemma_shl_u32(self as u32, k);
                lemma_small_mod((self * pow2(k as nat)) as nat, (u32::MAX + 1) as nat);
                assert(self >= 0 && k < 32 ==> (self << k) == ((self as u32) << k) as i32)
                    by (bit_vector);
            }
        }
        self << k
    }

    fn shr(self, k: usize) -> (r: Self) {
        proof {
            if self >= 0 {
                lemma_shr_u32(self as u32, k);
                assert(self >= 0 && k < 32 ==> (self >> k) == ((self as u32) >> k) as i32)
                    by (bit_vector);
            }
        }
        self >> k
    }

    fn bitand(self, rhs: Self) -> (r: Self) {
        proof {
            if self >= 0 && rhs >= 0 {
                lemma_and_u32(self as u32, rhs as u32);
                assert(self >= 0 && rhs >= 0 ==> (self & rhs) == ((self as u32) & (rhs as u32))
                    as i32) by (bit_vector);
            }
        }
        self & rhs
    }
}

impl Numeric for i64 {
    open spec fn value(self) -> int {
        self as int
    }

    open spec fn min_value() -> int {
        i64::MIN as int
    }

    open spec fn max_value() -> int {
        i64::MAX as int
    }

    open spec fn bits() -> nat {
        64
    }

    proof fn lemma_limits() {
        lemma2_to64();
        reveal_with_fuel(is_power_of_two, 8);
    }

    proof fn lemma_in_range(self) {
    }

    fn zero() -> (r: Self) {
        num_zero::<i64>()
    }

    fn one() -> (r: Self) {
        num_one::<i64>()
    }

    fn from_i32(k: i32) -> (r: Option<Self>) {
        num_from_i32::<i64>(k)
    }

    fn from_usize(k: usize) -> (r: Option<Self>) {
        num_from_usize::<i64>(k)
    }

    fn to_i32(&self) -> (r: Option<i32>) {
        num_to_i32::<i64>(self)
    }

    fn to_usize(&self) -> (r: Option<usize>) {
        num_to_usize::<i64>(self)
    }

    fn add(self, rhs: Self) -> (r: Self) {
        self + rhs
    }

    fn sub(self, rhs: Self) -> (r: Self) {
        self - rhs
    }

    fn mul(self, rhs: Self) -> (r: Self) {
        self * rhs
    }

    fn checked_mul(&self, rhs: &Self) -> (r: Option<Self>) {
        num_checked_mul::<i64>(self, rhs)
    }

    fn div(self, rhs: Self) -> (r: Self) {
        proof {
            lemma_machine_division(self as int, rhs as int);
        }
        self / rhs
    }

    fn rem(self, rhs: Self) -> (r: Self) {
        proof {
            lemma_machine_division(self as int, rhs as int);
        }
        self % rhs
    }

    fn neg(self) -> (r: Self) {
        -self
    }

    fn abs(self) -> (r: Self) {
        num_abs::<i64>(self)
    }

    fn equals(&self, other: &Self) -> (r: bool) {
        *self == *other
    }

    fn less_than(&self, other: &Self) -> (r: bool) {
        *self < *other
    }

    fn bit_width() -> (r: usize) {
        core::mem::size_of::<i64>() * 8
    }

    fn shl(self, k: usize) -> (r: Self) {
        proof {
            if 0 <= self && self * pow2(k as nat) <= i64::MAX {
                lemma_shl_u64(self as u64, k);
                lemma_small_mod((self * pow2(k as nat)) as nat, (u64::MAX + 1) as nat);
                assert(self >= 0 && k < 64 ==> (self << k) == ((self as u64) << k) as i64)
                    by (bit_vector);
            }
        }
        self << k
    }

    fn shr(self, k: usize) -> (r: Self) {
        proof {
            if self >= 0 {
                lemma_shr_u64(self as u64, k);
                assert(self >= 0 && k < 64 ==> (self >> k) == ((self as u64) >> k) as i64)
                    by (bit_vector);
            }
        }
        self >> k
    }

    fn bitand(self, rhs: Self) -> (r: Self) {
        proof {
            if self >= 0 && rhs >= 0 {
                lemma_and_u64(self as u64, rhs as u64);
                assert(self >= 0 && rhs >= 0 ==> (self & rhs) == ((self as u64) & (rhs as u64))
                    as i64) by (bit_vector);
            }
        }
        self & rhs
    }
}

impl Numeric for i128 {
    open spec fn value(self) -> int {
        self as int
    }

    open spec fn min_value() -> int {
        i128::MIN as int
    }

    open spec fn max_value() -> int {
        i128::MAX as int
    }

    open spec fn bits() -> nat {
        128
    }

    proof fn lemma_limits() {
        lemma2_to64();
        vstd::arithmetic::power2::lemma_pow2_adds(64, 64);
        reveal_with_fuel(is_power_of_two, 8);
    }

    proof fn lemma_in_range(self) {
    }

    fn zero() -> (r: Self) {
        num_zero::<i128>()
    }

    fn one() -> (r: Self) {
        num_one::<i128>()
    }

    fn from_i32(k: i32) -> (r: Option<Self>) {
        num_from_i32::<i128>(k)
    }

    fn from_usize(k: usize) -> (r: Option<Self>) {
        num_from_usize::<i128>(k)
    }

    fn to_i32(&self) -> (r: Option<i32>) {
        num_to_i32::<i128>(self)
    }

    fn to_usize(&self) -> (r: Option<usize>) {
        num_to_usize::<i128>(self)
    }

    fn add(self, rhs: Self) -> (r: Self) {
        self + rhs
    }

    fn sub(self, rhs: Self) -> (r: Self) {
        self - rhs
    }

    fn mul(self, rhs: Self) -> (r: Self) {
        self * rhs
    }

    fn checked_mul(&self, rhs: &Self) -> (r: Option<Self>) {
        num_checked_mul::<i128>(self, rhs)
    }

    fn div(self, rhs: Self) -> (r: Self) {
        proof {
            lemma_machine_division(self as int, rhs as int);
        }
        self / rhs
    }

    fn rem(self, rhs: Self) -> (r: Self) {
        proof {
            lemma_machine_division(self as int, rhs as int);
        }
        self % rhs
    }

    fn neg(self) -> (r: Self) {
        -self
    }

    fn abs(self) -> (r: Self) {
        num_abs::<i128>(self)
    }

    fn equals(&self, other: &Self) -> (r: bool) {
        *self == *other
    }

    fn less_than(&self, other: &Self) -> (r: bool) {
        *self < *other
    }

    fn bit_width() -> (r: usize) {
        core::mem::size_of::<i128>() * 8
    }

    fn shl(self, k: usize) -> (r: Self) {
        proof {
            if 0 <= self && self * pow2(k as nat) <= i128::MAX {
                lemma_shl_u128(self as u128, k);
                lemma_small_mod((self * pow2(k as nat)) as nat, (u128::MAX + 1) as nat);
                assert(self >= 0 && k < 128 ==> (self << k) == ((self as u128) << k) as i128)
                    by (bit_vector);
            }
        }
        self << k
    }

    fn shr(self, k: usize) -> (r: Self) {
        proof {
            if self >= 0 {
                lemma_shr_u128(self as u128, k);
                assert(self >= 0 && k < 128 ==> (self >> k) == ((self as u128) >> k) as i128)
                    by (bit_vector);
            }
        }
        self >> k
    }

    fn bitand(self, rhs: Self) -> (r: Self) {
        proof {
            if self >= 0 && rhs >= 0 {
                lemma_and_u128(self as u128, rhs as u128);
                assert(self >= 0 && rhs >= 0 ==> (self & rhs) == ((self as u128) & (rhs as u128))
                    as i128) by (bit_vector);
            }
        }
        self & rhs
    }
}

} // verus!
