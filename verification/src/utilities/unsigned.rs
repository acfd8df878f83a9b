use vstd::prelude::*;
use vstd::arithmetic::div_mod::{lemma_mul_mod_noop_general, lemma_small_mod};
use vstd::arithmetic::power2::{pow2, lemma2_to64, lemma_pow2_pos, lemma_pow2_unfold};
use vstd::bits::{
    lemma_u128_shr_is_div, lemma_u16_shr_is_div, lemma_u32_shr_is_div, lemma_u64_shr_is_div,
    lemma_u8_shr_is_div,
};
use crate::math::bits::bit_and;
use crate::utilities::decimal::decimal_string;
use crate::utilities::primitives::{num_from_str_radix, num_one, num_zero, parsed_integer};
use crate::utilities::u_to_i::UTraits;

verus! {

/// The machine conjunction of two `u8` is the conjunction of the numbers.
pub(crate) proof fn lemma_and_u8(a: u8, b: u8)
    ensures
        (a & b) as nat == bit_and(a as nat, b as nat),
    decreases a,
{
    if a == 0 {
        assert(0u8 & b == 0) by (bit_vector);
    } else {
        lemma_and_u8(a / 2, b / 2);
        assert((a & b) == 2 * ((a / 2) & (b / 2)) + (if a % 2 == 1 && b % 2 == 1 {
            1u8
        } else {
            0u8
        })) by (bit_vector);
    }
}

/// A left shift of a `u8` multiplies by a power of two and drops what
/// leaves the width.
pub(crate) proof fn lemma_shl_u8(x: u8, k: usize)
    requires
        k < 8,
    ensures
        (x << k) == (x * pow2(k as nat)) % (u8::MAX + 1),
        u8::MAX + 1 == pow2(8),
    decreases k,
{
    let wrap: int = u8::MAX + 1;
    lemma2_to64();
    lemma_pow2_pos(k as nat);
    if k == 0 {
        assert(x << 0usize == x) by (bit_vector);
        lemma_small_mod(x as nat, wrap as nat);
        assert(x * pow2(0) == x);
    } else {
        let j = (k - 1) as usize;
        lemma_pow2_unfold(k as nat);
        lemma_pow2_pos(j as nat);
        let z = x * pow2(j as nat);
        assert(x * pow2(k as nat) == 2 * z) by (nonlinear_arith)
            requires
                pow2(k as nat) == 2 * pow2(j as nat),
                z == x * pow2(j as nat),
        ;
        lemma_shl_u8(x, j);
        let y = x << j;
        assert(k >= 1 && k < 8 && j == k - 1 ==> (x << k) == ((x << j) << 1usize))
            by (bit_vector);
        assert((y << 1usize) == (2 * y) % (u8::MAX + 1)) by (bit_vector);
        lemma_mul_mod_noop_general(2, z, wrap);
        assert(y == z % wrap);
        assert((x << k) == (2 * y) % wrap);
        assert((2 * (z % wrap)) % wrap == (2 * z) % wrap);
        assert((x * pow2(k as nat)) % wrap == (2 * z) % wrap);
    }
}

/// A right shift of a `u8` divides by a power of two.
pub(crate) proof fn lemma_shr_u8(x: u8, k: usize)
    requires
        k < 8,
    ensures
        (x >> k) == x as int / (pow2(k as nat) as int),
{
    lemma_u8_shr_is_div(x, k as u8);
    assert(k < 8 ==> (x >> k) == (x >> (k as u8))) by (bit_vector);
}

impl UTraits for u8 {
    open spec fn value(self) -> int {
        self as int
    }

    open spec fn max_value() -> int {
        u8::MAX as int
    }

    open spec fn bits() -> nat {
        8
    }

    open spec fn parsed(s: Seq<char>, radix: u32) -> Option<int> {
        parsed_integer(s, radix, 0, u8::MAX as int)
    }

    proof fn lemma_limits() {
        lemma2_to64();
    }

    proof fn lemma_in_range(self) {
    }

    fn zero() -> (r: Self) {
        num_zero::<u8>()
    }

    fn one() -> (r: Self) {
        num_one::<u8>()
    }

    fn add(self, rhs: Self) -> (r: Self) {
        self + rhs
    }

    fn sub(self, rhs: Self) -> (r: Self) {
        self - rhs
    }

    fn mul(self, rhs: Self) -> (r: Self) {
        self * rhs
    }

    fn div(self, rhs: Self) -> (r: Self) {
        self / rhs
    }

    fn rem(self, rhs: Self) -> (r: Self) {
        self % rhs
    }

    fn equals(&self, other: &Self) -> (r: bool) {
        *self == *other
    }

    fn less_than(&self, other: &Self) -> (r: bool) {
        *self < *other
    }

    fn bitand(self, rhs: Self) -> (r: Self) {
        proof {
            lemma_and_u8(self, rhs);
        }
        self & rhs
    }

    fn shl(self, k: usize) -> (r: Self) {
        proof {
            lemma_shl_u8(self, k);
        }
        self << k
    }

    fn shr(self, k: usize) -> (r: Self) {
        proof {
            lemma_shr_u8(self, k);
        }
        self >> k
    }

    fn from_str_radix(s: &str, radix: u32) -> (r: Option<Self>) {
        num_from_str_radix::<u8>(s, radix)
    }

    fn decimal(&self) -> (r: String) {
        decimal_string(*self as u128)
    }
}

/// The machine conjunction of two `u16` is the conjunction of the numbers.
pub(crate) proof fn lemma_and_u16(a: u16, b: u16)
    ensures
        (a & b) as nat == bit_and(a as nat, b as nat),
    decreases a,
{
    if a == 0 {
        assert(0u16 & b == 0) by (bit_vector);
    } else {
        lemma_and_u16(a / 2, b / 2);
        assert((a & b) == 2 * ((a / 2) & (b / 2)) + (if a % 2 == 1 && b % 2 == 1 {
            1u16
        } else {
            0u16
        })) by (bit_vector);
    }
}

/// A left shift of a `u16` multiplies by a power of two and drops what
/// leaves the width.
pub(crate) proof fn lemma_shl_u16(x: u16, k: usize)
    requires
        k < 16,
    ensures
        (x << k) == (x * pow2(k as nat)) % (u16::MAX + 1),
        u16::MAX + 1 == pow2(16),
    decreases k,
{
    let wrap: int = u16::MAX + 1;
    lemma2_to64();
    lemma_pow2_pos(k as nat);
    if k == 0 {
        assert(x << 0usize == x) by (bit_vector);
        lemma_small_mod(x as nat, wrap as nat);
        assert(x * pow2(0) == x);
    } else {
        let j = (k - 1) as usize;
        lemma_pow2_unfold(k as nat);
        lemma_pow2_pos(j as nat);
        let z = x * pow2(j as nat);
        assert(x * pow2(k as nat) == 2 * z) by (nonlinear_arith)
            requires
                pow2(k as nat) == 2 * pow2(j as nat),
                z == x * pow2(j as nat),
        ;
        lemma_shl_u16(x, j);
        let y = x << j;
        assert(k >= 1 && k < 16 && j == k - 1 ==> (x << k) == ((x << j) << 1usize))
            by (bit_vector);
        assert((y << 1usize) == (2 * y) % (u16::MAX + 1)) by (bit_vector);
        lemma_mul_mod_noop_general(2, z, wrap);
        assert(y == z % wrap);
        assert((x << k) == (2 * y) % wrap);
        assert((2 * (z % wrap)) % wrap == (2 * z) % wrap);
        assert((x * pow2(k as nat)) % wrap == (2 * z) % wrap);
    }
}

/// A right shift of a `u16` divides by a power of two.
pub(crate) proof fn lemma_shr_u16(x: u16, k: usize)
    requires
        k < 16,
    ensures
        (x >> k) == x as int / (pow2(k as nat) as int),
{
    lemma_u16_shr_is_div(x, k as u16);
    assert(k < 16 ==> (x >> k) == (x >> (k as u16))) by (bit_vector);
}

impl UTraits for u16 {
    open spec fn value(self) -> int {
        self as int
    }

    open spec fn max_value() -> int {
        u16::MAX as int
    }

    open spec fn bits() -> nat {
        16
    }

    open spec fn parsed(s: Seq<char>, radix: u32) -> Option<int> {
        parsed_integer(s, radix, 0, u16::MAX as int)
    }

    proof fn lemma_limits() {
        lemma2_to64();
    }

    proof fn lemma_in_range(self) {
    }

    fn zero() -> (r: Self) {
        num_zero::<u16>()
    }

    fn one() -> (r: Self) {
        num_one::<u16>()
    }

    fn add(self, rhs: Self) -> (r: Self) {
        self + rhs
    }

    fn sub(self, rhs: Self) -> (r: Self) {
        self - rhs
    }

    fn mul(self, rhs: Self) -> (r: Self) {
        self * rhs
    }

    fn div(self, rhs: Self) -> (r: Self) {
        self / rhs
    }

    fn rem(self, rhs: Self) -> (r: Self) {
        self % rhs
    }

    fn equals(&self, other: &Self) -> (r: bool) {
        *self == *other
    }

    fn less_than(&self, other: &Self) -> (r: bool) {
        *self < *other
    }

    fn bitand(self, rhs: Self) -> (r: Self) {
        proof {
            lemma_and_u16(self, rhs);
        }
        self & rhs
    }

    fn shl(self, k: usize) -> (r: Self) {
        proof {
            lemma_shl_u16(self, k);
        }
        self << k
    }

    fn shr(self, k: usize) -> (r: Self) {
        proof {
            lemma_shr_u16(self, k);
        }
        self >> k
    }

    fn from_str_radix(s: &str, radix: u32) -> (r: Option<Self>) {
        num_from_str_radix::<u16>(s, radix)
    }

    fn decimal(&self) -> (r: String) {
        decimal_string(*self as u128)
    }
}

/// The machine conjunction of two `u32` is the conjunction of the numbers.
pub(crate) proof fn lemma_and_u32(a: u32, b: u32)
    ensures
        (a & b) as nat == bit_and(a as nat, b as nat),
    decreases a,
{
    if a == 0 {
        assert(0u32 & b == 0) by (bit_vector);
    } else {
        lemma_and_u32(a / 2, b / 2);
        assert((a & b) == 2 * ((a / 2) & (b / 2)) + (if a % 2 == 1 && b % 2 == 1 {
            1u32
        } else {
            0u32
        })) by (bit_vector);
    }
}

/// A left shift of a `u32` multiplies by a power of two and drops what
/// leaves the width.
pub(crate) proof fn lemma_shl_u32(x: u32, k: usize)
    requires
        k < 32,
    ensures
        (x << k) == (x * pow2(k as nat)) % (u32::MAX + 1),
        u32::MAX + 1 == pow2(32),
    decreases k,
{
    let wrap: int = u32::MAX + 1;
    lemma2_to64();
    lemma_pow2_pos(k as nat);
    if k == 0 {
        assert(x << 0usize == x) by (bit_vector);
        lemma_small_mod(x as nat, wrap as nat);
        assert(x * pow2(0) == x);
    } else {
        let j = (k - 1) as usize;
        lemma_pow2_unfold(k as nat);
        lemma_pow2_pos(j as nat);
        let z = x * pow2(j as nat);
        assert(x * pow2(k as nat) == 2 * z) by (nonlinear_arith)
            requires
                pow2(k as nat) == 2 * pow2(j as nat),
                z == x * pow2(j as nat),
        ;
        lemma_shl_u32(x, j);
        let y = x << j;
        assert(k >= 1 && k < 32 && j == k - 1 ==> (x << k) == ((x << j) << 1usize))
            by (bit_vector);
        assert((y << 1usize) == (2 * y) % (u32::MAX + 1)) by (bit_vector);
        lemma_mul_mod_noop_general(2, z, wrap);
        assert(y == z % wrap);
        assert((x << k) == (2 * y) % wrap);
        assert((2 * (z % wrap)) % wrap == (2 * z) % wrap);
        assert((x * pow2(k as nat)) % wrap == (2 * z) % wrap);
    }
}

/// A right shift of a `u32` divides by a power of two.
pub(crate) proof fn lemma_shr_u32(x: u32, k: usize)
    requires
        k < 32,
    ensures
        (x >> k) == x as int / (pow2(k as nat) as int),
{
    lemma_u32_shr_is_div(x, k as u32);
    assert(k < 32 ==> (x >> k) == (x >> (k as u32))) by (bit_vector);
}

impl UTraits for u32 {
    open spec fn value(self) -> int {
        self as int
    }

    open spec fn max_value() -> int {
        u32::MAX as int
    }

    open spec fn bits() -> nat {
        32
    }

    open spec fn parsed(s: Seq<char>, radix: u32) -> Option<int> {
        parsed_integer(s, radix, 0, u32::MAX as int)
    }

    proof fn lemma_limits() {
        lemma2_to64();
    }

    proof fn lemma_in_range(self) {
    }

    fn zero() -> (r: Self) {
        num_zero::<u32>()
    }

    fn one() -> (r: Self) {
        num_one::<u32>()
    }

    fn add(self, rhs: Self) -> (r: Self) {
        self + rhs
    }

    fn sub(self, rhs: Self) -> (r: Self) {
        self - rhs
    }

    fn mul(self, rhs: Self) -> (r: Self) {
        self * rhs
    }

    fn div(self, rhs: Self) -> (r: Self) {
        self / rhs
    }

    fn rem(self, rhs: Self) -> (r: Self) {
        self % rhs
    }

    fn equals(&self, other: &Self) -> (r: bool) {
        *self == *other
    }

    fn less_than(&self, other: &Self) -> (r: bool) {
        *self < *other
    }

    fn bitand(self, rhs: Self) -> (r: Self) {
        proof {
            lemma_and_u32(self, rhs);
        }
        self & rhs
    }

    fn shl(self, k: usize) -> (r: Self) {
        proof {
            lemma_shl_u32(self, k);
        }
        self << k
    }

    fn shr(self, k: usize) -> (r: Self) {
        proof {
            lemma_shr_u32(self, k);
        }
        self >> k
    }

    fn from_str_radix(s: &str, radix: u32) -> (r: Option<Self>) {
        num_from_str_radix::<u32>(s, radix)
    }

    fn decimal(&self) -> (r: String) {
        decimal_string(*self as u128)
    }
}

/// The machine conjunction of two `u64` is the conjunction of the numbers.
pub(crate) proof fn lemma_and_u64(a: u64, b: u64)
    ensures
        (a & b) as nat == bit_and(a as nat, b as nat),
    decreases a,
{
    if a == 0 {
        assert(0u64 & b == 0) by (bit_vector);
    } else {
        lemma_and_u64(a / 2, b / 2);
        assert((a & b) == 2 * ((a / 2) & (b / 2)) + (if a % 2 == 1 && b % 2 == 1 {
            1u64
        } else {
            0u64
        })) by (bit_vector);
    }
}

/// A left shift of a `u64` multiplies by a power of two and drops what
/// leaves the width.
pub(crate) proof fn lemma_shl_u64(x: u64, k: usize)
    requires
        k < 64,
    ensures
        (x << k) == (x * pow2(k as nat)) % (u64::MAX + 1),
        u64::MAX + 1 == pow2(64),
    decreases k,
{
    let wrap: int = u64::MAX + 1;
    lemma2_to64();
    lemma_pow2_pos(k as nat);
    if k == 0 {
        assert(x << 0usize == x) by (bit_vector);
        lemma_small_mod(x as nat, wrap as nat);
        assert(x * pow2(0) == x);
    } else {
        let j = (k - 1) as usize;
        lemma_pow2_unfold(k as nat);
        lemma_pow2_pos(j as nat);
        let z = x * pow2(j as nat);
        assert(x * pow2(k as nat) == 2 * z) by (nonlinear_arith)
            requires
                pow2(k as nat) == 2 * pow2(j as nat),
                z == x * pow2(j as nat),
        ;
        lemma_shl_u64(x, j);
        let y = x << j;
        assert(k >= 1 && k < 64 && j == k - 1 ==> (x << k) == ((x << j) << 1usize))
            by (bit_vector);
        assert((y << 1usize) == (2 * y) % (u64::MAX + 1)) by (bit_vector);
        lemma_mul_mod_noop_general(2, z, wrap);
        assert(y == z % wrap);
        assert((x << k) == (2 * y) % wrap);
        assert((2 * (z % wrap)) % wrap == (2 * z) % wrap);
        assert((x * pow2(k as nat)) % wrap == (2 * z) % wrap);
    }
}

/// A right shift of a `u64` divides by a power of two.
pub(crate) proof fn lemma_shr_u64(x: u64, k: usize)
    requires
        k < 64,
    ensures
        (x >> k) == x as int / (pow2(k as nat) as int),
{
    lemma_u64_shr_is_div(x, k as u64);
    assert(k < 64 ==> (x >> k) == (x >> (k as u64))) by (bit_vector);
}

impl UTraits for u64 {
    open spec fn value(self) -> int {
        self as int
    }

    open spec fn max_value() -> int {
        u64::MAX as int
    }

    open spec fn bits() -> nat {
        64
    }

    open spec fn parsed(s: Seq<char>, radix: u32) -> Option<int> {
        parsed_integer(s, radix, 0, u64::MAX as int)
    }

    proof fn lemma_limits() {
        lemma2_to64();
    }

    proof fn lemma_in_range(self) {
    }

    fn zero() -> (r: Self) {
        num_zero::<u64>()
    }

    fn one() -> (r: Self) {
        num_one::<u64>()
    }

    fn add(self, rhs: Self) -> (r: Self) {
        self + rhs
    }

    fn sub(self, rhs: Self) -> (r: Self) {
        self - rhs
    }

    fn mul(self, rhs: Self) -> (r: Self) {
        self * rhs
    }

    fn div(self, rhs: Self) -> (r: Self) {
        self / rhs
    }

    fn rem(self, rhs: Self) -> (r: Self) {
        self % rhs
    }

    fn equals(&self, other: &Self) -> (r: bool) {
        *self == *other
    }

    fn less_than(&self, other: &Self) -> (r: bool) {
        *self < *other
    }

    fn bitand(self, rhs: Self) -> (r: Self) {
        proof {
            lemma_and_u64(self, rhs);
        }
        self & rhs
    }

    fn shl(self, k: usize) -> (r: Self) {
        proof {
            lemma_shl_u64(self, k);
        }
        self << k
    }

    fn shr(self, k: usize) -> (r: Self) {
        proof {
            lemma_shr_u64(self, k);
        }
        self >> k
    }

    fn from_str_radix(s: &str, radix: u32) -> (r: Option<Self>) {
        num_from_str_radix::<u64>(s, radix)
    }

    fn decimal(&self) -> (r: String) {
        decimal_string(*self as u128)
    }
}

/// The machine conjunction of two `u128` is the conjunction of the numbers.
pub(crate) proof fn lemma_and_u128(a: u128, b: u128)
    ensures
        (a & b) as nat == bit_and(a as nat, b as nat),
    decreases a,
{
    if a == 0 {
        assert(0u128 & b == 0) by (bit_vector);
    } else {
        lemma_and_u128(a / 2, b / 2);
        assert((a & b) == 2 * ((a / 2) & (b / 2)) + (if a % 2 == 1 && b % 2 == 1 {
            1u128
        } else {
            0u128
        })) by (bit_vector);
    }
}

/// A left shift of a `u128` multiplies by a power of two and drops what
/// leaves the width.
pub(crate) proof fn lemma_shl_u128(x: u128, k: usize)
    requires
        k < 128,
    ensures
        (x << k) == (x * pow2(k as nat)) % (u128::MAX + 1),
        u128::MAX + 1 == pow2(128),
    decreases k,
{
    let wrap: int = u128::MAX + 1;
    lemma2_to64();
    vstd::arithmetic::power2::lemma_pow2_adds(64, 64);
    lemma_pow2_pos(k as nat);
    if k == 0 {
        assert(x << 0usize == x) by (bit_vector);
        lemma_small_mod(x as nat, wrap as nat);
        assert(x * pow2(0) == x);
    } else {
        let j = (k - 1) as usize;
        lemma_pow2_unfold(k as nat);
        lemma_pow2_pos(j as nat);
        let z = x * pow2(j as nat);
        assert(x * pow2(k as nat) == 2 * z) by (nonlinear_arith)
            requires
                pow2(k as nat) == 2 * pow2(j as nat),
                z == x * pow2(j as nat),
        ;
        lemma_shl_u128(x, j);
        let y = x << j;
        assert(k >= 1 && k < 128 && j == k - 1 ==> (x << k) == ((x << j) << 1usize))
            by (bit_vector);
        assert((y << 1usize) == (2 * y) % (u128::MAX + 1)) by (bit_vector);
        lemma_mul_mod_noop_general(2, z, wrap);
        assert(y == z % wrap);
        assert((x << k) == (2 * y) % wrap);
        assert((2 * (z % wrap)) % wrap == (2 * z) % wrap);
        assert((x * pow2(k as nat)) % wrap == (2 * z) % wrap);
    }
}

/// A right shift of a `u128` divides by a power of two.
pub(crate) proof fn lemma_shr_u128(x: u128, k: usize)
    requires
        k < 128,
    ensures
        (x >> k) == x as int / (pow2(k as nat) as int),
{
    lemma_u128_shr_is_div(x, k as u128);
    assert(k < 128 ==> (x >> k) == (x >> (k as u128))) by (bit_vector);
}

impl UTraits for u128 {
    open spec fn value(self) -> int {
        self as int
    }

    open spec fn max_value() -> int {
        u128::MAX as int
    }

    open spec fn bits() -> nat {
        128
    }

    open spec fn parsed(s: Seq<char>, radix: u32) -> Option<int> {
        parsed_integer(s, radix, 0, u128::MAX as int)
    }

    proof fn lemma_limits() {
        lemma2_to64();
        vstd::arithmetic::power2::lemma_pow2_adds(64, 64);
    }

    proof fn lemma_in_range(self) {
    }

    fn zero() -> (r: Self) {
        num_zero::<u128>()
    }

    fn one() -> (r: Self) {
        num_one::<u128>()
    }

    fn add(self, rhs: Self) -> (r: Self) {
        self + rhs
    }

    fn sub(self, rhs: Self) -> (r: Self) {
        self - rhs
    }

    fn mul(self, rhs: Self) -> (r: Self) {
        self * rhs
    }

    fn div(self, rhs: Self) -> (r: Self) {
        self / rhs
    }

    fn rem(self, rhs: Self) -> (r: Self) {
        self % rhs
    }

    fn equals(&self, other: &Self) -> (r: bool) {
        *self == *other
    }

    fn less_than(&self, other: &Self) -> (r: bool) {
        *self < *other
    }

    fn bitand(self, rhs: Self) -> (r: Self) {
        proof {
            lemma_and_u128(self, rhs);
        }
        self & rhs
    }

    fn shl(self, k: usize) -> (r: Self) {
        proof {
            lemma_shl_u128(self, k);
        }
        self << k
    }

    fn shr(self, k: usize) -> (r: Self) {
        proof {
            lemma_shr_u128(self, k);
        }
        self >> k
    }

    fn from_str_radix(s: &str, radix: u32) -> (r: Option<Self>) {
        num_from_str_radix::<u128>(s, radix)
    }

    fn decimal(&self) -> (r: String) {
        decimal_string(*self as u128)
    }
}

} // verus!
