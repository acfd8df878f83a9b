use vstd::prelude::*;
use vstd::math::abs;
use vstd::arithmetic::div_mod::{lemma_div_denominator, lemma_mul_mod_noop_general};
use vstd::arithmetic::power::{pow, lemma_pow_adds, lemma_pow1};
use vstd::arithmetic::power2::{pow2, lemma_pow2_pos, lemma_pow2_unfold};
use crate::math::diophantine::within;
use crate::math::division::trunc_rem;

verus! {

/// What square-and-multiply holds after the exponent `e`: 1 before any bit
/// was read, and after that `x` to the power `e`, reduced by `m` with the
/// truncating remainder.
pub open spec fn power_residue(x: int, e: nat, m: int) -> int {
    if e == 0 {
        1
    } else {
        trunc_rem(pow(x, e), m)
    }
}

/// Whether square-and-multiply, reading the bits of `n` from the highest
/// one down, forms only squares and products between `lo` and `hi`.
pub open spec fn power_fits(lo: int, hi: int, x: int, n: nat, m: int) -> bool
    decreases n,
{
    n == 0 || {
        let r = power_residue(x, n / 2, m);
        &&& power_fits(lo, hi, x, n / 2, m)
        &&& within(lo, hi, r * r)
        &&& n % 2 == 1 ==> within(lo, hi, trunc_rem(r * r, m) * x)
    }
}

/// Squaring the residue after `e` and reducing gives the residue after
/// `2 * e`.
pub proof fn lemma_square_step(x: int, e: nat, m: int)
    requires
        m != 0,
    ensures
        trunc_rem(power_residue(x, e, m) * power_residue(x, e, m), m) == trunc_rem(
            pow(x, 2 * e),
            m,
        ),
        pow(x, 2 * e) >= 0,
{
    let big = pow(x, e);
    let r = power_residue(x, e, m);
    let d = abs(m) as int;
    lemma_pow_adds(x, e, e);
    assert(big * big >= 0 && big * big == abs(big) * abs(big)) by (nonlinear_arith);
    if e == 0 {
        reveal(pow);
    } else {
        let s = abs(big) % abs(m);
        assert(r * r == s * s && r * r >= 0) by (nonlinear_arith)
            requires
                r == s || r == -s,
        ;
        lemma_mul_mod_noop_general(abs(big) as int, abs(big) as int, d);
    }
}

/// Multiplying the reduced square by `x` and reducing gives the residue
/// after `2 * e + 1`.
pub proof fn lemma_multiply_step(x: int, e: nat, m: int)
    requires
        m != 0,
    ensures
        trunc_rem(trunc_rem(pow(x, 2 * e), m) * x, m) == trunc_rem(pow(x, 2 * e + 1), m),
{
    let y = pow(x, 2 * e);
    let d = abs(m) as int;
    lemma_square_step(x, e, m);
    let sq = trunc_rem(y, m);
    lemma_pow_adds(x, 2 * e, 1);
    lemma_pow1(x);
    assert(pow(x, 2 * e + 1) == y * x);
    assert(sq == y % d);
    assert(0 <= sq) by {
        vstd::arithmetic::div_mod::lemma_mod_bound(y, d);
    }
    assert(abs(sq * x) == sq * abs(x) && abs(y * x) == y * abs(x)) by (nonlinear_arith)
        requires
            sq >= 0,
            y >= 0,
    ;
    lemma_mul_mod_noop_general(y, abs(x) as int, d);
    let rho = (y * abs(x)) % d;
    if rho != 0 {
        assert(sq != 0 && y != 0) by {
            if sq == 0 {
                assert(sq * abs(x) == 0) by (nonlinear_arith)
                    requires
                        sq == 0,
                ;
            }
            if y == 0 {
                assert(y * abs(x) == 0) by (nonlinear_arith)
                    requires
                        y == 0,
                ;
            }
            assert(0int % d == 0) by {
                vstd::arithmetic::div_mod::lemma_small_mod(0, d as nat);
            }
        }
        assert((sq * x < 0) == (x < 0) && (y * x < 0) == (x < 0)) by (nonlinear_arith)
            requires
                sq > 0,
                y > 0,
        ;
    }
}

/// Where the whole of `n` can be processed in range, so can what is left
/// of it after dropping its `k` lowest bits.
pub proof fn lemma_power_fits_prefix(lo: int, hi: int, x: int, n: nat, m: int, k: nat)
    requires
        power_fits(lo, hi, x, n, m),
    ensures
        power_fits(lo, hi, x, n / pow2(k), m),
    decreases k,
{
    lemma_pow2_pos(k);
    if k == 0 {
        vstd::arithmetic::power2::lemma2_to64();
    } else {
        let j = (k - 1) as nat;
        lemma_power_fits_prefix(lo, hi, x, n, m, j);
        lemma_pow2_pos(j);
        lemma_pow2_unfold(k);
        lemma_div_denominator(n as int, pow2(j) as int, 2);
        assert(pow2(j) * 2 == pow2(k));
    }
}

/// For a non-negative base and a positive modulus the residue after a
/// positive exponent is the ordinary remainder of the power.
pub proof fn lemma_power_residue_nonnegative(x: int, e: nat, m: int)
    requires
        x >= 0,
        m > 0,
        e > 0,
    ensures
        power_residue(x, e, m) == pow(x, e) % m,
        pow(x, e) >= 0,
{
    if x == 0 {
        vstd::arithmetic::power::lemma0_pow(e);
    } else {
        vstd::arithmetic::power::lemma_pow_positive(x, e);
    }
}

} // verus!
