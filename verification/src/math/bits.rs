use vstd::prelude::*;
use vstd::arithmetic::power2::{pow2, lemma_pow2_pos, lemma_pow2_unfold};

verus! {

/// The bitwise conjunction of two natural numbers, bit by bit from the
/// least significant one.
pub open spec fn bit_and(a: nat, b: nat) -> nat
    decreases a,
{
    if a == 0 {
        0
    } else {
        2 * bit_and(a / 2, b / 2) + (if a % 2 == 1 && b % 2 == 1 {
            1nat
        } else {
            0nat
        })
    }
}

/// Whether `n` is 1, 2, 4, 8, ...
pub open spec fn is_power_of_two(n: nat) -> bool
    decreases n,
{
    n == 1 || (n >= 2 && n % 2 == 0 && is_power_of_two(n / 2))
}

/// Whether bit `k` of `n` is set.
pub open spec fn bit_is_set(n: nat, k: nat) -> bool {
    (n / pow2(k)) % 2 == 1
}

/// The index of the highest set bit of a positive `n`; 0 for `n == 0`.
pub open spec fn top_bit(n: nat) -> nat
    decreases n,
{
    if n <= 1 {
        0
    } else {
        1 + top_bit(n / 2)
    }
}

/// `top_bit(n)` is the one index `k` with `2^k <= n < 2^(k+1)`.
pub proof fn lemma_top_bit_bounds(n: nat)
    requires
        n > 0,
    ensures
        pow2(top_bit(n)) <= n < pow2(top_bit(n) + 1),
    decreases n,
{
    reveal(pow2);
    if n <= 1 {
        lemma_pow2_unfold(1);
        assert(pow2(0) == 1) by {
            vstd::arithmetic::power2::lemma2_to64();
        }
    } else {
        lemma_top_bit_bounds(n / 2);
        lemma_pow2_unfold(top_bit(n));
        lemma_pow2_unfold(top_bit(n) + 1);
    }
}

/// An index `k` with `2^k <= n < 2^(k+1)` is `top_bit(n)`.
pub proof fn lemma_top_bit_unique(n: nat, k: nat)
    requires
        pow2(k) <= n < pow2(k + 1),
    ensures
        top_bit(n) == k,
    decreases k,
{
    lemma_pow2_pos(k);
    if k == 0 {
        vstd::arithmetic::power2::lemma2_to64();
    } else {
        lemma_pow2_unfold(k);
        lemma_pow2_unfold(k + 1);
        lemma_top_bit_unique(n / 2, (k - 1) as nat);
    }
}

/// Dropping the `h` lowest bits of a number of at least `2^h` lowers its
/// highest bit by `h`.
pub proof fn lemma_top_bit_shift(n: nat, h: nat)
    requires
        n >= pow2(h),
    ensures
        top_bit(n) == h + top_bit(n / pow2(h)),
{
    let p = pow2(h);
    let y = n / p;
    lemma_pow2_pos(h);
    vstd::arithmetic::div_mod::lemma_fundamental_div_mod(n as int, p as int);
    assert(y >= 1) by (nonlinear_arith)
        requires
            n == p * y + n % p,
            0 <= n % p < p,
            n >= p,
            p > 0,
            y >= 0,
    ;
    let k = top_bit(y);
    lemma_top_bit_bounds(y);
    vstd::arithmetic::power2::lemma_pow2_adds(k, h);
    vstd::arithmetic::power2::lemma_pow2_adds(k + 1, h);
    assert(pow2(k) * p <= n < pow2(k + 1) * p) by (nonlinear_arith)
        requires
            n == p * y + n % p,
            0 <= n % p < p,
            pow2(k) <= y < pow2(k + 1),
    ;
    lemma_top_bit_unique(n, k + h);
}

/// A number below `2^w` has its highest bit below `w`.
pub proof fn lemma_top_bit_below(n: nat, w: nat)
    requires
        0 < n < pow2(w),
    ensures
        top_bit(n) < w,
{
    lemma_top_bit_bounds(n);
    if top_bit(n) >= w {
        if top_bit(n) > w {
            vstd::arithmetic::power2::lemma_pow2_strictly_increases(w, top_bit(n));
        }
    }
}

/// Conjunction with a single bit tests that bit.
pub proof fn lemma_bit_and_single(n: nat, k: nat)
    ensures
        bit_and(pow2(k), n) == (if bit_is_set(n, k) {
            pow2(k)
        } else {
            0
        }),
    decreases k,
{
    lemma_pow2_pos(k);
    if k == 0 {
        vstd::arithmetic::power2::lemma2_to64();
        assert(bit_and(0, n / 2) == 0);
    } else {
        lemma_pow2_unfold(k);
        lemma_bit_and_single(n / 2, (k - 1) as nat);
        let h = pow2((k - 1) as nat);
        lemma_pow2_pos((k - 1) as nat);
        assert(pow2(k) / 2 == h);
        assert(pow2(k) % 2 == 0);
        assert(n / pow2(k) == (n / 2) / h) by {
            vstd::arithmetic::div_mod::lemma_div_denominator(n as int, 2, h as int);
        }
    }
}

} // verus!
