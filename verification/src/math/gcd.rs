use vstd::prelude::*;
use vstd::arithmetic::div_mod::{lemma_fundamental_div_mod, lemma_mod_multiples_basic};
use vstd::math::abs;
use crate::math::division::{trunc_div, trunc_rem, lemma_trunc_div_rem};

verus! {

/// Whether the positive `d` divides `n`.
pub open spec fn divides(d: nat, n: int) -> bool {
    d > 0 && n % (d as int) == 0
}

/// Whether `g` is the greatest common divisor of `a` and `b`: it divides
/// both, and no common divisor is larger.
pub open spec fn is_greatest_common_divisor(g: nat, a: nat, b: nat) -> bool {
    &&& divides(g, a as int)
    &&& divides(g, b as int)
    &&& forall|d: nat| divides(d, a as int) && divides(d, b as int) ==> d <= g
}

/// The greatest common divisor by Euclid's recurrence; `gcd_nat(0, 0)` is 0.
pub open spec fn gcd_nat(a: nat, b: nat) -> nat
    decreases b,
{
    if b == 0 {
        a
    } else {
        gcd_nat(b, a % b)
    }
}

/// A divisor of `x` and of `y` divides `x * q + y`.
pub proof fn lemma_divides_combination(d: nat, x: int, y: int, q: int)
    requires
        divides(d, x),
        divides(d, y),
    ensures
        divides(d, x * q + y),
{
    let g = d as int;
    lemma_fundamental_div_mod(x, g);
    lemma_fundamental_div_mod(y, g);
    let k = (x / g) * q + y / g;
    assert(x * q + y == k * g) by (nonlinear_arith)
        requires
            x == g * (x / g),
            y == g * (y / g),
            k == (x / g) * q + y / g,
    ;
    lemma_mod_multiples_basic(k, g);
}

/// A divisor of a positive number is no larger than it.
pub proof fn lemma_divisor_bounded(d: nat, n: nat)
    requires
        divides(d, n as int),
        n > 0,
    ensures
        d <= n,
{
    lemma_fundamental_div_mod(n as int, d as int);
    let k = (n as int) / (d as int);
    assert(d <= n) by (nonlinear_arith)
        requires
            n == d * k,
            n > 0,
            d > 0,
    ;
}

/// Unless both arguments are zero, `gcd_nat(a, b)` is positive and divides both.
pub proof fn lemma_gcd_divides(a: nat, b: nat)
    requires
        a > 0 || b > 0,
    ensures
        divides(gcd_nat(a, b), a as int),
        divides(gcd_nat(a, b), b as int),
    decreases b,
{
    if b == 0 {
        lemma_mod_multiples_basic(1, a as int);
        assert(0int % (a as int) == 0);
    } else {
        lemma_gcd_divides(b, a % b);
        let g = gcd_nat(a, b);
        lemma_fundamental_div_mod(a as int, b as int);
        lemma_divides_combination(g, b as int, (a % b) as int, (a / b) as int);
    }
}

/// Every common divisor of `a` and `b` divides `gcd_nat(a, b)`.
pub proof fn lemma_gcd_absorbs(a: nat, b: nat, d: nat)
    requires
        divides(d, a as int),
        divides(d, b as int),
    ensures
        gcd_nat(a, b) as int % (d as int) == 0,
    decreases b,
{
    if b != 0 {
        lemma_fundamental_div_mod(a as int, b as int);
        let (x, y) = (a as int, b as int);
        let (q, r) = (x / y, x % y);
        lemma_divides_combination(d, y, x, -q);
        assert(y * (-q) + x == r) by (nonlinear_arith)
            requires
                x == y * q + r,
        ;
        lemma_gcd_absorbs(b, a % b, d);
    }
}

/// Unless both arguments are zero, `gcd_nat(a, b)` is their greatest common
/// divisor.
pub proof fn lemma_gcd_is_greatest(a: nat, b: nat)
    requires
        a > 0 || b > 0,
    ensures
        is_greatest_common_divisor(gcd_nat(a, b), a, b),
{
    lemma_gcd_divides(a, b);
    let g = gcd_nat(a, b);
    assert forall|d: nat| divides(d, a as int) && divides(d, b as int) implies d <= g by {
        lemma_gcd_absorbs(a, b, d);
        lemma_divisor_bounded(d, g);
    }
}

/// Unless both are zero, the greatest common divisor of `a` and `b` divides
/// their product without remainder, whatever the signs.
pub proof fn lemma_product_over_gcd(a: int, b: int)
    requires
        a != 0 || b != 0,
    ensures
        gcd_nat(abs(a), abs(b)) > 0,
        trunc_rem(a * b, gcd_nat(abs(a), abs(b)) as int) == 0,
        trunc_div(a * b, gcd_nat(abs(a), abs(b)) as int) * gcd_nat(abs(a), abs(b)) == a * b,
{
    let g = gcd_nat(abs(a), abs(b));
    lemma_gcd_divides(abs(a), abs(b));
    assert(0int % (g as int) == 0) by {
        lemma_mod_multiples_basic(0, g as int);
    }
    lemma_divides_combination(g, abs(a) as int, 0, abs(b) as int);
    assert(abs(a * b) == abs(a) * abs(b)) by (nonlinear_arith);
    lemma_trunc_div_rem(a * b, g as int);
    let q = trunc_div(a * b, g as int);
    assert(q * g == g * q) by (nonlinear_arith);
}

} // verus!
