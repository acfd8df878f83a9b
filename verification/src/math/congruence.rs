use vstd::prelude::*;
use vstd::math::abs;
use vstd::arithmetic::div_mod::{
    lemma_fundamental_div_mod, lemma_fundamental_div_mod_converse, lemma_mod_multiples_basic,
    lemma_small_mod,
};
use crate::math::diophantine::{
    diophantine_family, diophantine_fits, family_step, solvable, within, lemma_bezout_divides,
    lemma_family_solves,
};
use crate::math::division::{trunc_div, trunc_rem, lemma_trunc_div_rem};
use crate::math::euclid::{bezout, lemma_bezout_gcd};
use crate::math::gcd::gcd_nat;

verus! {

/// The value `x` moved into the range of residues of `m` by whole
/// multiples of `m`: down where it is `m` or more, up where it is negative.
/// For a positive `m` this is the residue of `x` in `[0, m)`.
pub open spec fn canonical_residue(x: int, m: int) -> int {
    if x >= m {
        x - trunc_div(x, m) * m
    } else if x < 0 {
        x + trunc_div(m - 1 - x, m) * m
    } else {
        x
    }
}

/// Whether [`canonical_residue`] can be formed between `lo` and `hi`: the
/// modulus is not zero where it divides, and every difference, quotient,
/// product and sum on the way is in range.
pub open spec fn residue_fits(lo: int, hi: int, x: int, m: int) -> bool {
    if x >= m {
        &&& m != 0
        &&& within(lo, hi, trunc_div(x, m))
        &&& within(lo, hi, trunc_div(x, m) * m)
        &&& within(lo, hi, x - trunc_div(x, m) * m)
    } else if x < 0 {
        &&& m != 0
        &&& within(lo, hi, m - 1)
        &&& within(lo, hi, m - 1 - x)
        &&& within(lo, hi, trunc_div(m - 1 - x, m))
        &&& within(lo, hi, trunc_div(m - 1 - x, m) * m)
        &&& within(lo, hi, x + trunc_div(m - 1 - x, m) * m)
    } else {
        true
    }
}

/// The number of residues that solving `a * x ≡ b (mod m)` lists: the first
/// component of `bezout(a, m)`, or none where that is negative.
pub open spec fn congruence_count(a: int, m: int) -> int {
    if bezout(a, m).0 > 0 {
        bezout(a, m).0
    } else {
        0
    }
}

/// The `i`-th residue listed for `a * x ≡ b (mod m)`.
pub open spec fn congruence_solution(a: int, b: int, m: int, i: int) -> int {
    canonical_residue(diophantine_family(a, m, b).x(i), m)
}

/// Whether the `i`-th residue can be formed between `lo` and `hi`: the
/// parameter, the pair of the family at it, and the residue of its first
/// component.
pub open spec fn solution_fits(lo: int, hi: int, a: int, b: int, m: int, i: int) -> bool {
    let family = diophantine_family(a, m, b);
    &&& within(lo, hi, i)
    &&& within(lo, hi, family.step_x * i)
    &&& within(lo, hi, family.x(i))
    &&& within(lo, hi, family.step_y * i)
    &&& within(lo, hi, family.y(i))
    &&& residue_fits(lo, hi, family.x(i), m)
}

/// Whether `a * x ≡ b (mod m)` can be solved between `lo` and `hi`: the
/// Diophantine equation `a * x + m * y == b` can, and where it has
/// solutions and their number fits an `i32`, so can each residue.
pub open spec fn congruence_fits(lo: int, hi: int, a: int, b: int, m: int) -> bool {
    &&& diophantine_fits(lo, hi, a, m, b)
    &&& solvable(a, m, b) && bezout(a, m).0 <= i32::MAX ==> forall|i: int|
        0 <= i < bezout(a, m).0 ==> #[trigger] solution_fits(lo, hi, a, b, m, i)
}

/// For a positive modulus the canonical residue is the residue in
/// `[0, m)`.
pub proof fn lemma_canonical_residue(x: int, m: int)
    requires
        m > 0,
    ensures
        canonical_residue(x, m) == x % m,
        0 <= canonical_residue(x, m) < m,
{
    if x >= m {
        lemma_trunc_div_rem(x, m);
        assert(trunc_div(x, m) * m == m * trunc_div(x, m)) by (nonlinear_arith);
    } else if x < 0 {
        let n = m - 1 - x;
        let k = trunc_div(n, m);
        lemma_trunc_div_rem(n, m);
        assert(k * m == m * k) by (nonlinear_arith);
        let r = x + k * m;
        assert(r == m - 1 - trunc_rem(n, m));
        assert(x == (-k) * m + r) by (nonlinear_arith)
            requires
                r == x + k * m,
        ;
        lemma_fundamental_div_mod_converse(x, m, -k, r);
    } else {
        lemma_small_mod(x as nat, m as nat);
    }
}

/// With a positive modulus, every listed residue lies in `[0, m)` and
/// solves the congruence.
pub proof fn lemma_solution_solves(a: int, b: int, m: int, i: int)
    requires
        m > 0,
        solvable(a, m, b),
    ensures
        0 <= congruence_solution(a, b, m, i) < m,
        (a * congruence_solution(a, b, m, i) - b) % m == 0,
{
    let family = diophantine_family(a, m, b);
    let x = family.x(i);
    let y = family.y(i);
    let v = congruence_solution(a, b, m, i);
    lemma_canonical_residue(x, m);
    lemma_family_solves(a, m, b, i);
    lemma_fundamental_div_mod(x, m);
    let k = -(y + a * (x / m));
    assert(a * v - b == k * m) by (nonlinear_arith)
        requires
            a * x + m * y == b,
            x == m * (x / m) + v,
            k == -(y + a * (x / m)),
    ;
    lemma_mod_multiples_basic(k, m);
}

/// With a positive modulus and a positive count, the residues listed at
/// two different parameters below the count differ.
pub proof fn lemma_solutions_distinct(a: int, b: int, m: int, i: int, j: int)
    requires
        m > 0,
        bezout(a, m).0 > 0,
        0 <= i < j < bezout(a, m).0,
    ensures
        congruence_solution(a, b, m, i) != congruence_solution(a, b, m, j),
{
    let family = diophantine_family(a, m, b);
    let g = bezout(a, m).0;
    let sx = family_step(a, m).0;
    let (xi, xj) = (family.x(i), family.x(j));
    lemma_canonical_residue(xi, m);
    lemma_canonical_residue(xj, m);
    lemma_bezout_divides(a, m);
    assert(m == g * sx);
    assert(sx > 0) by (nonlinear_arith)
        requires
            m == g * sx,
            m > 0,
            g > 0,
    ;
    if xi % m == xj % m {
        lemma_fundamental_div_mod(xi, m);
        lemma_fundamental_div_mod(xj, m);
        let t = xj / m - xi / m;
        assert(xj - xi == (j - i) * sx) by (nonlinear_arith)
            requires
                xi == sx * i + family.base_x,
                xj == sx * j + family.base_x,
        ;
        assert(xj - xi == m * t) by (nonlinear_arith)
            requires
                xi == m * (xi / m) + xi % m,
                xj == m * (xj / m) + xj % m,
                xi % m == xj % m,
                t == xj / m - xi / m,
        ;
        assert(false) by (nonlinear_arith)
            requires
                (j - i) * sx == (g * sx) * t,
                sx > 0,
                0 < j - i < g,
        ;
    }
}

/// A positive count is the greatest common divisor of `|a|` and `|m|`.
pub proof fn lemma_count_is_gcd(a: int, m: int)
    requires
        bezout(a, m).0 > 0,
    ensures
        congruence_count(a, m) == gcd_nat(abs(a), abs(m)),
{
    lemma_bezout_gcd(a, m);
}

/// With 1 on the right-hand side, the equation is solvable exactly when the
/// first component of `bezout(a, m)` is 1 or -1, that is when the greatest
/// common divisor is 1.
pub proof fn lemma_unit_solvable(a: int, m: int)
    requires
        bezout(a, m).0 != 0,
    ensures
        solvable(a, m, 1) <==> abs(bezout(a, m).0) == 1,
        abs(bezout(a, m).0) == gcd_nat(abs(a), abs(m)),
{
    lemma_bezout_gcd(a, m);
    let g = abs(bezout(a, m).0);
    if g == 1 {
        assert(1int % 1 == 0);
    } else {
        lemma_small_mod(1, g);
    }
}

} // verus!
