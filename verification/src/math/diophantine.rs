use vstd::prelude::*;
use vstd::math::abs;
use vstd::arithmetic::div_mod::{lemma_div_multiples_vanish, lemma_mod_multiples_basic};
use crate::math::division::{trunc_div, trunc_rem, lemma_trunc_div_rem};
use crate::math::euclid::{bezout, bezout_fits, lemma_bezout_gcd, lemma_bezout_identity};
use crate::math::gcd::{gcd_nat, lemma_gcd_divides};

verus! {

/// A one-parameter family of integer pairs: at parameter `i` the pair
/// `(base_x + i * step_x, base_y + i * step_y)`.
pub struct Family {
    pub step_x: int,
    pub base_x: int,
    pub step_y: int,
    pub base_y: int,
}

impl Family {
    /// The first component at parameter `i`.
    pub open spec fn x(self, i: int) -> int {
        self.step_x * i + self.base_x
    }

    /// The second component at parameter `i`.
    pub open spec fn y(self, i: int) -> int {
        self.step_y * i + self.base_y
    }
}

/// Whether `a * x + b * y == c` has integer solutions, told by the first
/// component of `bezout(a, b)` dividing `c`. Meaningful unless `a` and `b`
/// are both zero.
pub open spec fn solvable(a: int, b: int, c: int) -> bool {
    trunc_rem(c, bezout(a, b).0) == 0
}

/// The particular solution that the Bézout coefficients give, before it is
/// centred.
pub open spec fn raw_base(a: int, b: int, c: int) -> (int, int) {
    let (g, c1, c2) = bezout(a, b);
    (trunc_div(c * c1, g), trunc_div(c * c2, g))
}

/// The step from one solution to the next: `(b / g, -a / g)`.
pub open spec fn family_step(a: int, b: int) -> (int, int) {
    let g = bezout(a, b).0;
    (trunc_div(b, g), trunc_div(-a, g))
}

/// How many steps the raw solution is moved back to centre it: the larger
/// of its two components, in magnitude, divided by its step.
pub open spec fn centring_quotient(a: int, b: int, c: int) -> int {
    let (x0, y0) = raw_base(a, b, c);
    let (sx, sy) = family_step(a, b);
    if abs(x0) > abs(y0) {
        trunc_div(x0, sx)
    } else {
        trunc_div(y0, sy)
    }
}

/// The family of solutions of `a * x + b * y == c`, with a small pair at
/// parameter 0.
pub open spec fn diophantine_family(a: int, b: int, c: int) -> Family {
    let (x0, y0) = raw_base(a, b, c);
    let (sx, sy) = family_step(a, b);
    let q = centring_quotient(a, b, c);
    Family { step_x: sx, base_x: x0 - q * sx, step_y: sy, base_y: y0 - q * sy }
}

/// Whether `v` lies between `lo` and `hi`.
pub open spec fn within(lo: int, hi: int, v: int) -> bool {
    lo <= v <= hi
}

/// Whether the construction of the family can be carried out between `lo`
/// and `hi`: `a` and `b` are not both zero, the extended Euclidean scheme
/// stays in range, and where the equation is solvable so does every
/// product, quotient, negation and magnitude formed after it, with no
/// division by a zero step.
pub open spec fn diophantine_fits(lo: int, hi: int, a: int, b: int, c: int) -> bool {
    let (g, c1, c2) = bezout(a, b);
    let (x0, y0) = raw_base(a, b, c);
    let (sx, sy) = family_step(a, b);
    let q = centring_quotient(a, b, c);
    &&& bezout_fits(lo, hi, a, b)
    &&& g != 0
    &&& within(lo, hi, trunc_div(c, g))
    &&& solvable(a, b, c) ==> {
        &&& within(lo, hi, c * c1)
        &&& within(lo, hi, x0)
        &&& within(lo, hi, c * c2)
        &&& within(lo, hi, y0)
        &&& within(lo, hi, sx)
        &&& within(lo, hi, -a)
        &&& within(lo, hi, sy)
        &&& within(lo, hi, -x0)
        &&& within(lo, hi, -y0)
        &&& (if abs(x0) > abs(y0) {
            sx != 0
        } else {
            sy != 0
        })
        &&& within(lo, hi, q)
        &&& within(lo, hi, q * sx)
        &&& within(lo, hi, x0 - q * sx)
        &&& within(lo, hi, q * sy)
        &&& within(lo, hi, y0 - q * sy)
    }
}

/// A multiple of a non-zero `g` divided by `g` gives the multiplier back,
/// with no remainder.
pub proof fn lemma_trunc_div_multiple(g: int, m: int)
    requires
        g != 0,
    ensures
        trunc_div(g * m, g) == m,
        trunc_rem(g * m, g) == 0,
{
    let x = abs(g) as int;
    let y = abs(m) as int;
    assert(abs(g * m) == x * y && ((g * m < 0) <==> ((g < 0) != (m < 0) && m != 0)))
        by (nonlinear_arith)
        requires
            g != 0,
            x == abs(g),
            y == abs(m),
    ;
    lemma_div_multiples_vanish(y, x);
    lemma_mod_multiples_basic(y, x);
    assert(x * y == y * x) by (nonlinear_arith);
}

/// A number that leaves no truncated remainder is the divisor times the
/// truncated quotient.
pub proof fn lemma_exact_division(n: int, g: int)
    requires
        g != 0,
        abs(n) % abs(g) == 0,
    ensures
        n == g * trunc_div(n, g),
        trunc_rem(n, g) == 0,
{
    lemma_trunc_div_rem(n, g);
}

/// Unless `a` and `b` are both zero, the first component of `bezout(a, b)`
/// is not zero and divides both.
pub proof fn lemma_bezout_divides(a: int, b: int)
    requires
        a != 0 || b != 0,
    ensures
        bezout(a, b).0 != 0,
        a == bezout(a, b).0 * trunc_div(a, bezout(a, b).0),
        b == bezout(a, b).0 * trunc_div(b, bezout(a, b).0),
        -a == bezout(a, b).0 * trunc_div(-a, bezout(a, b).0),
{
    let g = bezout(a, b).0;
    lemma_bezout_gcd(a, b);
    lemma_gcd_divides(abs(a), abs(b));
    lemma_exact_division(a, g);
    lemma_exact_division(b, g);
    lemma_exact_division(-a, g);
}

/// Every member of the family solves the equation.
pub proof fn lemma_family_solves(a: int, b: int, c: int, i: int)
    requires
        a != 0 || b != 0,
        solvable(a, b, c),
    ensures
        a * diophantine_family(a, b, c).x(i) + b * diophantine_family(a, b, c).y(i) == c,
{
    let (g, c1, c2) = bezout(a, b);
    let (x0, y0) = raw_base(a, b, c);
    let (sx, sy) = family_step(a, b);
    let q = centring_quotient(a, b, c);
    lemma_bezout_divides(a, b);
    lemma_bezout_identity(a, b);
    lemma_trunc_div_rem(c, g);
    let k = trunc_div(c, g);
    assert(c * c1 == g * (k * c1) && c * c2 == g * (k * c2)) by (nonlinear_arith)
        requires
            c == g * k,
    ;
    lemma_trunc_div_multiple(g, k * c1);
    lemma_trunc_div_multiple(g, k * c2);
    assert(a * x0 + b * y0 == c) by (nonlinear_arith)
        requires
            x0 == k * c1,
            y0 == k * c2,
            c1 * a + c2 * b == g,
            c == g * k,
    ;
    assert(a * sx + b * sy == 0) by (nonlinear_arith)
        requires
            b == g * sx,
            -a == g * sy,
    ;
    let d = i - q;
    assert(sx * i + (x0 - q * sx) == x0 + d * sx) by (nonlinear_arith)
        requires
            d == i - q,
    ;
    assert(sy * i + (y0 - q * sy) == y0 + d * sy) by (nonlinear_arith)
        requires
            d == i - q,
    ;
    assert(a * (x0 + d * sx) == a * x0 + d * (a * sx)) by (nonlinear_arith);
    assert(b * (y0 + d * sy) == b * y0 + d * (b * sy)) by (nonlinear_arith);
    assert(d * (a * sx) + d * (b * sy) == 0) by (nonlinear_arith)
        requires
            a * sx + b * sy == 0,
    ;
}

/// Whether the pair of the family at parameter 0 is centred: one of its
/// components is smaller in magnitude than the step of that component.
pub open spec fn centred(family: Family) -> bool {
    abs(family.base_x) < abs(family.step_x) || abs(family.base_y) < abs(family.step_y)
}

/// The family is centred, where the step that centring divides by is not
/// zero.
pub proof fn lemma_family_centred(a: int, b: int, c: int)
    requires
        if abs(raw_base(a, b, c).0) > abs(raw_base(a, b, c).1) {
            family_step(a, b).0 != 0
        } else {
            family_step(a, b).1 != 0
        },
    ensures
        centred(diophantine_family(a, b, c)),
{
    let (x0, y0) = raw_base(a, b, c);
    let (sx, sy) = family_step(a, b);
    let q = centring_quotient(a, b, c);
    if abs(x0) > abs(y0) {
        lemma_trunc_div_rem(x0, sx);
        assert(q * sx == sx * q) by (nonlinear_arith);
    } else {
        lemma_trunc_div_rem(y0, sy);
        assert(q * sy == sy * q) by (nonlinear_arith);
    }
}

/// Solvability is divisibility of `c` by the greatest common divisor.
pub proof fn lemma_solvable_iff_gcd_divides(a: int, b: int, c: int)
    requires
        a != 0 || b != 0,
    ensures
        solvable(a, b, c) <==> abs(c) % gcd_nat(abs(a), abs(b)) == 0,
{
    lemma_bezout_gcd(a, b);
    lemma_gcd_divides(abs(a), abs(b));
}

} // verus!
