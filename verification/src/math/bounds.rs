use vstd::prelude::*;
use vstd::math::abs;
use crate::math::congruence::{congruence_fits, residue_fits, solution_fits};
use crate::math::diophantine::{
    centring_quotient, diophantine_family, diophantine_fits, family_step, raw_base, solvable,
    lemma_bezout_divides, lemma_trunc_div_multiple,
};
use crate::math::division::{trunc_div, trunc_rem, lemma_trunc_div_rem};
use crate::math::euclid::{
    Row, bezout, bezout_fits, euclid_fits, euclid_run, euclid_step, step_fits,
};

verus! {

/// Whether `x0` and `x1` have opposite signs where `r0` and `r1` have the
/// same, and the same where those differ; a zero counts as either sign.
pub open spec fn alternating(x0: int, x1: int, r0: int, r1: int) -> bool {
    if (r0 < 0) == (r1 < 0) {
        x0 * x1 <= 0
    } else {
        x0 * x1 >= 0
    }
}

/// What holds of two consecutive slots of the extended Euclidean scheme
/// for inputs of magnitudes `ma` and `mb`: the cross products of
/// coefficients and remainders add up, in magnitude, to the input on the
/// other side, and the coefficients alternate in sign relative to the
/// remainders.
pub open spec fn consecutive(cur: Row, next: Row, ma: int, mb: int) -> bool {
    &&& abs(next.1) * abs(cur.0) + abs(cur.1) * abs(next.0) == mb
    &&& abs(next.2) * abs(cur.0) + abs(cur.2) * abs(next.0) == ma
    &&& alternating(cur.1, next.1, cur.0, next.0)
    &&& alternating(cur.2, next.2, cur.0, next.0)
}

/// The larger of 1 and `x`.
pub open spec fn at_least_one(x: int) -> int {
    if x < 1 {
        1
    } else {
        x
    }
}

proof fn lemma_abs_product(x: int, y: int)
    ensures
        abs(x * y) == abs(x) * abs(y),
{
    assert(abs(x * y) == abs(x) * abs(y)) by (nonlinear_arith);
}

/// The coefficient of the following slot is, in magnitude, the sum of the
/// magnitudes it is made of, and it alternates with the one before.
proof fn lemma_coefficient_step(x0: int, x1: int, r0: int, r1: int, q: int)
    requires
        alternating(x0, x1, r0, r1),
        (r0 < 0) == (r1 < 0) ==> q >= 0,
        (r0 < 0) != (r1 < 0) ==> q <= 0,
    ensures
        abs(x0 - q * x1) == abs(x0) + abs(q) * abs(x1),
        abs(q * x1) == abs(q) * abs(x1),
        (r0 < 0) == (r1 < 0) ==> x1 * (x0 - q * x1) <= 0,
        (r0 < 0) != (r1 < 0) ==> x1 * (x0 - q * x1) >= 0,
{
    lemma_abs_product(q, x1);
    let p = q * x1;
    assert(x1 * (x0 - q * x1) == x0 * x1 - q * (x1 * x1) && x1 * x1 >= 0) by (nonlinear_arith);
    if (r0 < 0) == (r1 < 0) {
        assert(q * (x1 * x1) >= 0) by (nonlinear_arith)
            requires
                q >= 0,
                x1 * x1 >= 0,
        ;
        assert((x0 >= 0 && p <= 0) || (x0 <= 0 && p >= 0)) by (nonlinear_arith)
            requires
                x0 * x1 <= 0,
                q >= 0,
                p == q * x1,
        ;
    } else {
        assert(q * (x1 * x1) <= 0) by (nonlinear_arith)
            requires
                q <= 0,
                x1 * x1 >= 0,
        ;
        assert((x0 >= 0 && p <= 0) || (x0 <= 0 && p >= 0)) by (nonlinear_arith)
            requires
                x0 * x1 >= 0,
                q <= 0,
                p == q * x1,
        ;
    }
}

/// From two consecutive slots within the bound, every step of the scheme
/// stays within it, and the coefficients it ends on are no larger in
/// magnitude than the inputs on the other side (or than 1).
pub proof fn lemma_run_bounded(lo: int, hi: int, cur: Row, next: Row, ma: int, mb: int)
    requires
        consecutive(cur, next, ma, mb),
        lo <= -hi,
        1 <= hi,
        ma <= hi,
        mb <= hi,
        abs(cur.0) <= hi,
        abs(next.0) <= hi,
        abs(cur.1) <= at_least_one(mb),
        abs(next.1) <= at_least_one(mb),
        abs(cur.2) <= at_least_one(ma),
        abs(next.2) <= at_least_one(ma),
    ensures
        euclid_fits(lo, hi, cur, next),
        abs(euclid_run(cur, next).1) <= at_least_one(mb),
        abs(euclid_run(cur, next).2) <= at_least_one(ma),
    decreases abs(next.0),
{
    if next.0 != 0 {
        let (r0, s0, t0) = cur;
        let (r1, s1, t1) = next;
        let q = trunc_div(r0, r1);
        let r2 = trunc_rem(r0, r1);
        let following = euclid_step(cur, next);
        let (s2, t2) = (following.1, following.2);
        lemma_trunc_div_rem(r0, r1);
        assert(abs(r0) == abs(q) * abs(r1) + abs(r2)) by {
            vstd::arithmetic::div_mod::lemma_fundamental_div_mod(abs(r0) as int, abs(r1) as int);
            assert(abs(q) * abs(r1) == abs(r1) * abs(q)) by (nonlinear_arith);
        }
        lemma_coefficient_step(s0, s1, r0, r1, q);
        lemma_coefficient_step(t0, t1, r0, r1, q);
        assert(abs(s2) * abs(r1) + abs(s1) * abs(r2) == mb) by (nonlinear_arith)
            requires
                abs(s2) == abs(s0) + abs(q) * abs(s1),
                abs(r0) == abs(q) * abs(r1) + abs(r2),
                abs(s1) * abs(r0) + abs(s0) * abs(r1) == mb,
        ;
        assert(abs(t2) * abs(r1) + abs(t1) * abs(r2) == ma) by (nonlinear_arith)
            requires
                abs(t2) == abs(t0) + abs(q) * abs(t1),
                abs(r0) == abs(q) * abs(r1) + abs(r2),
                abs(t1) * abs(r0) + abs(t0) * abs(r1) == ma,
        ;
        assert(abs(s2) <= mb && abs(t2) <= ma) by (nonlinear_arith)
            requires
                abs(s2) * abs(r1) + abs(s1) * abs(r2) == mb,
                abs(t2) * abs(r1) + abs(t1) * abs(r2) == ma,
                abs(r1) >= 1,
                abs(s1) * abs(r2) >= 0,
                abs(t1) * abs(r2) >= 0,
                abs(s2) >= 0,
                abs(t2) >= 0,
        ;
        assert(abs(s1) * abs(r2) >= 0 && abs(t1) * abs(r2) >= 0) by (nonlinear_arith);
        assert(abs(q) * abs(s1) >= 0 && abs(q) * abs(t1) >= 0) by (nonlinear_arith);
        assert(step_fits(lo, hi, cur, next));
        if r2 != 0 {
            assert((r2 < 0) == (r0 < 0));
            assert(consecutive(next, following, ma, mb));
            lemma_run_bounded(lo, hi, next, following, ma, mb);
        } else {
            assert(euclid_fits(lo, hi, next, following));
            assert(euclid_run(next, following) == next);
        }
    }
}

/// Where both inputs are representable together with their negations, the
/// extended Euclidean scheme stays in range, and its coefficients are no
/// larger in magnitude than the inputs on the other side (or than 1).
pub proof fn lemma_bezout_bounded(lo: int, hi: int, a: int, b: int)
    requires
        lo <= -hi,
        1 <= hi,
        abs(a) <= hi,
        abs(b) <= hi,
    ensures
        bezout_fits(lo, hi, a, b),
        abs(bezout(a, b).1) <= at_least_one(abs(b) as int),
        abs(bezout(a, b).2) <= at_least_one(abs(a) as int),
{
    assert(0 * abs(a) + 1 * abs(b) == abs(b) && 1 * abs(a) + 0 * abs(b) == abs(a));
    assert(1int * 0 == 0 && 0int * 1 == 0);
    lemma_run_bounded(lo, hi, (a, 1, 0), (b, 0, 1), abs(a) as int, abs(b) as int);
}

/// A common positive factor can be cancelled from an inequality.
proof fn lemma_cancel(x: int, y: int, p: int)
    requires
        p > 0,
        x * p <= y * p,
    ensures
        x <= y,
{
    assert(x <= y) by (nonlinear_arith)
        requires
            p > 0,
            x * p <= y * p,
    ;
}

/// Products of non-negative numbers grow with their factors.
proof fn lemma_product_grows(x: int, y: int, bound_x: int, bound_y: int)
    requires
        0 <= x <= bound_x,
        0 <= y <= bound_y,
    ensures
        0 <= x * y <= bound_x * bound_y,
{
    assert(0 <= x * y <= bound_x * bound_y) by (nonlinear_arith)
        requires
            0 <= x <= bound_x,
            0 <= y <= bound_y,
    ;
}

/// A simple condition under which the family of solutions of
/// `a * x + b * y == c` can be constructed between `lo` and `hi`: neither
/// `a` nor `b` is zero, all three are within the bound in magnitude, and so
/// is twice the product of `|c|` with `|a|` and with `|b|`. The family then
/// stays within these products.
pub proof fn lemma_diophantine_bounded(lo: int, hi: int, a: int, b: int, c: int)
    requires
        lo <= -hi,
        1 <= hi,
        a != 0,
        b != 0,
        abs(a) <= hi,
        abs(b) <= hi,
        abs(c) <= hi,
        2 * (abs(c) * abs(a)) <= hi,
        2 * (abs(c) * abs(b)) <= hi,
    ensures
        diophantine_fits(lo, hi, a, b, c),
        solvable(a, b, c) ==> {
            let family = diophantine_family(a, b, c);
            &&& abs(family.base_x) <= 2 * (abs(c) * abs(b))
            &&& abs(family.base_y) <= 2 * (abs(c) * abs(a))
            &&& 1 <= abs(family.step_x) <= abs(b)
            &&& 1 <= abs(family.step_y) <= abs(a)
            &&& abs(b) == abs(bezout(a, b).0) * abs(family.step_x)
            &&& abs(a) == abs(bezout(a, b).0) * abs(family.step_y)
        },
{
    let (g, c1, c2) = bezout(a, b);
    let (x0, y0) = raw_base(a, b, c);
    let (sx, sy) = family_step(a, b);
    let q = centring_quotient(a, b, c);
    let k = trunc_div(c, g);
    lemma_bezout_bounded(lo, hi, a, b);
    lemma_bezout_divides(a, b);
    lemma_trunc_div_rem(c, g);
    lemma_trunc_div_rem(b, g);
    lemma_trunc_div_rem(-a, g);
    lemma_abs_product(g, sx);
    lemma_abs_product(g, sy);
    let (ma, mb, mc) = (abs(a) as int, abs(b) as int, abs(c) as int);
    let (mg, mk) = (abs(g) as int, abs(k) as int);
    let (msx, msy) = (abs(sx) as int, abs(sy) as int);
    assert(msx >= 1 && msy >= 1 && mg >= 1) by (nonlinear_arith)
        requires
            mb == mg * msx,
            ma == mg * msy,
            mb >= 1,
            ma >= 1,
            mg >= 0,
            msx >= 0,
            msy >= 0,
    ;
    assert(msx <= mb && msy <= ma) by (nonlinear_arith)
        requires
            mb == mg * msx,
            ma == mg * msy,
            mg >= 1,
            msx >= 0,
            msy >= 0,
    ;
    if solvable(a, b, c) {
        assert(c * c1 == g * (k * c1) && c * c2 == g * (k * c2)) by (nonlinear_arith)
            requires
                c == g * k,
        ;
        lemma_trunc_div_multiple(g, k * c1);
        lemma_trunc_div_multiple(g, k * c2);
        lemma_abs_product(c, c1);
        lemma_abs_product(c, c2);
        lemma_abs_product(k, c1);
        lemma_abs_product(k, c2);
        let (m1, m2) = (abs(c1) as int, abs(c2) as int);
        let (mx, my) = (abs(x0) as int, abs(y0) as int);
        let mq = abs(q) as int;
        lemma_product_grows(mc, m1, mc, mb);
        lemma_product_grows(mc, m2, mc, ma);
        lemma_product_grows(mk, m1, mc, mb);
        lemma_product_grows(mk, m2, mc, ma);
        lemma_product_grows(mk, m1, mk, mb);
        lemma_product_grows(mk, m2, mk, ma);
        lemma_product_grows(mk, ma, mc, ma);
        lemma_product_grows(mk, mb, mc, mb);
        lemma_abs_product(q, sx);
        lemma_abs_product(q, sy);
        if mx > my {
            lemma_trunc_div_rem(x0, sx);
            assert(mq * msx <= (mk * mg) * msx) by (nonlinear_arith)
                requires
                    msx * mq <= mx,
                    mx <= mk * mb,
                    mb == mg * msx,
            ;
            lemma_cancel(mq, mk * mg, msx);
            assert(mq * msy <= mk * ma) by (nonlinear_arith)
                requires
                    0 <= mq <= mk * mg,
                    ma == mg * msy,
                    msy >= 0,
            ;
            assert(mq * msx <= mx) by (nonlinear_arith)
                requires
                    msx * mq <= mx,
            ;
            assert(x0 - q * sx == trunc_rem(x0, sx)) by (nonlinear_arith)
                requires
                    x0 == sx * q + trunc_rem(x0, sx),
            ;
        } else {
            lemma_trunc_div_rem(y0, sy);
            assert(mq * msy <= (mk * mg) * msy) by (nonlinear_arith)
                requires
                    msy * mq <= my,
                    my <= mk * ma,
                    ma == mg * msy,
            ;
            lemma_cancel(mq, mk * mg, msy);
            assert(mq * msx <= mk * mb) by (nonlinear_arith)
                requires
                    0 <= mq <= mk * mg,
                    mb == mg * msx,
                    msx >= 0,
            ;
            assert(mq * msy <= my) by (nonlinear_arith)
                requires
                    msy * mq <= my,
            ;
            assert(y0 - q * sy == trunc_rem(y0, sy)) by (nonlinear_arith)
                requires
                    y0 == sy * q + trunc_rem(y0, sy),
            ;
        }
    }
}

/// Within the bound `limit` in magnitude, and for a positive modulus no
/// larger than `limit - |x|`, the canonical residue of `x` can be formed.
proof fn lemma_residue_bounded(lo: int, hi: int, x: int, m: int)
    requires
        lo <= -hi,
        m > 0,
        abs(x) + m <= hi,
    ensures
        residue_fits(lo, hi, x, m),
{
    if x >= m {
        lemma_trunc_div_rem(x, m);
        assert(trunc_div(x, m) * m == m * trunc_div(x, m)) by (nonlinear_arith);
    } else if x < 0 {
        let n = m - 1 - x;
        lemma_trunc_div_rem(n, m);
        assert(trunc_div(n, m) * m == m * trunc_div(n, m)) by (nonlinear_arith);
    }
}

/// A simple condition under which `a * x ≡ b (mod m)` can be solved
/// between `lo` and `hi`: `a` is not zero, `m` is positive, and twice the
/// product of `|b| + 1` and `|a| + m` is within the bound.
pub proof fn lemma_congruence_bounded(lo: int, hi: int, a: int, b: int, m: int)
    requires
        lo <= -hi,
        a != 0,
        m > 0,
        2 * ((abs(b) + 1) * (abs(a) + m)) <= hi,
    ensures
        congruence_fits(lo, hi, a, b, m),
{
    let (ma, mb) = (abs(a) as int, abs(b) as int);
    assert((mb + 1) * (ma + m) == mb * ma + mb * m + ma + m && mb * ma >= 0 && mb * m >= mb)
        by (nonlinear_arith)
        requires
            ma >= 1,
            m >= 1,
            mb >= 0,
    ;
    lemma_diophantine_bounded(lo, hi, a, m, b);
    let g = bezout(a, m).0;
    let family = diophantine_family(a, m, b);
    if solvable(a, m, b) {
        assert forall|i: int| 0 <= i < g implies #[trigger] solution_fits(lo, hi, a, b, m, i) by {
            let (msx, msy) = (abs(family.step_x) as int, abs(family.step_y) as int);
            lemma_abs_product(family.step_x, i);
            lemma_abs_product(family.step_y, i);
            assert(msx * i <= m && msy * i <= ma && i <= ma) by (nonlinear_arith)
                requires
                    0 <= i < g,
                    m == g * msx,
                    ma == g * msy,
                    msx >= 1,
                    msy >= 1,
            ;
            lemma_residue_bounded(lo, hi, family.x(i), m);
        }
    }
}

} // verus!
