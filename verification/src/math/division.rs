use vstd::prelude::*;
use vstd::math::abs;

verus! {

/// The quotient of `a` by `b` rounded toward zero.
pub open spec fn trunc_div(a: int, b: int) -> int {
    if a >= 0 {
        if b >= 0 {
            a / b
        } else {
            -(a / (-b))
        }
    } else {
        if b >= 0 {
            -((-a) / b)
        } else {
            (-a) / (-b)
        }
    }
}

/// The remainder that goes with [`trunc_div`]: its sign is that of `a`.
pub open spec fn trunc_rem(a: int, b: int) -> int {
    if a >= 0 {
        if b >= 0 {
            a % b
        } else {
            a % (-b)
        }
    } else {
        if b >= 0 {
            -((-a) % b)
        } else {
            -((-a) % (-b))
        }
    }
}

/// Quotient and remainder are those of the magnitudes, with the sign of
/// the quotient that of the product and the sign of the remainder that of
/// the dividend.
pub proof fn lemma_trunc_by_magnitudes(a: int, b: int)
    ensures
        trunc_div(a, b) == (if (a < 0) != (b < 0) {
            -(abs(a) / abs(b))
        } else {
            (abs(a) / abs(b)) as int
        }),
        trunc_rem(a, b) == (if a < 0 {
            -(abs(a) % abs(b))
        } else {
            (abs(a) % abs(b)) as int
        }),
        b != 0 ==> abs(trunc_div(a, b)) == abs(a) / abs(b),
        b != 0 ==> abs(trunc_rem(a, b)) == abs(a) % abs(b),
{
    let x = abs(a) as int;
    let y = abs(b) as int;
    if y > 0 {
        assert(0 <= x % y < y && 0 <= x / y) by (nonlinear_arith)
            requires
                x >= 0,
                y > 0,
        ;
    }
}

/// Quotient and remainder recompose the dividend, the remainder is smaller
/// in magnitude than the divisor, and the quotient no larger than the
/// dividend.
pub proof fn lemma_trunc_div_rem(a: int, b: int)
    requires
        b != 0,
    ensures
        a == b * trunc_div(a, b) + trunc_rem(a, b),
        abs(trunc_rem(a, b)) < abs(b),
        abs(trunc_div(a, b)) <= abs(a),
        abs(b * trunc_div(a, b)) <= abs(a),
        abs(b) * abs(trunc_div(a, b)) <= abs(a),
        abs(trunc_rem(a, b)) <= abs(a),
        a >= 0 ==> 0 <= trunc_rem(a, b) && 0 <= b * trunc_div(a, b),
        a <= 0 ==> trunc_rem(a, b) <= 0 && b * trunc_div(a, b) <= 0,
{
    lemma_trunc_by_magnitudes(a, b);
    let x = abs(a) as int;
    let y = abs(b) as int;
    assert(x == y * (x / y) + x % y && 0 <= x % y < y && 0 <= x / y <= x && 0 <= y * (x / y)
        <= x && x % y <= x) by (nonlinear_arith)
        requires
            x >= 0,
            y > 0,
    ;
    let q = x / y;
    assert(b * (-q) == -(b * q) && (-b) * q == -(b * q) && (-b) * (-q) == b * q)
        by (nonlinear_arith);
}

/// With a divisor of magnitude two or more, the quotient is at most half the
/// dividend in magnitude.
pub proof fn lemma_trunc_div_halves(a: int, b: int)
    requires
        abs(b) >= 2,
    ensures
        2 * abs(trunc_div(a, b)) <= abs(a),
{
    lemma_trunc_by_magnitudes(a, b);
    let x = abs(a) as int;
    let y = abs(b) as int;
    assert(2 * (x / y) <= x) by (nonlinear_arith)
        requires
            x >= 0,
            y >= 2,
    ;
}

/// How the mathematical (Euclidean) quotient by a negative divisor relates
/// to the quotient by its magnitude.
pub proof fn lemma_div_negative_divisor(x: int, b: int)
    requires
        x >= 0,
        b < 0,
    ensures
        x / b == -(x / (-b)),
        x % b == x % (-b),
{
    let y = -b;
    let q0 = x / y;
    let r0 = x % y;
    let q1 = x / b;
    let r1 = x % b;
    assert(x == y * q0 + r0 && 0 <= r0 < y) by (nonlinear_arith)
        requires
            y > 0,
            q0 == x / y,
            r0 == x % y,
    ;
    assert(x == b * q1 + r1 && 0 <= r1 < -b) by (nonlinear_arith)
        requires
            b < 0,
            q1 == x / b,
            r1 == x % b,
    ;
    assert(q1 + q0 == 0) by (nonlinear_arith)
        requires
            b * q1 + r1 == (-b) * q0 + r0,
            0 <= r0 < -b,
            0 <= r1 < -b,
    ;
    assert(b * q1 == (-b) * q0) by (nonlinear_arith)
        requires
            q1 + q0 == 0,
    ;
}

/// The quotient and remainder that machine division of signed integers is
/// defined by, written with the mathematical (Euclidean) operators, are the
/// truncating ones.
pub proof fn lemma_machine_division(a: int, b: int)
    requires
        b != 0,
    ensures
        a >= 0 ==> a / b == trunc_div(a, b) && a % b == trunc_rem(a, b),
        a < 0 ==> -((-a) / b) == trunc_div(a, b) && -((-a) % b) == trunc_rem(a, b),
{
    if b < 0 {
        lemma_div_negative_divisor(abs(a) as int, b);
    }
}

} // verus!
