use vstd::prelude::*;
use vstd::math::abs;
use crate::math::division::{trunc_div, trunc_rem, lemma_trunc_div_rem};
use crate::math::gcd::gcd_nat;

verus! {

/// One slot of the extended Euclidean scheme: a remainder and the two
/// coefficients that produce it from the inputs.
pub type Row = (int, int, int);

/// The slot that follows `cur` and `next`: `cur - q * next` in every field,
/// with `q` the truncated quotient of the two remainders.
pub open spec fn euclid_step(cur: Row, next: Row) -> Row {
    let q = trunc_div(cur.0, next.0);
    (trunc_rem(cur.0, next.0), cur.1 - q * next.1, cur.2 - q * next.2)
}

/// The slot the scheme ends on when started from `cur` and `next`: the last
/// one whose successor has remainder zero.
pub open spec fn euclid_run(cur: Row, next: Row) -> Row
    decreases abs(next.0),
{
    if next.0 == 0 {
        cur
    } else {
        euclid_run(next, euclid_step(cur, next))
    }
}

/// The triple `(g, c1, c2)` the extended Euclidean scheme yields for
/// `(a, b)`. The sign of `g` is that of the last pivot; it is not
/// normalised.
pub open spec fn bezout(a: int, b: int) -> Row {
    euclid_run((a, 1, 0), (b, 0, 1))
}

/// Whether the quotient of the two remainders, and every product and
/// difference that one step forms on the coefficients, lies between `lo` and
/// `hi`.
pub open spec fn step_fits(lo: int, hi: int, cur: Row, next: Row) -> bool {
    let q = trunc_div(cur.0, next.0);
    &&& lo <= q <= hi
    &&& lo <= q * next.1 <= hi
    &&& lo <= cur.1 - q * next.1 <= hi
    &&& lo <= q * next.2 <= hi
    &&& lo <= cur.2 - q * next.2 <= hi
}

/// Whether every step of the scheme, started from `cur` and `next`, stays
/// between `lo` and `hi`.
pub open spec fn euclid_fits(lo: int, hi: int, cur: Row, next: Row) -> bool
    decreases abs(next.0),
{
    next.0 == 0 || (step_fits(lo, hi, cur, next) && euclid_fits(
        lo,
        hi,
        next,
        euclid_step(cur, next),
    ))
}

/// Whether the scheme for `(a, b)` stays between `lo` and `hi`.
pub open spec fn bezout_fits(lo: int, hi: int, a: int, b: int) -> bool {
    euclid_fits(lo, hi, (a, 1, 0), (b, 0, 1))
}

/// Whether `row` is the combination of `a` and `b` that its coefficients
/// name.
pub open spec fn combines(row: Row, a: int, b: int) -> bool {
    row.0 == row.1 * a + row.2 * b
}

/// A step keeps both slots combinations of the inputs.
pub proof fn lemma_step_combines(cur: Row, next: Row, a: int, b: int)
    requires
        combines(cur, a, b),
        combines(next, a, b),
        next.0 != 0,
    ensures
        combines(euclid_step(cur, next), a, b),
{
    lemma_trunc_div_rem(cur.0, next.0);
    let q = trunc_div(cur.0, next.0);
    assert((cur.1 - q * next.1) * a + (cur.2 - q * next.2) * b == (cur.1 * a + cur.2 * b) - q * (
    next.1 * a + next.2 * b)) by (nonlinear_arith);
    assert(q * next.0 == next.0 * q) by (nonlinear_arith);
}

/// The final slot is a combination of the inputs when the first two are.
pub proof fn lemma_run_combines(cur: Row, next: Row, a: int, b: int)
    requires
        combines(cur, a, b),
        combines(next, a, b),
    ensures
        combines(euclid_run(cur, next), a, b),
    decreases abs(next.0),
{
    if next.0 != 0 {
        lemma_trunc_div_rem(cur.0, next.0);
        lemma_step_combines(cur, next, a, b);
        lemma_run_combines(next, euclid_step(cur, next), a, b);
    }
}

/// The final remainder is, in magnitude, the greatest common divisor of the
/// first two.
pub proof fn lemma_run_gcd(cur: Row, next: Row)
    ensures
        abs(euclid_run(cur, next).0) == gcd_nat(abs(cur.0), abs(next.0)),
    decreases abs(next.0),
{
    if next.0 != 0 {
        lemma_trunc_div_rem(cur.0, next.0);
        lemma_run_gcd(next, euclid_step(cur, next));
    }
}

/// From non-negative remainders the scheme ends on a non-negative one.
pub proof fn lemma_run_nonnegative(cur: Row, next: Row)
    requires
        cur.0 >= 0,
        next.0 >= 0,
    ensures
        euclid_run(cur, next).0 >= 0,
    decreases abs(next.0),
{
    if next.0 != 0 {
        lemma_trunc_div_rem(cur.0, next.0);
        lemma_run_nonnegative(next, euclid_step(cur, next));
    }
}

/// For non-negative inputs that are not both zero, the first component of
/// `bezout(a, b)` is positive: it is the greatest common divisor itself.
pub proof fn lemma_bezout_positive(a: int, b: int)
    requires
        a >= 0,
        b >= 0,
        a != 0 || b != 0,
    ensures
        bezout(a, b).0 == gcd_nat(a as nat, b as nat),
        bezout(a, b).0 > 0,
{
    lemma_run_nonnegative((a, 1, 0), (b, 0, 1));
    lemma_run_gcd((a, 1, 0), (b, 0, 1));
    crate::math::gcd::lemma_gcd_divides(a as nat, b as nat);
}

/// Bézout's identity: the coefficients of `bezout(a, b)` combine `a` and
/// `b` into its first component.
pub proof fn lemma_bezout_identity(a: int, b: int)
    ensures
        bezout(a, b).1 * a + bezout(a, b).2 * b == bezout(a, b).0,
{
    assert(1 * a + 0 * b == a && 0 * a + 1 * b == b) by (nonlinear_arith);
    lemma_run_combines((a, 1, 0), (b, 0, 1), a, b);
}

/// The first component of `bezout(a, b)` is, in magnitude, the greatest
/// common divisor of `|a|` and `|b|`.
pub proof fn lemma_bezout_gcd(a: int, b: int)
    ensures
        abs(bezout(a, b).0) == gcd_nat(abs(a), abs(b)),
{
    lemma_run_gcd((a, 1, 0), (b, 0, 1));
}

} // verus!
