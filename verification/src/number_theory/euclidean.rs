use vstd::prelude::*;
use vstd::math::abs;
use crate::math::bounds::{
    lemma_bezout_bounded, lemma_congruence_bounded, lemma_diophantine_bounded,
};
use crate::math::congruence::{
    congruence_count, congruence_fits, congruence_solution, solution_fits, lemma_count_is_gcd,
    lemma_solution_solves, lemma_solutions_distinct, lemma_unit_solvable,
};
use crate::math::diophantine::{
    Family, centred, diophantine_family, diophantine_fits, solvable, lemma_family_centred,
    lemma_family_solves, lemma_solvable_iff_gcd_divides,
};
use crate::math::division::{trunc_div, trunc_rem, lemma_trunc_div_rem};
use crate::math::euclid::{
    Row, bezout, bezout_fits, euclid_fits, euclid_run, euclid_step, step_fits,
    lemma_bezout_gcd, lemma_bezout_identity, lemma_bezout_positive,
};
use crate::math::gcd::{
    gcd_nat, is_greatest_common_divisor, lemma_gcd_is_greatest, lemma_product_over_gcd,
};
use crate::utilities::nt_error::NtError;
use crate::utilities::numeric_trait::{Numeric, fits};

verus! {

/// The state of the extended Euclidean scheme: three slots, each a
/// remainder with its two coefficients, used in rotation. One slot is the
/// current one, the one after it (cyclically) is the next, and the third is
/// scratch space that the following step overwrites.
pub struct ExtMatrix<T: Numeric> {
    first_row: usize,
    mtx: [[T; 3]; 3],
}

impl<T: Numeric> ExtMatrix<T> {
    /// The pointer names one of the three slots.
    pub closed spec fn well_formed(&self) -> bool {
        self.first_row < 3
    }

    /// The slot `k` places after the current one, as integers.
    pub closed spec fn slot(&self, k: int) -> Row {
        let row = self.mtx[(self.first_row + k) % 3];
        (row[0].value(), row[1].value(), row[2].value())
    }

    /// The current slot.
    pub open spec fn current(&self) -> Row {
        self.slot(0)
    }

    /// The slot after the current one.
    pub open spec fn next(&self) -> Row {
        self.slot(1)
    }

    /// The scheme at its start: `val1` and `val2` with the coefficients that
    /// name them.
    pub fn new(val1: T, val2: T) -> (m: ExtMatrix<T>)
        ensures
            m.well_formed(),
            m.current() == (val1.value(), 1int, 0int),
            m.next() == (val2.value(), 0int, 1int),
            m.slot(2) == (0int, 0int, 0int),
    {
        proof {
            T::lemma_limits();
        }
        let zero: T = T::from_i32(0).unwrap();
        let one: T = T::from_i32(1).unwrap();
        let mtx = [[val1, one, zero], [val2, zero, one], [zero, zero, zero]];
        ExtMatrix { first_row: 0, mtx }
    }

    /// One step: the scratch slot receives `current - q * next` in every
    /// field, for `q` the truncated quotient of the two remainders, and the
    /// pointer moves on by one.
    pub fn step(&mut self)
        requires
            old(self).well_formed(),
            old(self).next().0 != 0,
            step_fits(T::min_value(), T::max_value(), old(self).current(), old(self).next()),
        ensures
            final(self).well_formed(),
            final(self).current() == old(self).next(),
            final(self).next() == euclid_step(old(self).current(), old(self).next()),
            final(self).slot(2) == old(self).current(),
    {
        let next_row: usize = (self.first_row + 1) % 3;
        let spare_row: usize = (self.first_row + 2) % 3;
        let ghost cur = self.current();
        let ghost nxt = self.next();
        let ghost before = *self;
        proof {
            lemma_trunc_div_rem(cur.0, nxt.0);
            self.mtx[self.first_row as int][0].lemma_in_range();
        }
        let q = self.mtx[self.first_row][0].div(self.mtx[next_row][0]);
        let mut i: usize = 0;
        while i < 3
            invariant
                i <= 3,
                self.first_row == before.first_row,
                self.first_row < 3,
                next_row == (self.first_row + 1) % 3,
                spare_row == (self.first_row + 2) % 3,
                self.mtx[self.first_row as int] == before.mtx[self.first_row as int],
                self.mtx[next_row as int] == before.mtx[next_row as int],
                cur == (
                    self.mtx[self.first_row as int][0].value(),
                    self.mtx[self.first_row as int][1].value(),
                    self.mtx[self.first_row as int][2].value(),
                ),
                nxt == (
                    self.mtx[next_row as int][0].value(),
                    self.mtx[next_row as int][1].value(),
                    self.mtx[next_row as int][2].value(),
                ),
                cur == before.current(),
                nxt == before.next(),
                nxt.0 != 0,
                q.value() == trunc_div(cur.0, nxt.0),
                step_fits(T::min_value(), T::max_value(), cur, nxt),
                fits::<T>(cur.0),
                i >= 1 ==> self.mtx[spare_row as int][0].value() == trunc_rem(cur.0, nxt.0),
                i >= 2 ==> self.mtx[spare_row as int][1].value() == cur.1 - q.value() * nxt.1,
                i >= 3 ==> self.mtx[spare_row as int][2].value() == cur.2 - q.value() * nxt.2,
            decreases 3 - i,
        {
            proof {
                T::lemma_limits();
                lemma_trunc_div_rem(cur.0, nxt.0);
                assert(q.value() * nxt.0 == nxt.0 * q.value()) by (nonlinear_arith);
            }
            let product = q.mul(self.mtx[next_row][i]);
            self.mtx[spare_row][i] = self.mtx[self.first_row][i].sub(product);
            i = i + 1;
        }
        self.first_row = (self.first_row + 1) % 3;
    }

    /// Whether the scheme has ended: the next remainder is zero.
    pub fn finished(&self) -> (r: bool)
        requires
            self.well_formed(),
        ensures
            r == (self.next().0 == 0),
    {
        proof {
            T::lemma_limits();
        }
        let zero: T = T::from_usize(0).unwrap();
        self.mtx[(self.first_row + 1) % 3][0].equals(&zero)
    }

    /// The current slot.
    pub fn result(&self) -> (r: (T, T, T))
        requires
            self.well_formed(),
        ensures
            (r.0.value(), r.1.value(), r.2.value()) == self.current(),
    {
        let row = &self.mtx[self.first_row];
        (row[0], row[1], row[2])
    }
}

/// The greatest common divisor of two numbers, by repeated remainders of
/// their magnitudes. It is never negative, and zero only for two zeros.
///
/// The magnitudes are formed in `T`, so neither argument may be the one
/// value whose magnitude `T` cannot hold.
pub fn gcd<T: Numeric>(val1: T, val2: T) -> (r: T)
    requires
        fits::<T>(-val1.value()),
        fits::<T>(-val2.value()),
    ensures
        r.value() == gcd_nat(abs(val1.value()), abs(val2.value())),
        val1.value() != 0 || val2.value() != 0 ==> is_greatest_common_divisor(
            r.value() as nat,
            abs(val1.value()),
            abs(val2.value()),
        ),
{
    proof {
        T::lemma_limits();
        if val1.value() != 0 || val2.value() != 0 {
            lemma_gcd_is_greatest(abs(val1.value()), abs(val2.value()));
        }
    }
    let ghost target = gcd_nat(abs(val1.value()), abs(val2.value()));
    let zero: T = T::from_i32(0).unwrap();
    let mut val1 = val1.abs();
    let mut val2 = val2.abs();
    while !val2.equals(&zero)
        invariant
            zero.value() == 0,
            val1.value() >= 0,
            val2.value() >= 0,
            gcd_nat(val1.value() as nat, val2.value() as nat) == target,
        decreases val2.value(),
    {
        proof {
            T::lemma_limits();
            val1.lemma_in_range();
            lemma_trunc_div_rem(val1.value(), val2.value());
        }
        let r = val1.rem(val2);
        val1 = val2;
        val2 = r;
    }
    val1
}

/// The least common multiple of two numbers, as their product divided by
/// their greatest common divisor; its sign is that of the product.
///
/// Fails with `Overflow` exactly when the product is not representable.
/// The two numbers may not both be zero. Where the product is
/// representable, the magnitudes of both must be too, as for [`gcd`].
pub fn lcm<T: Numeric>(val1: T, val2: T) -> (r: Result<T, NtError>)
    requires
        val1.value() != 0 || val2.value() != 0,
        fits::<T>(val1.value() * val2.value()) ==> fits::<T>(-val1.value()) && fits::<T>(
            -val2.value(),
        ),
    ensures
        match r {
            Ok(v) => {
                &&& fits::<T>(val1.value() * val2.value())
                &&& v.value() == trunc_div(
                    val1.value() * val2.value(),
                    gcd_nat(abs(val1.value()), abs(val2.value())) as int,
                )
                &&& v.value() * gcd_nat(abs(val1.value()), abs(val2.value())) == val1.value()
                    * val2.value()
            },
            Err(e) => e == NtError::Overflow && !fits::<T>(val1.value() * val2.value()),
        },
        val1.value() * val2.value() >= 0 ==> match r {
            Ok(v) => v.value() * gcd_nat(abs(val1.value()), abs(val2.value())) == abs(
                val1.value() * val2.value(),
            ),
            Err(_) => true,
        },
{
    let opt = val1.checked_mul(&val2);
    match opt {
        None => Err(NtError::Overflow),
        Some(val) => {
            proof {
                val.lemma_in_range();
            }
            let g = gcd(val1, val2);
            proof {
                T::lemma_limits();
                lemma_product_over_gcd(val1.value(), val2.value());
                lemma_trunc_div_rem(val.value(), g.value());
            }
            Ok(val.div(g))
        },
    }
}

/// [`calc_euclidean_ext`] can be called on any two values whose negations
/// are representable too.
pub proof fn lemma_euclid_in_range<T: Numeric>(val1: T, val2: T)
    requires
        fits::<T>(-val1.value()),
        fits::<T>(-val2.value()),
    ensures
        bezout_fits(T::min_value(), T::max_value(), val1.value(), val2.value()),
{
    T::lemma_limits();
    val1.lemma_in_range();
    val2.lemma_in_range();
    lemma_bezout_bounded(T::min_value(), T::max_value(), val1.value(), val2.value());
}

/// [`solve_diophantine`] can be called where neither `a` nor `b` is zero
/// and twice the product of `|c|` with `|a|` and with `|b|` is no more
/// than the greatest value of `T`.
pub proof fn lemma_diophantine_in_range<T: Numeric>(a: T, b: T, c: T)
    requires
        a.value() != 0,
        b.value() != 0,
        fits::<T>(-a.value()),
        fits::<T>(-b.value()),
        fits::<T>(-c.value()),
        2 * (abs(c.value()) * abs(a.value())) <= T::max_value(),
        2 * (abs(c.value()) * abs(b.value())) <= T::max_value(),
    ensures
        diophantine_fits(T::min_value(), T::max_value(), a.value(), b.value(), c.value()),
{
    T::lemma_limits();
    a.lemma_in_range();
    b.lemma_in_range();
    c.lemma_in_range();
    lemma_diophantine_bounded(T::min_value(), T::max_value(), a.value(), b.value(), c.value());
}

/// [`solve_linear_congruence`] can be called where `a` is not zero, the
/// modulus is positive, and twice the product of `|b| + 1` and
/// `|a| + modulo` is no more than the greatest value of `T`.
pub proof fn lemma_congruence_in_range<T: Numeric>(a: T, b: T, modulo: T)
    requires
        a.value() != 0,
        modulo.value() > 0,
        2 * ((abs(b.value()) + 1) * (abs(a.value()) + modulo.value())) <= T::max_value(),
    ensures
        congruence_fits(T::min_value(), T::max_value(), a.value(), b.value(), modulo.value()),
{
    T::lemma_limits();
    lemma_congruence_bounded(
        T::min_value(),
        T::max_value(),
        a.value(),
        b.value(),
        modulo.value(),
    );
}

/// The greatest common divisor of two numbers together with the
/// coefficients that produce it from them.
///
/// Returns `(g, c1, c2)` with `c1 * val1 + c2 * val2 == g`, where `g` is, up
/// to its sign, the greatest common divisor. The three are those of the
/// extended Euclidean scheme with truncated quotients, [`bezout`], which
/// fixes the sign of `g` and the choice of coefficients.
///
/// The scheme forms quotients, products and differences in `T`; the
/// precondition asks that each is representable. It is met by any two
/// values whose negations `T` can hold: [`lemma_euclid_in_range`].
pub fn calc_euclidean_ext<T: Numeric>(val1: T, val2: T) -> (r: (T, T, T))
    requires
        bezout_fits(T::min_value(), T::max_value(), val1.value(), val2.value()),
    ensures
        (r.0.value(), r.1.value(), r.2.value()) == bezout(val1.value(), val2.value()),
        r.1.value() * val1.value() + r.2.value() * val2.value() == r.0.value(),
        abs(r.0.value()) == gcd_nat(abs(val1.value()), abs(val2.value())),
{
    let mut mtx = ExtMatrix::new(val1, val2);
    while !mtx.finished()
        invariant
            mtx.well_formed(),
            euclid_fits(T::min_value(), T::max_value(), mtx.current(), mtx.next()),
            euclid_run(mtx.current(), mtx.next()) == bezout(val1.value(), val2.value()),
        decreases abs(mtx.next().0),
    {
        proof {
            lemma_trunc_div_rem(mtx.current().0, mtx.next().0);
        }
        mtx.step();
    }
    proof {
        lemma_bezout_identity(val1.value(), val2.value());
        lemma_bezout_gcd(val1.value(), val2.value());
    }
    mtx.result()
}

/// The solutions of a linear Diophantine equation `a * x + b * y == c`: a
/// pair for every integer parameter, consecutive pairs a fixed step apart.
#[derive(Clone, Copy, Debug)]
pub struct Solutions<T: Numeric> {
    cf1: T,
    cnst1: T,
    cf2: T,
    cnst2: T,
}

impl<T: Numeric> View for Solutions<T> {
    type V = Family;

    closed spec fn view(&self) -> Family {
        Family {
            step_x: self.cf1.value(),
            base_x: self.cnst1.value(),
            step_y: self.cf2.value(),
            base_y: self.cnst2.value(),
        }
    }
}

impl<T: Numeric> Solutions<T> {
    /// Whether the pair at parameter `i` can be formed in `T`: the
    /// parameter, both products and both sums are representable.
    pub open spec fn eval_fits(&self, i: int) -> bool {
        &&& fits::<T>(i)
        &&& fits::<T>(self@.step_x * i)
        &&& fits::<T>(self@.x(i))
        &&& fits::<T>(self@.step_y * i)
        &&& fits::<T>(self@.y(i))
    }

    /// The pair at parameter `i`.
    pub fn eval(&self, i: i32) -> (r: (T, T))
        requires
            self.eval_fits(i as int),
        ensures
            r.0.value() == self@.x(i as int),
            r.1.value() == self@.y(i as int),
    {
        let i_t: T = T::from_i32(i).unwrap();
        (self.cf1.mul(i_t).add(self.cnst1), self.cf2.mul(i_t).add(self.cnst2))
    }
}

/// Solves `a * x + b * y == c` over the integers.
///
/// Returns the family of all solutions found from the Bézout coefficients
/// of `a` and `b`, moved so that the pair at parameter 0 is small, together
/// with the first component of [`bezout`]`(a, b)`; or fails with `NoSolns`
/// exactly when the greatest common divisor of `a` and `b` does not divide
/// `c`.
///
/// `a` and `b` may not both be zero, and what the construction computes on
/// the way must be representable in `T`: see [`diophantine_fits`], and
/// [`lemma_diophantine_in_range`] for a simple condition that is enough.
pub fn solve_diophantine<T: Numeric>(a: T, b: T, c: T) -> (r: Result<(Solutions<T>, T), NtError>)
    requires
        diophantine_fits(T::min_value(), T::max_value(), a.value(), b.value(), c.value()),
    ensures
        match r {
            Ok((family, g)) => {
                &&& solvable(a.value(), b.value(), c.value())
                &&& g.value() == bezout(a.value(), b.value()).0
                &&& family@ == diophantine_family(a.value(), b.value(), c.value())
                &&& centred(family@)
                &&& forall|i: int|
                    a.value() * #[trigger] family@.x(i) + b.value() * family@.y(i) == c.value()
            },
            Err(e) => e == NtError::NoSolns && !solvable(a.value(), b.value(), c.value()),
        },
        r is Ok <==> abs(c.value()) % gcd_nat(abs(a.value()), abs(b.value())) == 0,
{
    proof {
        T::lemma_limits();
        if a.value() == 0 && b.value() == 0 {
            reveal_with_fuel(euclid_run, 2);
        }
        lemma_solvable_iff_gcd_divides(a.value(), b.value(), c.value());
    }
    let zero: T = T::from_usize(0).unwrap();
    let (g, c1, c2) = calc_euclidean_ext(a, b);
    if !c.rem(g).equals(&zero) {
        return Err(NtError::NoSolns);
    }
    let cnst1 = c.mul(c1).div(g);
    let cnst2 = c.mul(c2).div(g);
    let cf1 = b.div(g);
    let cf2 = a.neg().div(g);

    let size1 = cnst1.abs();
    let size2 = cnst2.abs();
    let q = if size2.less_than(&size1) {
        cnst1.div(cf1)
    } else {
        cnst2.div(cf2)
    };

    let cnst1 = cnst1.sub(q.mul(cf1));
    let cnst2 = cnst2.sub(q.mul(cf2));

    let result = Solutions { cf1, cnst1, cf2, cnst2 };
    proof {
        lemma_family_centred(a.value(), b.value(), c.value());
        assert forall|i: int|
            a.value() * #[trigger] result@.x(i) + b.value() * result@.y(i) == c.value() by {
            lemma_family_solves(a.value(), b.value(), c.value(), i);
        }
    }
    Ok((result, g))
}

/// Solves `a * x ≡ b (mod modulo)`.
///
/// Reduces to the Diophantine equation `a * x + modulo * y == b` and lists,
/// for the parameters `0, 1, ...` below the first component `g` of
/// [`bezout`]`(a, modulo)`, the first component of the solution moved into
/// the range of residues. Fails with `NoSolns` exactly when the equation
/// has no solution, and with `Overflow` exactly when it has and `g` does
/// not fit an `i32`. A negative `g` lists nothing.
///
/// For a positive modulus and a positive `g`, which a non-negative `a`
/// always gives, the result holds exactly `gcd(a, modulo)` residues, each in
/// `[0, modulo)`, each a solution, no two equal.
///
/// What is computed on the way must be representable in `T`: see
/// [`congruence_fits`], and [`lemma_congruence_in_range`] for a simple
/// condition that is enough.
pub fn solve_linear_congruence<T: Numeric>(a: T, b: T, modulo: T) -> (r: Result<Vec<T>, NtError>)
    requires
        congruence_fits(T::min_value(), T::max_value(), a.value(), b.value(), modulo.value()),
    ensures
        match r {
            Ok(v) => {
                &&& solvable(a.value(), modulo.value(), b.value())
                &&& i32::MIN <= bezout(a.value(), modulo.value()).0 <= i32::MAX
                &&& v.len() == congruence_count(a.value(), modulo.value())
                &&& forall|i: int|
                    0 <= i < v.len() ==> (#[trigger] v[i]).value() == congruence_solution(
                        a.value(),
                        b.value(),
                        modulo.value(),
                        i,
                    )
            },
            Err(e) => if solvable(a.value(), modulo.value(), b.value()) {
                e == NtError::Overflow && !(i32::MIN <= bezout(a.value(), modulo.value()).0
                    <= i32::MAX)
            } else {
                e == NtError::NoSolns
            },
        },
        modulo.value() > 0 && (a.value() >= 0 || bezout(a.value(), modulo.value()).0 > 0)
            ==> match r {
            Ok(v) => {
                &&& v.len() == gcd_nat(abs(a.value()), abs(modulo.value()))
                &&& forall|i: int|
                    0 <= i < v.len() ==> 0 <= (#[trigger] v[i]).value() < modulo.value() && (
                    a.value() * v[i].value() - b.value()) % modulo.value() == 0
                &&& forall|i: int, j: int|
                    0 <= i < j < v.len() ==> (#[trigger] v[i]).value() != (#[trigger] v[j]).value()
            },
            Err(_) => true,
        },
{
    proof {
        T::lemma_limits();
    }
    let zero: T = T::from_usize(0).unwrap();
    let one: T = T::from_usize(1).unwrap();

    let (func_solns, g) = match solve_diophantine(a, modulo, b) {
        Err(e) => return Err(e),
        Ok(val) => val,
    };
    let mut ret: Vec<T> = Vec::new();
    let gcd_int_opt = g.to_i32();
    let gcd_int: i32 = match gcd_int_opt {
        None => return Err(NtError::Overflow),
        Some(val) => val,
    };

    let mut i: i32 = 0;
    while i < gcd_int
        invariant
            0 <= i,
            i <= gcd_int || i == 0,
            gcd_int == bezout(a.value(), modulo.value()).0,
            zero.value() == 0,
            one.value() == 1,
            func_solns@ == diophantine_family(a.value(), modulo.value(), b.value()),
            solvable(a.value(), modulo.value(), b.value()),
            congruence_fits(T::min_value(), T::max_value(), a.value(), b.value(), modulo.value()),
            ret.len() == i,
            forall|k: int|
                0 <= k < i ==> (#[trigger] ret[k]).value() == congruence_solution(
                    a.value(),
                    b.value(),
                    modulo.value(),
                    k,
                ),
        decreases gcd_int - i,
    {
        assert(solution_fits(
            T::min_value(),
            T::max_value(),
            a.value(),
            b.value(),
            modulo.value(),
            i as int,
        ));
        let (sln, _) = func_solns.eval(i);
        let sln = if !sln.less_than(&modulo) {
            sln.sub(sln.div(modulo).mul(modulo))
        } else if sln.less_than(&zero) {
            sln.add(modulo.sub(one).sub(sln).div(modulo).mul(modulo))
        } else {
            sln
        };
        ret.push(sln);
        i += 1;
    }
    proof {
        if modulo.value() > 0 && a.value() >= 0 {
            lemma_bezout_positive(a.value(), modulo.value());
        }
        if modulo.value() > 0 && gcd_int > 0 {
            lemma_count_is_gcd(a.value(), modulo.value());
            assert forall|k: int| 0 <= k < ret.len() implies 0 <= (#[trigger] ret[k]).value()
                < modulo.value() && (a.value() * ret[k].value() - b.value()) % modulo.value()
                == 0 by {
                lemma_solution_solves(a.value(), b.value(), modulo.value(), k);
            }
            assert forall|k: int, j: int| 0 <= k < j < ret.len() implies (#[trigger] ret[k]).value()
                != (#[trigger] ret[j]).value() by {
                lemma_solutions_distinct(a.value(), b.value(), modulo.value(), k, j);
            }
        }
    }
    Ok(ret)
}

/// The inverse of `n` modulo `modulo`: the `x` with `n * x ≡ 1`.
///
/// It is the one residue that [`solve_linear_congruence`] lists for
/// `n * x ≡ 1`, so for a positive modulus it lies in `[0, modulo)`. Fails
/// with `NoSolns` exactly when `n` and `modulo` have a common divisor
/// other than 1.
///
/// Besides what [`solve_linear_congruence`] asks, the first component of
/// [`bezout`]`(n, modulo)` may not be -1: nothing is listed then.
pub fn inverse_mod<T: Numeric>(n: T, modulo: T) -> (r: Result<T, NtError>)
    requires
        congruence_fits(T::min_value(), T::max_value(), n.value(), 1, modulo.value()),
        bezout(n.value(), modulo.value()).0 != -1,
    ensures
        match r {
            Ok(x) => {
                &&& bezout(n.value(), modulo.value()).0 == 1
                &&& x.value() == congruence_solution(n.value(), 1, modulo.value(), 0)
                &&& modulo.value() > 0 ==> 0 <= x.value() < modulo.value() && (n.value()
                    * x.value() - 1) % modulo.value() == 0
            },
            Err(e) => e == NtError::NoSolns,
        },
        r is Ok <==> gcd_nat(abs(n.value()), abs(modulo.value())) == 1,
{
    proof {
        T::lemma_limits();
        lemma_unit_solvable(n.value(), modulo.value());
        if modulo.value() > 0 && solvable(n.value(), modulo.value(), 1) {
            lemma_solution_solves(n.value(), 1, modulo.value(), 0);
        }
    }
    match solve_linear_congruence(n, T::from_usize(1).unwrap(), modulo) {
        Err(e) => Err(e),
        Ok(ret) => Ok(ret[0]),
    }
}

} // verus!
