use vstd::prelude::*;
use vstd::math::abs;
use vstd::arithmetic::div_mod::lemma_div_denominator;
use vstd::arithmetic::power::pow;
use vstd::arithmetic::power2::{pow2, lemma_pow2_pos, lemma_pow2_unfold};
use crate::math::bits::{bit_is_set, top_bit, lemma_bit_and_single, lemma_top_bit_bounds};
use crate::math::division::{
    trunc_div, trunc_rem, lemma_trunc_div_halves, lemma_trunc_div_rem,
};
use crate::math::power::{
    power_fits, power_residue, lemma_multiply_step, lemma_power_fits_prefix,
    lemma_power_residue_nonnegative, lemma_square_step,
};
use crate::utilities::nt_error::NtError;
use crate::utilities::numeric_trait::{Numeric, fits};
use crate::utilities::utilities::top_bit_mask;

verus! {

/// Any value of `T` can be reduced by a non-zero modulus when it is not
/// negative, or the modulus is not -1: the quotient is representable.
proof fn lemma_quotient_fits<T: Numeric>(val: T, modulo: T)
    requires
        modulo.value() != 0,
        val.value() >= 0 || modulo.value() != -1,
    ensures
        fits::<T>(trunc_div(val.value(), modulo.value())),
{
    T::lemma_limits();
    val.lemma_in_range();
    lemma_trunc_div_rem(val.value(), modulo.value());
    if abs(modulo.value()) >= 2 {
        lemma_trunc_div_halves(val.value(), modulo.value());
    }
}

/// `x` to the power `n`, reduced by `modulo`.
///
/// For `n == 0` the result is 1, whatever `x` and `modulo`. For a positive
/// `n` it is the remainder of the power on division by `modulo`, with the
/// sign of the power; for a non-negative `x` and a positive `modulo` that
/// is the residue in `[0, modulo)`. Fails with `BadArgument` exactly when
/// `n` is negative, and with `Overflow` exactly when a square or a product
/// that square-and-multiply forms, reading the bits of `n` from the highest
/// one down, is not representable in `T`.
///
/// `modulo` may not be zero unless `n` is zero or negative.
pub fn power<T: Numeric>(x: T, n: T, modulo: T) -> (r: Result<T, NtError>)
    requires
        n.value() > 0 ==> modulo.value() != 0,
    ensures
        match r {
            Ok(v) => {
                &&& n.value() >= 0
                &&& power_fits(
                    T::min_value(),
                    T::max_value(),
                    x.value(),
                    n.value() as nat,
                    modulo.value(),
                )
                &&& v.value() == power_residue(x.value(), n.value() as nat, modulo.value())
                &&& n.value() > 0 && x.value() >= 0 && modulo.value() > 0 ==> v.value() == pow(
                    x.value(),
                    n.value() as nat,
                ) % modulo.value()
            },
            Err(e) => if n.value() < 0 {
                e == NtError::BadArgument
            } else {
                e == NtError::Overflow && !power_fits(
                    T::min_value(),
                    T::max_value(),
                    x.value(),
                    n.value() as nat,
                    modulo.value(),
                )
            },
        },
{
    if n.equals(&T::zero()) {
        return Ok(T::one());
    }
    if n.less_than(&T::zero()) {
        return Err(NtError::BadArgument);
    }
    let ghost lo = T::min_value();
    let ghost hi = T::max_value();
    let ghost exponent = n.value() as nat;
    let ghost base = x.value();
    let ghost m = modulo.value();
    let ghost bit: int = top_bit(exponent) as int;
    proof {
        T::lemma_limits();
        lemma_top_bit_bounds(exponent);
        lemma_pow2_pos((bit + 1) as nat);
        vstd::arithmetic::div_mod::lemma_basic_div(exponent as int, pow2((bit + 1) as nat) as int);
    }
    let mut mask = top_bit_mask(n);
    let mut res = T::one();
    while !mask.equals(&T::zero())
        invariant
            lo == T::min_value(),
            hi == T::max_value(),
            exponent == n.value(),
            base == x.value(),
            m == modulo.value(),
            m != 0,
            -1 <= bit,
            bit >= 0 ==> mask.value() == pow2(bit as nat),
            bit == -1 ==> mask.value() == 0,
            bit >= 0 ==> pow2(bit as nat) <= exponent,
            res.value() == power_residue(base, exponent / pow2((bit + 1) as nat), m),
            power_fits(lo, hi, base, exponent / pow2((bit + 1) as nat), m),
        decreases bit + 1,
    {
        let ghost before = exponent / pow2((bit + 1) as nat);
        let ghost after = exponent / pow2(bit as nat);
        proof {
            T::lemma_limits();
            lemma_pow2_pos(bit as nat);
            lemma_pow2_unfold((bit + 1) as nat);
            lemma_div_denominator(exponent as int, pow2(bit as nat) as int, 2);
            assert(pow2(bit as nat) * 2 == pow2((bit + 1) as nat));
            assert(after / 2 == before);
            assert(after >= 1) by {
                vstd::arithmetic::div_mod::lemma_div_non_zero(
                    exponent as int,
                    pow2(bit as nat) as int,
                );
            }
            lemma_square_step(base, before, m);
            lemma_multiply_step(base, before, m);
            assert(2 * before + 1 == after || 2 * before == after);
            if !power_fits(lo, hi, base, after, m) {
                if power_fits(lo, hi, base, exponent, m) {
                    lemma_power_fits_prefix(lo, hi, base, exponent, m, bit as nat);
                }
            }
        }
        let opt = res.checked_mul(&res);
        res = match opt {
            None => return Err(NtError::Overflow),
            Some(val) => {
                proof {
                    assert(val.value() >= 0) by (nonlinear_arith)
                        requires
                            val.value() == res.value() * res.value(),
                    ;
                    val.lemma_in_range();
                    lemma_quotient_fits(val, modulo);
                }
                val.rem(modulo)
            },
        };

        proof {
            lemma_bit_and_single(exponent, bit as nat);
        }
        if !mask.bitand(n).equals(&T::zero()) {
            let opt = res.checked_mul(&x);
            res = match opt {
                None => return Err(NtError::Overflow),
                Some(val) => {
                    proof {
                        if m == -1 {
                            lemma_trunc_div_rem(
                                power_residue(base, before, m) * power_residue(base, before, m),
                                m,
                            );
                            assert(0 * base == 0);
                        }
                        val.lemma_in_range();
                        lemma_quotient_fits(val, modulo);
                    }
                    val.rem(modulo)
                },
            };
        }
        proof {
            if bit >= 1 {
                lemma_pow2_unfold(bit as nat);
                lemma_pow2_pos((bit - 1) as nat);
                vstd::arithmetic::power2::lemma2_to64();
                assert(pow2(bit as nat) as int / (pow2(1) as int) == pow2((bit - 1) as nat));
            } else {
                vstd::arithmetic::power2::lemma2_to64();
            }
            bit = bit - 1;
        }
        mask = mask.shr(1);
    }
    proof {
        vstd::arithmetic::power2::lemma2_to64();
        if bit >= 0 {
            lemma_pow2_pos(bit as nat);
        }
        if base >= 0 && m > 0 {
            lemma_power_residue_nonnegative(base, exponent, m);
        }
    }
    Ok(res)
}

} // verus!
