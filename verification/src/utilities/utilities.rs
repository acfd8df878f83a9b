use vstd::prelude::*;
use vstd::arithmetic::power2::{pow2, lemma_pow2_adds, lemma_pow2_pos};
use crate::math::bits::{
    is_power_of_two, top_bit, lemma_top_bit_below, lemma_top_bit_bounds, lemma_top_bit_shift,
};
use crate::utilities::numeric_trait::Numeric;

verus! {

/// For each value of four bits, the index of its highest set bit.
pub const LMOB_MAPPING: [usize; 16] = [0, 0, 1, 1, 2, 2, 2, 2, 3, 3, 3, 3, 3, 3, 3, 3];

/// The highest power of two that is no larger than `n`; 0 for `n == 0`.
///
/// `n` may not be negative.
pub fn top_bit_mask<T: Numeric>(n: T) -> (r: T)
    requires
        n.value() >= 0,
    ensures
        n.value() == 0 ==> r.value() == 0,
        n.value() > 0 ==> r.value() == pow2(top_bit(n.value() as nat)) && r.value() <= n.value()
            < 2 * r.value(),
{
    if n.equals(&T::zero()) {
        T::zero()
    } else {
        proof {
            T::lemma_limits();
            n.lemma_in_range();
            lemma_top_bit_bounds(n.value() as nat);
            lemma_top_bit_below(n.value() as nat, T::bits());
            vstd::arithmetic::power2::lemma_pow2_unfold(top_bit(n.value() as nat) + 1);
            assert(1 * pow2(top_bit(n.value() as nat)) == pow2(top_bit(n.value() as nat)));
        }
        T::one().shl(leftmost_one_index(n))
    }
}

/// The index of the highest set bit of `n`, counted from 0 at the least
/// significant bit; 0 for `n == 0`. For a negative `n` the result is the
/// width of `T` in bits, which is no index.
///
/// The search halves a window that starts as the whole width, and looks
/// the last four bits up in [`LMOB_MAPPING`].
pub fn leftmost_one_index<T: Numeric>(n: T) -> (r: usize)
    ensures
        n.value() < 0 ==> r == T::bits(),
        n.value() >= 0 ==> r == top_bit(n.value() as nat) && r < T::bits(),
        n.value() > 0 ==> pow2(r as nat) <= n.value() < pow2(r as nat + 1),
{
    let mut bit_count: usize = T::bit_width();
    let mut ret: usize = 0;

    if n.less_than(&T::zero()) {
        return bit_count;
    }
    let mut mut_n = n;
    proof {
        T::lemma_limits();
        n.lemma_in_range();
        assert(pow2(0) == 1) by {
            vstd::arithmetic::power2::lemma2_to64();
        }
    }
    while bit_count > 4
        invariant
            is_power_of_two(bit_count as nat),
            bit_count >= 4,
            ret + bit_count <= T::bits(),
            T::bits() <= usize::MAX,
            0 <= mut_n.value() < pow2(bit_count as nat),
            0 <= n.value(),
            top_bit(n.value() as nat) == ret + top_bit(mut_n.value() as nat),
        decreases bit_count,
    {
        let ghost window = bit_count as nat;
        proof {
            reveal_with_fuel(is_power_of_two, 3);
            assert(bit_count >> 1 == bit_count / 2) by (bit_vector);
        }
        bit_count = bit_count >> 1;
        let shifted = mut_n.shr(bit_count);
        proof {
            let half = bit_count as nat;
            let x = mut_n.value();
            let p = pow2(half) as int;
            lemma_pow2_pos(half);
            lemma_pow2_adds(half, half);
            vstd::arithmetic::div_mod::lemma_fundamental_div_mod(x, p);
            assert(0 <= x / p < p && (x / p == 0 ==> x < p) && (x / p != 0 ==> x >= p))
                by (nonlinear_arith)
                requires
                    0 <= x < p * p,
                    x == p * (x / p) + x % p,
                    0 <= x % p < p,
            ;
            if x / p != 0 {
                lemma_top_bit_shift(x as nat, half);
            }
        }
        if !shifted.equals(&T::zero()) {
            ret += bit_count;
            mut_n = shifted;
        }
    }
    proof {
        vstd::arithmetic::power2::lemma2_to64();
        reveal_with_fuel(top_bit, 5);
        if n.value() > 0 {
            lemma_top_bit_bounds(n.value() as nat);
        }
    }
    let n = mut_n.to_usize().unwrap();
    ret + LMOB_MAPPING[n]
}

} // verus!
