use number_theory::number_theory::power_mod::power;
use number_theory::utilities::nt_error::NtError;
use number_theory::utilities::utilities::{leftmost_one_index, top_bit_mask, LMOB_MAPPING};

#[test]
fn power_of_the_scenario() {
    assert_eq!(power(2357, 2357, 3599), Ok(3115));
}

#[test]
fn power_with_exponent_zero_is_one() {
    assert_eq!(power(5, 0, 7), Ok(1));
    assert_eq!(power(0, 0, 1), Ok(1));
    assert_eq!(power(123i64, 0i64, 0i64), Ok(1));
    assert_eq!(power(-9i8, 0i8, -1i8), Ok(1));
}

#[test]
fn power_rejects_a_negative_exponent() {
    assert_eq!(power(2, -1, 7), Err(NtError::BadArgument));
    assert_eq!(power(2i64, i64::MIN, 7i64), Err(NtError::BadArgument));
}

#[test]
fn power_matches_repeated_multiplication() {
    for x in 0..12i64 {
        for m in 1..15i64 {
            let mut expected = 1 % m;
            for n in 1..20i64 {
                expected = expected * x % m;
                assert_eq!(power(x, n, m), Ok(expected));
            }
        }
    }
}

#[test]
fn power_of_a_negative_base_has_the_sign_of_the_power() {
    assert_eq!(power(-2, 3, 5), Ok(-3));
    assert_eq!(power(-2, 4, 5), Ok(1));
    assert_eq!(power(-7i64, 5i64, 10i64), Ok(-7));
}

#[test]
fn power_reports_overflow() {
    assert_eq!(power(3i8, 2i8, 100i8), Ok(9));
    assert_eq!(power(3i8, 9i8, 100i8), Err(NtError::Overflow));
    assert_eq!(power(100_000i32, 2i32, 1_000_000i32), Err(NtError::Overflow));
}

#[test]
fn leftmost_one_index_of_small_values() {
    assert_eq!(leftmost_one_index(0i32), 0);
    assert_eq!(leftmost_one_index(1i32), 0);
    assert_eq!(leftmost_one_index(2i32), 1);
    assert_eq!(leftmost_one_index(3i32), 1);
    assert_eq!(leftmost_one_index(255i32), 7);
    assert_eq!(leftmost_one_index(256i32), 8);
    assert_eq!(leftmost_one_index(i32::MAX), 30);
}

#[test]
fn leftmost_one_index_of_every_width() {
    assert_eq!(leftmost_one_index(i8::MAX), 6);
    assert_eq!(leftmost_one_index(i16::MAX), 14);
    assert_eq!(leftmost_one_index(i64::MAX), 62);
    assert_eq!(leftmost_one_index(i128::MAX), 126);
    assert_eq!(leftmost_one_index(1i128 << 100), 100);
}

#[test]
fn leftmost_one_index_of_a_negative_value_is_the_width() {
    assert_eq!(leftmost_one_index(-1i8), 8);
    assert_eq!(leftmost_one_index(-1i16), 16);
    assert_eq!(leftmost_one_index(-5i32), 32);
    assert_eq!(leftmost_one_index(i64::MIN), 64);
    assert_eq!(leftmost_one_index(-1i128), 128);
}

#[test]
fn leftmost_one_index_brackets_the_value() {
    for n in 1..5000i32 {
        let k = leftmost_one_index(n);
        assert!((1 << k) <= n && n < (1 << (k + 1)));
    }
}

#[test]
fn top_bit_mask_is_the_highest_power_of_two() {
    assert_eq!(top_bit_mask(0i32), 0);
    assert_eq!(top_bit_mask(1i32), 1);
    assert_eq!(top_bit_mask(5i32), 4);
    assert_eq!(top_bit_mask(2357i32), 2048);
    assert_eq!(top_bit_mask(i64::MAX), 1 << 62);
}

#[test]
fn table_of_four_bit_values() {
    for n in 1..16usize {
        assert!((1 << LMOB_MAPPING[n]) <= n && n < (2 << LMOB_MAPPING[n]));
    }
    assert_eq!(LMOB_MAPPING[0], 0);
}
