use number_theory::utilities::decimal::decimal_string;
use number_theory::utilities::numeric_trait::Numeric;
use number_theory::utilities::u_to_i::UTraits;

#[test]
fn numeric_constants_and_conversions() {
    assert_eq!(<i32 as Numeric>::zero(), 0);
    assert_eq!(<i64 as Numeric>::one(), 1);
    assert_eq!(<i8 as Numeric>::from_i32(100), Some(100));
    assert_eq!(<i8 as Numeric>::from_i32(200), None);
    assert_eq!(<i8 as Numeric>::from_i32(-129), None);
    assert_eq!(<i128 as Numeric>::from_i32(i32::MIN), Some(i32::MIN as i128));
    assert_eq!(<i16 as Numeric>::from_usize(40_000), None);
    assert_eq!(<i16 as Numeric>::from_usize(30_000), Some(30_000));
    assert_eq!(Numeric::to_i32(&5_000_000_000i64), None);
    assert_eq!(Numeric::to_i32(&-5i64), Some(-5));
    assert_eq!(Numeric::to_usize(&-5i64), None);
    assert_eq!(Numeric::to_usize(&77i8), Some(77));
}

#[test]
fn numeric_arithmetic_truncates_toward_zero() {
    assert_eq!(Numeric::div(-7i32, 2), -3);
    assert_eq!(Numeric::rem(-7i32, 2), -1);
    assert_eq!(Numeric::div(7i32, -2), -3);
    assert_eq!(Numeric::rem(7i32, -2), 1);
    assert_eq!(Numeric::div(-7i32, -2), 3);
    assert_eq!(Numeric::rem(-7i32, -2), -1);
    assert_eq!(Numeric::add(3i8, 4), 7);
    assert_eq!(Numeric::sub(3i8, 4), -1);
    assert_eq!(Numeric::mul(-3i8, 4), -12);
    assert_eq!(Numeric::neg(i64::MAX), i64::MIN + 1);
    assert_eq!(Numeric::abs(-9i16), 9);
    assert_eq!(Numeric::abs(9i16), 9);
}

#[test]
fn numeric_checked_mul_reports_what_does_not_fit() {
    assert_eq!(Numeric::checked_mul(&16i8, &7), Some(112));
    assert_eq!(Numeric::checked_mul(&16i8, &8), None);
    assert_eq!(Numeric::checked_mul(&-16i8, &8), Some(-128));
    assert_eq!(Numeric::checked_mul(&i128::MAX, &2), None);
}

#[test]
fn numeric_comparisons_and_width() {
    assert!(Numeric::equals(&3i32, &3));
    assert!(!Numeric::equals(&3i32, &4));
    assert!(Numeric::less_than(&-3i32, &2));
    assert!(!Numeric::less_than(&2i32, &2));
    assert_eq!(<i8 as Numeric>::bit_width(), 8);
    assert_eq!(<i16 as Numeric>::bit_width(), 16);
    assert_eq!(<i32 as Numeric>::bit_width(), 32);
    assert_eq!(<i64 as Numeric>::bit_width(), 64);
    assert_eq!(<i128 as Numeric>::bit_width(), 128);
}

#[test]
fn numeric_bit_operations_on_non_negative_values() {
    assert_eq!(Numeric::shl(5i32, 3), 40);
    assert_eq!(Numeric::shr(40i32, 3), 5);
    assert_eq!(Numeric::shr(41i64, 1), 20);
    assert_eq!(Numeric::bitand(0b1100i16, 0b1010), 0b1000);
}

#[test]
fn unsigned_capability_of_the_primitives() {
    assert_eq!(<u32 as UTraits>::zero(), 0);
    assert_eq!(<u8 as UTraits>::one(), 1);
    assert_eq!(UTraits::add(200u8, 55), 255);
    assert_eq!(UTraits::sub(200u8, 55), 145);
    assert_eq!(UTraits::mul(15u8, 17), 255);
    assert_eq!(UTraits::div(200u8, 7), 28);
    assert_eq!(UTraits::rem(200u8, 7), 4);
    assert_eq!(UTraits::shl(0xffu8, 4), 0xf0);
    assert_eq!(UTraits::shr(0xffu8, 4), 0x0f);
    assert_eq!(UTraits::bitand(0b1100u64, 0b1010), 0b1000);
    assert!(UTraits::less_than(&3u16, &4));
    assert!(UTraits::equals(&3u16, &3));
    assert_eq!(UTraits::decimal(&40_000u16), "40000");
}

#[test]
fn unsigned_from_str_radix_reads_magnitudes_only() {
    assert_eq!(<u32 as UTraits>::from_str_radix("1234", 10), Some(1234));
    assert_eq!(<u32 as UTraits>::from_str_radix("+12", 10), Some(12));
    assert_eq!(<u32 as UTraits>::from_str_radix("-12", 10), None);
    assert_eq!(<u8 as UTraits>::from_str_radix("256", 10), None);
    assert_eq!(<u8 as UTraits>::from_str_radix("ff", 16), Some(255));
    assert_eq!(<u128 as UTraits>::from_str_radix("", 10), None);
}

#[test]
fn decimal_string_of_small_and_large_numbers() {
    assert_eq!(decimal_string(0), "0");
    assert_eq!(decimal_string(9), "9");
    assert_eq!(decimal_string(10), "10");
    assert_eq!(decimal_string(1234567890), "1234567890");
}
