use core::cmp::Ordering;
use number_theory::utilities::u_to_i::{IntErrorKind, UToI};

#[test]
fn test_u_to_i() {
    let m = -UToI::new(10u32);
    let mut n = UToI::new(10u32);
    assert_ne!(m, n);
    // verify Copy
    n = m;
    let mut o = n + m;
    println!("neg: {}, pos: {}", o.to_string(), UToI::new(27u32).to_string());
    o += UToI::new(27u32);
    assert_eq!(o, UToI::new(7u32));
    o *= UToI::new(2u32);
    assert_eq!(o, UToI::new(14u32));
    o = o & UToI::new(7u32);
    assert_eq!(o, UToI::new(6u32));
    assert_eq!(o >> 1, UToI::new(3u32));
    assert_eq!(o << 1, UToI::new(12u32));
}

#[test]
fn u_to_i_sums_and_differences_follow_the_signs() {
    let five = UToI::new(5u64);
    let three = UToI::new(3u64);
    assert_eq!(five + three, UToI::new(8u64));
    assert_eq!(five - three, UToI::new(2u64));
    assert_eq!(three - five, -UToI::new(2u64));
    assert_eq!(-five - three, -UToI::new(8u64));
    assert_eq!(-five + three, -UToI::new(2u64));
    assert_eq!(five + (-five), UToI::new(0u64));
    assert_eq!(five - five, UToI::zero());
    assert!(!(five - five).is_negative());
}

#[test]
fn u_to_i_add_help_takes_the_given_sign() {
    let five = UToI::new(5u8);
    let three = UToI::new(3u8);
    assert_eq!(five.add_help(&three, false), UToI::new(8u8));
    assert_eq!(five.add_help(&three, true), UToI::new(2u8));
    assert_eq!(three.add_help(&five, true), -UToI::new(2u8));
    assert_eq!(five.add_help(&five, true), UToI::new(0u8));
}

#[test]
fn u_to_i_products_and_quotients() {
    let six = UToI::new(6u32);
    let four = UToI::new(4u32);
    assert_eq!(six * four, UToI::new(24u32));
    assert_eq!(-six * four, -UToI::new(24u32));
    assert_eq!(-six * -four, UToI::new(24u32));
    assert_eq!(six * UToI::zero(), UToI::new(0u32));
    assert_eq!(-six * UToI::zero(), UToI::new(0u32));
    assert_eq!(six / four, UToI::new(1u32));
    assert_eq!(-six / four, -UToI::new(1u32));
    assert_eq!(-four / six, UToI::new(0u32));
    assert_eq!(six % four, UToI::new(2u32));
    assert_eq!(-six % four, -UToI::new(2u32));
    assert_eq!(six % -four, UToI::new(2u32));
    assert_eq!(-UToI::new(8u32) % four, UToI::new(0u32));
}

#[test]
fn u_to_i_negation_leaves_zero_unsigned() {
    let zero = UToI::new(0u16);
    assert_eq!(-zero, zero);
    assert!(!(-zero).is_negative());
    assert_eq!(-(-UToI::new(9u16)), UToI::new(9u16));
}

#[test]
fn u_to_i_bit_operations() {
    let a = UToI::new(0b1100u8);
    let b = UToI::new(0b1010u8);
    assert_eq!(a & b, UToI::new(0b1000u8));
    assert_eq!((-a) & b, UToI::new(0b1000u8));
    assert_eq!((-a) & (-b), -UToI::new(0b1000u8));
    assert_eq!(a << 2, UToI::new(0b110000u8));
    assert_eq!(UToI::new(0xffu8) << 4, UToI::new(0xf0u8));
    assert_eq!((-a) << 1, -UToI::new(0b11000u8));
    assert_eq!((-a) >> 2, UToI::new(0b11u8));
    assert_eq!(UToI::new(1u128 << 100) >> 99, UToI::new(2u128));
}

#[test]
fn u_to_i_order() {
    let two = UToI::new(2u32);
    let three = UToI::new(3u32);
    assert_eq!(two.cmp(&three), Ordering::Less);
    assert_eq!(three.cmp(&two), Ordering::Greater);
    assert_eq!(two.cmp(&two), Ordering::Equal);
    assert_eq!((-two).cmp(&three), Ordering::Less);
    assert_eq!(two.cmp(&-three), Ordering::Greater);
    assert_eq!((-two).cmp(&-three), Ordering::Greater);
    assert_eq!((-three).cmp(&-two), Ordering::Less);
    assert_eq!(two.partial_cmp(&three), Some(Ordering::Less));
}

#[test]
fn u_to_i_constants_and_signs() {
    assert_eq!(UToI::<u32>::one(), UToI::new(1u32));
    assert_eq!(UToI::<u32>::zero(), UToI::new(0u32));
    assert!(UToI::<u32>::zero().is_zero());
    assert!(!UToI::<u32>::one().is_zero());
    let minus = -UToI::new(4u32);
    assert_eq!(minus.abs(), UToI::new(4u32));
    assert_eq!(minus.signum(), -UToI::new(1u32));
    assert_eq!(UToI::new(4u32).signum(), UToI::new(1u32));
    assert!(minus.is_negative());
    assert!(!minus.is_positive());
    assert!(UToI::new(4u32).is_positive());
    assert!(!UToI::new(0u32).is_positive());
}

#[test]
fn u_to_i_abs_sub_is_the_distance() {
    let two = UToI::new(2u32);
    let five = UToI::new(5u32);
    assert_eq!(two.abs_sub(&five), UToI::new(3u32));
    assert_eq!(five.abs_sub(&two), UToI::new(3u32));
    assert_eq!((-two).abs_sub(&five), UToI::new(7u32));
    assert_eq!((-two).abs_sub(&-five), UToI::new(3u32));
}

#[test]
fn u_to_i_from_str_radix_reads_sign_and_digits() {
    assert_eq!(UToI::<u32>::from_str_radix("27", 10), Ok(UToI::new(27u32)));
    assert_eq!(UToI::<u32>::from_str_radix("-27", 10), Ok(-UToI::new(27u32)));
    assert_eq!(UToI::<u32>::from_str_radix("-ff", 16), Ok(-UToI::new(255u32)));
    assert_eq!(UToI::<u64>::from_str_radix("zz", 36), Ok(UToI::new(1295u64)));
    assert_eq!(UToI::<u8>::from_str_radix("101", 2), Ok(UToI::new(5u8)));
}

#[test]
fn u_to_i_from_str_radix_minus_zero_is_zero() {
    let zero = UToI::<u32>::from_str_radix("-0", 10).unwrap_or_else(|_| panic!("failed"));
    assert_eq!(zero, UToI::new(0u32));
    assert!(!zero.is_negative());
}

#[test]
fn u_to_i_from_str_radix_errors() {
    let empty = UToI::<u32>::from_str_radix("", 10);
    assert!(matches!(empty, Err(ref e) if e.get_kind() == IntErrorKind::Empty));
    for text in ["-", "abc", "12x", "--1", " 1", "4294967296", "2"] {
        let radix = if text == "2" { 2 } else { 10 };
        let r = UToI::<u32>::from_str_radix(text, radix);
        assert!(matches!(r, Err(ref e) if e.get_kind() == IntErrorKind::Invalid));
    }
}

#[test]
fn u_to_i_from_parsed_decides_the_sign() {
    assert_eq!(UToI::from_parsed(true, Some(3u32)), Ok(-UToI::new(3u32)));
    assert_eq!(UToI::from_parsed(false, Some(3u32)), Ok(UToI::new(3u32)));
    assert_eq!(UToI::from_parsed(true, Some(0u32)), Ok(UToI::new(0u32)));
    let r = UToI::<u32>::from_parsed(true, None);
    assert!(matches!(r, Err(ref e) if e.get_kind() == IntErrorKind::Invalid));
}

#[test]
fn u_to_i_to_string_writes_sign_and_decimal_digits() {
    assert_eq!((-UToI::new(20u32)).to_string(), "-20");
    assert_eq!(UToI::new(27u32).to_string(), "27");
    assert_eq!(UToI::new(0u8).to_string(), "0");
    assert_eq!(UToI::new(u128::MAX).to_string(), "340282366920938463463374607431768211455");
    assert_eq!((-UToI::new(1_000_000u64)).to_string(), "-1000000");
}

#[test]
fn u_to_i_absolute_value_is_the_magnitude() {
    assert_eq!((-UToI::new(20u32)).absolute_value(), 20);
    assert_eq!(UToI::new(7u8).absolute_value(), 7);
}
