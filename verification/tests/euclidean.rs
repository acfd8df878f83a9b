use number_theory::number_theory::euclidean::{
    calc_euclidean_ext, gcd, inverse_mod, lcm, solve_diophantine, solve_linear_congruence,
    ExtMatrix,
};
use number_theory::utilities::nt_error::NtError;

// Euclidean Extension
#[test]
fn euclidean_test() {
    let (gcd, coeff1, coeff2) = calc_euclidean_ext(97, 18);
    assert_eq!(gcd, 1);
    assert_eq!(coeff1, -5);
    assert_eq!(coeff2, 27);
    let (gcd, coeff1, coeff2) = calc_euclidean_ext(541, 7919);
    assert_eq!(gcd, 1);
    assert_eq!(coeff1, -1010);
    assert_eq!(coeff2, 69);
}

#[test]
fn solve_diophantine_test() {
    let (fn_solve, gcd) = solve_diophantine(7, 13, 5).unwrap_or_else(|_| panic!("failed!"));
    assert_eq!(gcd, 1);
    let (x, y) = fn_solve.eval(0);
    assert_eq!(7 * x + 13 * y, 5);
}

#[test]
fn solve_linear_congruence_test() {
    let big_a: i128 = 6123123;
    let big_b: i128 = 6123123123;
    let big_mod: i128 = 9123123123123;

    let solns =
        solve_linear_congruence(big_a, big_b, big_mod).unwrap_or_else(|_| panic!("Failed!"));
    assert_eq!(solns.len(), 3);
    for isoln in solns {
        assert_eq!(big_b, big_a * isoln % big_mod);
    }
}

#[test]
fn bezout_identity_holds_for_mixed_signs() {
    for &(a, b) in &[(97i64, 18i64), (-97, 18), (97, -18), (-97, -18), (0, 5), (5, 0), (12, 18)] {
        let (g, c1, c2) = calc_euclidean_ext(a, b);
        assert_eq!(c1 * a + c2 * b, g);
        assert_eq!(g.abs(), gcd(a, b));
    }
}

#[test]
fn extended_gcd_with_a_zero_argument() {
    assert_eq!(calc_euclidean_ext(0i32, 0i32), (0, 1, 0));
    assert_eq!(calc_euclidean_ext(7i32, 0i32), (7, 1, 0));
    assert_eq!(calc_euclidean_ext(0i32, 7i32), (7, 0, 1));
}

#[test]
fn extended_gcd_keeps_the_sign_of_the_last_pivot() {
    assert_eq!(calc_euclidean_ext(-6i32, 4i32), (-2, 1, 1));
}

#[test]
fn matrix_steps_rotate_the_slots() {
    let mut m = ExtMatrix::new(97i32, 18i32);
    assert!(!m.finished());
    assert_eq!(m.result(), (97, 1, 0));
    m.step();
    assert_eq!(m.result(), (18, 0, 1));
    m.step();
    assert_eq!(m.result(), (7, 1, -5));
    m.step();
    assert_eq!(m.result(), (4, -2, 11));
    m.step();
    assert_eq!(m.result(), (3, 3, -16));
    m.step();
    assert_eq!(m.result(), (1, -5, 27));
    assert!(m.finished());
}

#[test]
fn gcd_takes_magnitudes() {
    assert_eq!(gcd(97, 18), 1);
    assert_eq!(gcd(12, 18), 6);
    assert_eq!(gcd(-12, 18), 6);
    assert_eq!(gcd(12, -18), 6);
    assert_eq!(gcd(0, 9), 9);
    assert_eq!(gcd(9, 0), 9);
    assert_eq!(gcd(0, 0), 0);
}

#[test]
fn gcd_is_the_largest_common_divisor() {
    let (a, b) = (84i32, 36i32);
    let g = gcd(a, b);
    assert_eq!(g, 12);
    assert_eq!(a % g, 0);
    assert_eq!(b % g, 0);
    for d in (g + 1)..=a {
        assert!(a % d != 0 || b % d != 0);
    }
}

#[test]
fn lcm_is_product_over_gcd() {
    assert_eq!(lcm(4, 6), Ok(12));
    assert_eq!(lcm(21i64, 6i64), Ok(42));
    assert_eq!(lcm(0, 6), Ok(0));
    assert_eq!(lcm(4i32, 6i32).unwrap() * gcd(4i32, 6i32), 24);
}

#[test]
fn lcm_has_the_sign_of_the_product() {
    assert_eq!(lcm(-4, 6), Ok(-12));
    assert_eq!(lcm(-4, -6), Ok(12));
}

#[test]
fn lcm_reports_overflow() {
    assert_eq!(lcm(i32::MAX, 2), Err(NtError::Overflow));
    assert_eq!(lcm(1i8 << 6, 3i8), Err(NtError::Overflow));
    assert_eq!(lcm(i32::MIN, 2), Err(NtError::Overflow));
}

#[test]
fn diophantine_solutions_at_consecutive_parameters() {
    let (family, g) = solve_diophantine(7, 13, 5).unwrap_or_else(|_| panic!("failed!"));
    assert_eq!(g, 1);
    let (x, y) = family.eval(0);
    assert_eq!((x, y), (10, -5));
    let (x1, y1) = family.eval(1);
    assert_eq!((x1, y1), (23, -12));
    assert_ne!(x, x1);
    assert_eq!(7 * x1 + 13 * y1, 5);
    for i in -20..20 {
        let (x, y) = family.eval(i);
        assert_eq!(7 * x + 13 * y, 5);
    }
}

#[test]
fn diophantine_without_solution() {
    assert!(matches!(solve_diophantine(6, 4, 5), Err(NtError::NoSolns)));
    assert!(matches!(solve_diophantine(6i64, 9i64, 20i64), Err(NtError::NoSolns)));
}

#[test]
fn diophantine_with_common_divisor() {
    let (family, g) = solve_diophantine(6i64, 4i64, 10i64).unwrap_or_else(|_| panic!("failed!"));
    assert_eq!(g, 2);
    for i in -5..5 {
        let (x, y) = family.eval(i);
        assert_eq!(6 * x + 4 * y, 10);
    }
    let (x0, y0) = family.eval(0);
    let (x1, y1) = family.eval(1);
    assert_eq!((x1 - x0, y1 - y0), (2, -3));
}

#[test]
fn congruence_lists_gcd_many_distinct_residues() {
    let solns = solve_linear_congruence(123, 9123, 321123).unwrap_or_else(|_| panic!("failed"));
    assert_eq!(solns.len(), 3);
    for (i, x) in solns.iter().enumerate() {
        assert!(0 <= *x && *x < 321123);
        assert_eq!(9123, 123 * x % 321123);
        for y in &solns[..i] {
            assert_ne!(x, y);
        }
    }
}

#[test]
fn congruence_exact_residues() {
    assert_eq!(solve_linear_congruence(6i32, 4i32, 10i32), Ok(vec![4, 9]));
    assert_eq!(solve_linear_congruence(3i32, 1i32, 11i32), Ok(vec![4]));
}

#[test]
fn congruence_without_solution() {
    assert_eq!(solve_linear_congruence(6i32, 3i32, 10i32), Err(NtError::NoSolns));
}

#[test]
fn congruence_count_that_does_not_fit() {
    let big: i64 = 1 << 40;
    assert_eq!(solve_linear_congruence(big, 0i64, big), Err(NtError::Overflow));
}

#[test]
fn congruence_with_negative_pivot_lists_nothing() {
    assert_eq!(solve_linear_congruence(-6i32, 2i32, 4i32), Ok(vec![]));
}

#[test]
fn inverse_mod_of_three_mod_eleven() {
    assert_eq!(inverse_mod(3, 11), Ok(4));
}

#[test]
fn inverse_mod_is_an_inverse() {
    for n in 1..97i64 {
        let x = inverse_mod(n, 97i64).unwrap_or_else(|_| panic!("failed"));
        assert!(0 <= x && x < 97);
        assert_eq!(n * x % 97, 1);
    }
}

#[test]
fn inverse_mod_without_inverse() {
    assert_eq!(inverse_mod(4, 10), Err(NtError::NoSolns));
    assert_eq!(inverse_mod(6i64, 9i64), Err(NtError::NoSolns));
}

#[test]
fn congruence_moves_a_solution_equal_to_the_modulus_to_zero() {
    assert_eq!(solve_linear_congruence(2i32, 2i32, 2i32), Ok(vec![1, 0]));
    assert_eq!(solve_linear_congruence(1i32, 1i32, 1i32), Ok(vec![0]));
}

#[test]
fn congruence_lists_every_solution_once() {
    for a in 1..25i64 {
        for m in 1..25i64 {
            for b in 0..25i64 {
                let expected: Vec<i64> = (0..m).filter(|x| (a * x - b) % m == 0).collect();
                match solve_linear_congruence(a, b, m) {
                    Ok(mut found) => {
                        assert_eq!(found.len() as i64, gcd(a, m));
                        found.sort();
                        assert_eq!(found, expected);
                    }
                    Err(e) => {
                        assert_eq!(e, NtError::NoSolns);
                        assert!(expected.is_empty());
                    }
                }
            }
        }
    }
}

#[test]
fn diophantine_solution_at_zero_is_centred() {
    for a in 1..20i64 {
        for b in 1..20i64 {
            for c in -20..20i64 {
                if let Ok((family, g)) = solve_diophantine(a, b, c) {
                    let (x0, y0) = family.eval(0);
                    let (x1, y1) = family.eval(1);
                    assert_eq!(a * x0 + b * y0, c);
                    assert_eq!((x1 - x0, y1 - y0), (b / g, -a / g));
                    assert!(x0.abs() < (b / g).abs() || y0.abs() < (a / g).abs());
                } else {
                    assert_ne!(c % gcd(a, b), 0);
                }
            }
        }
    }
}
