//! Exact integer number theory over caller-supplied fixed-width integers:
//! greatest common divisors with Bézout coefficients, linear Diophantine
//! equations, linear congruences, modular inverses and modular powers.
//!
//! Every executable function carries a contract over mathematical integers,
//! stated through the `value` of a [`utilities::numeric_trait::Numeric`].

pub mod math;
pub mod number_theory;
pub mod utilities;
