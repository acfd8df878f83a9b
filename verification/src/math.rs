//! The mathematics the contracts speak of: truncating division, divisibility
//! and greatest common divisors, the extended Euclidean recurrence, bits and
//! powers.

pub mod bits;
pub mod bounds;
pub mod congruence;
pub mod diophantine;
pub mod division;
pub mod euclid;
pub mod gcd;
pub mod power;
