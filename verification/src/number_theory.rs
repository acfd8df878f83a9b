//! The algorithms: the extended Euclidean scheme with what builds on it, and
//! modular exponentiation.

pub mod euclidean;
pub mod power_mod;
