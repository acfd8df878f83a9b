//! The numeric capability the algorithms are generic over and its
//! implementations for the machine integers, a signed integer built from an
//! unsigned magnitude, the error kinds, and the bit-scanning helpers.

pub mod decimal;
pub mod nt_error;
pub mod numeric_trait;
pub mod primitives;
pub mod signed;
pub mod u_to_i;
pub mod unsigned;
pub mod utilities;
