//! Commitment schemes.

pub mod bdlop_scalar;
pub mod lwe_scalar;
pub mod sis_scalar;
