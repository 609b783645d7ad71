//! Discrete probability distributions.

pub mod cache;
pub mod gaussian;
