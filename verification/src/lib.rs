//! Lattice-based commitment schemes over modular rings: vectors and
//! matrices over a ring of integers modulo a cardinality, commitments built
//! on the short-integer-solution and learning-with-errors problems, and a
//! cumulative table sampler for small noise.

pub mod commitments;
pub mod digits;
pub mod element;
pub mod error;
pub mod fields;
pub mod linear;
pub mod matrix;
pub mod modular;
pub mod probability;
pub mod r1cs;
pub mod random;
pub mod vector;

pub use crate::commitments::bdlop_scalar::{BDLOPScalar, ElementHasher};
pub use crate::commitments::lwe_scalar::LWEScalar;
pub use crate::commitments::sis_scalar::SISScalar;
pub use crate::digits::Decompose;
pub use crate::element::Element;
pub use crate::error::{ConstraintMatrix, Error};
pub use crate::fields::binary::BinaryScalar;
pub use crate::fields::oxfoi::OxfoiScalar;
pub use crate::fields::seven::SevenScalar;
pub use crate::matrix::Matrix;
pub use crate::probability::cache::CdtCache;
pub use crate::probability::gaussian::GaussianCDT;
pub use crate::r1cs::R1CS;
pub use crate::vector::Vector;
