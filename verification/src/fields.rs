//! Concrete rings.

pub mod binary;
pub mod oxfoi;
pub mod seven;
