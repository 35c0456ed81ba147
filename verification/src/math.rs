//! Exact arithmetic: integers, residues and matrices of both.

pub mod arith;
pub mod laws;
pub mod mat_z;
pub mod mat_zq;
pub mod model;
pub mod rational;
pub mod text;
