//! Lattice trapdoors and the schemes built on them.
//!
//! The crate provides gadget matrices, the generation of a public matrix together
//! with a secret trapdoor, preimage sampleable functions, and the signature and
//! encryption schemes that rest on them. All arithmetic is exact: integer
//! matrices, and matrices of residues modulo `q`.
//!
//! Random choices are never made inside the crate. Every scheme draws them from a
//! [`backend::Backend`] that its owner hands in, and checks what comes back.

pub mod backend;
pub mod construction;
pub mod error;
pub mod math;
pub mod primitive;
pub mod sample;
pub mod value;
