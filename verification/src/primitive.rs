//! Primitives that the schemes are built from.

pub mod psf;
