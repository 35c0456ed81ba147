//! Schemes built on preimage sampleable functions.

pub mod hash;
pub mod identity_based_encryption;
pub mod pk_encryption;
pub mod signature;
pub mod storage;
