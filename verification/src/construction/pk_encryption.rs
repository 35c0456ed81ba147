//! Public key encryption schemes.

use crate::error::MathError;
use vstd::prelude::*;

pub mod ccs_from_ibe;
pub mod dual_regev;

pub use ccs_from_ibe::CCSfromIBE;
pub use dual_regev::DualRegev;

verus! {

/// A public key encryption scheme of single bits that keeps a state.
pub trait PKEncryptionSchemeMut {
    /// A ciphertext.
    type Cipher;

    /// The key that encrypts.
    type PublicKey;

    /// The key that decrypts.
    type SecretKey;

    /// A fresh pair of keys.
    fn gen(&mut self) -> (Self::PublicKey, Self::SecretKey);

    /// A ciphertext of the bit of `message`.
    fn enc(&mut self, pk: &Self::PublicKey, message: i64) -> Result<Self::Cipher, MathError>;

    /// The bit that `cipher` holds, or `-1` where `cipher` is not authentic.
    fn dec(&mut self, sk: &Self::SecretKey, cipher: &Self::Cipher) -> (out: Result<
        i64,
        MathError,
    >)
        ensures
            out matches Ok(bit) ==> bit == 0 || bit == 1 || bit == -1,
    ;
}

} // verus!
