//! Identity based encryption schemes.

use crate::error::MathError;
use crate::value::Value;
use vstd::prelude::*;

pub mod dual_regev_ibe;

pub use dual_regev_ibe::DualRegevIBE;

verus! {

/// An encryption scheme in which any identity serves as a public key, and the
/// holder of the master secret key extracts the secret key of an identity.
pub trait IBEScheme {
    /// A ciphertext.
    type Cipher;

    /// The public key of the scheme.
    type MasterPublicKey;

    /// The key that extracts the secret keys of the identities.
    type MasterSecretKey;

    /// The secret key of an identity.
    type SecretKey: Value;

    /// An identity.
    type Identity: Value;

    /// `cipher` is a ciphertext of the bit of `message` for `identity` under the
    /// master public key.
    spec fn encrypts(
        &self,
        master_pk: &Self::MasterPublicKey,
        identity: <Self::Identity as Value>::Model,
        message: int,
        cipher: &Self::Cipher,
    ) -> bool;

    /// `out` is what the scheme gives for the secret key of `identity` under the
    /// master keys, and `after` is the scheme once it has given it.
    spec fn extracts(
        &self,
        after: &Self,
        master_pk: &Self::MasterPublicKey,
        master_sk: &Self::MasterSecretKey,
        identity: <Self::Identity as Value>::Model,
        out: Result<Self::SecretKey, MathError>,
    ) -> bool;

    /// What decryption of `cipher` with the secret key `sk_id` comes to.
    spec fn decrypts(
        &self,
        sk_id: <Self::SecretKey as Value>::Model,
        cipher: &Self::Cipher,
    ) -> Result<i64, MathError>;

    /// A fresh pair of master keys.
    fn setup(&self) -> (Self::MasterPublicKey, Self::MasterSecretKey);

    /// The secret key of `identity` under the master keys.
    fn extract(
        &mut self,
        master_pk: &Self::MasterPublicKey,
        master_sk: &Self::MasterSecretKey,
        identity: &Self::Identity,
    ) -> (out: Result<Self::SecretKey, MathError>)
        ensures
            old(self).extracts(final(self), master_pk, master_sk, identity.model(), out),
    ;

    /// A ciphertext of the bit of `message` for `identity`.
    fn enc(
        &self,
        master_pk: &Self::MasterPublicKey,
        identity: &Self::Identity,
        message: i64,
    ) -> (out: Result<Self::Cipher, MathError>)
        ensures
            out matches Ok(cipher) ==> self.encrypts(
                master_pk,
                identity.model(),
                message as int,
                &cipher,
            ),
    ;

    /// The bit that `cipher` holds for the owner of `sk_id`.
    fn dec(&self, sk_id: &Self::SecretKey, cipher: &Self::Cipher) -> (out: Result<i64, MathError>)
        ensures
            out == self.decrypts(sk_id.model(), cipher),
            out matches Ok(bit) ==> bit == 0 || bit == 1,
    ;
}

} // verus!
