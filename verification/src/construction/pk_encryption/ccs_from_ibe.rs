//! Encryption that withstands chosen ciphertexts, from an identity based
//! encryption and a signature scheme: every ciphertext is encrypted to a fresh
//! verification key as identity, and signed under that key.

use crate::construction::identity_based_encryption::IBEScheme;
use crate::construction::pk_encryption::PKEncryptionSchemeMut;
use crate::construction::signature::SignatureScheme;
use crate::error::MathError;
use crate::value::{Encode, Value};
use vstd::prelude::*;

verus! {

/// The encryption scheme over the identity based encryption `ibe` and the
/// signature scheme `signature`.
pub struct CCSfromIBE<IBE: IBEScheme, Signature: SignatureScheme> {
    /// The identity based encryption.
    pub ibe: IBE,
    /// The signature scheme.
    pub signature: Signature,
}

impl<IBE, Signature> PKEncryptionSchemeMut for CCSfromIBE<IBE, Signature> where
    IBE: IBEScheme<Identity = String>,
    Signature: SignatureScheme,
    IBE::Cipher: Encode,
    IBE::MasterPublicKey: Value,
    Signature::PublicKey: Encode,
 {
    type Cipher = (Signature::PublicKey, IBE::Cipher, Signature::Signature);

    type PublicKey = IBE::MasterPublicKey;

    type SecretKey = (IBE::MasterPublicKey, IBE::MasterSecretKey);

    /// The master keys of the identity based encryption: the master public key
    /// as the public key, and both master keys as the secret key.
    fn gen(&mut self) -> (out: (Self::PublicKey, Self::SecretKey))
        ensures
            out.0.model() == out.1.0.model(),
            final(self).signature == old(self).signature,
            final(self).ibe == old(self).ibe,
    {
        let (pk, sk) = self.ibe.setup();
        (pk.copy(), (pk, sk))
    }

    /// A fresh verification key `vk`, the ciphertext `c` of `message` for `vk`
    /// as identity, and a signature on `c` under `vk`.
    fn enc(&mut self, pk: &Self::PublicKey, message: i64) -> (out: Result<
        Self::Cipher,
        MathError,
    >)
        ensures
            final(self).ibe == old(self).ibe,
            old(self).signature.sound() ==> final(self).signature.sound() && (out matches Ok(
                cipher,
            ) ==> final(self).signature.accepts(
                cipher.1.text(),
                cipher.2.model(),
                cipher.0.model(),
            )),
            out matches Ok(cipher) ==> {
                &&& old(self).ibe.encrypts(pk, cipher.0.text(), message as int, &cipher.1)
                &&& old(self).signature.signs(
                    cipher.1.text(),
                    cipher.2.model(),
                    cipher.0.model(),
                )
                &&& exists|sk: Signature::SecretKey| #[trigger]
                    old(self).signature.is_key_pair(cipher.0.model(), sk)
            },
    {
        let (vrfy_key, sign_key) = self.signature.gen();
        let identity: String = vrfy_key.encode();
        let c: IBE::Cipher = match self.ibe.enc(pk, &identity, message) {
            Ok(c) => c,
            Err(e) => {
                return Err(e);
            },
        };
        let sigma: Signature::Signature = match self.signature.sign(
            c.encode(),
            &sign_key,
            &vrfy_key,
        ) {
            Ok(sigma) => sigma,
            Err(e) => {
                return Err(e);
            },
        };
        let cipher: Self::Cipher = (vrfy_key, c, sigma);
        proof {
            assert(old(self).signature.is_key_pair(cipher.0.model(), sign_key));
            assert(old(self).ibe.encrypts(pk, cipher.0.text(), message as int, &cipher.1));
            assert(old(self).signature.signs(
                cipher.1.text(),
                cipher.2.model(),
                cipher.0.model(),
            ));
        }
        Ok(cipher)
    }

    /// `-1` where the signature on the ciphertext is not accepted. Else the bit
    /// that the ciphertext holds for the identity of the verification key.
    fn dec(&mut self, sk: &Self::SecretKey, cipher: &Self::Cipher) -> (out: Result<i64, MathError>)
        ensures
            final(self).signature == old(self).signature,
            !old(self).signature.accepts(cipher.1.text(), cipher.2.model(), cipher.0.model())
                ==> out == Ok::<i64, MathError>(-1i64) && final(self).ibe == old(self).ibe,
            old(self).signature.accepts(cipher.1.text(), cipher.2.model(), cipher.0.model())
                ==> (out matches Ok(bit) ==> bit == 0 || bit == 1),
            old(self).signature.accepts(cipher.1.text(), cipher.2.model(), cipher.0.model())
                ==> exists|got: Result<IBE::SecretKey, MathError>| #[trigger]
                old(self).ibe.extracts(&final(self).ibe, &sk.0, &sk.1, cipher.0.text(), got)
                    && out == (match got {
                    Ok(secret) => final(self).ibe.decrypts(secret.model(), &cipher.1),
                    Err(e) => Err(e),
                }),
    {
        if !self.signature.vfy(cipher.1.encode(), &cipher.2, &cipher.0) {
            return Ok(-1);
        }
        let identity: String = cipher.0.encode();
        let got: Result<IBE::SecretKey, MathError> = self.ibe.extract(&sk.0, &sk.1, &identity);
        assert(old(self).ibe.extracts(&self.ibe, &sk.0, &sk.1, cipher.0.text(), got));
        match got {
            Ok(secret) => self.ibe.dec(&secret, &cipher.1),
            Err(e) => Err(e),
        }
    }
}

} // verus!
