//! Signature schemes.

use crate::error::MathError;
use crate::value::Value;
use vstd::prelude::*;

pub mod fdh;

pub use fdh::{Fdh, FDH};

verus! {

/// A signature scheme: keys, signatures on messages, and their verification.
pub trait SignatureScheme {
    /// The key that signs.
    type SecretKey;

    /// The key that verifies.
    type PublicKey: Value;

    /// A signature.
    type Signature: Value;

    /// `sigma` is a signature on `m` that `pk` accepts.
    spec fn accepts(
        &self,
        m: Seq<char>,
        sigma: <Self::Signature as Value>::Model,
        pk: <Self::PublicKey as Value>::Model,
    ) -> bool;

    /// `sk` is a secret key that belongs to `pk`.
    spec fn is_key_pair(
        &self,
        pk: <Self::PublicKey as Value>::Model,
        sk: Self::SecretKey,
    ) -> bool;

    /// `sigma` is what the scheme, as it stands, gives as a signature on `m`
    /// under a secret key that belongs to `pk`.
    spec fn signs(
        &self,
        m: Seq<char>,
        sigma: <Self::Signature as Value>::Model,
        pk: <Self::PublicKey as Value>::Model,
    ) -> bool;

    /// Whatever the scheme keeps of the signatures that it has given is
    /// accepted by the key that it was given for.
    spec fn sound(&self) -> bool;

    /// A fresh pair of keys. What the scheme gives as signatures stays as it was.
    fn gen(&mut self) -> (out: (Self::PublicKey, Self::SecretKey))
        ensures
            old(self).is_key_pair(out.0.model(), out.1),
            old(self).sound() ==> final(self).sound(),
            forall|
                m: Seq<char>,
                sigma: <Self::Signature as Value>::Model,
                pk: <Self::PublicKey as Value>::Model,
            | #[trigger]
                final(self).signs(m, sigma, pk) == old(self).signs(m, sigma, pk),
    ;

    /// A signature on `m` under the secret key `sk` that belongs to `pk`.
    fn sign(&mut self, m: String, sk: &Self::SecretKey, pk: &Self::PublicKey) -> (out: Result<
        Self::Signature,
        MathError,
    >)
        ensures
            out matches Ok(sigma) ==> old(self).signs(m@, sigma.model(), pk.model()),
            old(self).sound() ==> final(self).sound() && (out matches Ok(sigma)
                ==> final(self).accepts(m@, sigma.model(), pk.model())),
    ;

    /// Tells whether `sigma` is a signature on `m` that `pk` accepts.
    fn vfy(&self, m: String, sigma: &Self::Signature, pk: &Self::PublicKey) -> (ok: bool)
        ensures
            ok <==> self.accepts(m@, sigma.model(), pk.model()),
    ;
}

} // verus!
