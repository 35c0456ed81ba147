//! Full-domain-hash signatures: hash the message into the range of a preimage
//! sampleable function, and sign with a preimage of the digest.

use core::marker::PhantomData;
use crate::construction::hash::HashInto;
use crate::construction::signature::SignatureScheme;
use crate::construction::storage::{recall, Storage};
use crate::error::MathError;
use crate::primitive::psf::PSF;
use crate::value::Value;
use vstd::prelude::*;

pub mod gpv;

verus! {

/// A hash-then-sign signature scheme over the preimage sampleable function
/// `psf` and the hash function `hash`.
///
/// The scheme remembers every signature that it has given: a message that is
/// signed again under the same public key gets the signature that it got the
/// first time.
pub struct FDH<
    A: Value,
    Trapdoor,
    Domain: Value,
    Range: Value,
    T: PSF<A, Trapdoor, Domain, Range>,
    Hash: HashInto<Range>,
> {
    /// The preimage sampleable function.
    pub psf: T,
    /// The signatures given so far, by message and public key.
    pub storage: Storage<(String, A), Domain>,
    /// The hash function into the range of `psf`.
    pub hash: Hash,
    /// Relates the scheme to the type that describes a function of `psf`.
    pub _a_type: PhantomData<A>,
    /// Relates the scheme to the type of the trapdoors of `psf`.
    pub _trapdoor_type: PhantomData<Trapdoor>,
    /// Relates the scheme to the type of the range of `psf`.
    pub _range_type: PhantomData<Range>,
}

impl<
    A: Value,
    Trapdoor,
    Domain: Value,
    Range: Value,
    T: PSF<A, Trapdoor, Domain, Range>,
    Hash: HashInto<Range>,
> FDH<A, Trapdoor, Domain, Range, T, Hash> {
    /// Every signature that is kept is accepted for its message by its public
    /// key. Every scheme that `init_gpv` builds is so, and `gen` and `sign` keep
    /// it so.
    pub open spec fn well_kept(&self) -> bool {
        forall|m: Seq<char>, pk: A::Model|
            self.storage@.dom().contains((m, pk)) ==> self.psf.in_domain(
                #[trigger] self.storage@[(m, pk)],
            ) && self.psf.fits(pk, self.storage@[(m, pk)]) && self.psf.image(
                pk,
                self.storage@[(m, pk)],
            ) == self.hash.digest(m)
    }
}

/// The same construction under its other name.
pub type Fdh<A, Trapdoor, Domain, Range, T, Hash> = FDH<A, Trapdoor, Domain, Range, T, Hash>;

impl<
    A: Value,
    Trapdoor,
    Domain: Value,
    Range: Value,
    T: PSF<A, Trapdoor, Domain, Range>,
    Hash: HashInto<Range>,
> SignatureScheme for FDH<A, Trapdoor, Domain, Range, T, Hash> {
    type SecretKey = Trapdoor;

    type PublicKey = A;

    type Signature = Domain;

    /// `sigma` lies in the domain, and `f_pk` sends it to the digest of `m`.
    open spec fn accepts(&self, m: Seq<char>, sigma: Domain::Model, pk: A::Model) -> bool {
        &&& self.psf.in_domain(sigma)
        &&& self.psf.fits(pk, sigma)
        &&& self.psf.image(pk, sigma) == self.hash.digest(m)
    }

    /// Every signature that is kept is accepted for its message by its key.
    open spec fn sound(&self) -> bool {
        self.well_kept()
    }

    /// `sk` is a trapdoor of the function that `pk` describes.
    open spec fn is_key_pair(&self, pk: A::Model, sk: Trapdoor) -> bool {
        self.psf.is_key_pair(pk, sk)
    }

    /// The signature kept for `m` and `pk`, where one is kept. Else a preimage
    /// of the digest of `m` under `f_pk` that belongs to the domain.
    open spec fn signs(&self, m: Seq<char>, sigma: Domain::Model, pk: A::Model) -> bool {
        if self.storage@.dom().contains((m, pk)) {
            sigma == self.storage@[(m, pk)]
        } else {
            self.accepts(m, sigma, pk)
        }
    }

    /// A function of the family as the public key, its trapdoor as the secret
    /// key. The scheme stays as it was.
    fn gen(&mut self) -> (out: (A, Trapdoor))
        ensures
            old(self).psf.is_key_pair(out.0.model(), out.1),
            final(self).storage@ == old(self).storage@,
            final(self).psf == old(self).psf,
            final(self).hash == old(self).hash,
    {
        self.psf.trap_gen()
    }

    /// The signature kept for `m` and `pk`, if `m` was signed under `pk` before.
    /// Else a preimage of the digest of `m` that belongs to the domain, which is
    /// kept for the next time.
    fn sign(&mut self, m: String, sk: &Trapdoor, pk: &A) -> (out: Result<Domain, MathError>)
        ensures
            final(self).psf == old(self).psf,
            final(self).hash == old(self).hash,
            old(self).storage@.dom().contains((m@, pk.model())) ==> out is Ok,
            out matches Ok(sigma) ==> (final(self).storage@, sigma.model()) == recall(
                old(self).storage@,
                (m@, pk.model()),
                sigma.model(),
            ),
            out matches Ok(sigma) ==> !old(self).storage@.dom().contains((m@, pk.model()))
                ==> old(self).accepts(m@, sigma.model(), pk.model()),
            out is Err ==> final(self).storage@ == old(self).storage@,
            old(self).well_kept() ==> final(self).well_kept() && (out matches Ok(sigma)
                ==> old(self).accepts(m@, sigma.model(), pk.model())),
    {
        let request: (String, A) = (m.copy(), pk.copy());
        match self.storage.get(&request) {
            Some(sigma) => {
                return Ok(sigma.copy());
            },
            None => {},
        }
        let u: Range = self.hash.hash(m.as_str());
        match self.psf.samp_p(pk, sk, &u) {
            Ok(signature) => {
                let kept: Domain = signature.copy();
                let _ = self.storage.insert(request, kept);
                Ok(signature)
            },
            Err(e) => Err(e),
        }
    }

    /// Accepts `sigma` where it lies in the domain and `f_pk` sends it to the
    /// digest of `m`.
    fn vfy(&self, m: String, sigma: &Domain, pk: &A) -> (ok: bool) {
        if !self.psf.check_domain(sigma) {
            return false;
        }
        let u: Range = self.hash.hash(m.as_str());
        match self.psf.f_a(pk, sigma) {
            Some(v) => v.equals(&u),
            None => false,
        }
    }
}

} // verus!
