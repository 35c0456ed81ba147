//! Preimage sampleable functions.

use crate::error::MathError;
use crate::value::Value;
use vstd::prelude::*;

pub mod gpv;

pub use gpv::PSFGPV;

verus! {

/// A family of functions `f_a` from a domain of short elements to a range, with
/// a trapdoor for each function that allows to sample short preimages.
///
/// `A` describes a function of the family, `Trapdoor` is what inverts it.
pub trait PSF<A: Value, Trapdoor, Domain: Value, Range: Value> {
    /// `sigma` belongs to the domain.
    spec fn in_domain(&self, sigma: Domain::Model) -> bool;

    /// `f_a` can be applied to `sigma`: the two fit together.
    spec fn fits(&self, a: A::Model, sigma: Domain::Model) -> bool;

    /// The value `f_a(sigma)`.
    spec fn image(&self, a: A::Model, sigma: Domain::Model) -> Range::Model;

    /// `r` is a trapdoor of the function that `a` describes.
    spec fn is_key_pair(&self, a: A::Model, r: Trapdoor) -> bool;

    /// A function of the family together with its trapdoor.
    fn trap_gen(&self) -> (out: (A, Trapdoor))
        ensures
            self.is_key_pair(out.0.model(), out.1),
    ;

    /// An element of the domain, chosen by the distribution of the family.
    fn samp_d(&self) -> (out: Result<Domain, MathError>)
        ensures
            out matches Ok(sigma) ==> self.in_domain(sigma.model()),
    ;

    /// A preimage of `u` under `f_a`, chosen with the help of the trapdoor `r`.
    ///
    /// Whatever is returned as a preimage is one: it belongs to the domain, and
    /// `f_a` sends it to `u`.
    fn samp_p(&self, a: &A, r: &Trapdoor, u: &Range) -> (out: Result<Domain, MathError>)
        ensures
            out matches Ok(sigma) ==> self.in_domain(sigma.model()) && self.fits(
                a.model(),
                sigma.model(),
            ) && self.image(a.model(), sigma.model()) == u.model(),
    ;

    /// The value `f_a(sigma)`, where `f_a` can be applied to `sigma`.
    fn f_a(&self, a: &A, sigma: &Domain) -> (out: Option<Range>)
        ensures
            out is Some <==> self.fits(a.model(), sigma.model()),
            out matches Some(u) ==> u.model() == self.image(a.model(), sigma.model()),
    ;

    /// Tells whether `sigma` belongs to the domain.
    fn check_domain(&self, sigma: &Domain) -> (ok: bool)
        ensures
            ok <==> self.in_domain(sigma.model()),
    ;
}

} // verus!
