//! Full-domain-hash signatures over the preimage sampleable function of a
//! gadget trapdoor.

use core::marker::PhantomData;
use crate::backend::Backend;
use crate::construction::hash::HashMatZq;
use crate::construction::signature::fdh::Fdh;
use crate::construction::storage::Storage;
use crate::error::ParameterError;
use crate::math::arith::is_modulus;
use crate::math::mat_z::MatZ;
use crate::math::mat_zq::MatZq;
use crate::math::rational::Rational;
use crate::primitive::psf::gpv::PSFGPV;
use crate::sample::g_trapdoor::gadget_parameters::{default_error, default_gadget, GadgetParameters};
use vstd::pervasive::unreached;
use vstd::prelude::*;

verus! {

impl<B: Backend> Fdh<MatZq, (MatZ, MatZ), MatZ, MatZq, PSFGPV<B>, HashMatZq> {
    /// The signature scheme for the security parameter `n` and the modulus
    /// `modulus`: the preimage sampleable function over the default gadget for
    /// them, with the width `s`, and the hash function into the columns of `n`
    /// residues. No message is signed yet.
    ///
    /// Fails as `GadgetParameters::init_default` does.
    pub fn init_gpv(n: usize, modulus: u64, s: Rational, backend: B) -> (out: Result<
        Self,
        ParameterError,
    >)
        ensures
            out is Ok <==> n >= 1 && is_modulus(modulus as int) && default_gadget(
                n as int,
                modulus as int,
            ).fits(),
            out matches Ok(fdh) ==> {
                &&& fdh.psf.gp@ == default_gadget(n as int, modulus as int)
                &&& fdh.psf.s@ == s@
                &&& fdh.psf.backend == backend
                &&& fdh.hash.shape() == (modulus as int, n as int, 1int)
                &&& fdh.storage@ == Map::<
                    (Seq<char>, (int, Seq<Seq<int>>)),
                    Seq<Seq<int>>,
                >::empty()
                &&& fdh.well_kept()
            },
            out matches Err(e) ==> e == default_error(
                n as int,
                modulus as int,
            ),
    {
        let gp: GadgetParameters = match GadgetParameters::init_default(n, modulus) {
            Ok(gp) => gp,
            Err(e) => {
                return Err(e);
            },
        };
        let psf = PSFGPV { gp, s, backend };
        let hash: HashMatZq = match HashMatZq::new(modulus, n, 1) {
            Some(hash) => hash,
            None => unreached(),
        };
        Ok(
            Fdh {
                psf,
                storage: Storage::new(),
                hash,
                _a_type: PhantomData,
                _trapdoor_type: PhantomData,
                _range_type: PhantomData,
            },
        )
    }
}

} // verus!
