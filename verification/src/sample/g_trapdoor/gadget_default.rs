//! Trapdoors for the default parameters.

use crate::backend::Backend;
use crate::error::ParameterError;
use crate::math::arith::is_modulus;
use crate::math::laws::lemma_unit_product;
use crate::math::mat_z::MatZ;
use crate::math::mat_zq::MatZq;
use crate::math::model::{
    congruent, entries_within, is_matrix, left_columns, product, stacked, unit,
};
use crate::math::rational::Rational;
use crate::sample::g_trapdoor::gadget_classical::{
    gadget_matrix, gen_trapdoor, lemma_trapdoor_factors, public_matrix,
};
use crate::sample::g_trapdoor::gadget_parameters::{
    default_error, default_gadget, default_ring_gadget, lemma_widths, GadgetParameters,
    GadgetParametersRing,
};
use crate::sample::g_trapdoor::gadget_ring::{gen_trapdoor_ring_lwe, ring_public_vector};
use crate::sample::g_trapdoor::trapdoor_distribution::{sample_uniform_zq, tail_bound};
use vstd::pervasive::unreached;
use vstd::prelude::*;

verus! {

/// A public matrix `a` with its trapdoor `r`, for the default gadget for `n` and
/// `q`, a uniform `a_bar` and the identity as tag.
///
/// `a` times `r` stacked on the identity is the gadget matrix, modulo `q`.
/// Fails as `GadgetParameters::init_default` does.
pub fn gen_trapdoor_default<B: Backend>(n: usize, q: u64, backend: &B) -> (out: Result<
    (MatZq, MatZ),
    ParameterError,
>)
    ensures
        out is Ok <==> n >= 1 && is_modulus(q as int) && default_gadget(n as int, q as int).fits(),
        out matches Ok((a, r)) ==> {
            let g = default_gadget(n as int, q as int);
            &&& a.q() == q
            &&& is_matrix(a@, g.n, g.m())
            &&& is_matrix(r@, g.m_bar, g.w())
            &&& entries_within(r@, -1, 1)
            &&& a@ == public_matrix(g, left_columns(a@, g.m_bar), unit(g.n), r@)
            &&& congruent(
                product(a@, stacked(r@, unit(g.w()))),
                gadget_matrix(g.n, g.k, g.base),
                g.q,
            )
        },
        out matches Err(e) ==> e == default_error(n as int, q as int),
{
    let params: GadgetParameters = match GadgetParameters::init_default(n, q) {
        Ok(params) => params,
        Err(e) => {
            return Err(e);
        },
    };
    let a_bar: MatZq = sample_uniform_zq(backend, params.n(), params.m_bar(), params.q());
    let tag: MatZq = MatZq::identity(params.n(), params.q());
    match gen_trapdoor(&params, &a_bar, &tag, backend) {
        Ok((a, r)) => {
            proof {
                let g = params@;
                lemma_widths(g);
                lemma_trapdoor_factors(g, a_bar@, tag@, r@);
                lemma_unit_product(gadget_matrix(g.n, g.k, g.base), g.n, g.w());
                assert(left_columns(a@, g.m_bar) =~~= a_bar@);
            }
            Ok((a, r))
        },
        Err(_) => unreached(),
    }
}

/// A public vector `a` with its trapdoor `(r, e)` over the polynomials modulo
/// `X^n + 1`, for the default ring gadget for `n` and `q`, a uniform `a_bar`,
/// and `r` and `e` of the width `s`.
///
/// `a` is `(1, a_bar, g - (a_bar * r + e))`, one polynomial in each row, and
/// every coefficient of `r` and `e` is at most six widths away from zero.
/// Fails before anything is drawn as `GadgetParametersRing::init_default` does,
/// and with `RejectedSample` where the backend returns a coefficient that is
/// further away from zero.
pub fn gen_trapdoor_ring_default<B: Backend>(n: usize, q: u64, s: &Rational, backend: &B) -> (out:
    Result<(MatZq, MatZ, MatZ), ParameterError>)
    ensures
        out matches Ok((a, r, e)) ==> {
            let g = default_ring_gadget(n as int, q as int);
            &&& a.q() == q
            &&& is_matrix(a@, g.k + 2, g.n)
            &&& is_matrix(r@, g.k, g.n)
            &&& is_matrix(e@, g.k, g.n)
            &&& entries_within(r@, -tail_bound(s@, 1), tail_bound(s@, 1))
            &&& entries_within(e@, -tail_bound(s@, 1), tail_bound(s@, 1))
            &&& a@ == ring_public_vector(g, a@[1], r@, e@)
        },
        out matches Err(err) ==> err == (if n < 1 {
            ParameterError::SecurityParameterTooSmall
        } else if !is_modulus(q as int) {
            ParameterError::InvalidModulus
        } else {
            ParameterError::RejectedSample
        }),
{
    let params: GadgetParametersRing = match GadgetParametersRing::init_default(n, q) {
        Ok(params) => params,
        Err(e) => {
            return Err(e);
        },
    };
    let a_bar: MatZq = sample_uniform_zq(backend, 1, params.n(), params.q());
    match gen_trapdoor_ring_lwe(&params, &a_bar, s, backend) {
        Ok(out) => Ok(out),
        Err(_) => Err(ParameterError::RejectedSample),
    }
}

} // verus!
