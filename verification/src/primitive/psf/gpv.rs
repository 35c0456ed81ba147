//! The preimage sampleable function of Gentry, Peikert and Vaikuntanathan over a
//! gadget trapdoor: `f_a(sigma) = a * sigma` modulo `q`, on short columns.

use crate::backend::Backend;
use crate::error::MathError;
use crate::math::laws::{
    lemma_dot_beside_stacked, lemma_dot_difference_left, lemma_dot_residues_left,
    lemma_dot_same_column, lemma_dot_sum_right, lemma_dot_unit, lemma_dot_zero_left,
    lemma_product_associative, lemma_product_congruent_left, lemma_product_sum_right,
    lemma_residues_of_sum, lemma_residues_twice, lemma_unit_product,
};
use crate::math::mat_z::{all_fit, product_fits, same_shape, sum_fits, MatZ};
use crate::math::mat_zq::MatZq;
use crate::math::model::{
    beside, difference, dot, entries_within, is_matrix, is_proper, left_columns, negation,
    norm_sqrd, product, residues, stacked, sum, unit, width, zeros,
};
use crate::math::rational::{Ratio, Rational};
use crate::primitive::psf::PSF;
use crate::sample::g_trapdoor::gadget_classical::{
    decomposition, find_solution_gadget_mat, gadget_matrix, gen_trapdoor, gen_trapdoor_from,
    lemma_gadget_inverts, public_matrix,
};
use crate::sample::g_trapdoor::gadget_parameters::{lemma_widths, Gadget, GadgetParameters};
use crate::sample::g_trapdoor::short_basis_classical::{
    gadget_basis, gadget_preimage, gen_short_basis_for_trapdoor, lemma_gadget_basis_kernel,
    lemma_short_basis_fits, short_basis, short_basis_fits,
};
use crate::sample::g_trapdoor::trapdoor_distribution::sample_uniform_zq;
use crate::value::Value;
use vstd::arithmetic::div_mod::{
    lemma_add_mod_noop_right, lemma_fundamental_div_mod, lemma_small_mod,
};
use vstd::pervasive::unreached;
use vstd::prelude::*;

verus! {

/// The preimage sampleable function over the gadget `gp`, with the width `s` of
/// the distribution of its preimages.
///
/// The domain holds the columns `sigma` of `m` integers with
/// `|sigma|^2 <= s^2 * m`; the range holds the columns of `n` residues.
pub struct PSFGPV<B: Backend> {
    /// The dimensions of the trapdoor.
    pub gp: GadgetParameters,
    /// The width of the distribution of the preimages.
    pub s: Rational,
    /// The source of the random choices.
    pub backend: B,
}

/// `sigma` is a column of `m` integers with `|sigma|^2 <= s^2 * m`.
pub open spec fn gpv_in_domain(g: Gadget, s: Ratio, sigma: Seq<Seq<int>>) -> bool {
    &&& is_matrix(sigma, g.m(), 1)
    &&& norm_sqrd(sigma, g.m()) * (s.den * s.den) <= (s.num * s.num) * g.m()
}

/// The product `a * sigma` modulo the modulus of `a`.
pub open spec fn gpv_image(a: (int, Seq<Seq<int>>), sigma: Seq<Seq<int>>) -> (
    int,
    Seq<Seq<int>>,
) {
    (a.0, residues(product(a.1, sigma), a.0))
}

/// `a` is the public matrix of the trapdoor `r` under the identity as tag, and
/// `basis` is the short basis that belongs to them.
pub open spec fn gpv_key_pair(
    g: Gadget,
    a: (int, Seq<Seq<int>>),
    r: Seq<Seq<int>>,
    basis: Seq<Seq<int>>,
) -> bool {
    &&& a.0 == g.q
    &&& is_matrix(left_columns(a.1, g.m_bar), g.n, g.m_bar)
    &&& is_matrix(r, g.m_bar, g.w())
    &&& a.1 == public_matrix(g, left_columns(a.1, g.m_bar), unit(g.n), r)
    &&& basis == short_basis(g, a.1, r)
}

/// The solution of `a * x = u` that the trapdoor `r` gives: the digits of `u`,
/// with `r` times these digits on top.
pub open spec fn solution_of(g: Gadget, r: Seq<Seq<int>>, u: Seq<Seq<int>>) -> Seq<Seq<int>> {
    stacked(product(r, decomposition(u, g.k, g.base)), decomposition(u, g.k, g.base))
}

/// A solution `x` of `a * x = u` modulo `q`, for the public matrix `a` of the
/// trapdoor `r`: the digits of `u`, with `r` times these digits on top.
///
/// Fails when the modulus of `u` is not that of `params`, when `u` is not a
/// column of `n` entries or `r` has not the shape that `params` gives, and when
/// an entry of the solution does not fit.
pub fn particular_solution(params: &GadgetParameters, r: &MatZ, u: &MatZq) -> (out: Result<
    MatZ,
    MathError,
>)
    ensures
        out is Ok <==> u.q() == params@.q && is_matrix(u@, params@.n, 1) && is_matrix(
            r@,
            params@.m_bar,
            params@.w(),
        ) && product_fits(r@, decomposition(u@, params@.k, params@.base)),
        out matches Ok(x) ==> x@ == solution_of(params@, r@, u@) && is_matrix(
            x@,
            params@.m(),
            1,
        ),
        out matches Err(e) ==> e == (if u.q() != params@.q {
            MathError::MismatchingModulus
        } else if !is_matrix(u@, params@.n, 1) || !is_matrix(r@, params@.m_bar, params@.w()) {
            MathError::MismatchingMatrixDimension
        } else {
            MathError::Overflow
        }),
{
    let w: usize = params.w();
    if u.modulus() != params.q() {
        return Err(MathError::MismatchingModulus);
    }
    if u.num_rows() != params.n() || u.num_cols() != 1 || r.num_rows() != params.m_bar()
        || r.num_cols() != w {
        return Err(MathError::MismatchingMatrixDimension);
    }
    let y: MatZ = match find_solution_gadget_mat(u, params.k(), params.base()) {
        Ok(y) => y,
        Err(_) => unreached(),
    };
    let top: MatZ = match r.mul(&y) {
        Ok(t) => t,
        Err(_) => {
            return Err(MathError::Overflow);
        },
    };
    match top.concat_vertical(&y) {
        Ok(x) => Ok(x),
        Err(_) => unreached(),
    }
}

/// The preimage `sol + d` of `u` under `a`, for a solution `sol` of `a * x = u`
/// and a vector `d` that `a` sends to zero.
///
/// The sum is returned only where `a` sends it to `u`. Fails with
/// `MismatchingMatrixDimension` when `sol` and `d` differ in shape or do not fit
/// `a`, with `Overflow` when an entry of the sum does not fit, and with
/// `RejectedSample` when `a` does not send the sum to `u`.
pub fn preimage_from(a: &MatZq, u: &MatZq, sol: &MatZ, d: &MatZ) -> (out: Result<MatZ, MathError>)
    ensures
        out is Ok <==> same_shape(sol@, d@) && width(a@) == sol@.len() && sum_fits(sol@, d@)
            && gpv_image(a.model(), sum(sol@, d@)) == u.model(),
        out matches Ok(e) ==> e@ == sum(sol@, d@),
        out matches Err(e) ==> e == (if !same_shape(sol@, d@) || width(a@) != sol@.len() {
            MathError::MismatchingMatrixDimension
        } else if !sum_fits(sol@, d@) {
            MathError::Overflow
        } else {
            MathError::RejectedSample
        }),
{
    if sol.num_rows() != d.num_rows() || sol.num_cols() != d.num_cols() || a.num_cols()
        != sol.num_rows() {
        return Err(MathError::MismatchingMatrixDimension);
    }
    let e: MatZ = match sol.add(d) {
        Ok(e) => e,
        Err(_) => {
            return Err(MathError::Overflow);
        },
    };
    let v: MatZq = match a.mul_mat_z(&e) {
        Ok(v) => v,
        Err(_) => unreached(),
    };
    if v.equals(u) {
        Ok(e)
    } else {
        Err(MathError::RejectedSample)
    }
}

/// The sum of the squares of a column grows with the number of entries summed.
pub proof fn lemma_norm_grows(v: Seq<Seq<int>>, i: int, n: int)
    requires
        0 <= i <= n,
    ensures
        0 <= norm_sqrd(v, i) <= norm_sqrd(v, n),
    decreases n,
{
    if i < n {
        lemma_norm_grows(v, i, n - 1);
        let x = v[n - 1][0];
        assert(x * x >= 0) by (nonlinear_arith);
    } else if n > 0 {
        lemma_norm_grows(v, i - 1, n - 1);
        let x = v[n - 1][0];
        assert(x * x >= 0) by (nonlinear_arith);
    }
}

impl<B: Backend> PSFGPV<B> {
    /// The function with its trapdoor, for the uniform part `a_bar` and the
    /// trapdoor `r`: the public matrix `[a_bar | G - a_bar * r]`, and `r` with
    /// the short basis that it gives.
    ///
    /// Fails as `gen_trapdoor_from` and `gen_short_basis_for_trapdoor` do.
    pub fn trap_gen_from(&self, a_bar: &MatZq, r: MatZ) -> (out: Result<
        (MatZq, (MatZ, MatZ)),
        MathError,
    >)
        ensures
            out matches Ok((a, (t, basis))) ==> t@ == r@ && a@ == public_matrix(
                self.gp@,
                a_bar@,
                unit(self.gp@.n),
                r@,
            ) && a.q() == self.gp@.q && basis@ == short_basis(self.gp@, a@, r@),
            out is Ok <==> a_bar.q() == self.gp@.q && is_matrix(
                a_bar@,
                self.gp@.n,
                self.gp@.m_bar,
            ) && is_matrix(r@, self.gp@.m_bar, self.gp@.w()) && short_basis_fits_for(
                self.gp@,
                a_bar@,
                r@,
            ),
            out matches Err(e) ==> e == (if a_bar.q() != self.gp@.q {
                MathError::MismatchingModulus
            } else if !is_matrix(a_bar@, self.gp@.n, self.gp@.m_bar) || !is_matrix(
                r@,
                self.gp@.m_bar,
                self.gp@.w(),
            ) {
                MathError::MismatchingMatrixDimension
            } else {
                MathError::Overflow
            }),
    {
        let n: usize = self.gp.n();
        let tag: MatZq = MatZq::identity(n, self.gp.q());
        let (a, t) = match gen_trapdoor_from(&self.gp, a_bar, &tag, r) {
            Ok(pair) => pair,
            Err(e) => {
                return Err(e);
            },
        };
        match gen_short_basis_for_trapdoor(&self.gp, &a, &t) {
            Ok(basis) => Ok((a, (t, basis))),
            Err(e) => Err(e),
        }
    }
}

/// The entries of the short basis for the uniform part `a_bar` and the trapdoor
/// `r` fit the machine integers.
pub open spec fn short_basis_fits_for(g: Gadget, a_bar: Seq<Seq<int>>, r: Seq<Seq<int>>) -> bool {
    short_basis_fits(g, public_matrix(g, a_bar, unit(g.n), r), r)
}

impl<B: Backend> PSF<MatZq, (MatZ, MatZ), MatZ, MatZq> for PSFGPV<B> {
    open spec fn in_domain(&self, sigma: Seq<Seq<int>>) -> bool {
        gpv_in_domain(self.gp@, self.s@, sigma)
    }

    open spec fn fits(&self, a: (int, Seq<Seq<int>>), sigma: Seq<Seq<int>>) -> bool {
        width(a.1) == sigma.len()
    }

    open spec fn image(&self, a: (int, Seq<Seq<int>>), sigma: Seq<Seq<int>>) -> (
        int,
        Seq<Seq<int>>,
    ) {
        gpv_image(a, sigma)
    }

    /// `a` has `n` rows and `m` columns and is the public matrix of `r.0`, whose
    /// entries are `-1`, `0` and `1`, and `r.1` is the short basis for them.
    open spec fn is_key_pair(&self, a: (int, Seq<Seq<int>>), r: (MatZ, MatZ)) -> bool {
        &&& gpv_key_pair(self.gp@, a, r.0@, r.1@)
        &&& is_matrix(a.1, self.gp@.n, self.gp@.m())
        &&& entries_within(r.0@, -1, 1)
    }

    /// A uniform `a_bar` and a trapdoor `r` with entries `-1`, `0` and `1` give
    /// the public matrix `a = [a_bar | G - a_bar * r]`. The trapdoor that is
    /// returned is `r` together with the short basis for `a`.
    fn trap_gen(&self) -> (out: (MatZq, (MatZ, MatZ))) {
        let n: usize = self.gp.n();
        let m_bar: usize = self.gp.m_bar();
        let q: u64 = self.gp.q();
        let a_bar: MatZq = sample_uniform_zq(&self.backend, n, m_bar, q);
        let tag: MatZq = MatZq::identity(n, q);
        let (a, r) = match gen_trapdoor(&self.gp, &a_bar, &tag, &self.backend) {
            Ok(pair) => pair,
            Err(_) => unreached(),
        };
        proof {
            lemma_short_basis_fits(self.gp@, a@, r@);
            assert(left_columns(a@, self.gp@.m_bar) =~~= a_bar@);
        }
        let basis: MatZ = match gen_short_basis_for_trapdoor(&self.gp, &a, &r) {
            Ok(b) => b,
            Err(_) => unreached(),
        };
        (a, (r, basis))
    }

    /// A column of `m` integers, chosen around zero with the width `s`. It is
    /// returned only where it belongs to the domain.
    fn samp_d(&self) -> (out: Result<MatZ, MathError>)
        ensures
            out matches Err(e) ==> e == MathError::RejectedSample,
    {
        let m: usize = self.gp.m();
        let basis: MatZ = MatZ::identity(m);
        let center: MatZ = MatZ::zero(m, 1);
        let sigma: MatZ = self.backend.lattice_point(&basis, self.gp.n(), &center, &self.s);
        if self.check_domain(&sigma) {
            Ok(sigma)
        } else {
            Err(MathError::RejectedSample)
        }
    }

    /// The solution `sol` that the trapdoor gives for `a * x = u`, plus a point
    /// of the lattice of the short basis that is chosen around `-sol`. The sum is
    /// returned only where `a` sends it to `u` and it belongs to the domain.
    ///
    /// Fails before the backend is asked: with `MismatchingModulus` where the
    /// modulus of `u` is not `q`, with `MismatchingMatrixDimension` where `u` or
    /// the trapdoor has not the shape that the parameters give, and with
    /// `Overflow` where an entry of the solution or of its negative does not
    /// fit. Fails on what the backend returns as `preimage_from` does, and with
    /// `RejectedSample` where the sum does not belong to the domain.
    fn samp_p(&self, a: &MatZq, r: &(MatZ, MatZ), u: &MatZq) -> (out: Result<MatZ, MathError>)
        ensures
            out matches Ok(sigma) ==> exists|d: Seq<Seq<int>>|
                sigma@ == sum(solution_of(self.gp@, r.0@, u@), d),
            u.q() != self.gp@.q ==> out == Err::<MatZ, MathError>(MathError::MismatchingModulus),
            u.q() == self.gp@.q && !(is_matrix(u@, self.gp@.n, 1) && is_matrix(
                r.0@,
                self.gp@.m_bar,
                self.gp@.w(),
            )) ==> out == Err::<MatZ, MathError>(MathError::MismatchingMatrixDimension),
            u.q() == self.gp@.q && is_matrix(u@, self.gp@.n, 1) && is_matrix(
                r.0@,
                self.gp@.m_bar,
                self.gp@.w(),
            ) && !(product_fits(r.0@, decomposition(u@, self.gp@.k, self.gp@.base)) && all_fit(
                negation(solution_of(self.gp@, r.0@, u@)),
            )) ==> out == Err::<MatZ, MathError>(MathError::Overflow),
    {
        let sol: MatZ = match particular_solution(&self.gp, &r.0, u) {
            Ok(x) => x,
            Err(e) => {
                return Err(e);
            },
        };
        let center: MatZ = match sol.neg() {
            Ok(c) => c,
            Err(e) => {
                return Err(e);
            },
        };
        let d: MatZ = self.backend.lattice_point(&r.1, self.gp.n(), &center, &self.s);
        let sigma: MatZ = match preimage_from(a, u, &sol, &d) {
            Ok(sigma) => sigma,
            Err(e) => {
                return Err(e);
            },
        };
        if self.check_domain(&sigma) {
            Ok(sigma)
        } else {
            Err(MathError::RejectedSample)
        }
    }

    fn f_a(&self, a: &MatZq, sigma: &MatZ) -> (out: Option<MatZq>) {
        match a.mul_mat_z(sigma) {
            Ok(u) => Some(u),
            Err(_) => None,
        }
    }

    fn check_domain(&self, sigma: &MatZ) -> (ok: bool) {
        let m: usize = self.gp.m();
        if sigma.num_rows() != m || sigma.num_cols() != 1 {
            return false;
        }
        let num: u128 = self.s.num() as u128;
        let den: u128 = self.s.den() as u128;
        assert(num * num <= 0xffff_ffff * 0xffff_ffff) by (nonlinear_arith)
            requires
                0 <= num <= 0xffff_ffff,
        ;
        assert(1 <= den * den <= 0xffff_ffff * 0xffff_ffff) by (nonlinear_arith)
            requires
                1 <= den <= 0xffff_ffff,
        ;
        assert((num * num) * m <= 0xffff_ffff * 0xffff_ffff * 0xffff_ffff_ffff_ffff)
            by (nonlinear_arith)
            requires
                0 <= num * num <= 0xffff_ffff * 0xffff_ffff,
                0 <= m <= 0xffff_ffff_ffff_ffff,
        ;
        let bound: u128 = (num * num) * (m as u128);
        let den_sq: u128 = den * den;
        let limit: u128 = bound / den_sq;
        proof {
            lemma_fundamental_div_mod(bound as int, den_sq as int);
        }
        let mut acc: u128 = 0;
        let mut i: usize = 0;
        while i < m
            invariant
                i <= m,
                m == self.gp@.m(),
                is_matrix(sigma@, m as int, 1),
                is_proper(sigma@),
                acc == norm_sqrd(sigma@, i as int),
                acc <= limit,
                limit == bound / den_sq,
                den_sq >= 1,
                bound == den_sq * (bound / den_sq) + bound % den_sq,
                0 <= bound % den_sq < den_sq,
                bound == (self.s@.num * self.s@.num) * self.gp@.m(),
                den_sq == self.s@.den * self.s@.den,
            decreases m - i,
        {
            let x: i64 = sigma.get(i, 0);
            assert(0 <= x * x <= 0x4000_0000_0000_0000_0000_0000_0000_0000) by (nonlinear_arith)
                requires
                    -0x8000_0000_0000_0000 <= x <= 0x7fff_ffff_ffff_ffff,
            ;
            let square: u128 = ((x as i128) * (x as i128)) as u128;
            if square > limit - acc {
                proof {
                    lemma_norm_grows(sigma@, i + 1, m as int);
                    let total = norm_sqrd(sigma@, m as int);
                    assert(total * den_sq > bound) by (nonlinear_arith)
                        requires
                            total >= limit + 1,
                            limit == bound / den_sq,
                            den_sq >= 1,
                            bound == den_sq * (bound / den_sq) + bound % den_sq,
                            0 <= bound % den_sq < den_sq,
                    ;
                }
                return false;
            }
            acc = acc + square;
            i += 1;
        }
        proof {
            assert(acc * den_sq <= bound) by (nonlinear_arith)
                requires
                    0 <= acc <= limit,
                    limit == bound / den_sq,
                    den_sq >= 1,
                    bound == den_sq * (bound / den_sq) + bound % den_sq,
                    0 <= bound % den_sq < den_sq,
            ;
        }
        true
    }
}

/// The trapdoor solves: for every column `u` of `n` residues, the public matrix
/// `[a_bar | G - a_bar * r]` sends the solution that `r` gives to `u`.
pub proof fn lemma_trapdoor_solves(
    g: Gadget,
    a_bar: Seq<Seq<int>>,
    r: Seq<Seq<int>>,
    u: Seq<Seq<int>>,
)
    requires
        g.well_formed(),
        is_matrix(a_bar, g.n, g.m_bar),
        is_matrix(r, g.m_bar, g.w()),
        is_matrix(u, g.n, 1),
        entries_within(u, 0, g.q - 1),
    ensures
        residues(product(public_matrix(g, a_bar, unit(g.n), r), solution_of(g, r, u)), g.q) == u,
{
    lemma_widths(g);
    let gm = gadget_matrix(g.n, g.k, g.base);
    let y = decomposition(u, g.k, g.base);
    let x = product(a_bar, r);
    let right = residues(difference(product(unit(g.n), gm), x), g.q);
    let a = public_matrix(g, a_bar, unit(g.n), r);
    let sol = solution_of(g, r, u);
    let image = residues(product(a, sol), g.q);
    lemma_unit_product(gm, g.n, g.w());
    lemma_product_associative(a_bar, r, y);
    lemma_gadget_inverts(g.n, g.k, g.base, u);
    assert forall|i: int| 0 <= i < image.len() implies #[trigger] image[i] =~= u[i] by {
        assert forall|j: int| 0 <= j < image[i].len() implies #[trigger] image[i][j]
            == u[i][j] by {
            lemma_dot_beside_stacked(a_bar, right, product(r, y), y, i, j, g.w());
            let first = dot(a_bar, product(r, y), i, j, g.m_bar);
            let second = dot(right, y, i, j, g.w());
            assert(first == product(a_bar, product(r, y))[i][j]);
            lemma_dot_residues_left(difference(gm, x), y, i, j, g.w(), g.q);
            lemma_dot_difference_left(gm, x, y, i, j, g.w());
            lemma_add_mod_noop_right(first, second, g.q);
            lemma_add_mod_noop_right(first, u[i][j] - first, g.q);
            lemma_small_mod(u[i][j] as nat, g.q as nat);
        }
    }
}

/// The short basis lies in the kernel: the public matrix `[a_bar | G - a_bar * r]`
/// sends every column of the short basis that belongs to it to zero modulo `q`.
pub proof fn lemma_short_basis_kernel(g: Gadget, a_bar: Seq<Seq<int>>, r: Seq<Seq<int>>)
    requires
        g.well_formed(),
        is_matrix(a_bar, g.n, g.m_bar),
        is_matrix(r, g.m_bar, g.w()),
    ensures
        residues(
            product(
                public_matrix(g, a_bar, unit(g.n), r),
                short_basis(g, public_matrix(g, a_bar, unit(g.n), r), r),
            ),
            g.q,
        ) == zeros(g.n, g.m()),
{
    lemma_widths(g);
    let gm = gadget_matrix(g.n, g.k, g.base);
    let x = product(a_bar, r);
    let right = residues(difference(product(unit(g.n), gm), x), g.q);
    let a = public_matrix(g, a_bar, unit(g.n), r);
    lemma_unit_product(gm, g.n, g.w());
    assert(left_columns(a, g.m_bar) =~~= a_bar);
    let v = residues(negation(a_bar), g.q);
    let w = gadget_preimage(g, a);
    let s = gadget_basis(g);
    let rw = product(r, w);
    let rs = product(r, s);
    let top = beside(sum(unit(g.m_bar), rw), rs);
    let bottom = beside(w, s);
    let basis = short_basis(g, a, r);
    lemma_product_associative(a_bar, r, w);
    lemma_product_associative(a_bar, r, s);
    lemma_gadget_inverts(g.n, g.k, g.base, v);
    lemma_gadget_basis_kernel(g);
    let image = residues(product(a, basis), g.q);
    let z = zeros(g.n, g.m());
    assert forall|i: int| 0 <= i < image.len() implies #[trigger] image[i] =~= z[i] by {
        assert forall|j: int| 0 <= j < image[i].len() implies #[trigger] image[i][j]
            == z[i][j] by {
            lemma_dot_beside_stacked(a_bar, right, top, bottom, i, j, g.w());
            let first = dot(a_bar, top, i, j, g.m_bar);
            let second = dot(right, bottom, i, j, g.w());
            lemma_dot_residues_left(difference(gm, x), bottom, i, j, g.w(), g.q);
            lemma_dot_difference_left(gm, x, bottom, i, j, g.w());
            lemma_add_mod_noop_right(first, second, g.q);
            lemma_small_mod(0, g.q as nat);
            if j < g.m_bar {
                lemma_dot_same_column(a_bar, top, sum(unit(g.m_bar), rw), i, j, j, g.m_bar);
                lemma_dot_same_column(gm, bottom, w, i, j, j, g.w());
                lemma_dot_same_column(x, bottom, w, i, j, j, g.w());
                lemma_dot_sum_right(a_bar, unit(g.m_bar), rw, i, j, g.m_bar);
                lemma_dot_unit(a_bar, g.m_bar, i, j, g.m_bar);
                assert(dot(a_bar, rw, i, j, g.m_bar) == product(a_bar, rw)[i][j]);
                let e = a_bar[i][j];
                let p = dot(x, w, i, j, g.w());
                lemma_add_mod_noop_right(first, v[i][j] - p, g.q);
                lemma_add_mod_noop_right(e, -e, g.q);
            } else {
                let c = j - g.m_bar;
                lemma_dot_same_column(a_bar, top, rs, i, j, c, g.m_bar);
                lemma_dot_same_column(gm, bottom, s, i, j, c, g.w());
                lemma_dot_same_column(x, bottom, s, i, j, c, g.w());
                assert(dot(a_bar, rs, i, c, g.m_bar) == product(a_bar, rs)[i][c]);
                assert(residues(product(gm, s), g.q)[i][c] == zeros(g.n, g.w())[i][c]);
                let p = dot(x, s, i, c, g.w());
                let t = dot(gm, s, i, c, g.w());
                lemma_add_mod_noop_right(first, t - p, g.q);
            }
        }
    }
}

/// Preimage sampling succeeds on the lattice of the short basis: for the public
/// matrix `a = [a_bar | G - a_bar * r]`, every column `u` of `n` residues and
/// every column `z` of `m` integers, `a` sends the solution that `r` gives for
/// `u`, plus the short basis times `z`, to `u`.
pub proof fn lemma_lattice_points_give_preimages(
    g: Gadget,
    a_bar: Seq<Seq<int>>,
    r: Seq<Seq<int>>,
    u: Seq<Seq<int>>,
    z: Seq<Seq<int>>,
)
    requires
        g.well_formed(),
        is_matrix(a_bar, g.n, g.m_bar),
        is_matrix(r, g.m_bar, g.w()),
        is_matrix(u, g.n, 1),
        entries_within(u, 0, g.q - 1),
        is_matrix(z, g.m(), 1),
    ensures
        gpv_image(
            (g.q, public_matrix(g, a_bar, unit(g.n), r)),
            sum(
                solution_of(g, r, u),
                product(short_basis(g, public_matrix(g, a_bar, unit(g.n), r), r), z),
            ),
        ) == (g.q, u),
{
    let a = public_matrix(g, a_bar, unit(g.n), r);
    let sol = solution_of(g, r, u);
    let basis = short_basis(g, a, r);
    let d = product(basis, z);
    lemma_trapdoor_solves(g, a_bar, r, u);
    lemma_short_basis_kernel(g, a_bar, r);
    lemma_product_sum_right(a, sol, d);
    lemma_product_associative(a, basis, z);
    let a_basis = product(a, basis);
    let nothing = zeros(g.n, g.m());
    lemma_residues_twice(a_basis, g.q);
    lemma_product_congruent_left(a_basis, nothing, z, g.q);
    let none = product(nothing, z);
    assert(none =~~= zeros(g.n, 1)) by {
        assert forall|i: int, j: int| 0 <= i < g.n && 0 <= j < 1 implies #[trigger] none[i][j]
            == 0 by {
            lemma_dot_zero_left(nothing, z, i, j, g.m());
        }
    }
    let first = product(a, sol);
    let second = product(a_basis, z);
    lemma_residues_of_sum(first, second, g.q);
    assert(residues(zeros(g.n, 1), g.q) =~~= zeros(g.n, 1)) by {
    }
    assert(residues(sum(u, zeros(g.n, 1)), g.q) =~~= u) by {
        assert forall|i: int, j: int| 0 <= i < g.n && 0 <= j < 1 implies #[trigger] (u[i][j] + 0)
            % g.q == u[i][j] by {
            lemma_small_mod(u[i][j] as nat, g.q as nat);
        }
    }
}

/// Key pairs sample preimages: for every key pair that `trap_gen` returns, every
/// column `u` of `n` residues and every column `z` of `m` integers, the public
/// matrix sends the solution that the trapdoor gives for `u`, plus the short
/// basis times `z`, to `u`. So `preimage_from` rejects no point of the lattice
/// of the short basis.
pub proof fn lemma_key_pairs_sample_preimages(
    g: Gadget,
    a: (int, Seq<Seq<int>>),
    r: Seq<Seq<int>>,
    basis: Seq<Seq<int>>,
    u: Seq<Seq<int>>,
    z: Seq<Seq<int>>,
)
    requires
        g.well_formed(),
        gpv_key_pair(g, a, r, basis),
        is_matrix(u, g.n, 1),
        entries_within(u, 0, g.q - 1),
        is_matrix(z, g.m(), 1),
    ensures
        gpv_image(a, sum(solution_of(g, r, u), product(basis, z))) == (g.q, u),
{
    lemma_lattice_points_give_preimages(g, left_columns(a.1, g.m_bar), r, u, z);
}

} // verus!
