//! Gadget trapdoors over the ring of the polynomials modulo `X^n + 1`.
//!
//! A polynomial is the row of its `n` coefficients, the constant one first, and
//! a vector of polynomials is the matrix of its rows.

use crate::backend::Backend;
use crate::error::MathError;
use crate::math::arith::{add_mod, is_modulus, mul_add_mod, reduce, sub_mod};
use crate::math::mat_z::{lift, MatZ};
use crate::math::mat_zq::{lemma_dot_step, MatZq};
use crate::math::model::{entries_within, is_matrix, is_proper, residues};
use crate::math::rational::{Fraction, Rational};
use crate::sample::g_trapdoor::gadget_parameters::{GadgetParametersRing, RingGadget};
use crate::sample::g_trapdoor::trapdoor_distribution::{sample_gaussian_rows, tail_bound};
use vstd::arithmetic::div_mod::{
    lemma_add_mod_noop, lemma_mul_mod_noop_left, lemma_mul_mod_noop_right, lemma_small_mod,
    lemma_sub_mod_noop,
};
use vstd::arithmetic::power::pow;
use vstd::pervasive::unreached;
use vstd::prelude::*;

verus! {

/// The term for the index `s` of the coefficient `i` of `a * b` modulo
/// `X^n + 1`: `a[s] * b[i - s]`, and `-a[s] * b[n + i - s]` once `s` has passed
/// `i` and the product wraps around.
pub open spec fn wrap_term(a: Seq<int>, b: Seq<int>, i: int, s: int) -> int {
    if s <= i {
        a[s] * b[i - s]
    } else {
        -(a[s] * b[a.len() + i - s])
    }
}

/// The sum of the first `t` terms of the coefficient `i` of `a * b` modulo
/// `X^n + 1`.
pub open spec fn wrap_sum(a: Seq<int>, b: Seq<int>, i: int, t: int) -> int
    decreases t,
{
    if t <= 0 {
        0
    } else {
        wrap_sum(a, b, i, t - 1) + wrap_term(a, b, i, t - 1)
    }
}

/// The product of the polynomials `a` and `b` modulo `X^n + 1`, where `n` is the
/// number of coefficients of `a`.
pub open spec fn ring_product(a: Seq<int>, b: Seq<int>) -> Seq<int> {
    Seq::new(a.len(), |i: int| wrap_sum(a, b, i, a.len() as int))
}

/// The constant polynomial `c` with `n` coefficients.
pub open spec fn constant(n: int, c: int) -> Seq<int> {
    Seq::new(n as nat, |i: int| if i == 0 { c } else { 0int })
}

/// The entry of the public vector that belongs to the digit `j`:
/// `base^j - (a_bar * r_j + e_j)`, coefficient by coefficient modulo `q`.
pub open spec fn ring_public_entry(
    g: RingGadget,
    a_bar: Seq<int>,
    r_j: Seq<int>,
    e_j: Seq<int>,
    j: int,
) -> Seq<int> {
    Seq::new(
        g.n as nat,
        |i: int|
            (constant(g.n, pow(g.base, j as nat))[i] - (ring_product(a_bar, r_j)[i] + e_j[i]))
                % g.q,
    )
}

/// The public vector `(1, a_bar, g - (a_bar * r + e))` of `k + 2` polynomials,
/// with `g` the gadget vector `(1, base, ..., base^(k-1))`.
pub open spec fn ring_public_vector(
    g: RingGadget,
    a_bar: Seq<int>,
    r: Seq<Seq<int>>,
    e: Seq<Seq<int>>,
) -> Seq<Seq<int>> {
    Seq::new(
        (g.k + 2) as nat,
        |j: int|
            if j == 0 {
                constant(g.n, 1)
            } else if j == 1 {
                a_bar
            } else {
                ring_public_entry(g, a_bar, r[j - 2], e[j - 2], j - 2)
            },
    )
}

/// The public vector `(1, a_bar, g - (a_bar * r + e))` for the trapdoor `(r, e)`,
/// over the polynomials modulo `X^n + 1` with coefficients modulo `q`.
///
/// Row `j` of `r` and of `e` holds the polynomial for the digit `j`. Fails when
/// the modulus of `a_bar` is not `q`, and when `a_bar` is not one row of `n`
/// coefficients or `r` and `e` are not `k` rows of `n` coefficients.
pub fn gen_trapdoor_ring_lwe_from(
    params: &GadgetParametersRing,
    a_bar: &MatZq,
    r: MatZ,
    e: MatZ,
) -> (out: Result<(MatZq, MatZ, MatZ), MathError>)
    ensures
        out is Ok <==> a_bar.q() == params@.q && is_matrix(a_bar@, 1, params@.n) && is_matrix(
            r@,
            params@.k,
            params@.n,
        ) && is_matrix(e@, params@.k, params@.n),
        out matches Ok((a, kept_r, kept_e)) ==> {
            &&& a@ == ring_public_vector(params@, a_bar@[0], r@, e@)
            &&& a.q() == params@.q
            &&& is_matrix(a@, params@.k + 2, params@.n)
            &&& kept_r@ == r@
            &&& kept_e@ == e@
        },
        out matches Err(err) ==> err == (if a_bar.q() != params@.q {
            MathError::MismatchingModulus
        } else {
            MathError::MismatchingMatrixDimension
        }),
{
    let n: usize = params.n();
    let k: usize = params.k();
    let q: u64 = params.q();
    let base: u64 = params.base();
    if a_bar.modulus() != q {
        return Err(MathError::MismatchingModulus);
    }
    if a_bar.num_rows() != 1 || a_bar.num_cols() != n || r.num_rows() != k || r.num_cols() != n
        || e.num_rows() != k || e.num_cols() != n {
        return Err(MathError::MismatchingMatrixDimension);
    }
    let ghost g = params@;
    let ghost a = a_bar@[0];
    let ghost target = ring_public_vector(g, a, r@, e@);
    let mut data: Vec<Vec<i64>> = Vec::new();
    let mut one: Vec<i64> = Vec::new();
    let mut given: Vec<i64> = Vec::new();
    let mut i: usize = 0;
    while i < n
        invariant
            i <= n,
            n == g.n,
            a == a_bar@[0],
            is_matrix(a_bar@, 1, n as int),
            is_proper(a_bar@),
            q == a_bar.q(),
            is_modulus(q as int),
            one.len() == i,
            given.len() == i,
            forall|t: int| 0 <= t < i ==> (#[trigger] one[t]) == constant(n as int, 1)[t],
            forall|t: int| 0 <= t < i ==> (#[trigger] given[t]) == a[t],
            forall|t: int| 0 <= t < i ==> 0 <= (#[trigger] given[t]) < q,
        decreases n - i,
    {
        one.push(if i == 0 {
            1
        } else {
            0
        });
        given.push(a_bar.get(0, i) as i64);
        i += 1;
    }
    data.push(one);
    data.push(given);
    let base_mod: u64 = base % q;
    let mut power: u64 = 1;
    let mut j: usize = 0;
    proof {
        lemma_small_mod(1, q as nat);
        assert(pow(base as int, 0) == 1) by {
            reveal(pow);
        }
    }
    while j < k
        invariant
            j <= k,
            g == params@,
            g.well_formed(),
            n == g.n,
            k == g.k,
            q == g.q,
            base == g.base,
            base_mod == base % q,
            a == a_bar@[0],
            q == a_bar.q(),
            is_matrix(a_bar@, 1, n as int),
            is_matrix(r@, k as int, n as int),
            is_matrix(e@, k as int, n as int),
            is_proper(r@),
            is_proper(e@),
            is_proper(a_bar@),
            target == ring_public_vector(g, a, r@, e@),
            power < q,
            power == pow(base as int, j as nat) % (q as int),
            data.len() == j + 2,
            forall|t: int| 0 <= t < j + 2 ==> (#[trigger] data[t]).len() == n,
            forall|t: int, c: int|
                0 <= t < j + 2 && 0 <= c < n ==> (#[trigger] data[t][c]) == target[t][c],
            forall|t: int, c: int|
                0 <= t < j + 2 && 0 <= c < n ==> 0 <= (#[trigger] data[t][c]) < q,
        decreases k - j,
    {
        let mut row: Vec<i64> = Vec::new();
        let mut i: usize = 0;
        while i < n
            invariant
                i <= n,
                j < k,
                g == params@,
                g.well_formed(),
                n == g.n,
                k == g.k,
                q == g.q,
                base == g.base,
                a == a_bar@[0],
                q == a_bar.q(),
                is_matrix(a_bar@, 1, n as int),
                is_matrix(r@, k as int, n as int),
                is_matrix(e@, k as int, n as int),
                is_proper(r@),
                is_proper(e@),
                is_proper(a_bar@),
                power < q,
                power == pow(base as int, j as nat) % (q as int),
                row.len() == i,
                forall|c: int|
                    0 <= c < i ==> (#[trigger] row[c]) == ring_public_entry(
                        g,
                        a,
                        r@[j as int],
                        e@[j as int],
                        j as int,
                    )[c],
                forall|c: int| 0 <= c < i ==> 0 <= (#[trigger] row[c]) < q,
            decreases n - i,
        {
            let mut acc: u64 = 0;
            let mut s: usize = 0;
            proof {
                lemma_small_mod(0, q as nat);
            }
            while s < n
                invariant
                    s <= n,
                    i < n,
                    j < k,
                    n == g.n,
                    k == g.k,
                    q == g.q,
                    g.well_formed(),
                    a == a_bar@[0],
                    q == a_bar.q(),
                    is_matrix(a_bar@, 1, n as int),
                    is_matrix(r@, k as int, n as int),
                    is_proper(r@),
                    is_proper(a_bar@),
                    acc < q,
                    acc == wrap_sum(a, r@[j as int], i as int, s as int) % (q as int),
                decreases n - s,
            {
                let x: u64 = a_bar.get(0, s);
                let ghost d = wrap_sum(a, r@[j as int], i as int, s as int);
                if s <= i {
                    let y: u64 = reduce(r.get(j, i - s), q);
                    proof {
                        lemma_dot_step(
                            d,
                            x as int,
                            r@[j as int][i - s],
                            q as int,
                            acc as int,
                            y as int,
                        );
                    }
                    acc = mul_add_mod(acc, x, y, q);
                } else {
                    let y: u64 = reduce(r.get(j, n - (s - i)), q);
                    let product: u64 = mul_add_mod(0, x, y, q);
                    proof {
                        let b = r@[j as int][n + i - s];
                        lemma_mul_mod_noop_right(x as int, b, q as int);
                        lemma_sub_mod_noop(d, x * b, q as int);
                    }
                    acc = sub_mod(acc, product, q);
                }
                s += 1;
            }
            let noise: u64 = reduce(e.get(j, i), q);
            let taken: u64 = add_mod(acc, noise, q);
            let gadget: u64 = if i == 0 {
                power
            } else {
                0
            };
            proof {
                let w = wrap_sum(a, r@[j as int], i as int, n as int);
                let ee = e@[j as int][i as int];
                let gg = constant(n as int, pow(base as int, j as nat))[i as int];
                lemma_add_mod_noop(w, ee, q as int);
                lemma_sub_mod_noop(gg, w + ee, q as int);
            }
            let value: u64 = sub_mod(gadget, taken, q);
            row.push(value as i64);
            i += 1;
        }
        proof {
            reveal(pow);
            lemma_mul_mod_noop_right(power as int, base as int, q as int);
            lemma_mul_mod_noop_left(pow(base as int, j as nat), base as int, q as int);
            assert(base * pow(base as int, j as nat) == pow(base as int, j as nat) * base)
                by (nonlinear_arith);
        }
        data.push(row);
        power = mul_add_mod(0, power, base_mod, q);
        j += 1;
    }
    assert(lift(data@) =~~= target);
    let reps: MatZ = MatZ::from_rectangular(data);
    proof {
        assert forall|t: int| 0 <= t < target.len() implies #[trigger] residues(target, q as int)[t]
            =~= target[t] by {
            assert forall|c: int| 0 <= c < target[t].len() implies #[trigger] residues(
                target,
                q as int,
            )[t][c] == target[t][c] by {
                lemma_small_mod(target[t][c] as nat, q as nat);
            }
        }
    }
    match MatZq::from_mat_z(&reps, q) {
        Ok(public) => Ok((public, r, e)),
        Err(_) => unreached(),
    }
}

/// Draws the trapdoor `(r, e)`, `k` polynomials each, with coefficients from the
/// discrete Gaussian distribution of width `s`, and builds the public vector
/// `(1, a_bar, g - (a_bar * r + e))` for it. Every coefficient of `r` and `e` is
/// at most six widths away from zero.
///
/// Fails before anything is drawn when the modulus of `a_bar` is not `q`, and
/// when `a_bar` is not one row of `n` coefficients. Fails with `RejectedSample`
/// where the backend returns a coefficient that is further away from zero.
pub fn gen_trapdoor_ring_lwe<B: Backend>(
    params: &GadgetParametersRing,
    a_bar: &MatZq,
    s: &Rational,
    backend: &B,
) -> (out: Result<(MatZq, MatZ, MatZ), MathError>)
    ensures
        out matches Ok((a, r, e)) ==> {
            &&& is_matrix(r@, params@.k, params@.n)
            &&& is_matrix(e@, params@.k, params@.n)
            &&& entries_within(r@, -tail_bound(s@, 1), tail_bound(s@, 1))
            &&& entries_within(e@, -tail_bound(s@, 1), tail_bound(s@, 1))
            &&& a@ == ring_public_vector(params@, a_bar@[0], r@, e@)
            &&& a.q() == params@.q
            &&& is_matrix(a@, params@.k + 2, params@.n)
        },
        out matches Err(err) ==> err == (if a_bar.q() != params@.q {
            MathError::MismatchingModulus
        } else if !is_matrix(a_bar@, 1, params@.n) {
            MathError::MismatchingMatrixDimension
        } else {
            MathError::RejectedSample
        }),
{
    if a_bar.modulus() != params.q() {
        return Err(MathError::MismatchingModulus);
    }
    if a_bar.num_rows() != 1 || a_bar.num_cols() != params.n() {
        return Err(MathError::MismatchingMatrixDimension);
    }
    let width: Fraction = Fraction::from_rational(s);
    let drawn = sample_gaussian_rows(backend, params.k(), params.n(), params.n(), &width, 1);
    let r: MatZ = match drawn {
        Ok(r) => r,
        Err(e) => {
            return Err(e);
        },
    };
    let drawn = sample_gaussian_rows(backend, params.k(), params.n(), params.n(), &width, 1);
    let e: MatZ = match drawn {
        Ok(e) => e,
        Err(e) => {
            return Err(e);
        },
    };
    match gen_trapdoor_ring_lwe_from(params, a_bar, r, e) {
        Ok(out) => Ok(out),
        Err(_) => unreached(),
    }
}

/// The public vector factors through the gadget vector: for every digit `j`,
/// `e_j + a_bar * r_j` plus the entry of the public vector for `j` is `base^j`,
/// coefficient by coefficient modulo `q`.
pub proof fn lemma_ring_trapdoor_factors(
    g: RingGadget,
    a_bar: Seq<int>,
    r: Seq<Seq<int>>,
    e: Seq<Seq<int>>,
    j: int,
    i: int,
)
    requires
        g.well_formed(),
        0 <= j < g.k,
        0 <= i < g.n,
    ensures
        (e[j][i] + ring_product(a_bar, r[j])[i] + ring_public_vector(g, a_bar, r, e)[j + 2][i])
            % g.q == constant(g.n, pow(g.base, j as nat))[i] % g.q,
{
    let w = ring_product(a_bar, r[j])[i];
    let c = constant(g.n, pow(g.base, j as nat))[i];
    let x = e[j][i] + w;
    vstd::arithmetic::div_mod::lemma_add_mod_noop_right(x, c - x, g.q);
}

} // verus!
