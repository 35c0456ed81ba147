//! A short basis of the lattice of the vectors that the public matrix sends to
//! zero, built from the trapdoor.

use crate::error::MathError;
use crate::math::arith::pow_at_most;
use crate::math::laws::lemma_dot_bound;
use crate::math::mat_z::{fits, lift, product_fits, sum_fits, MatZ};
use crate::math::mat_zq::MatZq;
use crate::math::model::{
    beside, dot, entries_within, is_matrix, is_proper, kronecker, left_columns, negation, product,
    residues, stacked, sum, unit, width, zeros,
};
use crate::sample::g_trapdoor::gadget_classical::{
    clamp, decomposition, digit, digits, find_solution_gadget_mat, find_solution_gadget_vec,
    gadget_matrix, lemma_block_of, lemma_next_digit,
};
use crate::sample::g_trapdoor::gadget_parameters::{lemma_widths, Gadget, GadgetParameters};
use vstd::arithmetic::div_mod::lemma_fundamental_div_mod;
use vstd::arithmetic::power::pow;
use vstd::pervasive::unreached;
use vstd::prelude::*;

verus! {

/// The entry in row `i` and column `j` of the basis of the lattice of the
/// vectors that the gadget vector sends to zero modulo `q`.
///
/// Column `j`, but for the last, holds `base` in row `j` and `-1` below it. The
/// last column holds the digits of `q`, or `base` in the last row where `q` is
/// `base^k`.
pub open spec fn digit_basis_entry(g: Gadget, i: int, j: int) -> int {
    if j < g.k - 1 {
        if i == j {
            g.base
        } else if i == j + 1 {
            -1
        } else {
            0
        }
    } else if pow(g.base, g.k as nat) == g.q {
        if i == g.k - 1 {
            g.base
        } else {
            0
        }
    } else {
        digit(g.q, i, g.base)
    }
}

/// The basis of the lattice of the vectors that the gadget vector sends to zero
/// modulo `q`, with `k` rows and columns.
pub open spec fn digit_basis(g: Gadget) -> Seq<Seq<int>> {
    Seq::new(g.k as nat, |i: int| Seq::new(g.k as nat, |j: int| digit_basis_entry(g, i, j)))
}

/// The basis of the lattice of the vectors that the gadget matrix sends to zero
/// modulo `q`: `n` copies of the digit basis along the diagonal.
pub open spec fn gadget_basis(g: Gadget) -> Seq<Seq<int>> {
    Seq::new(
        g.w() as nat,
        |t: int|
            Seq::new(
                g.w() as nat,
                |u: int|
                    if t / g.k == u / g.k {
                        digit_basis_entry(g, t % g.k, u % g.k)
                    } else {
                        0
                    },
            ),
    )
}

/// The digits of the negated uniform part of the public matrix `a`: the matrix
/// `W` with `G * W = -a_bar` modulo `q`.
pub open spec fn gadget_preimage(g: Gadget, a: Seq<Seq<int>>) -> Seq<Seq<int>> {
    decomposition(residues(negation(left_columns(a, g.m_bar)), g.q), g.k, g.base)
}

/// The short basis for the public matrix `a` and the trapdoor `r`:
/// `[[I + r * W, r * S], [W, S]]`, with `S` the gadget basis and `G * W = -a_bar`.
pub open spec fn short_basis(g: Gadget, a: Seq<Seq<int>>, r: Seq<Seq<int>>) -> Seq<Seq<int>> {
    let w = gadget_preimage(g, a);
    let s = gadget_basis(g);
    stacked(beside(sum(unit(g.m_bar), product(r, w)), product(r, s)), beside(w, s))
}

/// The entries of the short basis fit the machine integers.
pub open spec fn short_basis_fits(g: Gadget, a: Seq<Seq<int>>, r: Seq<Seq<int>>) -> bool {
    let w = gadget_preimage(g, a);
    let s = gadget_basis(g);
    &&& product_fits(r, w)
    &&& product_fits(r, s)
    &&& sum_fits(unit(g.m_bar), product(r, w))
}

/// The basis of the lattice of the vectors that the gadget vector sends to zero.
fn gen_digit_basis(params: &GadgetParameters) -> (out: MatZ)
    ensures
        out@ == digit_basis(params@),
        is_proper(out@),
{
    let k: usize = params.k();
    let base: u64 = params.base();
    let q: u64 = params.q();
    proof {
        assert(params@.base <= params@.m() * params@.base) by (nonlinear_arith)
            requires
                params@.m() >= 1,
                params@.base >= 0,
        ;
    }
    let power_of_base: bool = pow_at_most(base, k, q);
    let last: MatZ = find_solution_gadget_vec(q, k, base);
    let mut data: Vec<Vec<i64>> = Vec::new();
    let mut i: usize = 0;
    while i < k
        invariant
            i <= k,
            k == params@.k,
            base == params@.base,
            q == params@.q,
            params@.well_formed(),
            base <= i64::MAX,
            power_of_base <==> pow(base as int, k as nat) == q,
            last@ == digits(q as int, k as int, base as int),
            data.len() == i,
            forall|r: int| 0 <= r < i ==> (#[trigger] data[r]).len() == k,
            forall|r: int, c: int|
                0 <= r < i && 0 <= c < k ==> (#[trigger] data[r][c]) == digit_basis_entry(
                    params@,
                    r,
                    c,
                ),
        decreases k - i,
    {
        let mut row: Vec<i64> = Vec::new();
        let mut j: usize = 0;
        while j < k
            invariant
                j <= k,
                i < k,
                k == params@.k,
                base == params@.base,
                q == params@.q,
                params@.well_formed(),
                base <= i64::MAX,
                power_of_base <==> pow(base as int, k as nat) == q,
                last@ == digits(q as int, k as int, base as int),
                row.len() == j,
                forall|c: int|
                    0 <= c < j ==> (#[trigger] row[c]) == digit_basis_entry(params@, i as int, c),
            decreases k - j,
        {
            let x: i64 = if j < k - 1 {
                if i == j {
                    base as i64
                } else if i == j + 1 {
                    -1
                } else {
                    0
                }
            } else if power_of_base {
                if i == k - 1 {
                    base as i64
                } else {
                    0
                }
            } else {
                last.get(i, 0)
            };
            row.push(x);
            j += 1;
        }
        data.push(row);
        i += 1;
    }
    assert(lift(data@) =~~= digit_basis(params@));
    MatZ::from_rectangular(data)
}

/// The basis of the lattice of the vectors that the gadget matrix sends to zero.
fn gen_gadget_basis(params: &GadgetParameters) -> (out: MatZ)
    ensures
        out@ == gadget_basis(params@),
        is_proper(out@),
{
    let k: usize = params.k();
    let w: usize = params.w();
    let block: MatZ = gen_digit_basis(params);
    let mut data: Vec<Vec<i64>> = Vec::new();
    let mut t: usize = 0;
    while t < w
        invariant
            t <= w,
            k == params@.k,
            w == params@.w(),
            w >= 1,
            params@.well_formed(),
            block@ == digit_basis(params@),
            data.len() == t,
            forall|r: int| 0 <= r < t ==> (#[trigger] data[r]).len() == w,
            forall|r: int, c: int|
                0 <= r < t && 0 <= c < w ==> (#[trigger] data[r][c]) == gadget_basis(
                    params@,
                )[r][c],
        decreases w - t,
    {
        let mut row: Vec<i64> = Vec::new();
        let mut u: usize = 0;
        while u < w
            invariant
                u <= w,
                t < w,
                k == params@.k,
                w == params@.w(),
                params@.well_formed(),
                block@ == digit_basis(params@),
                row.len() == u,
                forall|c: int|
                    0 <= c < u ==> (#[trigger] row[c]) == gadget_basis(params@)[t as int][c],
            decreases w - u,
        {
            let x: i64 = if t / k == u / k {
                block.get(t % k, u % k)
            } else {
                0
            };
            row.push(x);
            u += 1;
        }
        data.push(row);
        t += 1;
    }
    assert(lift(data@) =~~= gadget_basis(params@));
    MatZ::from_rectangular(data)
}

/// The short basis `[[I + r * W, r * S], [W, S]]` of the lattice of the vectors
/// that the public matrix `a` sends to zero modulo `q`, for the trapdoor `r` of
/// `a` under the identity as tag.
///
/// Fails when the modulus of `a` is not that of `params`, when a shape is not
/// the one that `params` gives, and when an entry of the basis does not fit.
pub fn gen_short_basis_for_trapdoor(params: &GadgetParameters, a: &MatZq, r: &MatZ) -> (out:
    Result<MatZ, MathError>)
    ensures
        out is Ok <==> a.q() == params@.q && is_matrix(a@, params@.n, params@.m()) && is_matrix(
            r@,
            params@.m_bar,
            params@.w(),
        ) && short_basis_fits(params@, a@, r@),
        out matches Ok(b) ==> b@ == short_basis(params@, a@, r@) && is_matrix(
            b@,
            params@.m(),
            params@.m(),
        ) && is_proper(b@),
        out matches Err(e) ==> e == (if a.q() != params@.q {
            MathError::MismatchingModulus
        } else if !is_matrix(a@, params@.n, params@.m()) || !is_matrix(
            r@,
            params@.m_bar,
            params@.w(),
        ) {
            MathError::MismatchingMatrixDimension
        } else {
            MathError::Overflow
        }),
{
    let n: usize = params.n();
    let k: usize = params.k();
    let m_bar: usize = params.m_bar();
    let w: usize = params.w();
    let m: usize = params.m();
    if a.modulus() != params.q() {
        return Err(MathError::MismatchingModulus);
    }
    if a.num_rows() != n || a.num_cols() != m || r.num_rows() != m_bar || r.num_cols() != w {
        return Err(MathError::MismatchingMatrixDimension);
    }
    let minus_a_bar: MatZq = a.left_columns(m_bar).neg();
    let w_mat: MatZ = match find_solution_gadget_mat(&minus_a_bar, k, params.base()) {
        Ok(x) => x,
        Err(_) => unreached(),
    };
    let s: MatZ = gen_gadget_basis(params);
    let r_w: MatZ = match r.mul(&w_mat) {
        Ok(x) => x,
        Err(e) => {
            return Err(MathError::Overflow);
        },
    };
    let r_s: MatZ = match r.mul(&s) {
        Ok(x) => x,
        Err(e) => {
            return Err(MathError::Overflow);
        },
    };
    let top_left: MatZ = match MatZ::identity(m_bar).add(&r_w) {
        Ok(x) => x,
        Err(e) => {
            return Err(MathError::Overflow);
        },
    };
    let top: MatZ = match top_left.concat_horizontal(&r_s) {
        Ok(x) => x,
        Err(_) => unreached(),
    };
    let bottom: MatZ = match w_mat.concat_horizontal(&s) {
        Ok(x) => x,
        Err(_) => unreached(),
    };
    match top.concat_vertical(&bottom) {
        Ok(b) => Ok(b),
        Err(_) => unreached(),
    }
}

/// Where every entry of the trapdoor `r` is `-1`, `0` or `1`, the entries of the
/// short basis fit the machine integers.
pub proof fn lemma_short_basis_fits(g: Gadget, a: Seq<Seq<int>>, r: Seq<Seq<int>>)
    requires
        g.well_formed(),
        is_matrix(a, g.n, g.m()),
        is_matrix(r, g.m_bar, g.w()),
        entries_within(r, -1, 1),
    ensures
        short_basis_fits(g, a, r),
{
    lemma_widths(g);
    let w = gadget_preimage(g, a);
    let s = gadget_basis(g);
    assert(g.w() * g.base <= g.m() * g.base) by (nonlinear_arith)
        requires
            0 <= g.w() <= g.m(),
            g.base >= 0,
    ;
    assert forall|i: int, j: int, t: int|
        0 <= i < r.len() && 0 <= j < width(w) && 0 <= t <= w.len() implies fits(
        #[trigger] dot(r, w, i, j, t),
    ) by {
        lemma_dot_bound(r, w, i, j, t, 1, g.base);
        assert(t * (1 * g.base) <= g.w() * g.base) by (nonlinear_arith)
            requires
                0 <= t <= g.w(),
                g.base >= 0,
        ;
    }
    assert forall|i: int, j: int, t: int|
        0 <= i < r.len() && 0 <= j < width(s) && 0 <= t <= s.len() implies fits(
        #[trigger] dot(r, s, i, j, t),
    ) by {
        lemma_dot_bound(r, s, i, j, t, 1, g.base);
        assert(t * (1 * g.base) <= g.w() * g.base) by (nonlinear_arith)
            requires
                0 <= t <= g.w(),
                g.base >= 0,
        ;
    }
    let total = sum(unit(g.m_bar), product(r, w));
    assert forall|i: int, j: int| 0 <= i < total.len() && 0 <= j < total[i].len() implies fits(
        #[trigger] total[i][j],
    ) by {
        lemma_dot_bound(r, w, i, j, g.w(), 1, g.base - 1);
        assert(g.w() * (1 * (g.base - 1)) + 1 <= g.w() * g.base) by (nonlinear_arith)
            requires
                g.w() >= 1,
        ;
    }
}

/// The inner product of the gadget vector and column `cj` of the digit basis,
/// over the first `d` terms.
pub open spec fn block_sum(g: Gadget, cj: int, d: int) -> int
    decreases d,
{
    if d <= 0 {
        0
    } else {
        block_sum(g, cj, d - 1) + pow(g.base, (d - 1) as nat) * digit_basis_entry(g, d - 1, cj)
    }
}

/// What `block_sum` comes to: the two entries of a column, but for the last,
/// cancel; the last column sums up to `q`.
pub proof fn lemma_block_sum(g: Gadget, cj: int, d: int)
    requires
        g.well_formed(),
        0 <= cj < g.k,
        0 <= d <= g.k,
    ensures
        block_sum(g, cj, d) == (if cj < g.k - 1 {
            if d == cj + 1 {
                pow(g.base, (cj + 1) as nat)
            } else {
                0
            }
        } else if pow(g.base, g.k as nat) == g.q {
            if d == g.k {
                pow(g.base, g.k as nat)
            } else {
                0
            }
        } else {
            g.q % pow(g.base, d as nat)
        }),
    decreases d,
{
    if d == 0 {
        assert(pow(g.base, 0) == 1) by {
            reveal(pow);
        }
    } else {
        let e = d - 1;
        lemma_block_sum(g, cj, e);
        let p = pow(g.base, e as nat);
        assert(pow(g.base, (e + 1) as nat) == g.base * p) by {
            reveal(pow);
        }
        assert(g.base * p == p * g.base) by (nonlinear_arith);
        if cj < g.k - 1 {
            if e == cj {
            } else if e == cj + 1 {
            }
        } else if pow(g.base, g.k as nat) == g.q {
        } else {
            lemma_next_digit(g.q, e as nat, g.base);
        }
    }
}

/// The inner product of row `i` of the gadget matrix and column `c` of the
/// gadget basis, over the first `t` terms.
pub proof fn lemma_gadget_basis_row(g: Gadget, i: int, c: int, t: int)
    requires
        g.well_formed(),
        0 <= i < g.n,
        0 <= c < g.w(),
        0 <= t <= g.w(),
    ensures
        dot(gadget_matrix(g.n, g.k, g.base), gadget_basis(g), i, c, t) == (if c / g.k == i {
            block_sum(g, c % g.k, clamp(t - i * g.k, g.k) as int)
        } else {
            0
        }),
    decreases t,
{
    if t > 0 {
        let s = t - 1;
        lemma_gadget_basis_row(g, i, c, s);
        lemma_block_of(s, g.k, i);
    }
}

/// The gadget matrix sends every column of the gadget basis to zero modulo `q`.
pub proof fn lemma_gadget_basis_kernel(g: Gadget)
    requires
        g.well_formed(),
    ensures
        residues(product(gadget_matrix(g.n, g.k, g.base), gadget_basis(g)), g.q) == zeros(
            g.n,
            g.w(),
        ),
{
    let gm = gadget_matrix(g.n, g.k, g.base);
    let sm = gadget_basis(g);
    let p = residues(product(gm, sm), g.q);
    let z = zeros(g.n, g.w());
    assert forall|i: int| 0 <= i < p.len() implies #[trigger] p[i] =~= z[i] by {
        assert forall|c: int| 0 <= c < p[i].len() implies #[trigger] p[i][c] == z[i][c] by {
            lemma_gadget_basis_row(g, i, c, g.w());
            assert(g.n * g.k - i * g.k >= g.k) by (nonlinear_arith)
                requires
                    0 <= i < g.n,
                    g.k >= 1,
            ;
            lemma_block_sum(g, c % g.k, g.k);
            vstd::arithmetic::div_mod::lemma_mod_self_0(g.q);
            if pow(g.base, g.k as nat) != g.q {
                vstd::arithmetic::div_mod::lemma_small_mod(
                    g.q as nat,
                    pow(g.base, g.k as nat) as nat,
                );
            }
            vstd::arithmetic::div_mod::lemma_small_mod(0, g.q as nat);
        }
    }
}

/// The gadget basis is the Kronecker product of the identity of size `n` and the
/// digit basis.
pub proof fn lemma_gadget_basis_is_kronecker(g: Gadget)
    requires
        g.well_formed(),
    ensures
        gadget_basis(g) == kronecker(unit(g.n), digit_basis(g)),
{
    let block = digit_basis(g);
    let left = gadget_basis(g);
    let right = kronecker(unit(g.n), block);
    assert forall|t: int| 0 <= t < g.w() implies #[trigger] left[t] =~= right[t] by {
        lemma_fundamental_div_mod(t, g.k);
        assert(t / g.k < g.n) by (nonlinear_arith)
            requires
                t == g.k * (t / g.k) + t % g.k,
                0 <= t % g.k < g.k,
                t < g.n * g.k,
                g.k >= 1,
        ;
        assert forall|u: int| 0 <= u < g.w() implies #[trigger] left[t][u] == right[t][u] by {
            lemma_fundamental_div_mod(u, g.k);
            assert(u / g.k < g.n) by (nonlinear_arith)
                requires
                    u == g.k * (u / g.k) + u % g.k,
                    0 <= u % g.k < g.k,
                    u < g.n * g.k,
                    g.k >= 1,
            ;
        }
    }
}

} // verus!
