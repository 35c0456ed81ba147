//! The gadget matrix, the digits that invert it, and the public matrix with its
//! trapdoor.

use crate::backend::Backend;
use crate::error::MathError;
use crate::math::arith::is_modulus;
use crate::math::laws::{lemma_dot_beside_stacked, lemma_dot_unit, lemma_residues_of_difference};
use crate::math::mat_z::{lift, MatZ};
use crate::math::mat_zq::MatZq;
use crate::math::model::{
    beside, congruent, difference, dot, entries_within, is_matrix, is_proper, kronecker, product,
    residues, stacked, transpose, unit, width,
};
use crate::sample::g_trapdoor::gadget_parameters::{Gadget, GadgetParameters};
use crate::sample::g_trapdoor::trapdoor_distribution::sample_plus_minus_one_zero;
use vstd::arithmetic::div_mod::{
    lemma_add_mod_noop_right, lemma_div_denominator, lemma_fundamental_div_mod,
    lemma_fundamental_div_mod_converse, lemma_mod_decreases,
};
use vstd::arithmetic::power::{lemma_pow0, lemma_pow_increases, lemma_pow_positive, pow};
use vstd::pervasive::unreached;
use vstd::prelude::*;

verus! {

/// The gadget vector as a column: `1, base, ..., base^(k-1)`.
pub open spec fn gadget_vector(k: int, base: int) -> Seq<Seq<int>> {
    Seq::new(k as nat, |i: int| seq![pow(base, i as nat)])
}

/// The gadget matrix: `n` copies of the gadget vector, as rows, along the
/// diagonal. It has `n` rows and `n * k` columns.
pub open spec fn gadget_matrix(n: int, k: int, base: int) -> Seq<Seq<int>> {
    Seq::new(
        n as nat,
        |i: int|
            Seq::new(
                (n * k) as nat,
                |j: int|
                    if j / k == i {
                        pow(base, (j % k) as nat)
                    } else {
                        0
                    },
            ),
    )
}

/// The digit of `u` at position `d` in the base `base`.
pub open spec fn digit(u: int, d: int, base: int) -> int {
    (u / pow(base, d as nat)) % base
}

/// The first `k` digits of `u`, least first, as a column.
pub open spec fn digits(u: int, k: int, base: int) -> Seq<Seq<int>> {
    Seq::new(k as nat, |d: int| seq![digit(u, d, base)])
}

/// The first `k` digits of every entry of `u`. Each row of `u` becomes `k`
/// rows: the digits at position `0`, then those at position `1`, and so on.
pub open spec fn decomposition(u: Seq<Seq<int>>, k: int, base: int) -> Seq<Seq<int>> {
    Seq::new(
        (u.len() * k) as nat,
        |t: int| Seq::new(width(u) as nat, |c: int| digit(u[t / k][c], t % k, base)),
    )
}

/// The powers `base^0, ..., base^(k-1)`, where the last of them fits.
fn powers(k: usize, base: u64) -> (out: Option<Vec<i64>>)
    requires
        k >= 1,
        base >= 2,
    ensures
        out is Some <==> pow(base as int, (k - 1) as nat) <= i64::MAX,
        out matches Some(v) ==> v.len() == k && forall|i: int|
            0 <= i < k ==> (#[trigger] v[i]) == pow(base as int, i as nat),
{
    let mut v: Vec<i64> = Vec::new();
    let mut p: i64 = 1;
    v.push(p);
    let mut i: usize = 1;
    proof {
        lemma_pow0(base as int);
    }
    while i < k
        invariant
            1 <= i <= k,
            base >= 2,
            v.len() == i,
            p == pow(base as int, (i - 1) as nat),
            p >= 1,
            forall|t: int| 0 <= t < i ==> (#[trigger] v[t]) == pow(base as int, t as nat),
        decreases k - i,
    {
        proof {
            reveal(pow);
            assert(base * p == p * base && p * base >= 1) by (nonlinear_arith)
                requires
                    p >= 1,
                    base >= 2,
            ;
            lemma_pow_increases(base as nat, i as nat, (k - 1) as nat);
        }
        if base > 0x7fff_ffff_ffff_ffff {
            assert(p * base > i64::MAX) by (nonlinear_arith)
                requires
                    p >= 1,
                    base > 0x7fff_ffff_ffff_ffff,
            ;
            return None;
        }
        match p.checked_mul(base as i64) {
            Some(next) => {
                p = next;
            },
            None => {
                return None;
            },
        }
        v.push(p);
        i += 1;
    }
    Some(v)
}

/// The gadget vector `1, base, ..., base^(k-1)`, as a column.
///
/// Fails when `base^(k-1)` does not fit.
pub fn gen_gadget_vec(k: usize, base: u64) -> (out: Result<MatZ, MathError>)
    requires
        k >= 1,
        base >= 2,
    ensures
        out is Ok <==> pow(base as int, (k - 1) as nat) <= i64::MAX,
        out matches Ok(g) ==> g@ == gadget_vector(k as int, base as int) && is_proper(g@),
        out matches Err(e) ==> e == MathError::Overflow,
{
    match powers(k, base) {
        None => Err(MathError::Overflow),
        Some(v) => {
            let mut data: Vec<Vec<i64>> = Vec::new();
            let mut i: usize = 0;
            while i < k
                invariant
                    i <= k,
                    v.len() == k,
                    data.len() == i,
                    forall|t: int| 0 <= t < i ==> (#[trigger] data[t])@ == seq![v[t]],
                decreases k - i,
            {
                let mut row: Vec<i64> = Vec::new();
                row.push(v[i]);
                data.push(row);
                i += 1;
            }
            assert(lift(data@) =~~= gadget_vector(k as int, base as int));
            Ok(MatZ::from_rectangular(data))
        },
    }
}

/// The gadget matrix with `n` rows: the identity of size `n`, each of its entries
/// replaced by that entry times the gadget vector written as a row.
///
/// Fails when `base^(k-1)` or the width `n * k` does not fit.
pub fn gen_gadget_mat(n: usize, k: usize, base: u64) -> (out: Result<MatZ, MathError>)
    requires
        n >= 1,
        k >= 1,
        base >= 2,
    ensures
        out is Ok <==> pow(base as int, (k - 1) as nat) <= i64::MAX && n * k <= usize::MAX,
        out matches Ok(g) ==> g@ == gadget_matrix(n as int, k as int, base as int) && is_proper(
            g@,
        ),
        out matches Err(e) ==> e == MathError::Overflow,
{
    let v: Vec<i64> = match powers(k, base) {
        None => {
            return Err(MathError::Overflow);
        },
        Some(v) => v,
    };
    let w: usize = match n.checked_mul(k) {
        None => {
            return Err(MathError::Overflow);
        },
        Some(w) => w,
    };
    assert(w >= 1) by (nonlinear_arith)
        requires
            w == n * k,
            n >= 1,
            k >= 1,
    ;
    let mut data: Vec<Vec<i64>> = Vec::new();
    let mut i: usize = 0;
    while i < n
        invariant
            i <= n,
            k >= 1,
            w == n * k,
            w >= 1,
            v.len() == k,
            forall|t: int| 0 <= t < k ==> (#[trigger] v[t]) == pow(base as int, t as nat),
            data.len() == i,
            forall|r: int| 0 <= r < i ==> (#[trigger] data[r]).len() == w,
            forall|r: int, c: int|
                0 <= r < i && 0 <= c < w ==> (#[trigger] data[r][c]) == gadget_matrix(
                    n as int,
                    k as int,
                    base as int,
                )[r][c],
        decreases n - i,
    {
        let mut row: Vec<i64> = Vec::new();
        let mut j: usize = 0;
        while j < w
            invariant
                j <= w,
                i < n,
                k >= 1,
                w == n * k,
                v.len() == k,
                forall|t: int| 0 <= t < k ==> (#[trigger] v[t]) == pow(base as int, t as nat),
                row.len() == j,
                forall|c: int|
                    0 <= c < j ==> (#[trigger] row[c]) == gadget_matrix(
                        n as int,
                        k as int,
                        base as int,
                    )[i as int][c],
            decreases w - j,
        {
            let x: i64 = if j / k == i {
                v[j % k]
            } else {
                0
            };
            row.push(x);
            j += 1;
        }
        data.push(row);
        i += 1;
    }
    assert(lift(data@) =~~= gadget_matrix(n as int, k as int, base as int));
    Ok(MatZ::from_rectangular(data))
}

/// The digits of `u` in the base `base`, least first, as a column of `k` rows.
///
/// Where `u < base^k` the gadget vector times this column is `u`.
pub fn find_solution_gadget_vec(u: u64, k: usize, base: u64) -> (out: MatZ)
    requires
        k >= 1,
        base >= 2,
        u <= i64::MAX,
    ensures
        out@ == digits(u as int, k as int, base as int),
        is_proper(out@),
{
    let mut data: Vec<Vec<i64>> = Vec::new();
    let mut value: u64 = u;
    let mut d: usize = 0;
    proof {
        lemma_pow0(base as int);
    }
    while d < k
        invariant
            d <= k,
            base >= 2,
            u <= i64::MAX,
            value <= u,
            value == (u as int) / pow(base as int, d as nat),
            pow(base as int, d as nat) >= 1,
            data.len() == d,
            forall|t: int| 0 <= t < d ==> (#[trigger] data[t])@.len() == 1,
            forall|t: int|
                0 <= t < d ==> (#[trigger] data[t])@[0] == digit(u as int, t, base as int),
        decreases k - d,
    {
        let low: u64 = value % base;
        proof {
            let p = pow(base as int, d as nat);
            reveal(pow);
            assert(base * p == p * base && p * base >= 1) by (nonlinear_arith)
                requires
                    p >= 1,
                    base >= 2,
            ;
            lemma_div_denominator(u as int, p, base as int);
        }
        let mut row: Vec<i64> = Vec::new();
        proof {
            lemma_mod_decreases(value as nat, base as nat);
        }
        row.push(low as i64);
        data.push(row);
        value = value / base;
        d += 1;
    }
    proof {
        assert forall|t: int| 0 <= t < data.len() implies (#[trigger] lift(data@)[t]) =~= digits(
            u as int,
            k as int,
            base as int,
        )[t] by {
        }
    }
    MatZ::from_rectangular(data)
}

/// The digits of every entry of `value`: row `i` of `value` becomes `k` rows, and
/// row `d` of these holds the digits at position `d`.
///
/// Where `q <= base^k` the gadget matrix times the result is `value`.
/// Fails when the number of rows of the result does not fit.
pub fn find_solution_gadget_mat(value: &MatZq, k: usize, base: u64) -> (out: Result<
    MatZ,
    MathError,
>)
    requires
        k >= 1,
        base >= 2,
    ensures
        out is Ok <==> value@.len() * k <= usize::MAX,
        out matches Ok(x) ==> x@ == decomposition(value@, k as int, base as int) && is_proper(
            x@,
        ),
        out matches Err(e) ==> e == MathError::Overflow,
{
    let rows: usize = value.num_rows();
    let cols: usize = value.num_cols();
    let q: u64 = value.modulus();
    let total: usize = match rows.checked_mul(k) {
        None => {
            return Err(MathError::Overflow);
        },
        Some(t) => t,
    };
    let ghost target = decomposition(value@, k as int, base as int);
    let mut data: Vec<Vec<i64>> = Vec::new();
    let mut i: usize = 0;
    while i < rows
        invariant
            i <= rows,
            k >= 1,
            base >= 2,
            rows == value@.len(),
            cols == width(value@),
            is_proper(value@),
            total == rows * k,
            q == value.q(),
            is_modulus(q as int),
            target == decomposition(value@, k as int, base as int),
            data.len() == i * k,
            forall|t: int| 0 <= t < i * k ==> (#[trigger] data[t])@.len() == cols,
            forall|t: int, c: int|
                0 <= t < i * k && 0 <= c < cols ==> (#[trigger] data[t][c]) == target[t][c],
        decreases rows - i,
    {
        let mut rest: Vec<u64> = Vec::new();
        let mut c: usize = 0;
        proof {
            lemma_pow0(base as int);
        }
        while c < cols
            invariant
                c <= cols,
                i < rows,
                rows == value@.len(),
                cols == width(value@),
                is_proper(value@),
                q == value.q(),
                is_modulus(q as int),
                rest.len() == c,
                forall|t: int| 0 <= t < c ==> (#[trigger] rest[t]) == value@[i as int][t],
                forall|t: int| 0 <= t < c ==> 0 <= #[trigger] value@[i as int][t] < q,
            decreases cols - c,
        {
            rest.push(value.get(i, c));
            c += 1;
        }
        assert(i * k + k <= total) by (nonlinear_arith)
            requires
                i < rows,
                total == rows * k,
                k >= 1,
        ;
        let mut d: usize = 0;
        while d < k
            invariant
                d <= k,
                i < rows,
                k >= 1,
                base >= 2,
                i * k + k <= total,
                total == rows * k,
                rows == value@.len(),
                cols == width(value@),
                is_proper(value@),
                is_modulus(q as int),
                target == decomposition(value@, k as int, base as int),
                pow(base as int, d as nat) >= 1,
                rest.len() == cols,
                forall|t: int|
                    0 <= t < cols ==> (#[trigger] rest[t]) == value@[i as int][t] / pow(
                        base as int,
                        d as nat,
                    ),
                forall|t: int| 0 <= t < cols ==> 0 <= #[trigger] value@[i as int][t] < q,
                data.len() == i * k + d,
                forall|t: int| 0 <= t < i * k + d ==> (#[trigger] data[t])@.len() == cols,
                forall|t: int, c: int|
                    0 <= t < i * k + d && 0 <= c < cols ==> (#[trigger] data[t][c])
                        == target[t][c],
            decreases k - d,
        {
            let ghost p = pow(base as int, d as nat);
            let ghost t = i * k + d;
            proof {
                lemma_fundamental_div_mod_converse(t as int, k as int, i as int, d as int);
                reveal(pow);
                assert(base * p == p * base && p * base >= 1) by (nonlinear_arith)
                    requires
                        p >= 1,
                        base >= 2,
                ;
            }
            let mut row: Vec<i64> = Vec::new();
            let mut c: usize = 0;
            while c < cols
                invariant
                    c <= cols,
                    i < rows,
                    d < k,
                    base >= 2,
                    rows == value@.len(),
                    cols == width(value@),
                    is_proper(value@),
                    is_modulus(q as int),
                    p == pow(base as int, d as nat),
                    p >= 1,
                    pow(base as int, (d + 1) as nat) == p * base,
                    rest.len() == cols,
                    forall|t: int|
                        0 <= t < c ==> (#[trigger] rest[t]) == value@[i as int][t] / (p * base),
                    forall|t: int|
                        c <= t < cols ==> (#[trigger] rest[t]) == value@[i as int][t] / p,
                    forall|t: int| 0 <= t < cols ==> 0 <= #[trigger] value@[i as int][t] < q,
                    row.len() == c,
                    forall|t: int|
                        0 <= t < c ==> (#[trigger] row[t]) == digit(
                            value@[i as int][t],
                            d as int,
                            base as int,
                        ),
                decreases cols - c,
            {
                let current: u64 = rest[c];
                let low: u64 = current % base;
                proof {
                    let u = value@[i as int][c as int];
                    lemma_div_denominator(u, p, base as int);
                    lemma_mod_decreases(current as nat, base as nat);
                }
                row.push(low as i64);
                rest.set(c, current / base);
                c += 1;
            }
            data.push(row);
            d += 1;
        }
        assert((i + 1) * k == i * k + k) by (nonlinear_arith);
        i += 1;
    }
    proof {
        assert(data.len() >= 1) by (nonlinear_arith)
            requires
                data.len() == rows * k,
                rows >= 1,
                k >= 1,
        ;
        assert(lift(data@) =~~= target);
    }
    Ok(MatZ::from_rectangular(data))
}

/// The public matrix `[a_bar | tag * G - a_bar * r]` modulo `q`.
pub open spec fn public_matrix(
    g: Gadget,
    a_bar: Seq<Seq<int>>,
    tag: Seq<Seq<int>>,
    r: Seq<Seq<int>>,
) -> Seq<Seq<int>> {
    beside(
        a_bar,
        residues(difference(product(tag, gadget_matrix(g.n, g.k, g.base)), product(a_bar, r)), g.q),
    )
}

/// The shapes that `gen_trapdoor_from` asks of its arguments: `a_bar` is `n` by
/// `m_bar`, `tag` is `n` by `n`, and `r` is `m_bar` by `n * k`.
pub open spec fn trapdoor_shapes(
    g: Gadget,
    a_bar: Seq<Seq<int>>,
    tag: Seq<Seq<int>>,
    r: Seq<Seq<int>>,
) -> bool {
    &&& is_matrix(a_bar, g.n, g.m_bar)
    &&& is_matrix(tag, g.n, g.n)
    &&& is_matrix(r, g.m_bar, g.w())
}

/// The public matrix `A = [a_bar | tag * G - a_bar * r]` for the trapdoor `r`.
///
/// `A` times `r` stacked on the identity is `tag * G`, modulo `q`.
/// Fails when a modulus is not that of `params`, and when a shape is not the one
/// that `params` gives.
pub fn gen_trapdoor_from(params: &GadgetParameters, a_bar: &MatZq, tag: &MatZq, r: MatZ) -> (out:
    Result<(MatZq, MatZ), MathError>)
    ensures
        out is Ok <==> a_bar.q() == params@.q && tag.q() == params@.q && trapdoor_shapes(
            params@,
            a_bar@,
            tag@,
            r@,
        ),
        out matches Ok((a, t)) ==> {
            &&& a@ == public_matrix(params@, a_bar@, tag@, r@)
            &&& a.q() == params@.q
            &&& is_matrix(a@, params@.n, params@.m())
            &&& t@ == r@
        },
        out matches Err(e) ==> e == (if a_bar.q() != params@.q || tag.q() != params@.q {
            MathError::MismatchingModulus
        } else {
            MathError::MismatchingMatrixDimension
        }),
{
    let n: usize = params.n();
    let k: usize = params.k();
    let m_bar: usize = params.m_bar();
    let w: usize = params.w();
    let q: u64 = params.q();
    if a_bar.modulus() != q || tag.modulus() != q {
        return Err(MathError::MismatchingModulus);
    }
    if a_bar.num_rows() != n || a_bar.num_cols() != m_bar || tag.num_rows() != n
        || tag.num_cols() != n || r.num_rows() != m_bar || r.num_cols() != w {
        return Err(MathError::MismatchingMatrixDimension);
    }
    let g: MatZ = match gen_gadget_mat(n, k, params.base()) {
        Ok(g) => g,
        Err(_) => unreached(),
    };
    let tag_g: MatZq = match tag.mul_mat_z(&g) {
        Ok(x) => x,
        Err(_) => unreached(),
    };
    let a_bar_r: MatZq = match a_bar.mul_mat_z(&r) {
        Ok(x) => x,
        Err(_) => unreached(),
    };
    let right: MatZq = match tag_g.sub(&a_bar_r) {
        Ok(x) => x,
        Err(_) => unreached(),
    };
    proof {
        lemma_residues_of_difference(product(tag@, g@), product(a_bar@, r@), q as int);
    }
    match a_bar.concat_horizontal(&right) {
        Ok(a) => Ok((a, r)),
        Err(_) => unreached(),
    }
}

/// Draws a trapdoor `r` with entries `-1`, `0` and `1`, and builds the public
/// matrix `A = [a_bar | tag * G - a_bar * r]` for it.
///
/// Fails when a modulus is not that of `params`, and when a shape is not the one
/// that `params` gives.
pub fn gen_trapdoor<B: Backend>(
    params: &GadgetParameters,
    a_bar: &MatZq,
    tag: &MatZq,
    backend: &B,
) -> (out: Result<(MatZq, MatZ), MathError>)
    ensures
        out is Ok <==> a_bar.q() == params@.q && tag.q() == params@.q && is_matrix(
            a_bar@,
            params@.n,
            params@.m_bar,
        ) && is_matrix(tag@, params@.n, params@.n),
        out matches Ok((a, r)) ==> {
            &&& is_matrix(r@, params@.m_bar, params@.w())
            &&& entries_within(r@, -1, 1)
            &&& a@ == public_matrix(params@, a_bar@, tag@, r@)
            &&& a.q() == params@.q
            &&& is_matrix(a@, params@.n, params@.m())
        },
        out matches Err(e) ==> e == (if a_bar.q() != params@.q || tag.q() != params@.q {
            MathError::MismatchingModulus
        } else {
            MathError::MismatchingMatrixDimension
        }),
{
    let r: MatZ = sample_plus_minus_one_zero(backend, params.m_bar(), params.w());
    gen_trapdoor_from(params, a_bar, tag, r)
}

/// The public matrix factors through the gadget: for every `a_bar`, `tag` and
/// `r` of the shapes that the parameters give, `A = [a_bar | tag * G - a_bar * r]`
/// times `r` stacked on the identity is `tag * G`, modulo `q`.
pub proof fn lemma_trapdoor_factors(
    g: Gadget,
    a_bar: Seq<Seq<int>>,
    tag: Seq<Seq<int>>,
    r: Seq<Seq<int>>,
)
    requires
        g.well_formed(),
        trapdoor_shapes(g, a_bar, tag, r),
    ensures
        congruent(
            product(public_matrix(g, a_bar, tag, r), stacked(r, unit(g.w()))),
            product(tag, gadget_matrix(g.n, g.k, g.base)),
            g.q,
        ),
{
    let gm = gadget_matrix(g.n, g.k, g.base);
    let tg = product(tag, gm);
    let ar = product(a_bar, r);
    let right = residues(difference(tg, ar), g.q);
    let a = public_matrix(g, a_bar, tag, r);
    let trap = stacked(r, unit(g.w()));
    let lhs = residues(product(a, trap), g.q);
    let rhs = residues(tg, g.q);
    assert forall|i: int| 0 <= i < lhs.len() implies #[trigger] lhs[i] =~= rhs[i] by {
        assert forall|j: int| 0 <= j < lhs[i].len() implies #[trigger] lhs[i][j]
            == rhs[i][j] by {
            lemma_dot_beside_stacked(a_bar, right, r, unit(g.w()), i, j, g.w());
            lemma_dot_unit(right, g.w(), i, j, g.w());
            let x = ar[i][j];
            let t = tg[i][j];
            lemma_add_mod_noop_right(x, t - x, g.q);
        }
    }
    assert(lhs =~= rhs);
}

/// `d`, but not below zero and not above `k`.
pub open spec fn clamp(d: int, k: int) -> nat {
    if d <= 0 {
        0
    } else if d >= k {
        k as nat
    } else {
        d as nat
    }
}

/// The position `s` lies in block `i` of width `k` exactly if it lies between
/// `i * k` and `i * k + k`, and then it is the position `s - i * k` of the block.
pub proof fn lemma_block_of(s: int, k: int, i: int)
    requires
        k >= 1,
        s >= 0,
        i >= 0,
    ensures
        (s / k == i) <==> (i * k <= s < i * k + k),
        s / k == i ==> s % k == s - i * k,
{
    lemma_fundamental_div_mod(s, k);
    if i * k <= s < i * k + k {
        lemma_fundamental_div_mod_converse(s, k, i, s - i * k);
    }
    if s / k == i {
        assert(k * (s / k) == i * k) by (nonlinear_arith)
            requires
                s / k == i,
        ;
    }
}

/// One more digit: `x mod base^(d + 1)` is `x mod base^d` plus `base^d` times the
/// digit of `x` at position `d`.
pub proof fn lemma_next_digit(x: int, d: nat, base: int)
    requires
        x >= 0,
        base >= 2,
    ensures
        pow(base, d) >= 1,
        x % pow(base, d + 1) == x % pow(base, d) + pow(base, d) * digit(x, d as int, base),
{
    lemma_pow_positive(base, d);
    let p = pow(base, d);
    assert(pow(base, d + 1) == base * p) by {
        reveal(pow);
    }
    vstd::arithmetic::div_mod::lemma_mod_breakdown(x, p, base);
}

/// The inner product of row `i` of the gadget matrix and column `c` of the
/// digits of `u`, over the first `t` terms: the part of `u[i][c]` that the
/// digits summed so far make up.
pub proof fn lemma_gadget_row(
    n: int,
    k: int,
    base: int,
    u: Seq<Seq<int>>,
    i: int,
    c: int,
    t: int,
)
    requires
        n >= 1,
        k >= 1,
        base >= 2,
        u.len() == n,
        0 <= i < n,
        0 <= c < width(u),
        u[i][c] >= 0,
        0 <= t <= n * k,
    ensures
        dot(gadget_matrix(n, k, base), decomposition(u, k, base), i, c, t) == u[i][c] % pow(
            base,
            clamp(t - i * k, k),
        ),
    decreases t,
{
    let x = u[i][c];
    if t == 0 {
        assert(pow(base, 0) == 1) by {
            reveal(pow);
        }
    } else {
        let s = t - 1;
        lemma_gadget_row(n, k, base, u, i, c, s);
        lemma_block_of(s, k, i);
        if s / k == i {
            let d = s - i * k;
            lemma_next_digit(x, d as nat, base);
        }
    }
}

/// The gadget matrix times the digits of `u` is `u`, for every matrix `u` of `n`
/// rows with entries from zero to `base^k - 1`.
pub proof fn lemma_gadget_inverts(n: int, k: int, base: int, u: Seq<Seq<int>>)
    requires
        n >= 1,
        k >= 1,
        base >= 2,
        is_proper(u),
        u.len() == n,
        entries_within(u, 0, pow(base, k as nat) - 1),
    ensures
        product(gadget_matrix(n, k, base), decomposition(u, k, base)) == u,
{
    let gm = gadget_matrix(n, k, base);
    let dm = decomposition(u, k, base);
    let p = product(gm, dm);
    assert(n * k >= 1) by (nonlinear_arith)
        requires
            n >= 1,
            k >= 1,
    ;
    assert forall|i: int| 0 <= i < p.len() implies #[trigger] p[i] =~= u[i] by {
        assert forall|c: int| 0 <= c < p[i].len() implies #[trigger] p[i][c] == u[i][c] by {
            lemma_gadget_row(n, k, base, u, i, c, n * k);
            assert(n * k - i * k >= k) by (nonlinear_arith)
                requires
                    0 <= i < n,
                    k >= 1,
            ;
            vstd::arithmetic::div_mod::lemma_small_mod(
                u[i][c] as nat,
                pow(base, k as nat) as nat,
            );
        }
    }
}

/// The gadget matrix is the Kronecker product of the identity of size `n` and
/// the gadget vector written as a row.
pub proof fn lemma_gadget_matrix_is_kronecker(n: int, k: int, base: int)
    requires
        n >= 1,
        k >= 1,
    ensures
        gadget_matrix(n, k, base) == kronecker(unit(n), transpose(gadget_vector(k, base))),
{
    let row = transpose(gadget_vector(k, base));
    assert(row.len() == 1);
    let left = gadget_matrix(n, k, base);
    let right = kronecker(unit(n), row);
    assert forall|i: int| 0 <= i < n implies #[trigger] left[i] =~= right[i] by {
        assert forall|j: int| 0 <= j < n * k implies #[trigger] left[i][j] == right[i][j] by {
            lemma_fundamental_div_mod(j, k);
            assert(j / k < n) by (nonlinear_arith)
                requires
                    j == k * (j / k) + j % k,
                    0 <= j % k < k,
                    j < n * k,
                    k >= 1,
            ;
        }
    }
}

} // verus!
