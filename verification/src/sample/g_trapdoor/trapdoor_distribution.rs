//! The matrices that a trapdoor is drawn from.

use crate::backend::Backend;
use crate::error::MathError;
use crate::math::arith::{is_modulus, product_le};
use crate::math::mat_z::MatZ;
use crate::math::mat_zq::MatZq;
use crate::math::model::{entries_within, is_matrix, is_proper};
use crate::math::rational::{Fraction, Ratio};
use vstd::arithmetic::div_mod::lemma_fundamental_div_mod;
use vstd::pervasive::unreached;
use vstd::prelude::*;

verus! {

/// A matrix whose entries are each the difference of two fair bits: `-1` and `1`
/// with probability one quarter each, `0` with probability one half.
///
/// Whatever the backend returns, every entry is `-1`, `0` or `1`.
pub fn sample_plus_minus_one_zero<B: Backend>(backend: &B, rows: usize, cols: usize) -> (out:
    MatZ)
    requires
        rows >= 1,
        cols >= 1,
    ensures
        is_matrix(out@, rows as int, cols as int),
        is_proper(out@),
        entries_within(out@, -1, 1),
{
    let mut data: Vec<Vec<i64>> = Vec::new();
    let mut i: usize = 0;
    while i < rows
        invariant
            i <= rows,
            cols >= 1,
            data.len() == i,
            forall|r: int| 0 <= r < i ==> (#[trigger] data[r]).len() == cols,
            forall|r: int, c: int| 0 <= r < i && 0 <= c < cols ==> -1 <= #[trigger] data[r][c] <= 1,
        decreases rows - i,
    {
        let mut row: Vec<i64> = Vec::new();
        let mut j: usize = 0;
        while j < cols
            invariant
                j <= cols,
                row.len() == j,
                forall|c: int| 0 <= c < j ==> -1 <= #[trigger] row[c] <= 1,
            decreases cols - j,
        {
            let first: u64 = backend.uniform(2) % 2;
            let second: u64 = backend.uniform(2) % 2;
            row.push((first as i64) - (second as i64));
            j += 1;
        }
        data.push(row);
        i += 1;
    }
    let out = MatZ::from_rectangular(data);
    out
}

/// A matrix modulo `q` whose entries are chosen uniformly.
///
/// Whatever the backend returns, the matrix has the shape asked for and the
/// modulus `q`.
pub fn sample_uniform_zq<B: Backend>(backend: &B, rows: usize, cols: usize, q: u64) -> (out:
    MatZq)
    requires
        rows >= 1,
        cols >= 1,
        is_modulus(q as int),
    ensures
        is_matrix(out@, rows as int, cols as int),
        is_proper(out@),
        out.q() == q,
{
    let mut data: Vec<Vec<i64>> = Vec::new();
    let mut i: usize = 0;
    while i < rows
        invariant
            i <= rows,
            cols >= 1,
            is_modulus(q as int),
            data.len() == i,
            forall|r: int| 0 <= r < i ==> (#[trigger] data[r]).len() == cols,
        decreases rows - i,
    {
        let mut row: Vec<i64> = Vec::new();
        let mut j: usize = 0;
        while j < cols
            invariant
                j <= cols,
                is_modulus(q as int),
                row.len() == j,
            decreases cols - j,
        {
            let x: u64 = backend.uniform(q) % q;
            row.push(x as i64);
            j += 1;
        }
        data.push(row);
        i += 1;
    }
    let reps = MatZ::from_rectangular(data);
    match MatZq::from_mat_z(&reps, q) {
        Ok(m) => m,
        Err(_) => unreached(),
    }
}

/// The greatest distance from zero of an integer that is drawn with the width
/// `width * scale`: six widths, rounded down.
pub open spec fn tail_bound(width: Ratio, scale: int) -> int {
    ((6 * scale) * width.num) / width.den
}

/// Tells whether `x` is at most six times `width * scale` away from zero.
pub fn check_tail(x: i64, width: &Fraction, scale: u64) -> (ok: bool)
    ensures
        ok <==> -tail_bound(width@, scale as int) <= x <= tail_bound(width@, scale as int),
{
    let distance: u128 = if x >= 0 {
        x as u128
    } else {
        (-(x as i128)) as u128
    };
    let ok = product_le(distance, width.den(), 6 * (scale as u128), width.num());
    proof {
        let total = (6 * scale) * width@.num;
        let den = width@.den;
        lemma_fundamental_div_mod(total, den);
        assert(distance * den <= total <==> distance <= total / den) by (nonlinear_arith)
            requires
                den >= 1,
                total == den * (total / den) + total % den,
                0 <= total % den < den,
        ;
    }
    ok
}

/// A matrix of `rows` by `cols` integers, each chosen by the discrete Gaussian
/// distribution of width `width * scale` around zero.
///
/// Fails with `RejectedSample` where the backend returns an integer that is
/// more than six widths away from zero.
pub fn sample_gaussian_rows<B: Backend>(
    backend: &B,
    rows: usize,
    cols: usize,
    n: usize,
    width: &Fraction,
    scale: u64,
) -> (out: Result<MatZ, MathError>)
    requires
        rows >= 1,
        cols >= 1,
    ensures
        out matches Ok(e) ==> is_matrix(e@, rows as int, cols as int) && is_proper(e@)
            && entries_within(
            e@,
            -tail_bound(width@, scale as int),
            tail_bound(width@, scale as int),
        ),
        out matches Err(e) ==> e == MathError::RejectedSample,
{
    let ghost bound = tail_bound(width@, scale as int);
    let mut data: Vec<Vec<i64>> = Vec::new();
    let mut i: usize = 0;
    while i < rows
        invariant
            i <= rows,
            cols >= 1,
            bound == tail_bound(width@, scale as int),
            data.len() == i,
            forall|t: int| 0 <= t < i ==> (#[trigger] data[t]).len() == cols,
            forall|t: int, c: int|
                0 <= t < i && 0 <= c < cols ==> -bound <= #[trigger] data[t][c] <= bound,
        decreases rows - i,
    {
        let mut row: Vec<i64> = Vec::new();
        let mut j: usize = 0;
        while j < cols
            invariant
                j <= cols,
                bound == tail_bound(width@, scale as int),
                row.len() == j,
                forall|c: int| 0 <= c < j ==> -bound <= #[trigger] row[c] <= bound,
            decreases cols - j,
        {
            let x: i64 = backend.gaussian(n, width, scale);
            if !check_tail(x, width, scale) {
                return Err(MathError::RejectedSample);
            }
            row.push(x);
            j += 1;
        }
        data.push(row);
        i += 1;
    }
    let out = MatZ::from_rectangular(data);
    assert(entries_within(out@, -bound, bound)) by {
        assert forall|t: int, c: int|
            0 <= t < out@.len() && 0 <= c < out@[t].len() implies -bound <= #[trigger] out@[t][c]
            <= bound by {
            assert(out@[t][c] == data[t][c]);
        }
    }
    Ok(out)
}

} // verus!
