//! The mathematical model of a matrix: a sequence of rows of integers.
//!
//! Every contract of the crate that speaks of a matrix speaks of such a sequence.

use vstd::prelude::*;

verus! {

/// `m` has `rows` rows of `cols` entries each.
pub open spec fn is_matrix(m: Seq<Seq<int>>, rows: int, cols: int) -> bool {
    &&& m.len() == rows
    &&& forall|i: int| 0 <= i < rows ==> (#[trigger] m[i]).len() == cols
}

/// The number of columns of `m`, taken from its first row.
pub open spec fn width(m: Seq<Seq<int>>) -> int {
    if m.len() == 0 {
        0
    } else {
        m[0].len() as int
    }
}

/// `m` is a matrix with at least one row and one column.
pub open spec fn is_proper(m: Seq<Seq<int>>) -> bool {
    &&& m.len() >= 1
    &&& width(m) >= 1
    &&& is_matrix(m, m.len() as int, width(m))
}

/// The sum of `a[i][t] * b[t][j]` over `0 <= t < n`.
pub open spec fn dot(a: Seq<Seq<int>>, b: Seq<Seq<int>>, i: int, j: int, n: int) -> int
    decreases n,
{
    if n <= 0 {
        0
    } else {
        dot(a, b, i, j, n - 1) + a[i][n - 1] * b[n - 1][j]
    }
}

/// The matrix product `a * b`.
pub open spec fn product(a: Seq<Seq<int>>, b: Seq<Seq<int>>) -> Seq<Seq<int>> {
    Seq::new(
        a.len(),
        |i: int| Seq::new(width(b) as nat, |j: int| dot(a, b, i, j, b.len() as int)),
    )
}

/// The entrywise sum `a + b`.
pub open spec fn sum(a: Seq<Seq<int>>, b: Seq<Seq<int>>) -> Seq<Seq<int>> {
    Seq::new(a.len(), |i: int| Seq::new(a[i].len(), |j: int| a[i][j] + b[i][j]))
}

/// The entrywise difference `a - b`.
pub open spec fn difference(a: Seq<Seq<int>>, b: Seq<Seq<int>>) -> Seq<Seq<int>> {
    Seq::new(a.len(), |i: int| Seq::new(a[i].len(), |j: int| a[i][j] - b[i][j]))
}

/// Every entry of `a` replaced by its least non-negative residue modulo `q`.
pub open spec fn residues(a: Seq<Seq<int>>, q: int) -> Seq<Seq<int>> {
    Seq::new(a.len(), |i: int| Seq::new(a[i].len(), |j: int| a[i][j] % q))
}

/// `a` and `b` side by side: `[a | b]`.
pub open spec fn beside(a: Seq<Seq<int>>, b: Seq<Seq<int>>) -> Seq<Seq<int>> {
    Seq::new(a.len(), |i: int| a[i] + b[i])
}

/// `a` on top of `b`.
pub open spec fn stacked(a: Seq<Seq<int>>, b: Seq<Seq<int>>) -> Seq<Seq<int>> {
    a + b
}

/// The `n` by `n` identity matrix.
pub open spec fn unit(n: int) -> Seq<Seq<int>> {
    Seq::new(n as nat, |i: int| Seq::new(n as nat, |j: int| if i == j { 1int } else { 0int }))
}

/// The `rows` by `cols` matrix of zeros.
pub open spec fn zeros(rows: int, cols: int) -> Seq<Seq<int>> {
    Seq::new(rows as nat, |i: int| Seq::new(cols as nat, |j: int| 0int))
}

/// Every entry of `m` lies in `lo..=hi`.
pub open spec fn entries_within(m: Seq<Seq<int>>, lo: int, hi: int) -> bool {
    forall|i: int, j: int|
        0 <= i < m.len() && 0 <= j < m[i].len() ==> lo <= #[trigger] m[i][j] <= hi
}

/// `a` and `b` have the same shape and agree entry by entry modulo `q`.
pub open spec fn congruent(a: Seq<Seq<int>>, b: Seq<Seq<int>>, q: int) -> bool {
    residues(a, q) == residues(b, q)
}

/// Every entry of `a` with its sign changed.
pub open spec fn negation(a: Seq<Seq<int>>) -> Seq<Seq<int>> {
    Seq::new(a.len(), |i: int| Seq::new(a[i].len(), |j: int| -a[i][j]))
}

/// The first `count` columns of `a`.
pub open spec fn left_columns(a: Seq<Seq<int>>, count: int) -> Seq<Seq<int>> {
    Seq::new(a.len(), |i: int| a[i].subrange(0, count))
}

/// The sum of the squares of the first `n` entries of the column `v`.
pub open spec fn norm_sqrd(v: Seq<Seq<int>>, n: int) -> int
    decreases n,
{
    if n <= 0 {
        0
    } else {
        norm_sqrd(v, n - 1) + v[n - 1][0] * v[n - 1][0]
    }
}

/// The Kronecker product of `a` and `b`: every entry of `a` replaced by that
/// entry times `b`.
pub open spec fn kronecker(a: Seq<Seq<int>>, b: Seq<Seq<int>>) -> Seq<Seq<int>> {
    Seq::new(
        a.len() * b.len(),
        |i: int|
            Seq::new(
                (width(a) * width(b)) as nat,
                |j: int|
                    a[i / (b.len() as int)][j / width(b)] * b[i % (b.len() as int)][j % width(
                        b,
                    )],
            ),
    )
}

/// The transpose of `a`.
pub open spec fn transpose(a: Seq<Seq<int>>) -> Seq<Seq<int>> {
    Seq::new(width(a) as nat, |i: int| Seq::new(a.len(), |j: int| a[j][i]))
}

} // verus!
