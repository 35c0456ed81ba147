//! Facts about the matrix model that the contracts of the crate rest on.

use crate::math::model::{
    beside, congruent, difference, dot, is_matrix, is_proper, negation, product, residues, stacked,
    sum, unit, width,
};
use vstd::arithmetic::div_mod::{
    lemma_add_mod_noop, lemma_mod_twice, lemma_mul_mod_noop_left, lemma_mul_mod_noop_right,
    lemma_small_mod, lemma_sub_mod_noop,
};
use vstd::prelude::*;

verus! {

/// The difference of the residues of two matrices has the residues of their
/// difference.
pub proof fn lemma_residues_of_difference(x: Seq<Seq<int>>, y: Seq<Seq<int>>, q: int)
    requires
        q > 0,
        x.len() == y.len(),
        forall|i: int| 0 <= i < x.len() ==> (#[trigger] x[i]).len() == y[i].len(),
    ensures
        residues(difference(residues(x, q), residues(y, q)), q) == residues(difference(x, y), q),
{
    let left = residues(difference(residues(x, q), residues(y, q)), q);
    let right = residues(difference(x, y), q);
    assert forall|i: int| 0 <= i < left.len() implies #[trigger] left[i] =~= right[i] by {
        assert forall|j: int| 0 <= j < left[i].len() implies #[trigger] left[i][j]
            == right[i][j] by {
            lemma_sub_mod_noop(x[i][j], y[i][j], q);
        }
    }
}

/// The sum of the residues of two matrices has the residues of their sum.
pub proof fn lemma_residues_of_sum(x: Seq<Seq<int>>, y: Seq<Seq<int>>, q: int)
    requires
        q > 0,
        x.len() == y.len(),
        forall|i: int| 0 <= i < x.len() ==> (#[trigger] x[i]).len() == y[i].len(),
    ensures
        residues(sum(residues(x, q), residues(y, q)), q) == residues(sum(x, y), q),
{
    let left = residues(sum(residues(x, q), residues(y, q)), q);
    let right = residues(sum(x, y), q);
    assert forall|i: int| 0 <= i < left.len() implies #[trigger] left[i] =~= right[i] by {
        assert forall|j: int| 0 <= j < left[i].len() implies #[trigger] left[i][j]
            == right[i][j] by {
            lemma_add_mod_noop(x[i][j], y[i][j], q);
        }
    }
}

/// An inner product with `[x | y]` on the left and `r` on top of `s` on the
/// right, taken over the columns of `x` only, is the inner product of `x` and `r`.
pub proof fn lemma_dot_beside_stacked_left(
    x: Seq<Seq<int>>,
    y: Seq<Seq<int>>,
    r: Seq<Seq<int>>,
    s: Seq<Seq<int>>,
    i: int,
    j: int,
    t: int,
)
    requires
        0 <= i < x.len(),
        x.len() == y.len(),
        x[i].len() == r.len(),
        0 <= t <= r.len(),
    ensures
        dot(beside(x, y), stacked(r, s), i, j, t) == dot(x, r, i, j, t),
    decreases t,
{
    if t > 0 {
        lemma_dot_beside_stacked_left(x, y, r, s, i, j, t - 1);
    }
}

/// An inner product with `[x | y]` on the left and `r` on top of `s` on the
/// right splits into the inner product of `x` and `r` and that of `y` and `s`.
pub proof fn lemma_dot_beside_stacked(
    x: Seq<Seq<int>>,
    y: Seq<Seq<int>>,
    r: Seq<Seq<int>>,
    s: Seq<Seq<int>>,
    i: int,
    j: int,
    t: int,
)
    requires
        0 <= i < x.len(),
        x.len() == y.len(),
        x[i].len() == r.len(),
        y[i].len() == s.len(),
        0 <= t <= s.len(),
    ensures
        dot(beside(x, y), stacked(r, s), i, j, r.len() + t) == dot(x, r, i, j, r.len() as int)
            + dot(y, s, i, j, t),
    decreases t,
{
    if t == 0 {
        lemma_dot_beside_stacked_left(x, y, r, s, i, j, r.len() as int);
    } else {
        lemma_dot_beside_stacked(x, y, r, s, i, j, t - 1);
    }
}

/// The inner product of row `i` of `y` and column `j` of the identity, over the
/// first `t` terms, is `y[i][j]` once `t` has passed `j`, and zero before.
pub proof fn lemma_dot_unit(y: Seq<Seq<int>>, n: int, i: int, j: int, t: int)
    requires
        0 <= j < n,
        0 <= t <= n,
    ensures
        dot(y, unit(n), i, j, t) == (if j < t {
            y[i][j]
        } else {
            0
        }),
    decreases t,
{
    if t > 0 {
        lemma_dot_unit(y, n, i, j, t - 1);
    }
}

/// The inner product of row `i` of the identity and column `j` of `y`, over the
/// first `t` terms, is `y[i][j]` once `t` has passed `i`, and zero before.
pub proof fn lemma_unit_dot(y: Seq<Seq<int>>, n: int, i: int, j: int, t: int)
    requires
        0 <= i < n,
        0 <= t <= n,
    ensures
        dot(unit(n), y, i, j, t) == (if i < t {
            y[i][j]
        } else {
            0
        }),
    decreases t,
{
    if t > 0 {
        lemma_unit_dot(y, n, i, j, t - 1);
    }
}

/// An inner product of `t` terms, of factors bounded by `ba` and `bb`, is bounded
/// by `t * ba * bb`.
pub proof fn lemma_dot_bound(
    a: Seq<Seq<int>>,
    b: Seq<Seq<int>>,
    i: int,
    j: int,
    t: int,
    ba: int,
    bb: int,
)
    requires
        t >= 0,
        ba >= 0,
        bb >= 0,
        forall|u: int| 0 <= u < t ==> -ba <= #[trigger] a[i][u] <= ba,
        forall|u: int| 0 <= u < t ==> -bb <= (#[trigger] b[u])[j] <= bb,
    ensures
        -(t * (ba * bb)) <= dot(a, b, i, j, t) <= t * (ba * bb),
    decreases t,
{
    if t > 0 {
        lemma_dot_bound(a, b, i, j, t - 1, ba, bb);
        let x = a[i][t - 1];
        let y = b[t - 1][j];
        assert(-(ba * bb) <= x * y <= ba * bb) by (nonlinear_arith)
            requires
                -ba <= x <= ba,
                -bb <= y <= bb,
                ba >= 0,
                bb >= 0,
        ;
        assert(t * (ba * bb) == (t - 1) * (ba * bb) + ba * bb) by (nonlinear_arith);
    }
}

/// Taking residues twice is taking them once.
pub proof fn lemma_residues_twice(x: Seq<Seq<int>>, q: int)
    requires
        q > 0,
    ensures
        residues(residues(x, q), q) == residues(x, q),
{
    let left = residues(residues(x, q), q);
    let right = residues(x, q);
    assert forall|i: int| 0 <= i < left.len() implies #[trigger] left[i] =~= right[i] by {
        assert forall|j: int| 0 <= j < left[i].len() implies #[trigger] left[i][j]
            == right[i][j] by {
            lemma_mod_twice(x[i][j], q);
        }
    }
}

/// The identity times a matrix is that matrix.
pub proof fn lemma_unit_product(y: Seq<Seq<int>>, rows: int, cols: int)
    requires
        rows >= 1,
        cols >= 1,
        is_matrix(y, rows, cols),
    ensures
        product(unit(rows), y) == y,
{
    let p = product(unit(rows), y);
    assert forall|i: int| 0 <= i < p.len() implies #[trigger] p[i] =~= y[i] by {
        assert forall|j: int| 0 <= j < p[i].len() implies #[trigger] p[i][j] == y[i][j] by {
            lemma_unit_dot(y, rows, i, j, rows);
        }
    }
}

/// The sum over `u < p` of the inner product of row `i` of `a` and column `u` of
/// `b`, over `n` terms, times `c[u][j]`.
pub open spec fn dot_left_first(
    a: Seq<Seq<int>>,
    b: Seq<Seq<int>>,
    c: Seq<Seq<int>>,
    i: int,
    j: int,
    n: int,
    p: int,
) -> int
    decreases p,
{
    if p <= 0 {
        0
    } else {
        dot_left_first(a, b, c, i, j, n, p - 1) + dot(a, b, i, p - 1, n) * c[p - 1][j]
    }
}

/// The sum over `t < n` of `a[i][t]` times the inner product of row `t` of `b`
/// and column `j` of `c`, over `p` terms.
pub open spec fn dot_right_first(
    a: Seq<Seq<int>>,
    b: Seq<Seq<int>>,
    c: Seq<Seq<int>>,
    i: int,
    j: int,
    n: int,
    p: int,
) -> int
    decreases n,
{
    if n <= 0 {
        0
    } else {
        dot_right_first(a, b, c, i, j, n - 1, p) + a[i][n - 1] * dot(b, c, n - 1, j, p)
    }
}

/// One more term in the inner sums of `dot_left_first` adds `a[i][n - 1]` times
/// the inner product of row `n - 1` of `b` and column `j` of `c`.
proof fn lemma_left_first_step(
    a: Seq<Seq<int>>,
    b: Seq<Seq<int>>,
    c: Seq<Seq<int>>,
    i: int,
    j: int,
    n: int,
    p: int,
)
    requires
        n >= 1,
        p >= 0,
    ensures
        dot_left_first(a, b, c, i, j, n, p) == dot_left_first(a, b, c, i, j, n - 1, p) + a[i][n
            - 1] * dot(b, c, n - 1, j, p),
    decreases p,
{
    if p > 0 {
        lemma_left_first_step(a, b, c, i, j, n, p - 1);
        let x = a[i][n - 1];
        let y = b[n - 1][p - 1];
        let z = c[p - 1][j];
        let d = dot(a, b, i, p - 1, n - 1);
        let e = dot(b, c, n - 1, j, p - 1);
        assert((d + x * y) * z == d * z + x * (y * z)) by (nonlinear_arith);
        assert(x * (e + y * z) == x * e + x * (y * z)) by (nonlinear_arith);
    }
}

/// The two orders of summation give the same double sum.
pub proof fn lemma_sums_exchange(
    a: Seq<Seq<int>>,
    b: Seq<Seq<int>>,
    c: Seq<Seq<int>>,
    i: int,
    j: int,
    n: int,
    p: int,
)
    requires
        n >= 0,
        p >= 0,
    ensures
        dot_left_first(a, b, c, i, j, n, p) == dot_right_first(a, b, c, i, j, n, p),
    decreases n,
{
    if n > 0 {
        lemma_sums_exchange(a, b, c, i, j, n - 1, p);
        lemma_left_first_step(a, b, c, i, j, n, p);
    } else {
        lemma_left_first_zero(a, b, c, i, j, p);
    }
}

/// With empty inner sums, `dot_left_first` is zero.
proof fn lemma_left_first_zero(
    a: Seq<Seq<int>>,
    b: Seq<Seq<int>>,
    c: Seq<Seq<int>>,
    i: int,
    j: int,
    p: int,
)
    requires
        p >= 0,
    ensures
        dot_left_first(a, b, c, i, j, 0, p) == 0,
    decreases p,
{
    if p > 0 {
        lemma_left_first_zero(a, b, c, i, j, p - 1);
    }
}

/// The inner product of row `i` of `a * b` and column `j` of `c` is the double
/// sum with the sums over the columns of `a` inside.
proof fn lemma_dot_of_product_left(
    a: Seq<Seq<int>>,
    b: Seq<Seq<int>>,
    c: Seq<Seq<int>>,
    i: int,
    j: int,
    p: int,
)
    requires
        0 <= i < a.len(),
        0 <= p <= width(b),
    ensures
        dot(product(a, b), c, i, j, p) == dot_left_first(a, b, c, i, j, b.len() as int, p),
    decreases p,
{
    if p > 0 {
        lemma_dot_of_product_left(a, b, c, i, j, p - 1);
    }
}

/// The inner product of row `i` of `a` and column `j` of `b * c` is the double
/// sum with the sums over the rows of `c` inside.
proof fn lemma_dot_of_product_right(
    a: Seq<Seq<int>>,
    b: Seq<Seq<int>>,
    c: Seq<Seq<int>>,
    i: int,
    j: int,
    n: int,
)
    requires
        0 <= n <= b.len(),
        0 <= j < width(c),
    ensures
        dot(a, product(b, c), i, j, n) == dot_right_first(a, b, c, i, j, n, c.len() as int),
    decreases n,
{
    if n > 0 {
        lemma_dot_of_product_right(a, b, c, i, j, n - 1);
    }
}

/// The matrix product is associative: `(a * b) * c = a * (b * c)`.
pub proof fn lemma_product_associative(a: Seq<Seq<int>>, b: Seq<Seq<int>>, c: Seq<Seq<int>>)
    requires
        is_proper(b),
        is_proper(c),
        width(b) == c.len(),
    ensures
        product(product(a, b), c) == product(a, product(b, c)),
{
    let left = product(product(a, b), c);
    let right = product(a, product(b, c));
    assert forall|i: int| 0 <= i < left.len() implies #[trigger] left[i] =~= right[i] by {
        assert forall|j: int| 0 <= j < left[i].len() implies #[trigger] left[i][j]
            == right[i][j] by {
            lemma_dot_of_product_left(a, b, c, i, j, c.len() as int);
            lemma_dot_of_product_right(a, b, c, i, j, b.len() as int);
            lemma_sums_exchange(a, b, c, i, j, b.len() as int, c.len() as int);
        }
    }
}

/// Inner products of rows that agree modulo `q` with the same column agree
/// modulo `q`.
pub proof fn lemma_dot_congruent_left(
    a: Seq<Seq<int>>,
    other: Seq<Seq<int>>,
    b: Seq<Seq<int>>,
    i: int,
    j: int,
    n: int,
    q: int,
)
    requires
        q > 0,
        n >= 0,
        forall|t: int| 0 <= t < n ==> (#[trigger] a[i][t]) % q == other[i][t] % q,
    ensures
        dot(a, b, i, j, n) % q == dot(other, b, i, j, n) % q,
    decreases n,
{
    if n > 0 {
        lemma_dot_congruent_left(a, other, b, i, j, n - 1, q);
        let x = a[i][n - 1];
        let y = other[i][n - 1];
        let z = b[n - 1][j];
        lemma_mul_mod_noop_left(x, z, q);
        lemma_mul_mod_noop_left(y, z, q);
        lemma_add_mod_noop(dot(a, b, i, j, n - 1), x * z, q);
        lemma_add_mod_noop(dot(other, b, i, j, n - 1), y * z, q);
    }
}

/// Products of matrices that agree modulo `q` with the same matrix on the right
/// agree modulo `q`.
pub proof fn lemma_product_congruent_left(
    a: Seq<Seq<int>>,
    other: Seq<Seq<int>>,
    b: Seq<Seq<int>>,
    q: int,
)
    requires
        q > 0,
        a.len() == other.len(),
        forall|i: int| 0 <= i < a.len() ==> (#[trigger] a[i]).len() == b.len() && other[i].len()
            == b.len(),
        congruent(a, other, q),
    ensures
        congruent(product(a, b), product(other, b), q),
{
    let left = residues(product(a, b), q);
    let right = residues(product(other, b), q);
    assert forall|i: int| 0 <= i < left.len() implies #[trigger] left[i] =~= right[i] by {
        assert forall|j: int| 0 <= j < left[i].len() implies #[trigger] left[i][j]
            == right[i][j] by {
            assert forall|t: int| 0 <= t < b.len() implies (#[trigger] a[i][t]) % q
                == other[i][t] % q by {
                assert(residues(a, q)[i][t] == a[i][t] % q);
            }
            lemma_dot_congruent_left(a, other, b, i, j, b.len() as int, q);
        }
    }
    assert(left =~= right);
}

/// The inner product with a sum of rows is the sum of the inner products.
pub proof fn lemma_dot_sum_left(
    a: Seq<Seq<int>>,
    c: Seq<Seq<int>>,
    b: Seq<Seq<int>>,
    i: int,
    j: int,
    n: int,
)
    requires
        0 <= i < a.len(),
        0 <= n <= a[i].len(),
    ensures
        dot(sum(a, c), b, i, j, n) == dot(a, b, i, j, n) + dot(c, b, i, j, n),
    decreases n,
{
    if n > 0 {
        lemma_dot_sum_left(a, c, b, i, j, n - 1);
        assert((a[i][n - 1] + c[i][n - 1]) * b[n - 1][j] == a[i][n - 1] * b[n - 1][j] + c[i][n
            - 1] * b[n - 1][j]) by (nonlinear_arith);
    }
}

/// The inner product with a sum of columns is the sum of the inner products.
pub proof fn lemma_dot_sum_right(
    a: Seq<Seq<int>>,
    b: Seq<Seq<int>>,
    c: Seq<Seq<int>>,
    i: int,
    j: int,
    n: int,
)
    requires
        0 <= n <= b.len(),
        j >= 0,
        forall|t: int| 0 <= t < n ==> (#[trigger] b[t]).len() > j,
    ensures
        dot(a, sum(b, c), i, j, n) == dot(a, b, i, j, n) + dot(a, c, i, j, n),
    decreases n,
{
    if n > 0 {
        lemma_dot_sum_right(a, b, c, i, j, n - 1);
        assert(a[i][n - 1] * (b[n - 1][j] + c[n - 1][j]) == a[i][n - 1] * b[n - 1][j] + a[i][n
            - 1] * c[n - 1][j]) by (nonlinear_arith);
    }
}

/// The product distributes over a sum on the right: `a * (b + c) = a * b + a * c`.
pub proof fn lemma_product_sum_right(a: Seq<Seq<int>>, b: Seq<Seq<int>>, c: Seq<Seq<int>>)
    requires
        is_proper(b),
        is_proper(c),
        b.len() == c.len(),
        width(b) == width(c),
    ensures
        product(a, sum(b, c)) == sum(product(a, b), product(a, c)),
{
    let left = product(a, sum(b, c));
    let right = sum(product(a, b), product(a, c));
    assert forall|i: int| 0 <= i < left.len() implies #[trigger] left[i] =~= right[i] by {
        assert forall|j: int| 0 <= j < left[i].len() implies #[trigger] left[i][j]
            == right[i][j] by {
            lemma_dot_sum_right(a, b, c, i, j, b.len() as int);
        }
    }
}

/// The inner product with a difference of rows is the difference of the inner
/// products.
pub proof fn lemma_dot_difference_left(
    a: Seq<Seq<int>>,
    c: Seq<Seq<int>>,
    b: Seq<Seq<int>>,
    i: int,
    j: int,
    n: int,
)
    requires
        0 <= i < a.len(),
        0 <= n <= a[i].len(),
    ensures
        dot(difference(a, c), b, i, j, n) == dot(a, b, i, j, n) - dot(c, b, i, j, n),
    decreases n,
{
    if n > 0 {
        lemma_dot_difference_left(a, c, b, i, j, n - 1);
        assert((a[i][n - 1] - c[i][n - 1]) * b[n - 1][j] == a[i][n - 1] * b[n - 1][j] - c[i][n
            - 1] * b[n - 1][j]) by (nonlinear_arith);
    }
}

/// An inner product depends on the entries of one column only.
pub proof fn lemma_dot_same_column(
    a: Seq<Seq<int>>,
    b: Seq<Seq<int>>,
    other: Seq<Seq<int>>,
    i: int,
    j: int,
    k: int,
    n: int,
)
    requires
        n >= 0,
        forall|t: int| 0 <= t < n ==> (#[trigger] b[t])[j] == other[t][k],
    ensures
        dot(a, b, i, j, n) == dot(a, other, i, k, n),
    decreases n,
{
    if n > 0 {
        lemma_dot_same_column(a, b, other, i, j, k, n - 1);
    }
}

/// The inner product with a row of residues agrees modulo `q` with the inner
/// product with the row.
pub proof fn lemma_dot_residues_left(
    a: Seq<Seq<int>>,
    b: Seq<Seq<int>>,
    i: int,
    j: int,
    n: int,
    q: int,
)
    requires
        q > 0,
        0 <= i < a.len(),
        0 <= n <= a[i].len(),
    ensures
        dot(residues(a, q), b, i, j, n) % q == dot(a, b, i, j, n) % q,
{
    assert forall|t: int| 0 <= t < n implies (#[trigger] residues(a, q)[i][t]) % q == a[i][t]
        % q by {
        lemma_mod_twice(a[i][t], q);
    }
    lemma_dot_congruent_left(residues(a, q), a, b, i, j, n, q);
}

/// An inner product with a row of zeros is zero.
pub proof fn lemma_dot_zero_left(a: Seq<Seq<int>>, b: Seq<Seq<int>>, i: int, j: int, n: int)
    requires
        n >= 0,
        forall|t: int| 0 <= t < n ==> #[trigger] a[i][t] == 0,
    ensures
        dot(a, b, i, j, n) == 0,
    decreases n,
{
    if n > 0 {
        lemma_dot_zero_left(a, b, i, j, n - 1);
    }
}

/// The inner product with a negated column is the negated inner product.
pub proof fn lemma_dot_negation_right(a: Seq<Seq<int>>, b: Seq<Seq<int>>, i: int, j: int, n: int)
    requires
        0 <= n <= b.len(),
        j >= 0,
        forall|t: int| 0 <= t < n ==> (#[trigger] b[t]).len() > j,
    ensures
        dot(a, negation(b), i, j, n) == -dot(a, b, i, j, n),
    decreases n,
{
    if n > 0 {
        lemma_dot_negation_right(a, b, i, j, n - 1);
        assert(a[i][n - 1] * (-b[n - 1][j]) == -(a[i][n - 1] * b[n - 1][j])) by (nonlinear_arith);
    }
}

/// An inner product with a column of multiples of `q` is a multiple of `q`.
pub proof fn lemma_dot_multiples_right(
    a: Seq<Seq<int>>,
    b: Seq<Seq<int>>,
    i: int,
    j: int,
    n: int,
    q: int,
)
    requires
        q > 0,
        n >= 0,
        forall|t: int| 0 <= t < n ==> (#[trigger] b[t])[j] % q == 0,
    ensures
        dot(a, b, i, j, n) % q == 0,
    decreases n,
{
    lemma_small_mod(0, q as nat);
    if n > 0 {
        lemma_dot_multiples_right(a, b, i, j, n - 1, q);
        let x = a[i][n - 1];
        let y = b[n - 1][j];
        lemma_mul_mod_noop_right(x, y, q);
        lemma_add_mod_noop(dot(a, b, i, j, n - 1), x * y, q);
    }
}

} // verus!
