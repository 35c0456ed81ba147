//! Matrices of residues modulo `q`.

use crate::error::MathError;
use crate::math::arith::{add_mod, check_modulus, is_modulus, mul_add_mod, reduce, sub_mod};
use crate::math::mat_z::{lift, same_shape, MatZ};
use crate::math::model::{
    beside, difference, dot, entries_within, is_proper, left_columns, negation, product, residues,
    sum, unit, width,
};
use vstd::arithmetic::div_mod::{
    lemma_add_mod_noop, lemma_add_mod_noop_right, lemma_mul_mod_noop_right, lemma_small_mod,
};
use vstd::prelude::*;

verus! {

/// A matrix over the integers modulo `q`, with at least one row and one column.
///
/// Its view is the sequence of its rows, every entry given by its least
/// non-negative residue.
pub struct MatZq {
    modulus: u64,
    reps: MatZ,
}

impl View for MatZq {
    type V = Seq<Seq<int>>;

    closed spec fn view(&self) -> Seq<Seq<int>> {
        self.reps@
    }
}

/// One step of an inner product taken modulo `q`: the running residue `acc` of
/// `d` and the residue `em` of `e` give the residue of `d + a * e`.
pub proof fn lemma_dot_step(d: int, a: int, e: int, q: int, acc: int, em: int)
    requires
        q > 0,
        acc == d % q,
        em == e % q,
    ensures
        (acc + a * em) % q == (d + a * e) % q,
{
    lemma_add_mod_noop_right(acc, a * em, q);
    lemma_mul_mod_noop_right(a, e, q);
    lemma_add_mod_noop(d, a * e, q);
}

impl MatZq {
    #[verifier::type_invariant]
    spec fn inv(self) -> bool {
        &&& is_modulus(self.modulus as int)
        &&& is_proper(self.reps@)
        &&& entries_within(self.reps@, 0, self.modulus - 1)
    }

    /// The modulus `q`.
    pub closed spec fn q(&self) -> int {
        self.modulus as int
    }

    /// The residues of the entries of `m` modulo `q`.
    pub fn from_mat_z(m: &MatZ, q: u64) -> (out: Result<MatZq, MathError>)
        ensures
            out is Ok <==> is_modulus(q as int),
            out matches Ok(a) ==> a@ == residues(m@, q as int) && a.q() == q && is_proper(a@),
            out matches Err(e) ==> e == MathError::InvalidModulus,
    {
        if !check_modulus(q) {
            return Err(MathError::InvalidModulus);
        }
        let rows: usize = m.num_rows();
        let cols: usize = m.num_cols();
        let mut data: Vec<Vec<i64>> = Vec::new();
        let mut i: usize = 0;
        while i < rows
            invariant
                i <= rows,
                rows == m@.len(),
                cols == width(m@),
                is_proper(m@),
                is_modulus(q as int),
                data.len() == i,
                forall|r: int| 0 <= r < i ==> (#[trigger] data[r]).len() == cols,
                forall|r: int, c: int|
                    0 <= r < i && 0 <= c < cols ==> (#[trigger] data[r][c]) == m@[r][c] % (
                    q as int),
            decreases rows - i,
        {
            let mut row: Vec<i64> = Vec::new();
            let mut j: usize = 0;
            while j < cols
                invariant
                    j <= cols,
                    i < rows,
                    rows == m@.len(),
                    cols == width(m@),
                    is_proper(m@),
                    is_modulus(q as int),
                    row.len() == j,
                    forall|c: int|
                        0 <= c < j ==> (#[trigger] row[c]) == m@[i as int][c] % (q as int),
                decreases cols - j,
            {
                let r: u64 = reduce(m.get(i, j), q);
                row.push(r as i64);
                j += 1;
            }
            data.push(row);
            i += 1;
        }
        assert(lift(data@) =~~= residues(m@, q as int));
        let reps = MatZ::from_rectangular(data);
        Ok(MatZq { modulus: q, reps })
    }

    /// The modulus `q`.
    pub fn modulus(&self) -> (q: u64)
        ensures
            q == self.q(),
            is_modulus(q as int),
    {
        proof {
            use_type_invariant(self);
        }
        self.modulus
    }

    /// The number of rows.
    pub fn num_rows(&self) -> (r: usize)
        ensures
            r == self@.len(),
            is_proper(self@),
    {
        self.reps.num_rows()
    }

    /// The number of columns.
    pub fn num_cols(&self) -> (c: usize)
        ensures
            c == width(self@),
            is_proper(self@),
    {
        self.reps.num_cols()
    }

    /// The entry in row `i` and column `j`, as its least non-negative residue.
    pub fn get(&self, i: usize, j: usize) -> (x: u64)
        requires
            i < self@.len(),
            j < width(self@),
        ensures
            x == self@[i as int][j as int],
            x < self.q(),
    {
        proof {
            use_type_invariant(self);
        }
        self.reps.get(i, j) as u64
    }

    /// The matrix of least non-negative residues, as a matrix of integers.
    pub fn representatives(&self) -> (out: MatZ)
        ensures
            out@ == self@,
            is_proper(out@),
            entries_within(out@, 0, self.q() - 1),
    {
        proof {
            use_type_invariant(self);
        }
        self.reps.clone()
    }

    /// The `n` by `n` identity matrix modulo `q`.
    pub fn identity(n: usize, q: u64) -> (out: MatZq)
        requires
            n >= 1,
            is_modulus(q as int),
        ensures
            out@ == unit(n as int),
            out.q() == q,
            is_proper(out@),
    {
        let reps = MatZ::identity(n);
        MatZq { modulus: q, reps }
    }

    /// Tells whether `self` and `other` are the same matrix modulo the same number.
    pub fn equals(&self, other: &MatZq) -> (same: bool)
        ensures
            same <==> self@ == other@ && self.q() == other.q(),
    {
        self.modulus == other.modulus && self.reps.equals(&other.reps)
    }

    /// The product of `self` and the integer matrix `e`, modulo `q`.
    ///
    /// Fails when `self` has not as many columns as `e` has rows.
    pub fn mul_mat_z(&self, e: &MatZ) -> (out: Result<MatZq, MathError>)
        ensures
            out is Ok <==> width(self@) == e@.len(),
            out matches Ok(c) ==> c@ == residues(product(self@, e@), self.q()) && c.q()
                == self.q() && is_proper(c@),
            out matches Err(err) ==> err == MathError::MismatchingMatrixDimension,
    {
        proof {
            use_type_invariant(self);
        }
        let q: u64 = self.modulus;
        let rows: usize = self.reps.num_rows();
        let inner: usize = self.reps.num_cols();
        let cols: usize = e.num_cols();
        if e.num_rows() != inner {
            return Err(MathError::MismatchingMatrixDimension);
        }
        let ghost a = self@;
        let ghost b = e@;
        let mut data: Vec<Vec<i64>> = Vec::new();
        let mut i: usize = 0;
        while i < rows
            invariant
                i <= rows,
                a == self.reps@,
                b == e@,
                q == self.modulus,
                is_modulus(q as int),
                entries_within(a, 0, q - 1),
                rows == a.len(),
                inner == width(a),
                inner == b.len(),
                cols == width(b),
                is_proper(a),
                is_proper(b),
                data.len() == i,
                forall|r: int| 0 <= r < i ==> (#[trigger] data[r]).len() == cols,
                forall|r: int, c: int|
                    0 <= r < i && 0 <= c < cols ==> (#[trigger] data[r][c]) == dot(
                        a,
                        b,
                        r,
                        c,
                        inner as int,
                    ) % (q as int),
            decreases rows - i,
        {
            let mut row: Vec<i64> = Vec::new();
            let mut j: usize = 0;
            while j < cols
                invariant
                    j <= cols,
                    i < rows,
                    a == self.reps@,
                    b == e@,
                    q == self.modulus,
                    is_modulus(q as int),
                    entries_within(a, 0, q - 1),
                    rows == a.len(),
                    inner == width(a),
                    inner == b.len(),
                    cols == width(b),
                    is_proper(a),
                    is_proper(b),
                    row.len() == j,
                    forall|c: int|
                        0 <= c < j ==> (#[trigger] row[c]) == dot(a, b, i as int, c, inner as int)
                            % (q as int),
                decreases cols - j,
            {
                let mut acc: u64 = 0;
                let mut t: usize = 0;
                proof {
                    lemma_small_mod(0, q as nat);
                }
                while t < inner
                    invariant
                        t <= inner,
                        i < rows,
                        j < cols,
                        a == self.reps@,
                        b == e@,
                        q == self.modulus,
                        is_modulus(q as int),
                        entries_within(a, 0, q - 1),
                        rows == a.len(),
                        inner == width(a),
                        inner == b.len(),
                        cols == width(b),
                        is_proper(a),
                        is_proper(b),
                        acc < q,
                        acc == dot(a, b, i as int, j as int, t as int) % (q as int),
                    decreases inner - t,
                {
                    let x: i64 = self.reps.get(i, t);
                    let y: u64 = reduce(e.get(t, j), q);
                    proof {
                        lemma_dot_step(
                            dot(a, b, i as int, j as int, t as int),
                            x as int,
                            b[t as int][j as int],
                            q as int,
                            acc as int,
                            y as int,
                        );
                    }
                    acc = mul_add_mod(acc, x as u64, y, q);
                    t += 1;
                }
                row.push(acc as i64);
                j += 1;
            }
            data.push(row);
            i += 1;
        }
        assert(lift(data@) =~~= residues(product(a, b), q as int));
        let reps = MatZ::from_rectangular(data);
        Ok(MatZq { modulus: q, reps })
    }

    /// The entrywise sum of `self` and `other`, modulo `q`.
    ///
    /// Fails when the shapes or the moduli differ.
    pub fn add(&self, other: &MatZq) -> (out: Result<MatZq, MathError>)
        ensures
            out is Ok <==> same_shape(self@, other@) && self.q() == other.q(),
            out matches Ok(c) ==> c@ == residues(sum(self@, other@), self.q()) && c.q()
                == self.q() && is_proper(c@),
            out matches Err(err) ==> err == (if self.q() != other.q() {
                MathError::MismatchingModulus
            } else {
                MathError::MismatchingMatrixDimension
            }),
    {
        proof {
            use_type_invariant(self);
            use_type_invariant(other);
        }
        let q: u64 = self.modulus;
        if other.modulus != q {
            return Err(MathError::MismatchingModulus);
        }
        let rows: usize = self.reps.num_rows();
        let cols: usize = self.reps.num_cols();
        if other.reps.num_rows() != rows || other.reps.num_cols() != cols {
            return Err(MathError::MismatchingMatrixDimension);
        }
        let ghost a = self@;
        let ghost b = other@;
        let mut data: Vec<Vec<i64>> = Vec::new();
        let mut i: usize = 0;
        while i < rows
            invariant
                i <= rows,
                a == self.reps@,
                b == other.reps@,
                is_modulus(q as int),
                entries_within(a, 0, q - 1),
                entries_within(b, 0, q - 1),
                rows == a.len(),
                rows == b.len(),
                cols == width(a),
                cols == width(b),
                is_proper(a),
                is_proper(b),
                data.len() == i,
                forall|r: int| 0 <= r < i ==> (#[trigger] data[r]).len() == cols,
                forall|r: int, c: int|
                    0 <= r < i && 0 <= c < cols ==> (#[trigger] data[r][c]) == (a[r][c] +
                        b[r][c]) % (q as int),
            decreases rows - i,
        {
            let mut row: Vec<i64> = Vec::new();
            let mut j: usize = 0;
            while j < cols
                invariant
                    j <= cols,
                    i < rows,
                    a == self.reps@,
                    b == other.reps@,
                    is_modulus(q as int),
                    entries_within(a, 0, q - 1),
                    entries_within(b, 0, q - 1),
                    rows == a.len(),
                    rows == b.len(),
                    cols == width(a),
                    cols == width(b),
                    is_proper(a),
                    is_proper(b),
                    row.len() == j,
                    forall|c: int|
                        0 <= c < j ==> (#[trigger] row[c]) == (a[i as int][c] +
                            b[i as int][c]) % (q as int),
                decreases cols - j,
            {
                let x: i64 = self.reps.get(i, j);
                let y: i64 = other.reps.get(i, j);
                let z: u64 = add_mod(x as u64, y as u64, q);
                row.push(z as i64);
                j += 1;
            }
            data.push(row);
            i += 1;
        }
        assert(lift(data@) =~~= residues(sum(a, b), q as int));
        let reps = MatZ::from_rectangular(data);
        Ok(MatZq { modulus: q, reps })
    }

    /// The entrywise difference of `self` and `other`, modulo `q`.
    ///
    /// Fails when the shapes or the moduli differ.
    pub fn sub(&self, other: &MatZq) -> (out: Result<MatZq, MathError>)
        ensures
            out is Ok <==> same_shape(self@, other@) && self.q() == other.q(),
            out matches Ok(c) ==> c@ == residues(difference(self@, other@), self.q()) && c.q()
                == self.q() && is_proper(c@),
            out matches Err(err) ==> err == (if self.q() != other.q() {
                MathError::MismatchingModulus
            } else {
                MathError::MismatchingMatrixDimension
            }),
    {
        proof {
            use_type_invariant(self);
            use_type_invariant(other);
        }
        let q: u64 = self.modulus;
        if other.modulus != q {
            return Err(MathError::MismatchingModulus);
        }
        let rows: usize = self.reps.num_rows();
        let cols: usize = self.reps.num_cols();
        if other.reps.num_rows() != rows || other.reps.num_cols() != cols {
            return Err(MathError::MismatchingMatrixDimension);
        }
        let ghost a = self@;
        let ghost b = other@;
        let mut data: Vec<Vec<i64>> = Vec::new();
        let mut i: usize = 0;
        while i < rows
            invariant
                i <= rows,
                a == self.reps@,
                b == other.reps@,
                is_modulus(q as int),
                entries_within(a, 0, q - 1),
                entries_within(b, 0, q - 1),
                rows == a.len(),
                rows == b.len(),
                cols == width(a),
                cols == width(b),
                is_proper(a),
                is_proper(b),
                data.len() == i,
                forall|r: int| 0 <= r < i ==> (#[trigger] data[r]).len() == cols,
                forall|r: int, c: int|
                    0 <= r < i && 0 <= c < cols ==> (#[trigger] data[r][c]) == (a[r][c] -
                        b[r][c]) % (q as int),
            decreases rows - i,
        {
            let mut row: Vec<i64> = Vec::new();
            let mut j: usize = 0;
            while j < cols
                invariant
                    j <= cols,
                    i < rows,
                    a == self.reps@,
                    b == other.reps@,
                    is_modulus(q as int),
                    entries_within(a, 0, q - 1),
                    entries_within(b, 0, q - 1),
                    rows == a.len(),
                    rows == b.len(),
                    cols == width(a),
                    cols == width(b),
                    is_proper(a),
                    is_proper(b),
                    row.len() == j,
                    forall|c: int|
                        0 <= c < j ==> (#[trigger] row[c]) == (a[i as int][c] -
                            b[i as int][c]) % (q as int),
                decreases cols - j,
            {
                let x: i64 = self.reps.get(i, j);
                let y: i64 = other.reps.get(i, j);
                let z: u64 = sub_mod(x as u64, y as u64, q);
                row.push(z as i64);
                j += 1;
            }
            data.push(row);
            i += 1;
        }
        assert(lift(data@) =~~= residues(difference(a, b), q as int));
        let reps = MatZ::from_rectangular(data);
        Ok(MatZq { modulus: q, reps })
    }

    /// The first `count` columns of `self`.
    pub fn left_columns(&self, count: usize) -> (out: MatZq)
        requires
            1 <= count <= width(self@),
        ensures
            out@ == left_columns(self@, count as int),
            out.q() == self.q(),
            is_proper(out@),
    {
        proof {
            use_type_invariant(self);
        }
        let rows: usize = self.reps.num_rows();
        let ghost a = self@;
        let mut data: Vec<Vec<i64>> = Vec::new();
        let mut i: usize = 0;
        while i < rows
            invariant
                i <= rows,
                a == self.reps@,
                rows == a.len(),
                1 <= count <= width(a),
                is_proper(a),
                data.len() == i,
                forall|r: int| 0 <= r < i ==> (#[trigger] data[r]).len() == count,
                forall|r: int, c: int|
                    0 <= r < i && 0 <= c < count ==> (#[trigger] data[r][c]) == a[r][c],
            decreases rows - i,
        {
            let mut row: Vec<i64> = Vec::new();
            let mut j: usize = 0;
            while j < count
                invariant
                    j <= count,
                    i < rows,
                    a == self.reps@,
                    rows == a.len(),
                    1 <= count <= width(a),
                    is_proper(a),
                    row.len() == j,
                    forall|c: int| 0 <= c < j ==> (#[trigger] row[c]) == a[i as int][c],
                decreases count - j,
            {
                row.push(self.reps.get(i, j));
                j += 1;
            }
            data.push(row);
            i += 1;
        }
        assert(lift(data@) =~~= left_columns(a, count as int));
        let reps = MatZ::from_rectangular(data);
        MatZq { modulus: self.modulus, reps }
    }

    /// The matrix with every entry negated, modulo `q`.
    pub fn neg(&self) -> (out: MatZq)
        ensures
            out@ == residues(negation(self@), self.q()),
            out.q() == self.q(),
            is_proper(out@),
    {
        proof {
            use_type_invariant(self);
        }
        let q: u64 = self.modulus;
        let rows: usize = self.reps.num_rows();
        let cols: usize = self.reps.num_cols();
        let ghost a = self@;
        let mut data: Vec<Vec<i64>> = Vec::new();
        let mut i: usize = 0;
        while i < rows
            invariant
                i <= rows,
                a == self.reps@,
                is_modulus(q as int),
                entries_within(a, 0, q - 1),
                rows == a.len(),
                cols == width(a),
                is_proper(a),
                data.len() == i,
                forall|r: int| 0 <= r < i ==> (#[trigger] data[r]).len() == cols,
                forall|r: int, c: int|
                    0 <= r < i && 0 <= c < cols ==> (#[trigger] data[r][c]) == (-a[r][c]) % (
                    q as int),
            decreases rows - i,
        {
            let mut row: Vec<i64> = Vec::new();
            let mut j: usize = 0;
            while j < cols
                invariant
                    j <= cols,
                    i < rows,
                    a == self.reps@,
                    is_modulus(q as int),
                    entries_within(a, 0, q - 1),
                    rows == a.len(),
                    cols == width(a),
                    is_proper(a),
                    row.len() == j,
                    forall|c: int|
                        0 <= c < j ==> (#[trigger] row[c]) == (-a[i as int][c]) % (q as int),
                decreases cols - j,
            {
                let x: i64 = self.reps.get(i, j);
                let z: u64 = sub_mod(0, x as u64, q);
                row.push(z as i64);
                j += 1;
            }
            data.push(row);
            i += 1;
        }
        assert(lift(data@) =~~= residues(negation(a), q as int));
        let reps = MatZ::from_rectangular(data);
        MatZq { modulus: q, reps }
    }

    /// The product of `self` and `other`, modulo `q`.
    ///
    /// Fails when the moduli differ, and when `self` has not as many columns as
    /// `other` has rows.
    pub fn mul(&self, other: &MatZq) -> (out: Result<MatZq, MathError>)
        ensures
            out is Ok <==> width(self@) == other@.len() && self.q() == other.q(),
            out matches Ok(c) ==> c@ == residues(product(self@, other@), self.q()) && c.q()
                == self.q() && is_proper(c@),
            out matches Err(err) ==> err == (if self.q() != other.q() {
                MathError::MismatchingModulus
            } else {
                MathError::MismatchingMatrixDimension
            }),
    {
        if other.modulus != self.modulus {
            return Err(MathError::MismatchingModulus);
        }
        self.mul_mat_z(&other.reps)
    }

    /// `self` and `other` side by side.
    ///
    /// Fails when the moduli or the heights differ.
    pub fn concat_horizontal(&self, other: &MatZq) -> (out: Result<MatZq, MathError>)
        ensures
            out is Ok <==> self@.len() == other@.len() && self.q() == other.q(),
            out matches Ok(c) ==> c@ == beside(self@, other@) && c.q() == self.q() && is_proper(
                c@,
            ),
            out matches Err(err) ==> err == (if self.q() != other.q() {
                MathError::MismatchingModulus
            } else {
                MathError::MismatchingMatrixDimension
            }),
    {
        proof {
            use_type_invariant(self);
            use_type_invariant(other);
        }
        if other.modulus != self.modulus {
            return Err(MathError::MismatchingModulus);
        }
        match self.reps.concat_horizontal(&other.reps) {
            Ok(reps) => {
                Ok(MatZq { modulus: self.modulus, reps })
            },
            Err(e) => Err(e),
        }
    }
}

impl Clone for MatZq {
    fn clone(&self) -> (out: Self)
        ensures
            out@ == self@,
            out.q() == self.q(),
    {
        proof {
            use_type_invariant(self);
        }
        MatZq { modulus: self.modulus, reps: self.reps.clone() }
    }
}

} // verus!
