//! Matrices of machine integers.

use crate::error::MathError;
use crate::math::model::{
    beside, dot, entries_within, is_proper, negation, product, stacked, sum, unit, width, zeros,
};
use vstd::prelude::*;

verus! {

/// The integers held by a row of machine integers.
pub open spec fn ints(row: Seq<i64>) -> Seq<int> {
    Seq::new(row.len(), |j: int| row[j] as int)
}

/// The integer matrix held by a vector of rows.
pub open spec fn lift(rows: Seq<Vec<i64>>) -> Seq<Seq<int>> {
    Seq::new(rows.len(), |i: int| ints(rows[i]@))
}

/// There is at least one row, the first row is not empty, and all rows are as
/// long as the first.
pub open spec fn rectangular(rows: Seq<Vec<i64>>) -> bool {
    &&& rows.len() >= 1
    &&& rows[0].len() >= 1
    &&& forall|i: int| 0 <= i < rows.len() ==> (#[trigger] rows[i]).len() == rows[0].len()
}

/// A matrix over the integers with at least one row and one column.
///
/// Its view is the sequence of its rows.
pub struct MatZ {
    rows: Vec<Vec<i64>>,
}

impl View for MatZ {
    type V = Seq<Seq<int>>;

    closed spec fn view(&self) -> Seq<Seq<int>> {
        lift(self.rows@)
    }
}

impl MatZ {
    #[verifier::type_invariant]
    spec fn inv(self) -> bool {
        rectangular(self.rows@)
    }

    /// Builds a matrix from its rows. The rows must be rectangular.
    pub fn from_rows(rows: Vec<Vec<i64>>) -> (out: Option<MatZ>)
        ensures
            out is Some <==> rectangular(rows@),
            out matches Some(m) ==> m@ == lift(rows@) && is_proper(m@),
    {
        if rows.len() == 0 || rows[0].len() == 0 {
            return None;
        }
        let cols: usize = rows[0].len();
        let mut i: usize = 1;
        while i < rows.len()
            invariant
                1 <= i <= rows.len(),
                cols == rows[0].len(),
                cols >= 1,
                forall|t: int| 0 <= t < i ==> (#[trigger] rows[t]).len() == cols,
            decreases rows.len() - i,
        {
            if rows[i].len() != cols {
                return None;
            }
            i += 1;
        }
        Some(MatZ { rows })
    }

    /// Builds a matrix from rows that are known to be rectangular.
    pub fn from_rectangular(rows: Vec<Vec<i64>>) -> (out: MatZ)
        requires
            rectangular(rows@),
        ensures
            out@ == lift(rows@),
            is_proper(out@),
    {
        MatZ { rows }
    }

    /// The rows of the matrix.
    pub fn to_rows(&self) -> (out: Vec<Vec<i64>>)
        ensures
            rectangular(out@),
            lift(out@) == self@,
    {
        proof {
            use_type_invariant(self);
        }
        let mut out: Vec<Vec<i64>> = Vec::new();
        let mut i: usize = 0;
        while i < self.rows.len()
            invariant
                i <= self.rows.len(),
                out.len() == i,
                forall|t: int| 0 <= t < i ==> (#[trigger] out[t])@ == self.rows[t]@,
            decreases self.rows.len() - i,
        {
            let row: Vec<i64> = self.rows[i].clone();
            out.push(row);
            i += 1;
        }
        out
    }

    /// The number of rows.
    pub fn num_rows(&self) -> (r: usize)
        ensures
            r == self@.len(),
            is_proper(self@),
    {
        proof {
            use_type_invariant(self);
        }
        self.rows.len()
    }

    /// The number of columns.
    pub fn num_cols(&self) -> (c: usize)
        ensures
            c == width(self@),
            is_proper(self@),
    {
        proof {
            use_type_invariant(self);
        }
        self.rows[0].len()
    }

    /// The entry in row `i` and column `j`.
    pub fn get(&self, i: usize, j: usize) -> (x: i64)
        requires
            i < self@.len(),
            j < width(self@),
        ensures
            x == self@[i as int][j as int],
    {
        proof {
            use_type_invariant(self);
        }
        self.rows[i][j]
    }

    /// The `rows` by `cols` matrix of zeros.
    pub fn zero(rows: usize, cols: usize) -> (out: MatZ)
        requires
            rows >= 1,
            cols >= 1,
        ensures
            out@ == zeros(rows as int, cols as int),
            is_proper(out@),
    {
        let mut data: Vec<Vec<i64>> = Vec::new();
        let mut i: usize = 0;
        while i < rows
            invariant
                i <= rows,
                data.len() == i,
                forall|t: int|
                    0 <= t < i ==> ints((#[trigger] data[t])@) == zeros(1, cols as int)[0],
                forall|t: int| 0 <= t < i ==> (#[trigger] data[t]).len() == cols,
            decreases rows - i,
        {
            let mut row: Vec<i64> = Vec::new();
            let mut j: usize = 0;
            while j < cols
                invariant
                    j <= cols,
                    row.len() == j,
                    forall|t: int| 0 <= t < j ==> row[t] == 0,
                decreases cols - j,
            {
                row.push(0);
                j += 1;
            }
            data.push(row);
            i += 1;
        }
        MatZ { rows: data }
    }

    /// The `n` by `n` identity matrix.
    pub fn identity(n: usize) -> (out: MatZ)
        requires
            n >= 1,
        ensures
            out@ == unit(n as int),
            is_proper(out@),
    {
        let mut data: Vec<Vec<i64>> = Vec::new();
        let mut i: usize = 0;
        while i < n
            invariant
                i <= n,
                data.len() == i,
                forall|t: int| 0 <= t < i ==> ints((#[trigger] data[t])@) == unit(n as int)[t],
                forall|t: int| 0 <= t < i ==> (#[trigger] data[t]).len() == n,
            decreases n - i,
        {
            let mut row: Vec<i64> = Vec::new();
            let mut j: usize = 0;
            while j < n
                invariant
                    j <= n,
                    i < n,
                    row.len() == j,
                    forall|t: int|
                        0 <= t < j ==> row[t] == (if i as int == t {
                            1int
                        } else {
                            0int
                        }),
                decreases n - j,
            {
                row.push(if i == j { 1 } else { 0 });
                j += 1;
            }
            data.push(row);
            i += 1;
        }
        MatZ { rows: data }
    }

    /// Tells whether the matrix has a single column.
    pub fn is_column_vector(&self) -> (yes: bool)
        ensures
            yes <==> width(self@) == 1,
    {
        self.num_cols() == 1
    }

    /// Tells whether `self` and `other` are the same matrix.
    pub fn equals(&self, other: &MatZ) -> (same: bool)
        ensures
            same <==> self@ == other@,
    {
        proof {
            use_type_invariant(self);
            use_type_invariant(other);
        }
        let rows: usize = self.rows.len();
        let cols: usize = self.rows[0].len();
        if other.rows.len() != rows || other.rows[0].len() != cols {
            assert(self@ != other@) by {
                if self@ == other@ {
                    assert(self@.len() == other@.len());
                    assert(self@[0].len() == other@[0].len());
                }
            }
            return false;
        }
        let mut i: usize = 0;
        while i < rows
            invariant
                i <= rows,
                rows == self.rows.len(),
                rows == other.rows.len(),
                cols == self.rows[0].len(),
                rectangular(self.rows@),
                rectangular(other.rows@),
                cols == other.rows[0].len(),
                forall|t: int|
                    0 <= t < i ==> ints(#[trigger] self.rows[t]@) == ints(other.rows[t]@),
            decreases rows - i,
        {
            let mut j: usize = 0;
            while j < cols
                invariant
                    j <= cols,
                    i < rows,
                    rows == self.rows.len(),
                    rows == other.rows.len(),
                    cols == self.rows[i as int].len(),
                    cols == other.rows[i as int].len(),
                    forall|t: int| 0 <= t < j ==> self.rows[i as int][t] == other.rows[i as int][t],
                decreases cols - j,
            {
                if self.rows[i][j] != other.rows[i][j] {
                    assert(self@ != other@) by {
                        if self@ == other@ {
                            assert(self@[i as int][j as int] == other@[i as int][j as int]);
                        }
                    }
                    return false;
                }
                j += 1;
            }
            i += 1;
        }
        assert(self@ =~= other@);
        true
    }

    /// The entrywise sum of `self` and `other`.
    ///
    /// Fails when the shapes differ, and when an entry of the sum does not fit.
    pub fn add(&self, other: &MatZ) -> (out: Result<MatZ, MathError>)
        ensures
            out matches Ok(c) ==> c@ == sum(self@, other@) && is_proper(c@),
            out is Ok <==> same_shape(self@, other@) && sum_fits(self@, other@),
            out matches Err(e) ==> e == (if same_shape(self@, other@) {
                MathError::Overflow
            } else {
                MathError::MismatchingMatrixDimension
            }),
    {
        proof {
            use_type_invariant(self);
            use_type_invariant(other);
        }
        let rows: usize = self.rows.len();
        let cols: usize = self.rows[0].len();
        if other.rows.len() != rows || other.rows[0].len() != cols {
            return Err(MathError::MismatchingMatrixDimension);
        }
        let mut data: Vec<Vec<i64>> = Vec::new();
        let mut i: usize = 0;
        while i < rows
            invariant
                i <= rows,
                rows == self.rows.len(),
                rows == other.rows.len(),
                cols == self.rows[0].len(),
                cols == other.rows[0].len(),
                rectangular(self.rows@),
                rectangular(other.rows@),
                same_shape(self@, other@),
                data.len() == i,
                forall|t: int| 0 <= t < i ==> (#[trigger] data[t]).len() == cols,
                forall|t: int, u: int|
                    0 <= t < i && 0 <= u < cols ==> (#[trigger] data[t][u]) == self@[t][u]
                        + other@[t][u],
            decreases rows - i,
        {
            let mut row: Vec<i64> = Vec::new();
            let mut j: usize = 0;
            while j < cols
                invariant
                    j <= cols,
                    i < rows,
                    rows == self.rows.len(),
                    rows == other.rows.len(),
                    cols == self.rows[i as int].len(),
                    cols == other.rows[i as int].len(),
                    same_shape(self@, other@),
                    row.len() == j,
                    forall|u: int|
                        0 <= u < j ==> (#[trigger] row[u]) == self@[i as int][u]
                            + other@[i as int][u],
                decreases cols - j,
            {
                let x: i64 = self.rows[i][j];
                let y: i64 = other.rows[i][j];
                match x.checked_add(y) {
                    Some(z) => {
                        row.push(z);
                    },
                    None => {
                        assert(!fits(sum(self@, other@)[i as int][j as int]));
                        return Err(MathError::Overflow);
                    },
                }
                j += 1;
            }
            data.push(row);
            i += 1;
        }
        assert(lift(data@) =~~= sum(self@, other@));
        Ok(MatZ { rows: data })
    }

    /// The matrix product of `self` and `other`.
    ///
    /// Fails when `self` has not as many columns as `other` has rows, and when one
    /// of the sums that make up an entry leaves the range of the machine integers.
    pub fn mul(&self, other: &MatZ) -> (out: Result<MatZ, MathError>)
        ensures
            out is Ok <==> width(self@) == other@.len() && product_fits(self@, other@),
            out matches Ok(c) ==> c@ == product(self@, other@) && is_proper(c@),
            out matches Err(e) ==> e == (if width(self@) == other@.len() {
                MathError::Overflow
            } else {
                MathError::MismatchingMatrixDimension
            }),
    {
        proof {
            use_type_invariant(self);
            use_type_invariant(other);
        }
        let rows: usize = self.rows.len();
        let inner: usize = self.rows[0].len();
        let cols: usize = other.rows[0].len();
        if other.rows.len() != inner {
            return Err(MathError::MismatchingMatrixDimension);
        }
        let ghost a = self@;
        let ghost b = other@;
        let mut data: Vec<Vec<i64>> = Vec::new();
        let mut i: usize = 0;
        while i < rows
            invariant
                i <= rows,
                a == self@,
                b == other@,
                rows == self.rows.len(),
                inner == other.rows.len(),
                inner == self.rows[0].len(),
                cols == other.rows[0].len(),
                rectangular(self.rows@),
                rectangular(other.rows@),
                data.len() == i,
                forall|r: int| 0 <= r < i ==> (#[trigger] data[r]).len() == cols,
                forall|r: int, c: int|
                    0 <= r < i && 0 <= c < cols ==> (#[trigger] data[r][c]) == dot(
                        a,
                        b,
                        r,
                        c,
                        inner as int,
                    ),
                forall|r: int, c: int, t: int|
                    0 <= r < i && 0 <= c < cols && 0 <= t <= inner ==> fits(
                        #[trigger] dot(a, b, r, c, t),
                    ),
            decreases rows - i,
        {
            let mut row: Vec<i64> = Vec::new();
            let mut j: usize = 0;
            while j < cols
                invariant
                    j <= cols,
                    i < rows,
                    a == self@,
                    b == other@,
                    rows == self.rows.len(),
                    inner == other.rows.len(),
                    inner == self.rows[0].len(),
                    cols == other.rows[0].len(),
                    rectangular(self.rows@),
                    rectangular(other.rows@),
                    row.len() == j,
                    forall|c: int|
                        0 <= c < j ==> (#[trigger] row[c]) == dot(a, b, i as int, c, inner as int),
                    forall|c: int, t: int|
                        0 <= c < j && 0 <= t <= inner ==> fits(
                            #[trigger] dot(a, b, i as int, c, t),
                        ),
                decreases cols - j,
            {
                let mut acc: i64 = 0;
                let mut t: usize = 0;
                while t < inner
                    invariant
                        t <= inner,
                        i < rows,
                        j < cols,
                        a == self@,
                        b == other@,
                        rows == self.rows.len(),
                        inner == other.rows.len(),
                        inner == self.rows[0].len(),
                        cols == other.rows[0].len(),
                        rectangular(self.rows@),
                        rectangular(other.rows@),
                        acc == dot(a, b, i as int, j as int, t as int),
                        forall|u: int|
                            0 <= u <= t ==> fits(#[trigger] dot(a, b, i as int, j as int, u)),
                    decreases inner - t,
                {
                    let x: i64 = self.rows[i][t];
                    let y: i64 = other.rows[t][j];
                    assert(-0x4000_0000_0000_0000_0000_0000_0000_0000 <= x * y
                        <= 0x4000_0000_0000_0000_0000_0000_0000_0000) by (nonlinear_arith)
                        requires
                            -0x8000_0000_0000_0000 <= x <= 0x8000_0000_0000_0000,
                            -0x8000_0000_0000_0000 <= y <= 0x8000_0000_0000_0000,
                    ;
                    let wide: i128 = (acc as i128) + (x as i128) * (y as i128);
                    assert(wide == dot(a, b, i as int, j as int, t + 1));
                    if wide < (i64::MIN as i128) || wide > (i64::MAX as i128) {
                        return Err(MathError::Overflow);
                    }
                    acc = wide as i64;
                    t += 1;
                }
                row.push(acc);
                j += 1;
            }
            data.push(row);
            i += 1;
        }
        assert(lift(data@) =~~= product(a, b));
        Ok(MatZ { rows: data })
    }

    /// The matrix with every entry negated.
    ///
    /// Fails when an entry is the least machine integer, which has no negative.
    pub fn neg(&self) -> (out: Result<MatZ, MathError>)
        ensures
            out is Ok <==> all_fit(negation(self@)),
            out matches Ok(c) ==> c@ == negation(self@) && is_proper(c@),
            out matches Err(e) ==> e == MathError::Overflow,
    {
        proof {
            use_type_invariant(self);
        }
        let rows: usize = self.rows.len();
        let cols: usize = self.rows[0].len();
        let ghost a = self@;
        let mut data: Vec<Vec<i64>> = Vec::new();
        let mut i: usize = 0;
        while i < rows
            invariant
                i <= rows,
                a == self@,
                rows == self.rows.len(),
                cols == self.rows[0].len(),
                rectangular(self.rows@),
                data.len() == i,
                forall|t: int| 0 <= t < i ==> (#[trigger] data[t]).len() == cols,
                forall|t: int, u: int|
                    0 <= t < i && 0 <= u < cols ==> (#[trigger] data[t][u]) == -a[t][u],
            decreases rows - i,
        {
            let mut row: Vec<i64> = Vec::new();
            let mut j: usize = 0;
            while j < cols
                invariant
                    j <= cols,
                    i < rows,
                    a == self@,
                    rows == self.rows.len(),
                    cols == self.rows[i as int].len(),
                    row.len() == j,
                    forall|u: int| 0 <= u < j ==> (#[trigger] row[u]) == -a[i as int][u],
                decreases cols - j,
            {
                let x: i64 = self.rows[i][j];
                if x == i64::MIN {
                    assert(!fits(negation(a)[i as int][j as int]));
                    return Err(MathError::Overflow);
                }
                row.push(-x);
                j += 1;
            }
            data.push(row);
            i += 1;
        }
        assert(lift(data@) =~~= negation(a));
        Ok(MatZ { rows: data })
    }

    /// `self` on top of `other`. Fails when the widths differ.
    pub fn concat_vertical(&self, other: &MatZ) -> (out: Result<MatZ, MathError>)
        ensures
            out is Ok <==> width(self@) == width(other@),
            out matches Ok(c) ==> c@ == stacked(self@, other@) && is_proper(c@),
            out matches Err(e) ==> e == MathError::MismatchingMatrixDimension,
    {
        proof {
            use_type_invariant(self);
            use_type_invariant(other);
        }
        if self.rows[0].len() != other.rows[0].len() {
            return Err(MathError::MismatchingMatrixDimension);
        }
        let mut data: Vec<Vec<i64>> = Vec::new();
        let mut i: usize = 0;
        while i < self.rows.len()
            invariant
                i <= self.rows.len(),
                data.len() == i,
                forall|t: int| 0 <= t < i ==> (#[trigger] data[t])@ == self.rows[t]@,
            decreases self.rows.len() - i,
        {
            data.push(self.rows[i].clone());
            i += 1;
        }
        let mut k: usize = 0;
        while k < other.rows.len()
            invariant
                k <= other.rows.len(),
                data.len() == self.rows.len() + k,
                forall|t: int| 0 <= t < self.rows.len() ==> (#[trigger] data[t])@ == self.rows[t]@,
                forall|t: int|
                    0 <= t < k ==> (#[trigger] data[self.rows.len() + t])@ == other.rows[t]@,
            decreases other.rows.len() - k,
        {
            data.push(other.rows[k].clone());
            k += 1;
        }
        proof {
            let n = self.rows.len() as int;
            assert forall|t: int| 0 <= t < data.len() implies (#[trigger] data[t]).len()
                == data[0].len() by {
                if t >= n {
                    assert(data[n + (t - n)]@ == other.rows[t - n]@);
                }
            }
            assert forall|t: int| 0 <= t < data.len() implies (#[trigger] lift(data@)[t])
                == stacked(self@, other@)[t] by {
                if t >= n {
                    assert(data[n + (t - n)]@ == other.rows[t - n]@);
                }
            }
        }
        Ok(MatZ { rows: data })
    }

    /// `self` and `other` side by side. Fails when the heights differ.
    pub fn concat_horizontal(&self, other: &MatZ) -> (out: Result<MatZ, MathError>)
        ensures
            out is Ok <==> self@.len() == other@.len(),
            out matches Ok(c) ==> c@ == beside(self@, other@) && is_proper(c@),
            out matches Err(e) ==> e == MathError::MismatchingMatrixDimension,
    {
        proof {
            use_type_invariant(self);
            use_type_invariant(other);
        }
        if self.rows.len() != other.rows.len() {
            return Err(MathError::MismatchingMatrixDimension);
        }
        let mut data: Vec<Vec<i64>> = Vec::new();
        let mut i: usize = 0;
        while i < self.rows.len()
            invariant
                i <= self.rows.len(),
                self.rows.len() == other.rows.len(),
                rectangular(self.rows@),
                rectangular(other.rows@),
                data.len() == i,
                forall|t: int|
                    0 <= t < i ==> (#[trigger] data[t])@ == self.rows[t]@ + other.rows[t]@,
            decreases self.rows.len() - i,
        {
            let mut row: Vec<i64> = self.rows[i].clone();
            let mut j: usize = 0;
            while j < other.rows[i].len()
                invariant
                    i < other.rows.len(),
                    j <= other.rows[i as int].len(),
                    row@ == self.rows[i as int]@ + other.rows[i as int]@.subrange(0, j as int),
                decreases other.rows[i as int].len() - j,
            {
                row.push(other.rows[i][j]);
                j += 1;
            }
            data.push(row);
            i += 1;
        }
        proof {
            assert forall|t: int| 0 <= t < data.len() implies (#[trigger] lift(data@)[t])
                =~= beside(self@, other@)[t] by {
            }
        }
        Ok(MatZ { rows: data })
    }
}

/// `a` and `b` have as many rows and as many columns as each other.
pub open spec fn same_shape(a: Seq<Seq<int>>, b: Seq<Seq<int>>) -> bool {
    a.len() == b.len() && width(a) == width(b)
}

/// `x` is the value of a 64-bit signed integer.
pub open spec fn fits(x: int) -> bool {
    i64::MIN <= x <= i64::MAX
}

/// Every entry of `a + b` is the value of a 64-bit signed integer.
pub open spec fn sum_fits(a: Seq<Seq<int>>, b: Seq<Seq<int>>) -> bool {
    all_fit(sum(a, b))
}

/// Every sum that arises on the way to an entry of `a * b` is the value of a
/// 64-bit signed integer.
pub open spec fn product_fits(a: Seq<Seq<int>>, b: Seq<Seq<int>>) -> bool {
    forall|i: int, j: int, t: int|
        0 <= i < a.len() && 0 <= j < width(b) && 0 <= t <= b.len() ==> fits(
            #[trigger] dot(a, b, i, j, t),
        )
}

/// Every entry of `m` is the value of a 64-bit signed integer.
pub open spec fn all_fit(m: Seq<Seq<int>>) -> bool {
    entries_within(m, i64::MIN as int, i64::MAX as int)
}

impl Clone for MatZ {
    fn clone(&self) -> (out: Self)
        ensures
            out@ == self@,
    {
        let rows: Vec<Vec<i64>> = self.to_rows();
        proof {
            use_type_invariant(self);
        }
        MatZ { rows }
    }
}

} // verus!
