//! The matrix container: a fixed-shape rectangular grid of `i64` elements
//! with bounds-checked indexed access, elementwise arithmetic, scaling, the
//! matrix product, and the determinant of a square matrix.

use vstd::prelude::*;

use crate::determinant::{get_determinant, zero_i64};
use crate::model::{
    add_fits, det, det_fits, dotp, grid_of, is_square, mat_add, mat_mul, mat_scale, mat_sub,
    mul_fits, scale_fits, sub_fits,
};
use crate::MatrixError;

verus! {

/// A rectangular matrix of `i64` elements with a fixed shape: `rows` rows,
/// each `cols` elements long, stored row-major. The shape never changes over
/// the lifetime of a value; operators return new values and never mutate
/// their operands.
#[derive(Debug, Clone, PartialEq, Eq)]
pub struct Matrix {
    rows: usize,
    cols: usize,
    data: Vec<Vec<i64>>,
}

impl View for Matrix {
    type V = Seq<Seq<int>>;

    /// The mathematical contents: a sequence of rows of unbounded integers.
    closed spec fn view(&self) -> Seq<Seq<int>> {
        grid_of(self.data@)
    }
}

impl Matrix {
    /// The declared number of rows.
    pub closed spec fn nrows(&self) -> nat {
        self.rows as nat
    }

    /// The declared number of columns.
    pub closed spec fn ncols(&self) -> nat {
        self.cols as nat
    }

    /// The storage is a fully populated grid of the declared shape.
    pub closed spec fn wf(&self) -> bool {
        &&& self.data@.len() == self.rows
        &&& forall|i: int|
            0 <= i < self.data@.len() ==> (#[trigger] self.data@[i])@.len() == self.cols
    }

    /// Wraps a caller-supplied row-major grid of the declared shape.
    /// Returns `ShapeMismatch` exactly when the grid is not `rows` rows of
    /// `cols` elements each.
    #[verifier::loop_isolation(false)]
    pub fn new(rows: usize, cols: usize, data: Vec<Vec<i64>>) -> (r: Result<Matrix, MatrixError>)
        ensures
            match r {
                Ok(m) => {
                    &&& data@.len() == rows
                    &&& forall|i: int| 0 <= i < rows ==> (#[trigger] data@[i])@.len() == cols
                    &&& m.wf()
                    &&& m.nrows() == rows
                    &&& m.ncols() == cols
                    &&& m@ == grid_of(data@)
                },
                Err(e) => {
                    &&& e == MatrixError::ShapeMismatch
                    &&& !(data@.len() == rows && (forall|i: int|
                        0 <= i < rows ==> (#[trigger] data@[i])@.len() == cols))
                },
            },
    {
        if data.len() != rows {
            return Err(MatrixError::ShapeMismatch);
        }
        let mut i: usize = 0;
        while i < rows
            invariant
                i <= rows,
                data@.len() == rows,
                forall|j: int| 0 <= j < i ==> (#[trigger] data@[j])@.len() == cols,
            decreases rows - i,
        {
            if data[i].len() != cols {
                return Err(MatrixError::ShapeMismatch);
            }
            i = i + 1;
        }
        Ok(Matrix { rows, cols, data })
    }

    /// A matrix of the given shape with every cell set to the additive
    /// identity.
    #[verifier::loop_isolation(false)]
    pub fn empty(rows: usize, cols: usize) -> (m: Matrix)
        ensures
            m.wf(),
            m.nrows() == rows,
            m.ncols() == cols,
            m@.len() == rows,
            forall|i: int| 0 <= i < rows ==> (#[trigger] m@[i]).len() == cols,
            forall|i: int, j: int| 0 <= i < rows && 0 <= j < cols ==> #[trigger] m@[i][j] == 0,
    {
        let mut data: Vec<Vec<i64>> = Vec::new();
        let mut i: usize = 0;
        while i < rows
            invariant
                i <= rows,
                data@.len() == i,
                forall|a: int| 0 <= a < i ==> (#[trigger] data@[a])@.len() == cols,
                forall|a: int, b: int|
                    0 <= a < i && 0 <= b < cols ==> #[trigger] data@[a]@[b] == 0i64,
            decreases rows - i,
        {
            let mut line: Vec<i64> = Vec::new();
            let mut j: usize = 0;
            while j < cols
                invariant
                    j <= cols,
                    line@.len() == j,
                    forall|b: int| 0 <= b < j ==> #[trigger] line@[b] == 0i64,
                decreases cols - j,
            {
                line.push(zero_i64());
                j = j + 1;
            }
            data.push(line);
            i = i + 1;
        }
        Matrix { rows, cols, data }
    }

    /// The number of rows, as the matrix's contents show it.
    pub fn rows(&self) -> (r: usize)
        requires
            self.wf(),
        ensures
            r == self.nrows(),
            r == self@.len(),
    {
        self.rows
    }

    /// The number of columns; every row of the contents is this long.
    pub fn cols(&self) -> (r: usize)
        requires
            self.wf(),
        ensures
            r == self.ncols(),
            forall|i: int| 0 <= i < self@.len() ==> (#[trigger] self@[i]).len() == r,
    {
        self.cols
    }

    /// The backing row-major grid.
    pub fn matrix(&self) -> (r: &Vec<Vec<i64>>)
        requires
            self.wf(),
        ensures
            grid_of(r@) == self@,
            r@.len() == self.nrows(),
            forall|i: int| 0 <= i < r@.len() ==> (#[trigger] r@[i])@.len() == self.ncols(),
    {
        &self.data
    }

    /// Reads the element at `(row, col)`, 0-based. Returns `OutOfBounds`
    /// exactly when the position lies outside the declared shape.
    pub fn get(&self, row: usize, col: usize) -> (r: Result<i64, MatrixError>)
        requires
            self.wf(),
        ensures
            match r {
                Ok(v) => row < self.nrows() && col < self.ncols() && v as int == self@[row as int][col as int],
                Err(e) => e == MatrixError::OutOfBounds && !(row < self.nrows() && col
                    < self.ncols()),
            },
    {
        if row < self.rows && col < self.cols {
            Ok(self.data[row][col])
        } else {
            Err(MatrixError::OutOfBounds)
        }
    }

    /// Writes `v` at `(row, col)`, 0-based, leaving every other cell as it
    /// was. Returns `OutOfBounds` exactly when the position lies outside
    /// the declared shape, and then changes nothing.
    pub fn set(&mut self, row: usize, col: usize, v: i64) -> (r: Result<(), MatrixError>)
        requires
            old(self).wf(),
        ensures
            final(self).wf(),
            final(self).nrows() == old(self).nrows(),
            final(self).ncols() == old(self).ncols(),
            match r {
                Ok(()) => row < old(self).nrows() && col < old(self).ncols() && final(self)@
                    == old(self)@.update(
                    row as int,
                    old(self)@[row as int].update(col as int, v as int),
                ),
                Err(e) => {
                    &&& e == MatrixError::OutOfBounds
                    &&& !(row < old(self).nrows() && col < old(self).ncols())
                    &&& final(self)@ == old(self)@
                },
            },
    {
        if row < self.rows && col < self.cols {
            self.data[row][col] = v;
            proof {
                assert(final(self)@ =~~= old(self)@.update(
                    row as int,
                    old(self)@[row as int].update(col as int, v as int),
                ));
            }
            Ok(())
        } else {
            Err(MatrixError::OutOfBounds)
        }
    }

    /// The elementwise sum of two matrices of identical shape. Returns
    /// `ShapeMismatch` exactly when the shapes differ.
    #[verifier::loop_isolation(false)]
    pub fn add(&self, other: &Matrix) -> (r: Result<Matrix, MatrixError>)
        requires
            self.wf(),
            other.wf(),
            (self.nrows() == other.nrows() && self.ncols() == other.ncols()) ==> add_fits(
                self@,
                other@,
            ),
        ensures
            match r {
                Ok(c) => {
                    &&& self.nrows() == other.nrows()
                    &&& self.ncols() == other.ncols()
                    &&& c.wf()
                    &&& c.nrows() == self.nrows()
                    &&& c.ncols() == self.ncols()
                    &&& c@ == mat_add(self@, other@)
                },
                Err(e) => {
                    &&& e == MatrixError::ShapeMismatch
                    &&& !(self.nrows() == other.nrows() && self.ncols() == other.ncols())
                },
            },
    {
        if self.rows != other.rows || self.cols != other.cols {
            return Err(MatrixError::ShapeMismatch);
        }
        let mut data: Vec<Vec<i64>> = Vec::new();
        let mut i: usize = 0;
        while i < self.rows
            invariant
                i <= self.rows,
                data@.len() == i,
                forall|a: int| 0 <= a < i ==> (#[trigger] data@[a])@.len() == self.cols,
                forall|a: int, b: int|
                    0 <= a < i && 0 <= b < self.cols ==> (#[trigger] data@[a]@[b]) as int
                        == self@[a][b] + other@[a][b],
            decreases self.rows - i,
        {
            let mut line: Vec<i64> = Vec::new();
            let mut j: usize = 0;
            while j < self.cols
                invariant
                    i < self.rows,
                    j <= self.cols,
                    line@.len() == j,
                    forall|b: int|
                        0 <= b < j ==> (#[trigger] line@[b]) as int == self@[i as int][b]
                            + other@[i as int][b],
                decreases self.cols - j,
            {
                proof {
                    assert(self@[i as int][j as int] == self.data@[i as int]@[j as int] as int);
                    assert(other@[i as int][j as int] == other.data@[i as int]@[j as int] as int);
                }
                line.push(self.data[i][j] + other.data[i][j]);
                j = j + 1;
            }
            data.push(line);
            i = i + 1;
        }
        let c = Matrix { rows: self.rows, cols: self.cols, data };
        proof {
            assert(c@ =~~= mat_add(self@, other@));
        }
        Ok(c)
    }

    /// The elementwise difference of two matrices of identical shape.
    /// Returns `ShapeMismatch` exactly when the shapes differ.
    #[verifier::loop_isolation(false)]
    pub fn sub(&self, other: &Matrix) -> (r: Result<Matrix, MatrixError>)
        requires
            self.wf(),
            other.wf(),
            (self.nrows() == other.nrows() && self.ncols() == other.ncols()) ==> sub_fits(
                self@,
                other@,
            ),
        ensures
            match r {
                Ok(c) => {
                    &&& self.nrows() == other.nrows()
                    &&& self.ncols() == other.ncols()
                    &&& c.wf()
                    &&& c.nrows() == self.nrows()
                    &&& c.ncols() == self.ncols()
                    &&& c@ == mat_sub(self@, other@)
                },
                Err(e) => {
                    &&& e == MatrixError::ShapeMismatch
                    &&& !(self.nrows() == other.nrows() && self.ncols() == other.ncols())
                },
            },
    {
        if self.rows != other.rows || self.cols != other.cols {
            return Err(MatrixError::ShapeMismatch);
        }
        let mut data: Vec<Vec<i64>> = Vec::new();
        let mut i: usize = 0;
        while i < self.rows
            invariant
                i <= self.rows,
                data@.len() == i,
                forall|a: int| 0 <= a < i ==> (#[trigger] data@[a])@.len() == self.cols,
                forall|a: int, b: int|
                    0 <= a < i && 0 <= b < self.cols ==> (#[trigger] data@[a]@[b]) as int
                        == self@[a][b] - other@[a][b],
            decreases self.rows - i,
        {
            let mut line: Vec<i64> = Vec::new();
            let mut j: usize = 0;
            while j < self.cols
                invariant
                    i < self.rows,
                    j <= self.cols,
                    line@.len() == j,
                    forall|b: int|
                        0 <= b < j ==> (#[trigger] line@[b]) as int == self@[i as int][b]
                            - other@[i as int][b],
                decreases self.cols - j,
            {
                proof {
                    assert(self@[i as int][j as int] == self.data@[i as int]@[j as int] as int);
                    assert(other@[i as int][j as int] == other.data@[i as int]@[j as int] as int);
                }
                line.push(self.data[i][j] - other.data[i][j]);
                j = j + 1;
            }
            data.push(line);
            i = i + 1;
        }
        let c = Matrix { rows: self.rows, cols: self.cols, data };
        proof {
            assert(c@ =~~= mat_sub(self@, other@));
        }
        Ok(c)
    }

    /// Every element multiplied by the scalar `k`.
    #[verifier::loop_isolation(false)]
    pub fn scale(&self, k: i64) -> (c: Matrix)
        requires
            self.wf(),
            scale_fits(self@, k as int),
        ensures
            c.wf(),
            c.nrows() == self.nrows(),
            c.ncols() == self.ncols(),
            c@ == mat_scale(self@, k as int),
    {
        let mut data: Vec<Vec<i64>> = Vec::new();
        let mut i: usize = 0;
        while i < self.rows
            invariant
                i <= self.rows,
                data@.len() == i,
                forall|a: int| 0 <= a < i ==> (#[trigger] data@[a])@.len() == self.cols,
                forall|a: int, b: int|
                    0 <= a < i && 0 <= b < self.cols ==> (#[trigger] data@[a]@[b]) as int
                        == self@[a][b] * (k as int),
            decreases self.rows - i,
        {
            let mut line: Vec<i64> = Vec::new();
            let mut j: usize = 0;
            while j < self.cols
                invariant
                    i < self.rows,
                    j <= self.cols,
                    line@.len() == j,
                    forall|b: int|
                        0 <= b < j ==> (#[trigger] line@[b]) as int == self@[i as int][b] * (
                        k as int),
                decreases self.cols - j,
            {
                proof {
                    assert(self@[i as int][j as int] == self.data@[i as int]@[j as int] as int);
                }
                line.push(self.data[i][j] * k);
                j = j + 1;
            }
            data.push(line);
            i = i + 1;
        }
        let c = Matrix { rows: self.rows, cols: self.cols, data };
        proof {
            assert(c@ =~~= mat_scale(self@, k as int));
        }
        c
    }

    /// The matrix product: defined when this matrix's column count equals
    /// `other`'s row count; the result has this matrix's row count and
    /// `other`'s column count, and element `(i, j)` is the inner product of
    /// row `i` of this matrix with column `j` of `other`. Returns
    /// `ShapeMismatch` exactly when the inner dimensions differ.
    #[verifier::loop_isolation(false)]
    pub fn multiply(&self, other: &Matrix) -> (r: Result<Matrix, MatrixError>)
        requires
            self.wf(),
            other.wf(),
            self.ncols() == other.nrows() ==> mul_fits(self@, other@, other.ncols()),
        ensures
            match r {
                Ok(c) => {
                    &&& self.ncols() == other.nrows()
                    &&& c.wf()
                    &&& c.nrows() == self.nrows()
                    &&& c.ncols() == other.ncols()
                    &&& c@ == mat_mul(self@, other@, other.ncols())
                },
                Err(e) => e == MatrixError::ShapeMismatch && self.ncols() != other.nrows(),
            },
    {
        if self.cols != other.rows {
            return Err(MatrixError::ShapeMismatch);
        }
        let ghost p = other.ncols();
        let mut data: Vec<Vec<i64>> = Vec::new();
        let mut i: usize = 0;
        while i < self.rows
            invariant
                i <= self.rows,
                data@.len() == i,
                forall|a: int| 0 <= a < i ==> (#[trigger] data@[a])@.len() == other.cols,
                forall|a: int, b: int|
                    0 <= a < i && 0 <= b < other.cols ==> (#[trigger] data@[a]@[b]) as int == dotp(
                        self@,
                        other@,
                        a,
                        b,
                        other@.len() as int,
                    ),
            decreases self.rows - i,
        {
            let mut line: Vec<i64> = Vec::new();
            let mut j: usize = 0;
            while j < other.cols
                invariant
                    i < self.rows,
                    j <= other.cols,
                    line@.len() == j,
                    forall|b: int|
                        0 <= b < j ==> (#[trigger] line@[b]) as int == dotp(
                            self@,
                            other@,
                            i as int,
                            b,
                            other@.len() as int,
                        ),
                decreases other.cols - j,
            {
                let mut el: i64 = zero_i64();
                let mut k: usize = 0;
                while k < self.cols
                    invariant
                        i < self.rows,
                        j < other.cols,
                        k <= self.cols,
                        el as int == dotp(self@, other@, i as int, j as int, k as int),
                    decreases self.cols - k,
                {
                    proof {
                        assert(self@[i as int][k as int] == self.data@[i as int]@[k as int] as int);
                        assert(other@[k as int][j as int] == other.data@[k as int]@[j as int] as int);
                        assert(dotp(self@, other@, i as int, j as int, k as int + 1) == dotp(
                            self@,
                            other@,
                            i as int,
                            j as int,
                            k as int,
                        ) + self@[i as int][k as int] * other@[k as int][j as int]);
                    }
                    el = el + self.data[i][k] * other.data[k][j];
                    k = k + 1;
                }
                line.push(el);
                j = j + 1;
            }
            data.push(line);
            i = i + 1;
        }
        let c = Matrix { rows: self.rows, cols: other.cols, data };
        proof {
            assert(c@ =~~= mat_mul(self@, other@, other.ncols()));
        }
        Ok(c)
    }

    /// The determinant, defined for square matrices as the recursive
    /// Laplace expansion along row 0. Returns `NotSquare` exactly when the
    /// row and column counts differ.
    pub fn determinant(&self) -> (r: Result<i64, MatrixError>)
        requires
            self.wf(),
            self.nrows() == self.ncols() ==> det_fits(self@),
        ensures
            match r {
                Ok(v) => self.nrows() == self.ncols() && v as int == det(self@),
                Err(e) => e == MatrixError::NotSquare && self.nrows() != self.ncols(),
            },
    {
        if self.rows != self.cols {
            return Err(MatrixError::NotSquare);
        }
        proof {
            assert(is_square(grid_of(self.data@)));
        }
        Ok(get_determinant(&self.data))
    }
}

} // verus!
