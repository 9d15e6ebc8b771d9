//! The determinant engine: minor extraction and recursive Laplace expansion
//! along row 0, over dynamically shaped square grids of `i64` values, with a
//! variant that expands along a chosen row instead.

use vstd::prelude::*;

use crate::model::{
    det, det_along_row, det_fits, det_fits_at, det_partial, grid_of, is_square, laplace_term,
    lemma_det_fits_at, minor, row_fits, row_fits_at, row_partial, skip_idx,
};
use crate::MatrixError;

verus! {

/// Relies on num_traits::zero: for `i64` it returns the additive
/// identity, 0.
#[verifier::external_body]
pub(crate) fn zero_i64() -> (r: i64)
    ensures
        r == 0i64,
{
    num_traits::zero()
}

/// Builds the minor of a square grid at `(row, col)` by walking the source
/// rows and columns in order and skipping the deleted ones.
#[verifier::loop_isolation(false)]
fn minor_inner(m: &Vec<Vec<i64>>, row: usize, col: usize) -> (r: Vec<Vec<i64>>)
    requires
        is_square(grid_of(m@)),
        m@.len() >= 1,
        row < m@.len(),
        col < m@.len(),
    ensures
        grid_of(r@) == minor(grid_of(m@), row as int, col as int),
{
    let ghost g = grid_of(m@);
    let ghost mn = minor(g, row as int, col as int);
    let n = m.len();
    let mut out: Vec<Vec<i64>> = Vec::new();
    let mut y: usize = 0;
    while y < n
        invariant
            y <= n,
            out@.len() == if y <= row {
                y as int
            } else {
                y - 1
            },
            forall|i: int, j: int|
                0 <= i < out@.len() && 0 <= j < out@[i]@.len() ==> (#[trigger] out@[i]@[j]) as int
                    == g[skip_idx(i, row as int)][skip_idx(j, col as int)],
            forall|i: int| 0 <= i < out@.len() ==> (#[trigger] out@[i])@.len() == n - 1,
        decreases n - y,
    {
        if y != row {
            proof {
                assert(grid_of(m@)[y as int].len() == n);
            }
            let mut line: Vec<i64> = Vec::new();
            let mut x: usize = 0;
            while x < n
                invariant
                    x <= n,
                    y < n,
                    y != row,
                    m@[y as int]@.len() == n,
                    line@.len() == if x <= col {
                        x as int
                    } else {
                        x - 1
                    },
                    forall|j: int|
                        0 <= j < line@.len() ==> (#[trigger] line@[j]) as int == g[y as int][skip_idx(
                            j,
                            col as int,
                        )],
                decreases n - x,
            {
                if x != col {
                    line.push(m[y][x]);
                }
                x = x + 1;
            }
            out.push(line);
        }
        y = y + 1;
    }
    proof {
        assert(grid_of(out@).len() == mn.len());
        assert forall|i: int| 0 <= i < mn.len() implies grid_of(out@)[i] =~= mn[i] by {
            assert(grid_of(out@)[i].len() == mn[i].len());
            assert forall|j: int| 0 <= j < mn[i].len() implies grid_of(out@)[i][j] == mn[i][j] by {
                assert(out@[i]@[j] as int == g[skip_idx(i, row as int)][skip_idx(j, col as int)]);
            }
        }
        assert(grid_of(out@) =~~= mn);
    }
    out
}

/// The minor of a square grid at `(row, col)`: the grid with that row and
/// that column deleted and every other row and column kept in its relative
/// order. Returns `OutOfBounds` exactly when `row` or `col` lies outside
/// the grid.
pub fn minor_extraction(m: &Vec<Vec<i64>>, row: usize, col: usize) -> (r: Result<
    Vec<Vec<i64>>,
    MatrixError,
>)
    requires
        is_square(grid_of(m@)),
        m@.len() >= 1,
    ensures
        match r {
            Ok(out) => row < m@.len() && col < m@.len() && grid_of(out@) == minor(
                grid_of(m@),
                row as int,
                col as int,
            ),
            Err(e) => e == MatrixError::OutOfBounds && !(row < m@.len() && col < m@.len()),
        },
{
    if row < m.len() && col < m.len() {
        Ok(minor_inner(m, row, col))
    } else {
        Err(MatrixError::OutOfBounds)
    }
}

/// The determinant of a square grid, by recursive Laplace expansion along
/// row 0, with closed forms for the sizes 0, 1 and 2. The 0 x 0 case
/// returns the additive identity by this library's convention.
#[verifier::loop_isolation(false)]
pub fn get_determinant(m: &Vec<Vec<i64>>) -> (r: i64)
    requires
        is_square(grid_of(m@)),
        det_fits(grid_of(m@)),
    ensures
        r as int == det(grid_of(m@)),
    decreases m@.len(),
{
    let ghost g = grid_of(m@);
    let n = m.len();
    if n == 0 {
        return zero_i64();
    }
    if n == 1 {
        proof {
            assert(grid_of(m@)[0].len() == n);
        }
        return m[0][0];
    }
    if n == 2 {
        proof {
            reveal_with_fuel(det_partial, 3);
            assert(grid_of(m@)[0].len() == n);
            assert(grid_of(m@)[1].len() == n);
            lemma_det_fits_at(g, 0);
            lemma_det_fits_at(g, 1);
            assert(det_fits_at(g, 0) && det_fits_at(g, 1));
            assert(minor(g, 0, 0)[0][0] == g[1][1]);
            assert(minor(g, 0, 1)[0][0] == g[1][0]);
            assert(det(minor(g, 0, 0)) == g[1][1]);
            assert(det(minor(g, 0, 1)) == g[1][0]);
            assert(det(g) == g[0][0] * g[1][1] - g[0][1] * g[1][0]);
        }
        return m[0][0] * m[1][1] - m[0][1] * m[1][0];
    }
    let mut acc: i64 = zero_i64();
    let mut x: usize = 0;
    while x < n
        invariant
            x <= n,
            acc as int == det_partial(g, x as int),
        decreases n - x,
    {
        proof {
            assert(g.len() == n);
            assert(grid_of(m@)[0].len() == n);
            lemma_det_fits_at(g, x as int);
            assert(det_fits_at(g, x as int));
            assert forall|i: int| 0 <= i < minor(g, 0, x as int).len() implies (#[trigger] minor(
                g,
                0,
                x as int,
            )[i]).len() == minor(g, 0, x as int).len() by {}
        }
        let sub = minor_inner(m, 0, x);
        let d = get_determinant(&sub);
        let term = m[0][x] * d;
        proof {
            assert(term as int == g[0][x as int] * det(minor(g, 0, x as int)));
            assert(det_partial(g, x as int + 1) == det_partial(g, x as int) + laplace_term(
                g,
                0,
                x as int,
            ));
        }
        if x % 2 == 0 {
            proof {
                assert(laplace_term(g, 0, x as int) == term as int);
            }
            acc = acc + term;
        } else {
            proof {
                assert(laplace_term(g, 0, x as int) == -(term as int));
            }
            acc = acc - term;
        }
        x = x + 1;
    }
    acc
}

/// The determinant of a square grid computed by Laplace expansion along the
/// given row instead of row 0; the minors' own determinants are still the
/// row-0 expansion. Whichever row is chosen, the result is the
/// determinant: cofactor expansion is invariant in the row.
#[verifier::loop_isolation(false)]
pub fn determinant_expand_row(m: &Vec<Vec<i64>>, row: usize) -> (r: i64)
    requires
        is_square(grid_of(m@)),
        m@.len() >= 1,
        row < m@.len(),
        row_fits(grid_of(m@), row as int),
    ensures
        r as int == det_along_row(grid_of(m@), row as int),
        r as int == det(grid_of(m@)),
{
    proof {
        crate::expansion::lemma_expand_any_row(grid_of(m@), row as int);
    }
    let ghost g = grid_of(m@);
    let n = m.len();
    if n == 1 {
        proof {
            assert(grid_of(m@)[0].len() == n);
        }
        return m[0][0];
    }
    let mut acc: i64 = zero_i64();
    let mut x: usize = 0;
    while x < n
        invariant
            x <= n,
            2 <= n,
            acc as int == row_partial(g, row as int, x as int),
        decreases n - x,
    {
        proof {
            assert(g.len() == n);
            assert(grid_of(m@)[row as int].len() == n);
            assert(row_fits_at(g, row as int, x as int));
            assert forall|i: int| 0 <= i < minor(g, row as int, x as int).len() implies (
            #[trigger] minor(g, row as int, x as int)[i]).len() == minor(
                g,
                row as int,
                x as int,
            ).len() by {}
            assert((row + x) % 2 == 0 <==> row as int % 2 == x as int % 2);
        }
        let sub = minor_inner(m, row, x);
        let d = get_determinant(&sub);
        let term = m[row][x] * d;
        proof {
            assert(term as int == g[row as int][x as int] * det(minor(g, row as int, x as int)));
            assert(row_partial(g, row as int, x as int + 1) == row_partial(g, row as int, x as int)
                + laplace_term(g, row as int, x as int));
        }
        if (row % 2 == 0) == (x % 2 == 0) {
            proof {
                assert(laplace_term(g, row as int, x as int) == term as int);
            }
            acc = acc + term;
        } else {
            proof {
                assert(laplace_term(g, row as int, x as int) == -(term as int));
            }
            acc = acc - term;
        }
        x = x + 1;
    }
    acc
}

} // verus!
