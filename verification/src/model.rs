//! The mathematical model of the library: grids of unbounded integers,
//! elementwise arithmetic, the matrix product, minors, and the determinant
//! by Laplace expansion along row 0.

use vstd::prelude::*;

verus! {

/// A value lies within the range of `i64`.
pub open spec fn in_i64(v: int) -> bool {
    i64::MIN <= v <= i64::MAX
}

/// The mathematical contents of a grid of machine integers.
pub open spec fn grid_of(g: Seq<Vec<i64>>) -> Seq<Seq<int>> {
    Seq::new(g.len(), |i: int| Seq::new(g[i]@.len(), |j: int| g[i]@[j] as int))
}

/// `m` is a rectangular grid of `rows` rows, each `cols` long.
pub open spec fn is_grid(m: Seq<Seq<int>>, rows: nat, cols: nat) -> bool {
    m.len() == rows && (forall|i: int| 0 <= i < m.len() ==> (#[trigger] m[i]).len() == cols)
}

/// `m` is square: every row is as long as the number of rows.
pub open spec fn is_square(m: Seq<Seq<int>>) -> bool {
    forall|i: int| 0 <= i < m.len() ==> (#[trigger] m[i]).len() == m.len()
}

/// Every element of `m` fits in an `i64`.
pub open spec fn elems_in_i64(m: Seq<Seq<int>>) -> bool {
    forall|i: int, j: int|
        0 <= i < m.len() && 0 <= j < m[i].len() ==> in_i64(#[trigger] m[i][j])
}

/// Maps an index of the smaller grid to the source index it came from when
/// index `d` was deleted: positions before `d` keep their place, the rest
/// shift up by one.
pub open spec fn skip_idx(i: int, d: int) -> int {
    if i < d {
        i
    } else {
        i + 1
    }
}

/// The minor of a square `m` at `(r, c)`: `m` with row `r` and column `c`
/// deleted and every other row and column kept in its relative order.
pub open spec fn minor(m: Seq<Seq<int>>, r: int, c: int) -> Seq<Seq<int>> {
    if m.len() == 0 {
        Seq::empty()
    } else {
        Seq::new(
            (m.len() - 1) as nat,
            |i: int| Seq::new((m.len() - 1) as nat, |j: int| m[skip_idx(i, r)][skip_idx(j, c)]),
        )
    }
}

/// The signed term at column `x` of the Laplace expansion of `m` along row
/// `r`: the deleted element times the minor's determinant, negated when
/// `r + x` is odd (the alternating cofactor sign).
pub open spec fn laplace_term(m: Seq<Seq<int>>, r: int, x: int) -> int
    decreases m.len(), 0int,
{
    if m.len() < 1 {
        0
    } else if (r + x) % 2 == 0 {
        m[r][x] * det(minor(m, r, x))
    } else {
        -(m[r][x] * det(minor(m, r, x)))
    }
}

/// The sum of the first `k` signed terms of the Laplace expansion of `m`
/// along row 0.
pub open spec fn det_partial(m: Seq<Seq<int>>, k: int) -> int
    decreases m.len(), k,
{
    if k <= 0 || m.len() < 2 {
        0
    } else {
        det_partial(m, k - 1) + laplace_term(m, 0, k - 1)
    }
}

/// The determinant of a square `m`, by Laplace expansion along row 0.
/// The 0 x 0 determinant is fixed as 0, the additive identity; this is a
/// deliberate convention of this library (the textbook value is 1) and is
/// pinned by a test.
pub open spec fn det(m: Seq<Seq<int>>) -> int
    decreases m.len(), m.len() + 1,
{
    if m.len() == 0 {
        0
    } else if m.len() == 1 {
        m[0][0]
    } else {
        det_partial(m, m.len() as int)
    }
}

/// Term `x` of the expansion of `m` along row 0, and everything beneath it,
/// stays within `i64`.
pub open spec fn det_fits_at(m: Seq<Seq<int>>, x: int) -> bool
    decreases m.len(), 0int, 0int,
{
    if m.len() < 2 {
        true
    } else {
        &&& det_fits(minor(m, 0, x))
        &&& in_i64(det(minor(m, 0, x)))
        &&& in_i64(m[0][x] * det(minor(m, 0, x)))
        &&& in_i64(det_partial(m, x + 1))
    }
}

/// Terms `x`, `x + 1`, ... of the expansion of `m` along row 0 all stay
/// within `i64`.
pub open spec fn det_fits_from(m: Seq<Seq<int>>, x: int) -> bool
    decreases m.len(), m.len() - x, 1int,
{
    if x < 0 || x >= m.len() || m.len() < 2 {
        true
    } else {
        det_fits_at(m, x) && det_fits_from(m, x + 1)
    }
}

/// The whole recursive computation of `det(m)` stays within `i64`: every
/// minor's computation fits, and so do every signed term and every partial
/// sum along the way.
pub open spec fn det_fits(m: Seq<Seq<int>>) -> bool
    decreases m.len(), m.len() + 1, 2int,
{
    m.len() <= 1 || det_fits_from(m, 0)
}

/// Unrolls `det_fits_from(m, j)` as far as the term at `x`.
proof fn lemma_det_fits_from(m: Seq<Seq<int>>, j: int, x: int)
    requires
        det_fits_from(m, j),
        0 <= j <= x < m.len(),
    ensures
        det_fits_at(m, x),
    decreases x - j,
{
    if m.len() >= 2 && j < x {
        lemma_det_fits_from(m, j + 1, x);
    }
}

/// Everything `det_fits` demands of the single term at column `x`.
pub proof fn lemma_det_fits_at(m: Seq<Seq<int>>, x: int)
    requires
        det_fits(m),
        m.len() >= 2,
        0 <= x < m.len(),
    ensures
        det_fits_at(m, x),
{
    lemma_det_fits_from(m, 0, x);
}

/// Elementwise sum of two equally shaped grids.
pub open spec fn mat_add(a: Seq<Seq<int>>, b: Seq<Seq<int>>) -> Seq<Seq<int>> {
    Seq::new(a.len(), |i: int| Seq::new(a[i].len(), |j: int| a[i][j] + b[i][j]))
}

/// Elementwise difference of two equally shaped grids.
pub open spec fn mat_sub(a: Seq<Seq<int>>, b: Seq<Seq<int>>) -> Seq<Seq<int>> {
    Seq::new(a.len(), |i: int| Seq::new(a[i].len(), |j: int| a[i][j] - b[i][j]))
}

/// Every element of `a` scaled by `k`.
pub open spec fn mat_scale(a: Seq<Seq<int>>, k: int) -> Seq<Seq<int>> {
    Seq::new(a.len(), |i: int| Seq::new(a[i].len(), |j: int| a[i][j] * k))
}

/// Every elementwise sum of `a` and `b` fits in an `i64`.
pub open spec fn add_fits(a: Seq<Seq<int>>, b: Seq<Seq<int>>) -> bool {
    forall|i: int, j: int|
        0 <= i < a.len() && 0 <= j < a[i].len() ==> in_i64((#[trigger] a[i][j]) + b[i][j])
}

/// Every elementwise difference of `a` and `b` fits in an `i64`.
pub open spec fn sub_fits(a: Seq<Seq<int>>, b: Seq<Seq<int>>) -> bool {
    forall|i: int, j: int|
        0 <= i < a.len() && 0 <= j < a[i].len() ==> in_i64((#[trigger] a[i][j]) - b[i][j])
}

/// Every element of `a` times `k` fits in an `i64`.
pub open spec fn scale_fits(a: Seq<Seq<int>>, k: int) -> bool {
    forall|i: int, j: int|
        0 <= i < a.len() && 0 <= j < a[i].len() ==> in_i64((#[trigger] a[i][j]) * k)
}

/// The first `k` terms of the inner product of row `i` of `a` with column
/// `j` of `b`.
pub open spec fn dotp(a: Seq<Seq<int>>, b: Seq<Seq<int>>, i: int, j: int, k: int) -> int
    decreases k,
{
    if k <= 0 {
        0
    } else {
        dotp(a, b, i, j, k - 1) + a[i][k - 1] * b[k - 1][j]
    }
}

/// The matrix product of `a` (whose column count equals `b`'s row count)
/// and `b`, whose rows are `p` long: element `(i, j)` is the inner product
/// of row `i` of `a` with column `j` of `b`.
pub open spec fn mat_mul(a: Seq<Seq<int>>, b: Seq<Seq<int>>, p: nat) -> Seq<Seq<int>> {
    Seq::new(a.len(), |i: int| Seq::new(p, |j: int| dotp(a, b, i, j, b.len() as int)))
}

/// Every product and every partial inner-product sum of the computation of
/// `mat_mul(a, b, p)` fits in an `i64`.
pub open spec fn mul_fits(a: Seq<Seq<int>>, b: Seq<Seq<int>>, p: nat) -> bool {
    forall|i: int, j: int, k: int|
        0 <= i < a.len() && 0 <= j < p && 0 <= k <= b.len() ==> {
            &&& in_i64(#[trigger] dotp(a, b, i, j, k))
            &&& (k < b.len() ==> in_i64(a[i][k] * b[k][j]))
        }
}

/// The n x n identity grid.
pub open spec fn identity_seq(n: nat) -> Seq<Seq<int>> {
    Seq::new(n, |i: int| Seq::new(n, |j: int| if i == j { 1int } else { 0int }))
}

/// The sum of the first `k` signed terms of the Laplace expansion of `m`
/// along row `r`.
pub open spec fn row_partial(m: Seq<Seq<int>>, r: int, k: int) -> int
    decreases k,
{
    if k <= 0 || m.len() < 2 {
        0
    } else {
        row_partial(m, r, k - 1) + laplace_term(m, r, k - 1)
    }
}

/// The determinant of a square `m` as the Laplace expansion along row `r`
/// instead of row 0; the determinants of the minors themselves are the
/// ordinary `det`.
pub open spec fn det_along_row(m: Seq<Seq<int>>, r: int) -> int {
    if m.len() == 0 {
        0
    } else if m.len() == 1 {
        m[0][0]
    } else {
        row_partial(m, r, m.len() as int)
    }
}

/// The transpose of a square grid: element `(i, j)` is `m[j][i]`.
pub open spec fn transpose(m: Seq<Seq<int>>) -> Seq<Seq<int>> {
    Seq::new(m.len(), |i: int| Seq::new(m.len(), |j: int| m[j][i]))
}

/// The signed term at row `x` of the Laplace expansion of `m` along
/// column `c`: the deleted element times the minor's determinant, negated
/// when `c + x` is odd.
pub open spec fn col_term(m: Seq<Seq<int>>, c: int, x: int) -> int {
    if m.len() < 1 {
        0
    } else if (c + x) % 2 == 0 {
        m[x][c] * det(minor(m, x, c))
    } else {
        -(m[x][c] * det(minor(m, x, c)))
    }
}

/// The sum of the first `k` signed terms of the Laplace expansion of `m`
/// along column `c`.
pub open spec fn col_partial(m: Seq<Seq<int>>, c: int, k: int) -> int
    decreases k,
{
    if k <= 0 || m.len() < 2 {
        0
    } else {
        col_partial(m, c, k - 1) + col_term(m, c, k - 1)
    }
}

/// The determinant of a square `m` as the Laplace expansion along column
/// `c` instead of row 0; the determinants of the minors themselves are the
/// ordinary `det`.
pub open spec fn det_along_col(m: Seq<Seq<int>>, c: int) -> int {
    if m.len() == 0 {
        0
    } else if m.len() == 1 {
        m[0][0]
    } else {
        col_partial(m, c, m.len() as int)
    }
}

/// Term `x` of the expansion of `m` along row `r`, and everything beneath
/// it, stays within `i64`.
pub open spec fn row_fits_at(m: Seq<Seq<int>>, r: int, x: int) -> bool {
    if m.len() < 2 {
        true
    } else {
        &&& det_fits(minor(m, r, x))
        &&& in_i64(det(minor(m, r, x)))
        &&& in_i64(m[r][x] * det(minor(m, r, x)))
        &&& in_i64(row_partial(m, r, x + 1))
    }
}

/// The whole computation of `det_along_row(m, r)` stays within `i64`.
pub open spec fn row_fits(m: Seq<Seq<int>>, r: int) -> bool {
    m.len() <= 1 || (forall|x: int| 0 <= x < m.len() ==> #[trigger] row_fits_at(m, r, x))
}

} // verus!
