//! The determinant of the transpose, and Laplace expansion along any
//! column. Expanding `det` along row 0 and the column-0 expansion along
//! its rows turns both into double sums over one deleted row and one
//! deleted column beyond the first; the two sums run over the same terms,
//! which gives the column-0 expansion, then the transpose's determinant,
//! and then expansion along every column.

use vstd::prelude::*;

use vstd::arithmetic::mul::{
    lemma_mul_basics, lemma_mul_is_associative, lemma_mul_is_commutative,
    lemma_mul_is_distributive_add, lemma_mul_unary_negation,
};

use crate::expansion::lemma_expand_any_row;
use crate::model::{
    col_partial, col_term, det, det_along_col, det_along_row, det_partial, laplace_term, minor,
    row_partial, skip_idx, transpose,
};

verus! {

/// `v` negated when `b` holds.
spec fn neg_if(b: bool, v: int) -> int {
    if b {
        -v
    } else {
        v
    }
}

/// The grid left after deleting rows 0 and `i + 1` of `m` and columns 0
/// and `y` (for `y >= 1`).
spec fn dd(m: Seq<Seq<int>>, i: int, y: int) -> Seq<Seq<int>> {
    if m.len() < 2 {
        Seq::empty()
    } else {
        Seq::new(
            (m.len() - 2) as nat,
            |p: int|
                Seq::new((m.len() - 2) as nat, |q: int| m[skip_idx(p, i) + 1][skip_idx(q + 1, y)]),
        )
    }
}

/// Taking the minor at `(0, y)` and then that minor's minor at `(i, 0)`
/// deletes rows 0 and `i + 1` and columns 0 and `y`.
proof fn lemma_dd_of_row_first(m: Seq<Seq<int>>, i: int, y: int)
    requires
        m.len() >= 2,
        y >= 1,
        i >= 0,
    ensures
        minor(minor(m, 0, y), i, 0) == dd(m, i, y),
{
    let mm = minor(m, 0, y);
    let lhs = minor(mm, i, 0);
    let rhs = dd(m, i, y);
    assert(lhs.len() == rhs.len());
    assert forall|p: int| 0 <= p < rhs.len() implies lhs[p] =~= rhs[p] by {
        assert(lhs[p].len() == rhs[p].len());
        assert forall|q: int| 0 <= q < rhs.len() implies lhs[p][q] == rhs[p][q] by {
            assert(lhs[p][q] == mm[skip_idx(p, i)][q + 1]);
            assert(mm[skip_idx(p, i)][q + 1] == m[skip_idx(p, i) + 1][skip_idx(q + 1, y)]);
        }
    }
    assert(lhs =~~= rhs);
}

/// Taking the minor at `(x, 0)` (for `x >= 1`) and then that minor's
/// minor at `(0, j)` deletes the same rows and columns.
proof fn lemma_dd_of_col_first(m: Seq<Seq<int>>, x: int, j: int)
    requires
        m.len() >= 2,
        x >= 1,
        j >= 0,
    ensures
        minor(minor(m, x, 0), 0, j) == dd(m, x - 1, j + 1),
{
    let mm = minor(m, x, 0);
    let lhs = minor(mm, 0, j);
    let rhs = dd(m, x - 1, j + 1);
    assert(lhs.len() == rhs.len());
    assert forall|p: int| 0 <= p < rhs.len() implies lhs[p] =~= rhs[p] by {
        assert(lhs[p].len() == rhs[p].len());
        assert forall|q: int| 0 <= q < rhs.len() implies lhs[p][q] == rhs[p][q] by {
            assert(lhs[p][q] == mm[p + 1][skip_idx(q, j)]);
            assert(mm[p + 1][skip_idx(q, j)] == m[skip_idx(p + 1, x)][skip_idx(q, j) + 1]);
            assert(rhs[p][q] == m[skip_idx(p, x - 1) + 1][skip_idx(q + 1, j + 1)]);
            assert(skip_idx(p + 1, x) == skip_idx(p, x - 1) + 1);
            assert(skip_idx(q, j) + 1 == skip_idx(q + 1, j + 1));
        }
    }
    assert(lhs =~~= rhs);
}

/// Term `(y, i)` of the double expansion that goes along row 0 first and
/// then down column 0 of each minor.
spec fn a_term(m: Seq<Seq<int>>, y: int, i: int) -> int {
    neg_if(
        (y % 2 == 0) != (i % 2 == 0),
        m[0][y] * (m[i + 1][0] * det(dd(m, i, y))),
    )
}

/// Term `(x, j)` of the double expansion that goes down column 0 first
/// and then along row 0 of each minor.
spec fn b_term(m: Seq<Seq<int>>, x: int, j: int) -> int {
    neg_if(
        (x % 2 == 0) != (j % 2 == 0),
        m[x][0] * (m[0][j + 1] * det(dd(m, x - 1, j + 1))),
    )
}

/// The first `k` double-expansion terms for a fixed row-0 column `y`.
spec fn arow(m: Seq<Seq<int>>, y: int, k: int) -> int
    decreases k,
{
    if k <= 0 {
        0
    } else {
        arow(m, y, k - 1) + a_term(m, y, k - 1)
    }
}

/// The double sum of the row-first expansion over columns `1 <= y < yy`.
spec fn asum(m: Seq<Seq<int>>, yy: int, k: int) -> int
    decreases yy,
{
    if yy <= 1 {
        0
    } else {
        asum(m, yy - 1, k) + arow(m, yy - 1, k)
    }
}

/// The terms of the row-first double sum for a fixed inner row `i`,
/// summed over columns `1 <= y < yy`.
spec fn acol(m: Seq<Seq<int>>, i: int, yy: int) -> int
    decreases yy,
{
    if yy <= 1 {
        0
    } else {
        acol(m, i, yy - 1) + a_term(m, yy - 1, i)
    }
}

/// Sum of `acol(m, x - 1, yy)` over `1 <= x < xx`.
spec fn acolsum(m: Seq<Seq<int>>, xx: int, yy: int) -> int
    decreases xx,
{
    if xx <= 1 {
        0
    } else {
        acolsum(m, xx - 1, yy) + acol(m, xx - 2, yy)
    }
}

/// The first `k` double-expansion terms for a fixed column-0 row `x`.
spec fn brow(m: Seq<Seq<int>>, x: int, k: int) -> int
    decreases k,
{
    if k <= 0 {
        0
    } else {
        brow(m, x, k - 1) + b_term(m, x, k - 1)
    }
}

/// The double sum of the column-first expansion over rows `1 <= x < xx`.
spec fn bsum(m: Seq<Seq<int>>, xx: int, k: int) -> int
    decreases xx,
{
    if xx <= 1 {
        0
    } else {
        bsum(m, xx - 1, k) + brow(m, xx - 1, k)
    }
}

/// One signed row-0 term, with its minor's determinant expanded `k` rows
/// down its column 0, is the partial double sum at `y`.
proof fn lemma_a_inner(m: Seq<Seq<int>>, y: int, k: int)
    requires
        m.len() >= 3,
        1 <= y,
        0 <= k <= m.len() - 1,
    ensures
        neg_if(y % 2 != 0, m[0][y] * col_partial(minor(m, 0, y), 0, k)) == arow(m, y, k),
    decreases k,
{
    let mm = minor(m, 0, y);
    let a = m[0][y];
    if k <= 0 {
        lemma_mul_basics(a);
    } else {
        lemma_a_inner(m, y, k - 1);
        lemma_dd_of_row_first(m, k - 1, y);
        assert(mm[k - 1][0] == m[k][0]);
        let w = m[k][0] * det(dd(m, k - 1, y));
        assert(mm[k - 1][0] * det(minor(mm, k - 1, 0)) == w);
        assert(col_term(mm, 0, k - 1) == neg_if((k - 1) % 2 != 0, w));
        assert(col_partial(mm, 0, k) == col_partial(mm, 0, k - 1) + col_term(mm, 0, k - 1));
        let s = col_partial(mm, 0, k - 1);
        lemma_mul_is_distributive_add(a, s, neg_if((k - 1) % 2 != 0, w));
        lemma_mul_unary_negation(a, w);
        assert(a * neg_if((k - 1) % 2 != 0, w) == neg_if((k - 1) % 2 != 0, a * w));
        assert(a * col_partial(mm, 0, k) == a * s + neg_if((k - 1) % 2 != 0, a * w));
        assert(a_term(m, y, k - 1) == neg_if((y % 2 == 0) != ((k - 1) % 2 == 0), a * w));
    }
}

/// One signed column-0 term, with its minor's determinant expanded `k`
/// columns along its row 0, is the partial double sum at `x`.
proof fn lemma_b_inner(m: Seq<Seq<int>>, x: int, k: int)
    requires
        m.len() >= 3,
        1 <= x,
        0 <= k <= m.len() - 1,
    ensures
        neg_if(x % 2 != 0, m[x][0] * det_partial(minor(m, x, 0), k)) == brow(m, x, k),
    decreases k,
{
    let mm = minor(m, x, 0);
    let a = m[x][0];
    if k <= 0 {
        lemma_mul_basics(a);
    } else {
        lemma_b_inner(m, x, k - 1);
        lemma_dd_of_col_first(m, x, k - 1);
        assert(mm[0][k - 1] == m[0][k]);
        let w = m[0][k] * det(dd(m, x - 1, k));
        assert(mm[0][k - 1] * det(minor(mm, 0, k - 1)) == w);
        assert(laplace_term(mm, 0, k - 1) == neg_if((k - 1) % 2 != 0, w));
        assert(det_partial(mm, k) == det_partial(mm, k - 1) + laplace_term(mm, 0, k - 1));
        let s = det_partial(mm, k - 1);
        lemma_mul_is_distributive_add(a, s, neg_if((k - 1) % 2 != 0, w));
        lemma_mul_unary_negation(a, w);
        assert(a * neg_if((k - 1) % 2 != 0, w) == neg_if((k - 1) % 2 != 0, a * w));
        assert(a * det_partial(mm, k) == a * s + neg_if((k - 1) % 2 != 0, a * w));
        assert(b_term(m, x, k - 1) == neg_if((x % 2 == 0) != ((k - 1) % 2 == 0), a * w));
    }
}

/// The determinant's partial sums: the shared corner term plus the
/// row-first double sum.
proof fn lemma_a_assembly(m: Seq<Seq<int>>, yy: int)
    requires
        m.len() >= 3,
        1 <= yy <= m.len(),
    ensures
        det_partial(m, yy) == m[0][0] * det(minor(m, 0, 0)) + asum(m, yy, m.len() - 1),
    decreases m.len(), yy,
{
    let n = m.len() as int;
    if yy == 1 {
        assert(det_partial(m, 0) == 0);
        assert(laplace_term(m, 0, 0) == m[0][0] * det(minor(m, 0, 0)));
    } else {
        lemma_a_assembly(m, yy - 1);
        let y = yy - 1;
        let mm = minor(m, 0, y);
        assert(mm.len() == n - 1);
        lemma_col_expansion(mm);
        assert(det(mm) == col_partial(mm, 0, n - 1));
        lemma_a_inner(m, y, n - 1);
        assert(laplace_term(m, 0, y) == neg_if(y % 2 != 0, m[0][y] * det(mm)));
        assert(det_partial(m, yy) == det_partial(m, y) + laplace_term(m, 0, y));
    }
}

/// The column-0 expansion's partial sums: the shared corner term plus the
/// column-first double sum.
proof fn lemma_b_assembly(m: Seq<Seq<int>>, xx: int)
    requires
        m.len() >= 3,
        1 <= xx <= m.len(),
    ensures
        col_partial(m, 0, xx) == m[0][0] * det(minor(m, 0, 0)) + bsum(m, xx, m.len() - 1),
    decreases xx,
{
    let n = m.len() as int;
    if xx == 1 {
        assert(col_partial(m, 0, 0) == 0);
        assert(col_term(m, 0, 0) == m[0][0] * det(minor(m, 0, 0)));
    } else {
        lemma_b_assembly(m, xx - 1);
        let x = xx - 1;
        let mm = minor(m, x, 0);
        assert(mm.len() == n - 1);
        assert(det(mm) == det_partial(mm, n - 1));
        lemma_b_inner(m, x, n - 1);
        assert(col_term(m, 0, x) == neg_if(x % 2 != 0, m[x][0] * det(mm)));
        assert(col_partial(m, 0, xx) == col_partial(m, 0, x) + col_term(m, 0, x));
    }
}

/// A column-first inner sum is a row-first column of terms, one index
/// over: the pair `(x, j)` names the same deletion as `(j + 1, x - 1)`.
proof fn lemma_brow_acol(m: Seq<Seq<int>>, x: int, k: int)
    requires
        1 <= x,
        0 <= k,
    ensures
        brow(m, x, k) == acol(m, x - 1, k + 1),
    decreases k,
{
    if k > 0 {
        lemma_brow_acol(m, x, k - 1);
        let e = det(dd(m, x - 1, k));
        lemma_mul_is_associative(m[x][0], m[0][k], e);
        lemma_mul_is_commutative(m[x][0], m[0][k]);
        lemma_mul_is_associative(m[0][k], m[x][0], e);
        assert(m[x][0] * (m[0][k] * e) == m[0][k] * (m[x][0] * e));
        assert(b_term(m, x, k - 1) == a_term(m, k, x - 1));
    } else {
        assert(acol(m, x - 1, 1) == 0);
    }
}

/// A row-first double sum over no inner rows is 0.
proof fn lemma_asum_empty(m: Seq<Seq<int>>, yy: int)
    ensures
        asum(m, yy, 0) == 0,
    decreases yy,
{
    if yy > 1 {
        lemma_asum_empty(m, yy - 1);
    }
}

/// Peeling the last inner row off the row-first double sum leaves a
/// column of terms.
proof fn lemma_asum_peel(m: Seq<Seq<int>>, yy: int, kk: int)
    requires
        kk >= 1,
    ensures
        asum(m, yy, kk) == asum(m, yy, kk - 1) + acol(m, kk - 1, yy),
    decreases yy,
{
    if yy > 1 {
        lemma_asum_peel(m, yy - 1, kk);
    }
}

/// The row-first double sum, column by column of terms.
proof fn lemma_asum_acolsum(m: Seq<Seq<int>>, yy: int, kk: int)
    requires
        0 <= kk,
    ensures
        asum(m, yy, kk) == acolsum(m, kk + 1, yy),
    decreases kk,
{
    if kk == 0 {
        lemma_asum_empty(m, yy);
    } else {
        lemma_asum_acolsum(m, yy, kk - 1);
        lemma_asum_peel(m, yy, kk);
    }
}

/// The column-first double sum, column by column of the same terms.
proof fn lemma_bsum_acolsum(m: Seq<Seq<int>>, xx: int, kk: int)
    requires
        0 <= kk,
    ensures
        bsum(m, xx, kk) == acolsum(m, xx, kk + 1),
    decreases xx,
{
    if xx > 1 {
        lemma_bsum_acolsum(m, xx - 1, kk);
        lemma_brow_acol(m, xx - 1, kk);
    }
}

/// Laplace expansion along column 0 yields the determinant, for every
/// grid of at least two rows.
proof fn lemma_col_expansion(m: Seq<Seq<int>>)
    requires
        m.len() >= 2,
    ensures
        col_partial(m, 0, m.len() as int) == det(m),
    decreases m.len(), m.len() + 2,
{
    let n = m.len() as int;
    if m.len() == 2 {
        reveal_with_fuel(det_partial, 3);
        reveal_with_fuel(col_partial, 3);
        assert(minor(m, 0, 0)[0][0] == m[1][1]);
        assert(minor(m, 0, 1)[0][0] == m[1][0]);
        assert(minor(m, 1, 0)[0][0] == m[0][1]);
        assert(det(minor(m, 0, 0)) == m[1][1]);
        assert(det(minor(m, 0, 1)) == m[1][0]);
        assert(det(minor(m, 1, 0)) == m[0][1]);
        lemma_mul_is_commutative(m[0][1], m[1][0]);
        assert(m[0][0] * det(minor(m, 0, 0)) == m[0][0] * m[1][1]);
        assert(m[0][1] * det(minor(m, 0, 1)) == m[0][1] * m[1][0]);
        assert(m[1][0] * det(minor(m, 1, 0)) == m[1][0] * m[0][1]);
        assert(laplace_term(m, 0, 0) == m[0][0] * m[1][1]);
        assert(laplace_term(m, 0, 1) == -(m[0][1] * m[1][0]));
        assert(col_term(m, 0, 0) == m[0][0] * m[1][1]);
        assert(col_term(m, 0, 1) == -(m[1][0] * m[0][1]));
        assert(det_partial(m, 0) == 0);
        assert(det_partial(m, 1) == det_partial(m, 0) + laplace_term(m, 0, 0));
        assert(det_partial(m, 2) == det_partial(m, 1) + laplace_term(m, 0, 1));
        assert(det(m) == det_partial(m, 2));
        assert(col_partial(m, 0, 0) == 0);
        assert(col_partial(m, 0, 1) == col_partial(m, 0, 0) + col_term(m, 0, 0));
        assert(col_partial(m, 0, 2) == col_partial(m, 0, 1) + col_term(m, 0, 1));
    } else {
        lemma_a_assembly(m, n);
        lemma_b_assembly(m, n);
        lemma_asum_acolsum(m, n, n - 1);
        lemma_bsum_acolsum(m, n, n - 1);
        assert(det(m) == det_partial(m, n));
    }
}

/// Deleting the front row and a column of the transpose is transposing
/// the minor that deletes the mirrored row and column.
proof fn lemma_minor_transpose(m: Seq<Seq<int>>, c: int, x: int)
    requires
        m.len() >= 1,
    ensures
        minor(transpose(m), c, x) == transpose(minor(m, x, c)),
{
    let tr = transpose(m);
    let lhs = minor(tr, c, x);
    let rhs = transpose(minor(m, x, c));
    assert(tr.len() == m.len());
    assert(lhs.len() == rhs.len());
    assert forall|i: int| 0 <= i < rhs.len() implies lhs[i] =~= rhs[i] by {
        assert(lhs[i].len() == rhs[i].len());
        assert forall|j: int| 0 <= j < rhs.len() implies lhs[i][j] == rhs[i][j] by {
            assert(lhs[i][j] == tr[skip_idx(i, c)][skip_idx(j, x)]);
            assert(tr[skip_idx(i, c)][skip_idx(j, x)] == m[skip_idx(j, x)][skip_idx(i, c)]);
            assert(rhs[i][j] == minor(m, x, c)[j][i]);
            assert(minor(m, x, c)[j][i] == m[skip_idx(j, x)][skip_idx(i, c)]);
        }
    }
    assert(lhs =~~= rhs);
}

/// The transpose's row-0 expansion runs through the transposed column-0
/// minors of `m`.
proof fn lemma_transpose_partial(m: Seq<Seq<int>>, k: int)
    requires
        m.len() >= 2,
        0 <= k <= m.len(),
    ensures
        det_partial(transpose(m), k) == col_partial(m, 0, k),
    decreases m.len(), k,
{
    let tr = transpose(m);
    assert(tr.len() == m.len());
    if k > 0 {
        lemma_transpose_partial(m, k - 1);
        lemma_minor_transpose(m, 0, k - 1);
        lemma_det_transpose(minor(m, k - 1, 0));
        assert(tr[0][k - 1] == m[k - 1][0]);
        assert(det(minor(tr, 0, k - 1)) == det(minor(m, k - 1, 0)));
        assert(tr[0][k - 1] * det(minor(tr, 0, k - 1)) == m[k - 1][0] * det(minor(m, k - 1, 0)));
        assert(laplace_term(tr, 0, k - 1) == col_term(m, 0, k - 1));
    }
}

/// Transposing a grid leaves its determinant unchanged.
pub proof fn lemma_det_transpose(m: Seq<Seq<int>>)
    ensures
        det(transpose(m)) == det(m),
    decreases m.len(), m.len() + 1,
{
    let tr = transpose(m);
    assert(tr.len() == m.len());
    if m.len() == 1 {
        assert(tr[0][0] == m[0][0]);
    } else if m.len() >= 2 {
        let n = m.len() as int;
        lemma_transpose_partial(m, n);
        lemma_col_expansion(m);
        assert(det(tr) == det_partial(tr, n));
        assert(det(m) == det(m));
    }
}

/// The expansion along column `c` runs through the transpose's row-`c`
/// expansion, term by term.
proof fn lemma_col_is_transposed_row(m: Seq<Seq<int>>, c: int, k: int)
    requires
        m.len() >= 2,
        0 <= c < m.len(),
        0 <= k <= m.len(),
    ensures
        col_partial(m, c, k) == row_partial(transpose(m), c, k),
    decreases k,
{
    let tr = transpose(m);
    assert(tr.len() == m.len());
    if k > 0 {
        lemma_col_is_transposed_row(m, c, k - 1);
        lemma_minor_transpose(m, c, k - 1);
        lemma_det_transpose(minor(m, k - 1, c));
        assert(tr[c][k - 1] == m[k - 1][c]);
        assert(det(minor(tr, c, k - 1)) == det(minor(m, k - 1, c)));
        assert(tr[c][k - 1] * det(minor(tr, c, k - 1)) == m[k - 1][c] * det(minor(m, k - 1, c)));
        assert(laplace_term(tr, c, k - 1) == col_term(m, c, k - 1));
    }
}

/// Laplace expansion along any single column yields the determinant: for
/// every column `c` of the grid, the column-`c` expansion agrees with
/// `det`.
pub proof fn lemma_expand_any_col(m: Seq<Seq<int>>, c: int)
    requires
        0 <= c < m.len(),
    ensures
        det_along_col(m, c) == det(m),
{
    let n = m.len() as int;
    if m.len() >= 2 {
        let tr = transpose(m);
        assert(tr.len() == m.len());
        lemma_col_is_transposed_row(m, c, n);
        lemma_expand_any_row(tr, c);
        lemma_det_transpose(m);
        assert(det_along_col(m, c) == col_partial(m, c, n));
        assert(det_along_row(tr, c) == row_partial(tr, c, n));
    }
}

} // verus!
