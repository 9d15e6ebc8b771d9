//! Laplace expansion along row 1 agrees with the determinant. Expanding
//! twice turns both `det` and the row-1 expansion into double sums over
//! one deleted column of row 0 and one of row 1; the two sums range over
//! the same pairs of columns with the same signed products, so they are
//! equal.

use vstd::prelude::*;

use vstd::arithmetic::mul::{
    lemma_mul_basics, lemma_mul_is_associative, lemma_mul_is_commutative,
    lemma_mul_is_distributive_add, lemma_mul_unary_negation,
};

use crate::model::{det, det_along_row, det_partial, laplace_term, minor, row_partial, skip_idx};

verus! {

/// `v` negated when `b` holds.
spec fn neg_if(b: bool, v: int) -> int {
    if b {
        -v
    } else {
        v
    }
}

/// The grid left after deleting rows 0 and 1 of `m` and two columns: the
/// source column at `x`, and the one at position `y` of the columns that
/// remain after that deletion.
spec fn sub2(m: Seq<Seq<int>>, x: int, y: int) -> Seq<Seq<int>> {
    if m.len() < 2 {
        Seq::empty()
    } else {
        Seq::new(
            (m.len() - 2) as nat,
            |i: int|
                Seq::new((m.len() - 2) as nat, |j: int| m[i + 2][skip_idx(skip_idx(j, y), x)]),
        )
    }
}

/// Taking the minor at `(0, x)` and then that minor's minor at `(0, y)`
/// deletes rows 0 and 1 and two columns of `m`.
proof fn lemma_minor_minor_zero(m: Seq<Seq<int>>, x: int, y: int)
    requires
        m.len() >= 2,
    ensures
        minor(minor(m, 0, x), 0, y) == sub2(m, x, y),
{
    let mm = minor(m, 0, x);
    let lhs = minor(mm, 0, y);
    let rhs = sub2(m, x, y);
    assert(lhs.len() == rhs.len());
    assert forall|i: int| 0 <= i < rhs.len() implies lhs[i] =~= rhs[i] by {
        assert(lhs[i].len() == rhs[i].len());
        assert forall|j: int| 0 <= j < rhs.len() implies lhs[i][j] == rhs[i][j] by {
            assert(lhs[i][j] == mm[i + 1][skip_idx(j, y)]);
            assert(mm[i + 1][skip_idx(j, y)] == m[i + 2][skip_idx(skip_idx(j, y), x)]);
        }
    }
    assert(lhs =~~= rhs);
}

/// Taking the minor at `(1, u)` and then that minor's minor at `(0, y)`
/// deletes the same rows, and the columns `u` marks.
proof fn lemma_minor_minor_one(m: Seq<Seq<int>>, u: int, y: int)
    requires
        m.len() >= 2,
    ensures
        minor(minor(m, 1, u), 0, y) == sub2(m, u, y),
{
    let mm = minor(m, 1, u);
    let lhs = minor(mm, 0, y);
    let rhs = sub2(m, u, y);
    assert(lhs.len() == rhs.len());
    assert forall|i: int| 0 <= i < rhs.len() implies lhs[i] =~= rhs[i] by {
        assert(lhs[i].len() == rhs[i].len());
        assert forall|j: int| 0 <= j < rhs.len() implies lhs[i][j] == rhs[i][j] by {
            assert(lhs[i][j] == mm[i + 1][skip_idx(j, y)]);
            assert(mm[i + 1][skip_idx(j, y)] == m[i + 2][skip_idx(skip_idx(j, y), u)]);
        }
    }
    assert(lhs =~~= rhs);
}

/// The position of source column `u` among the columns that remain after
/// column `x` is deleted.
spec fn pos_without(x: int, u: int) -> int {
    if u > x {
        u - 1
    } else {
        u
    }
}

/// Term `(x, y)` of the double expansion that begins along row 0: the two
/// eliminated elements times the double minor's determinant, carrying both
/// cofactor signs.
spec fn gd_term(m: Seq<Seq<int>>, x: int, y: int) -> int {
    neg_if(
        (x % 2 == 0) != (y % 2 == 0),
        m[0][x] * (m[1][skip_idx(y, x)] * det(sub2(m, x, y))),
    )
}

/// Term `(u, y)` of the double expansion that begins along row 1.
spec fn hd_term(m: Seq<Seq<int>>, u: int, y: int) -> int {
    neg_if(
        (u % 2 == 0) == (y % 2 == 0),
        m[1][u] * (m[0][skip_idx(y, u)] * det(sub2(m, u, y))),
    )
}

/// The first `k` double-expansion terms for a fixed row-0 column `x`.
spec fn gd_row(m: Seq<Seq<int>>, x: int, k: int) -> int
    decreases k,
{
    if k <= 0 {
        0
    } else {
        gd_row(m, x, k - 1) + gd_term(m, x, k - 1)
    }
}

/// The double sum of the row-0 expansion over `x < xx`.
spec fn gd_sum(m: Seq<Seq<int>>, xx: int, k: int) -> int
    decreases xx,
{
    if xx <= 0 {
        0
    } else {
        gd_sum(m, xx - 1, k) + gd_row(m, xx - 1, k)
    }
}

/// The first `k` double-expansion terms for a fixed row-1 column `u`.
spec fn hd_row(m: Seq<Seq<int>>, u: int, k: int) -> int
    decreases k,
{
    if k <= 0 {
        0
    } else {
        hd_row(m, u, k - 1) + hd_term(m, u, k - 1)
    }
}

/// The double sum of the row-1 expansion over `u < uu`.
spec fn hd_sum(m: Seq<Seq<int>>, uu: int, k: int) -> int
    decreases uu,
{
    if uu <= 0 {
        0
    } else {
        hd_sum(m, uu - 1, k) + hd_row(m, uu - 1, k)
    }
}

/// One signed row-0 term, with its minor's determinant expanded `k` terms
/// deep, is the partial double sum at `x`.
proof fn lemma_inner_zero(m: Seq<Seq<int>>, x: int, k: int)
    requires
        m.len() >= 3,
        0 <= k <= m.len() - 1,
    ensures
        neg_if(x % 2 != 0, m[0][x] * det_partial(minor(m, 0, x), k)) == gd_row(m, x, k),
    decreases k,
{
    let mm = minor(m, 0, x);
    let a = m[0][x];
    if k <= 0 {
        lemma_mul_basics(a);
    } else {
        lemma_inner_zero(m, x, k - 1);
        lemma_minor_minor_zero(m, x, k - 1);
        assert(mm[0][k - 1] == m[1][skip_idx(k - 1, x)]);
        let w = m[1][skip_idx(k - 1, x)] * det(sub2(m, x, k - 1));
        assert(mm[0][k - 1] * det(minor(mm, 0, k - 1)) == w);
        assert(laplace_term(mm, 0, k - 1) == neg_if((k - 1) % 2 != 0, w));
        assert(det_partial(mm, k) == det_partial(mm, k - 1) + laplace_term(mm, 0, k - 1));
        let s = det_partial(mm, k - 1);
        lemma_mul_is_distributive_add(a, s, neg_if((k - 1) % 2 != 0, w));
        lemma_mul_unary_negation(a, w);
        assert(a * neg_if((k - 1) % 2 != 0, w) == neg_if((k - 1) % 2 != 0, a * w));
        assert(a * det_partial(mm, k) == a * s + neg_if((k - 1) % 2 != 0, a * w));
        assert(gd_term(m, x, k - 1) == neg_if((x % 2 == 0) != ((k - 1) % 2 == 0), a * w));
    }
}

/// One signed row-1 term, with its minor's determinant expanded `k` terms
/// deep, is the partial double sum at `u`.
proof fn lemma_inner_one(m: Seq<Seq<int>>, u: int, k: int)
    requires
        m.len() >= 3,
        0 <= k <= m.len() - 1,
    ensures
        neg_if(u % 2 == 0, m[1][u] * det_partial(minor(m, 1, u), k)) == hd_row(m, u, k),
    decreases k,
{
    let mm = minor(m, 1, u);
    let a = m[1][u];
    if k <= 0 {
        lemma_mul_basics(a);
    } else {
        lemma_inner_one(m, u, k - 1);
        lemma_minor_minor_one(m, u, k - 1);
        assert(mm[0][k - 1] == m[0][skip_idx(k - 1, u)]);
        let w = m[0][skip_idx(k - 1, u)] * det(sub2(m, u, k - 1));
        assert(mm[0][k - 1] * det(minor(mm, 0, k - 1)) == w);
        assert(laplace_term(mm, 0, k - 1) == neg_if((k - 1) % 2 != 0, w));
        assert(det_partial(mm, k) == det_partial(mm, k - 1) + laplace_term(mm, 0, k - 1));
        let s = det_partial(mm, k - 1);
        lemma_mul_is_distributive_add(a, s, neg_if((k - 1) % 2 != 0, w));
        lemma_mul_unary_negation(a, w);
        assert(a * neg_if((k - 1) % 2 != 0, w) == neg_if((k - 1) % 2 != 0, a * w));
        assert(a * det_partial(mm, k) == a * s + neg_if((k - 1) % 2 != 0, a * w));
        assert(hd_term(m, u, k - 1) == neg_if((u % 2 == 0) == ((k - 1) % 2 == 0), a * w));
    }
}

/// The determinant's partial sums, written as double sums.
proof fn lemma_outer_zero(m: Seq<Seq<int>>, xx: int)
    requires
        m.len() >= 3,
        0 <= xx <= m.len(),
    ensures
        det_partial(m, xx) == gd_sum(m, xx, m.len() - 1),
    decreases xx,
{
    if xx > 0 {
        lemma_outer_zero(m, xx - 1);
        let x = xx - 1;
        let mm = minor(m, 0, x);
        assert(mm.len() == m.len() - 1);
        assert(det(mm) == det_partial(mm, mm.len() as int));
        lemma_inner_zero(m, x, m.len() - 1);
        assert(laplace_term(m, 0, x) == neg_if(x % 2 != 0, m[0][x] * det(mm)));
        assert(det_partial(m, xx) == det_partial(m, x) + laplace_term(m, 0, x));
    }
}

/// The row-1 expansion's partial sums, written as double sums.
proof fn lemma_outer_one(m: Seq<Seq<int>>, uu: int)
    requires
        m.len() >= 3,
        0 <= uu <= m.len(),
    ensures
        row_partial(m, 1, uu) == hd_sum(m, uu, m.len() - 1),
    decreases uu,
{
    if uu > 0 {
        lemma_outer_one(m, uu - 1);
        let u = uu - 1;
        let mm = minor(m, 1, u);
        assert(mm.len() == m.len() - 1);
        assert(det(mm) == det_partial(mm, mm.len() as int));
        lemma_inner_one(m, u, m.len() - 1);
        assert(laplace_term(m, 1, u) == neg_if(u % 2 == 0, m[1][u] * det(mm)));
        assert(row_partial(m, 1, uu) == row_partial(m, 1, u) + laplace_term(m, 1, u));
    }
}

/// The pair form of a row-0 double-expansion term: the row-1 column is
/// named by its source position `u` instead of its position in the minor.
spec fn pt(m: Seq<Seq<int>>, x: int, u: int) -> int {
    gd_term(m, x, pos_without(x, u))
}

/// The pair form of a row-1 double-expansion term.
spec fn qt(m: Seq<Seq<int>>, u: int, x: int) -> int {
    hd_term(m, u, pos_without(u, x))
}

/// Sum of `pt(m, x, u)` over `u < uu`, skipping `u == x`.
spec fn ptx(m: Seq<Seq<int>>, x: int, uu: int) -> int
    decreases uu,
{
    if uu <= 0 {
        0
    } else {
        ptx(m, x, uu - 1) + if uu - 1 == x {
            0
        } else {
            pt(m, x, uu - 1)
        }
    }
}

/// Sum of `qt(m, u, x)` over `x < xx`, skipping `x == u`.
spec fn qtx(m: Seq<Seq<int>>, u: int, xx: int) -> int
    decreases xx,
{
    if xx <= 0 {
        0
    } else {
        qtx(m, u, xx - 1) + if xx - 1 == u {
            0
        } else {
            qt(m, u, xx - 1)
        }
    }
}

/// Sum of `pt(m, x, u)` over `x < xx`, skipping `x == u`, for a fixed `u`.
spec fn ptc(m: Seq<Seq<int>>, u: int, xx: int) -> int
    decreases xx,
{
    if xx <= 0 {
        0
    } else {
        ptc(m, u, xx - 1) + if xx - 1 == u {
            0
        } else {
            pt(m, xx - 1, u)
        }
    }
}

/// The double sum over all pair terms, row-0 column outermost.
spec fn pts(m: Seq<Seq<int>>, xx: int, uu: int) -> int
    decreases xx,
{
    if xx <= 0 {
        0
    } else {
        pts(m, xx - 1, uu) + ptx(m, xx - 1, uu)
    }
}

/// The double sum over all pair terms, row-1 column outermost.
spec fn qts(m: Seq<Seq<int>>, uu: int, xx: int) -> int
    decreases uu,
{
    if uu <= 0 {
        0
    } else {
        qts(m, uu - 1, xx) + qtx(m, uu - 1, xx)
    }
}

/// The bound that the first `k` minor columns reach among source columns
/// once the deleted column `x` is skipped.
spec fn skip_bound(x: int, k: int) -> int {
    if k <= x {
        k
    } else {
        k + 1
    }
}

/// Re-indexes the inner row-0 sum by source columns: summing the first `k`
/// minor positions is summing the source columns below `skip_bound(x, k)`,
/// skipping `x` itself.
proof fn lemma_reindex_zero(m: Seq<Seq<int>>, x: int, k: int)
    requires
        0 <= x,
        0 <= k,
    ensures
        gd_row(m, x, k) == ptx(m, x, skip_bound(x, k)),
    decreases k,
{
    if k > 0 {
        lemma_reindex_zero(m, x, k - 1);
        assert(pos_without(x, skip_idx(k - 1, x)) == k - 1);
        assert(gd_term(m, x, k - 1) == pt(m, x, skip_idx(k - 1, x)));
        if k - 1 == x {
            assert(ptx(m, x, x + 2) == ptx(m, x, x + 1) + pt(m, x, x + 1));
            assert(ptx(m, x, x + 1) == ptx(m, x, x));
        }
    }
}

/// Re-indexes the inner row-1 sum by source columns in the same way.
proof fn lemma_reindex_one(m: Seq<Seq<int>>, u: int, k: int)
    requires
        0 <= u,
        0 <= k,
    ensures
        hd_row(m, u, k) == qtx(m, u, skip_bound(u, k)),
    decreases k,
{
    if k > 0 {
        lemma_reindex_one(m, u, k - 1);
        assert(pos_without(u, skip_idx(k - 1, u)) == k - 1);
        assert(hd_term(m, u, k - 1) == qt(m, u, skip_idx(k - 1, u)));
        if k - 1 == u {
            assert(qtx(m, u, u + 2) == qtx(m, u, u + 1) + qt(m, u, u + 1));
            assert(qtx(m, u, u + 1) == qtx(m, u, u));
        }
    }
}

/// The full inner row-0 sum covers every source column but `x`.
proof fn lemma_row_full_zero(m: Seq<Seq<int>>, x: int)
    requires
        0 <= x < m.len(),
    ensures
        gd_row(m, x, m.len() - 1) == ptx(m, x, m.len() as int),
{
    let n = m.len() as int;
    lemma_reindex_zero(m, x, n - 1);
    if x == n - 1 {
        assert(ptx(m, x, n) == ptx(m, x, n - 1));
    }
}

/// The full inner row-1 sum covers every source column but `u`.
proof fn lemma_row_full_one(m: Seq<Seq<int>>, u: int)
    requires
        0 <= u < m.len(),
    ensures
        hd_row(m, u, m.len() - 1) == qtx(m, u, m.len() as int),
{
    let n = m.len() as int;
    lemma_reindex_one(m, u, n - 1);
    if u == n - 1 {
        assert(qtx(m, u, n) == qtx(m, u, n - 1));
    }
}

/// The row-0 double sum in pair form.
proof fn lemma_gsum_pts(m: Seq<Seq<int>>, xx: int)
    requires
        0 <= xx <= m.len(),
    ensures
        gd_sum(m, xx, m.len() - 1) == pts(m, xx, m.len() as int),
    decreases xx,
{
    if xx > 0 {
        lemma_gsum_pts(m, xx - 1);
        lemma_row_full_zero(m, xx - 1);
    }
}

/// The row-1 double sum in pair form.
proof fn lemma_hsum_qts(m: Seq<Seq<int>>, uu: int)
    requires
        0 <= uu <= m.len(),
    ensures
        hd_sum(m, uu, m.len() - 1) == qts(m, uu, m.len() as int),
    decreases uu,
{
    if uu > 0 {
        lemma_hsum_qts(m, uu - 1);
        lemma_row_full_one(m, uu - 1);
    }
}

/// The pair term that eliminates row-0 column `x` and row-1 column `u` is
/// the same whichever of the two expansions produces it: the deleted
/// columns, the sign and the factors all match.
proof fn lemma_pair_term(m: Seq<Seq<int>>, x: int, u: int)
    requires
        m.len() >= 2,
        0 <= x,
        0 <= u,
        x != u,
    ensures
        pt(m, x, u) == qt(m, u, x),
{
    let y = pos_without(x, u);
    let y2 = pos_without(u, x);
    assert(skip_idx(y, x) == u);
    assert(skip_idx(y2, u) == x);
    let lhs = sub2(m, x, y);
    let rhs = sub2(m, u, y2);
    assert(lhs.len() == rhs.len());
    assert forall|i: int| 0 <= i < rhs.len() implies lhs[i] =~= rhs[i] by {
        assert(lhs[i].len() == rhs[i].len());
        assert forall|j: int| 0 <= j < rhs.len() implies lhs[i][j] == rhs[i][j] by {
            assert(skip_idx(skip_idx(j, y), x) == skip_idx(skip_idx(j, y2), u));
        }
    }
    assert(lhs =~~= rhs);
    let e = det(lhs);
    lemma_mul_is_associative(m[0][x], m[1][u], e);
    lemma_mul_is_commutative(m[0][x], m[1][u]);
    lemma_mul_is_associative(m[1][u], m[0][x], e);
    assert(m[0][x] * (m[1][u] * e) == m[1][u] * (m[0][x] * e));
    assert(((x % 2 == 0) != (y % 2 == 0)) == ((u % 2 == 0) == (y2 % 2 == 0)));
}

/// For each fixed `u`, the row-0 pair terms summed over `x` are the row-1
/// inner sum at `u`.
proof fn lemma_ptc_qtx(m: Seq<Seq<int>>, u: int, xx: int)
    requires
        m.len() >= 2,
        0 <= u,
        0 <= xx <= m.len(),
    ensures
        ptc(m, u, xx) == qtx(m, u, xx),
    decreases xx,
{
    if xx > 0 {
        lemma_ptc_qtx(m, u, xx - 1);
        if xx - 1 != u {
            lemma_pair_term(m, xx - 1, u);
        }
    }
}

/// Peeling the last `u` off the pair double sum leaves the sum one `u`
/// shorter plus a column of pair terms.
proof fn lemma_pts_peel(m: Seq<Seq<int>>, xx: int, uu: int)
    requires
        uu >= 1,
    ensures
        pts(m, xx, uu) == pts(m, xx, uu - 1) + ptc(m, uu - 1, xx),
    decreases xx,
{
    if xx > 0 {
        lemma_pts_peel(m, xx - 1, uu);
    }
}

/// A pair double sum over no `u` values is 0.
proof fn lemma_pts_zero(m: Seq<Seq<int>>, xx: int)
    ensures
        pts(m, xx, 0) == 0,
    decreases xx,
{
    if xx > 0 {
        lemma_pts_zero(m, xx - 1);
    }
}

/// The two pair double sums agree: summing with the row-0 column outermost
/// equals summing with the row-1 column outermost.
proof fn lemma_pts_qts(m: Seq<Seq<int>>, uu: int)
    requires
        m.len() >= 2,
        0 <= uu <= m.len(),
    ensures
        pts(m, m.len() as int, uu) == qts(m, uu, m.len() as int),
    decreases uu,
{
    let n = m.len() as int;
    if uu == 0 {
        lemma_pts_zero(m, n);
    } else {
        lemma_pts_qts(m, uu - 1);
        lemma_pts_peel(m, n, uu);
        lemma_ptc_qtx(m, uu - 1, n);
    }
}

/// Laplace expansion along row 1 yields the determinant: the general row
/// expansion agrees with `det` when the chosen row is 1, for every grid of
/// at least two rows.
pub(crate) proof fn lemma_expand_row_one(m: Seq<Seq<int>>)
    requires
        m.len() >= 2,
    ensures
        det_along_row(m, 1) == det(m),
{
    let n = m.len() as int;
    if m.len() == 2 {
        reveal_with_fuel(det_partial, 3);
        reveal_with_fuel(row_partial, 3);
        assert(minor(m, 0, 0)[0][0] == m[1][1]);
        assert(minor(m, 0, 1)[0][0] == m[1][0]);
        assert(minor(m, 1, 0)[0][0] == m[0][1]);
        assert(minor(m, 1, 1)[0][0] == m[0][0]);
        assert(det(minor(m, 0, 0)) == m[1][1]);
        assert(det(minor(m, 0, 1)) == m[1][0]);
        assert(det(minor(m, 1, 0)) == m[0][1]);
        assert(det(minor(m, 1, 1)) == m[0][0]);
        lemma_mul_is_commutative(m[0][0], m[1][1]);
        lemma_mul_is_commutative(m[0][1], m[1][0]);
        assert(m[0][0] * det(minor(m, 0, 0)) == m[0][0] * m[1][1]);
        assert(m[0][1] * det(minor(m, 0, 1)) == m[0][1] * m[1][0]);
        assert(m[1][0] * det(minor(m, 1, 0)) == m[1][0] * m[0][1]);
        assert(m[1][1] * det(minor(m, 1, 1)) == m[1][1] * m[0][0]);
        assert(laplace_term(m, 0, 0) == m[0][0] * m[1][1]);
        assert(laplace_term(m, 0, 1) == -(m[0][1] * m[1][0]));
        assert(laplace_term(m, 1, 0) == -(m[1][0] * m[0][1]));
        assert(laplace_term(m, 1, 1) == m[1][1] * m[0][0]);
        assert(det_partial(m, 0) == 0);
        assert(det_partial(m, 1) == det_partial(m, 0) + laplace_term(m, 0, 0));
        assert(det_partial(m, 2) == det_partial(m, 1) + laplace_term(m, 0, 1));
        assert(det(m) == det_partial(m, 2));
        assert(row_partial(m, 1, 0) == 0);
        assert(row_partial(m, 1, 1) == row_partial(m, 1, 0) + laplace_term(m, 1, 0));
        assert(row_partial(m, 1, 2) == row_partial(m, 1, 1) + laplace_term(m, 1, 1));
        assert(det_along_row(m, 1) == row_partial(m, 1, 2));
    } else {
        lemma_outer_zero(m, n);
        lemma_outer_one(m, n);
        lemma_gsum_pts(m, n);
        lemma_hsum_qts(m, n);
        lemma_pts_qts(m, n);
        assert(det(m) == det_partial(m, n));
        assert(det_along_row(m, 1) == row_partial(m, 1, n));
    }
}

/// `m` with the rows at `a` and `b` exchanged.
spec fn swap_rows(m: Seq<Seq<int>>, a: int, b: int) -> Seq<Seq<int>> {
    m.update(a, m[b]).update(b, m[a])
}

/// Exchanging the two top rows and deleting the new row 0 deletes the old
/// row 1.
proof fn lemma_minor_swap_top(m: Seq<Seq<int>>, x: int)
    requires
        m.len() >= 2,
    ensures
        minor(swap_rows(m, 0, 1), 0, x) == minor(m, 1, x),
{
    let sw = swap_rows(m, 0, 1);
    let lhs = minor(sw, 0, x);
    let rhs = minor(m, 1, x);
    assert(sw.len() == m.len());
    assert forall|i: int| 0 <= i < rhs.len() implies lhs[i] =~= rhs[i] by {
        assert forall|j: int| 0 <= j < rhs.len() implies lhs[i][j] == rhs[i][j] by {
            if i == 0 {
                assert(lhs[i][j] == sw[1][skip_idx(j, x)]);
                assert(sw[1] == m[0]);
                assert(rhs[i][j] == m[0][skip_idx(j, x)]);
            } else {
                assert(lhs[i][j] == sw[i + 1][skip_idx(j, x)]);
                assert(sw[i + 1] == m[i + 1]);
                assert(rhs[i][j] == m[i + 1][skip_idx(j, x)]);
            }
        }
    }
    assert(lhs =~~= rhs);
}

/// The expansion of `m` with its top rows exchanged runs through the row-1
/// minors of `m` with opposite signs.
proof fn lemma_swap_top_partial(m: Seq<Seq<int>>, k: int)
    requires
        m.len() >= 2,
        0 <= k,
    ensures
        det_partial(swap_rows(m, 0, 1), k) == -row_partial(m, 1, k),
    decreases k,
{
    let sw = swap_rows(m, 0, 1);
    assert(sw.len() == m.len());
    if k > 0 {
        lemma_swap_top_partial(m, k - 1);
        lemma_minor_swap_top(m, k - 1);
        assert(sw[0] == m[1]);
        assert(sw[0][k - 1] * det(minor(sw, 0, k - 1)) == m[1][k - 1] * det(minor(m, 1, k - 1)));
        assert(laplace_term(sw, 0, k - 1) == -laplace_term(m, 1, k - 1));
    }
}

/// Exchanging two adjacent rows below row 0, and then deleting row 0 and a
/// column, exchanges the corresponding adjacent rows of the minor.
proof fn lemma_minor_swap_deep(m: Seq<Seq<int>>, a: int, x: int)
    requires
        1 <= a,
        a + 1 < m.len(),
    ensures
        minor(swap_rows(m, a, a + 1), 0, x) == swap_rows(minor(m, 0, x), a - 1, a),
{
    let sw = swap_rows(m, a, a + 1);
    let mn = minor(m, 0, x);
    let lhs = minor(sw, 0, x);
    let rhs = swap_rows(mn, a - 1, a);
    assert(sw.len() == m.len());
    assert(rhs.len() == mn.len());
    assert forall|i: int| 0 <= i < rhs.len() implies lhs[i] =~= rhs[i] by {
        assert forall|j: int| 0 <= j < rhs.len() implies lhs[i][j] == rhs[i][j] by {
            if i == a - 1 {
                assert(sw[i + 1] == m[a + 1]);
                assert(rhs[i] == mn[a]);
                assert(lhs[i][j] == m[a + 1][skip_idx(j, x)]);
                assert(rhs[i][j] == m[a + 1][skip_idx(j, x)]);
            } else if i == a {
                assert(sw[i + 1] == m[a]);
                assert(rhs[i] == mn[a - 1]);
                assert(lhs[i][j] == m[a][skip_idx(j, x)]);
                assert(rhs[i][j] == m[a][skip_idx(j, x)]);
            } else {
                assert(sw[i + 1] == m[i + 1]);
                assert(rhs[i] == mn[i]);
                assert(lhs[i][j] == m[i + 1][skip_idx(j, x)]);
                assert(rhs[i][j] == m[i + 1][skip_idx(j, x)]);
            }
        }
    }
    assert(lhs =~~= rhs);
}

/// The expansion of `m` with two adjacent lower rows exchanged runs
/// through minors that are themselves swapped, so every term is negated.
proof fn lemma_swap_deep_partial(m: Seq<Seq<int>>, a: int, k: int)
    requires
        1 <= a,
        a + 1 < m.len(),
        0 <= k <= m.len(),
    ensures
        det_partial(swap_rows(m, a, a + 1), k) == -det_partial(m, k),
    decreases m.len(), 0int, k,
{
    let sw = swap_rows(m, a, a + 1);
    assert(sw.len() == m.len());
    if k > 0 && m.len() >= 2 {
        lemma_swap_deep_partial(m, a, k - 1);
        lemma_minor_swap_deep(m, a, k - 1);
        lemma_swap_adjacent(minor(m, 0, k - 1), a - 1);
        assert(det(minor(sw, 0, k - 1)) == -det(minor(m, 0, k - 1)));
        assert(sw[0] == m[0]);
        lemma_mul_unary_negation(m[0][k - 1], det(minor(m, 0, k - 1)));
        assert(sw[0][k - 1] * det(minor(sw, 0, k - 1)) == -(m[0][k - 1] * det(
            minor(m, 0, k - 1),
        )));
        assert(laplace_term(sw, 0, k - 1) == -laplace_term(m, 0, k - 1));
    }
}

/// Exchanging two adjacent rows negates the determinant.
proof fn lemma_swap_adjacent(m: Seq<Seq<int>>, a: int)
    requires
        0 <= a,
        a + 1 < m.len(),
    ensures
        det(swap_rows(m, a, a + 1)) == -det(m),
    decreases m.len(), 1int, 0int,
{
    let n = m.len() as int;
    let sw = swap_rows(m, a, a + 1);
    assert(sw.len() == m.len());
    if a == 0 {
        lemma_expand_row_one(m);
        lemma_swap_top_partial(m, n);
        assert(det(sw) == det_partial(sw, n));
        assert(det_along_row(m, 1) == row_partial(m, 1, n));
    } else {
        lemma_swap_deep_partial(m, a, n);
        assert(det(sw) == det_partial(sw, n));
        assert(det(m) == det_partial(m, n));
    }
}

/// `m` with the row at `r` moved to the front, all other rows kept in
/// their relative order.
spec fn rot_to_top(m: Seq<Seq<int>>, r: int) -> Seq<Seq<int>> {
    Seq::new(
        m.len(),
        |i: int|
            if i == 0 {
                m[r]
            } else if i <= r {
                m[i - 1]
            } else {
                m[i]
            },
    )
}

/// Moving row 0 to the front changes nothing.
proof fn lemma_rot_zero(m: Seq<Seq<int>>)
    ensures
        rot_to_top(m, 0) == m,
{
    assert(rot_to_top(m, 0) =~= m);
}

/// Moving row `r` to the front is exchanging it with its upper neighbour
/// first and then moving it from position `r - 1`.
proof fn lemma_rot_step(m: Seq<Seq<int>>, r: int)
    requires
        1 <= r < m.len(),
    ensures
        rot_to_top(m, r) == rot_to_top(swap_rows(m, r - 1, r), r - 1),
{
    let sw = swap_rows(m, r - 1, r);
    assert(sw.len() == m.len());
    let lhs = rot_to_top(m, r);
    let rhs = rot_to_top(sw, r - 1);
    assert forall|i: int| 0 <= i < m.len() implies lhs[i] == rhs[i] by {
        if i == 0 {
            assert(sw[r - 1] == m[r]);
        } else if i < r {
            assert(sw[i - 1] == m[i - 1]);
        } else if i == r {
            assert(sw[r] == m[r - 1]);
        } else {
            assert(sw[i] == m[i]);
        }
    }
    assert(lhs =~= rhs);
}

/// Moving row `r` to the front multiplies the determinant by the sign of
/// the `r` adjacent exchanges it takes.
proof fn lemma_det_rot(m: Seq<Seq<int>>, r: int)
    requires
        0 <= r < m.len(),
    ensures
        det(rot_to_top(m, r)) == if r % 2 == 0 {
            det(m)
        } else {
            -det(m)
        },
    decreases r,
{
    if r == 0 {
        lemma_rot_zero(m);
    } else {
        let sw = swap_rows(m, r - 1, r);
        assert(sw.len() == m.len());
        lemma_rot_step(m, r);
        lemma_det_rot(sw, r - 1);
        lemma_swap_adjacent(m, r - 1);
    }
}

/// Deleting the front row of the rotated grid and a column is deleting row
/// `r` of `m` and that column.
proof fn lemma_minor_rot(m: Seq<Seq<int>>, r: int, x: int)
    requires
        0 <= r < m.len(),
    ensures
        minor(rot_to_top(m, r), 0, x) == minor(m, r, x),
{
    let rt = rot_to_top(m, r);
    let lhs = minor(rt, 0, x);
    let rhs = minor(m, r, x);
    assert forall|i: int| 0 <= i < rhs.len() implies lhs[i] =~= rhs[i] by {
        assert forall|j: int| 0 <= j < rhs.len() implies lhs[i][j] == rhs[i][j] by {
            if i < r {
                assert(rt[i + 1] == m[i]);
                assert(lhs[i][j] == m[i][skip_idx(j, x)]);
                assert(rhs[i][j] == m[i][skip_idx(j, x)]);
            } else {
                assert(rt[i + 1] == m[i + 1]);
                assert(lhs[i][j] == m[i + 1][skip_idx(j, x)]);
                assert(rhs[i][j] == m[i + 1][skip_idx(j, x)]);
            }
        }
    }
    assert(lhs =~~= rhs);
}

/// The expansion along row `r` runs through the rotated grid's row-0
/// expansion, sign-shifted by the parity of `r`.
proof fn lemma_rot_partial(m: Seq<Seq<int>>, r: int, k: int)
    requires
        0 <= r < m.len(),
        m.len() >= 2,
        0 <= k,
    ensures
        row_partial(m, r, k) == if r % 2 == 0 {
            det_partial(rot_to_top(m, r), k)
        } else {
            -det_partial(rot_to_top(m, r), k)
        },
    decreases k,
{
    let rt = rot_to_top(m, r);
    assert(rt.len() == m.len());
    if k > 0 {
        lemma_rot_partial(m, r, k - 1);
        lemma_minor_rot(m, r, k - 1);
        assert(rt[0] == m[r]);
        assert(rt[0][k - 1] * det(minor(rt, 0, k - 1)) == m[r][k - 1] * det(minor(m, r, k - 1)));
        assert(laplace_term(m, r, k - 1) == if r % 2 == 0 {
            laplace_term(rt, 0, k - 1)
        } else {
            -laplace_term(rt, 0, k - 1)
        });
    }
}

/// Laplace expansion along any single row yields the determinant: for
/// every row `r` of the grid, the row-`r` expansion agrees with `det`.
pub proof fn lemma_expand_any_row(m: Seq<Seq<int>>, r: int)
    requires
        0 <= r < m.len(),
    ensures
        det_along_row(m, r) == det(m),
{
    let n = m.len() as int;
    if m.len() >= 2 {
        let rt = rot_to_top(m, r);
        assert(rt.len() == m.len());
        lemma_rot_partial(m, r, n);
        lemma_det_rot(m, r);
        assert(det(rt) == det_partial(rt, n));
        assert(det_along_row(m, r) == row_partial(m, r, n));
    }
}

} // verus!
