//! General laws of the library, stated over the mathematical model and
//! proved once and for all: the determinant of the identity, the vanishing
//! of the determinant when two rows are identical, the add/subtract round
//! trip, and the associativity of the matrix product. The invariance of
//! cofactor expansion in the chosen row is proved in `expansion`.

use vstd::prelude::*;

use vstd::arithmetic::mul::{
    lemma_mul_basics, lemma_mul_is_associative, lemma_mul_is_distributive_add,
    lemma_mul_is_distributive_add_other_way,
};

use crate::expansion::lemma_expand_row_one;
use crate::model::{
    det, det_along_row, det_partial, dotp, elems_in_i64, identity_seq, in_i64, is_grid,
    laplace_term, mat_add, mat_mul, mat_sub, minor, row_partial, skip_idx, sub_fits,
};

verus! {

/// Deleting row 0 and column 0 of the identity leaves the identity one
/// size down.
proof fn lemma_minor_identity(n: nat)
    requires
        n >= 1,
    ensures
        minor(identity_seq(n), 0, 0) == identity_seq((n - 1) as nat),
{
    let id = identity_seq(n);
    let sm = identity_seq((n - 1) as nat);
    assert forall|i: int| 0 <= i < sm.len() implies minor(id, 0, 0)[i] =~= sm[i] by {
        assert forall|j: int| 0 <= j < n - 1 implies minor(id, 0, 0)[i][j] == sm[i][j] by {
            assert(minor(id, 0, 0)[i][j] == id[i + 1][j + 1]);
        }
    }
    assert(minor(id, 0, 0) =~~= sm);
}

/// The first `k` terms of the expansion of the identity along row 0 sum to
/// 1: the term at column 0 is 1 and every later term is 0.
proof fn lemma_identity_partial(n: nat, k: int)
    requires
        n >= 2,
        1 <= k <= n,
    ensures
        det_partial(identity_seq(n), k) == 1,
    decreases n, k,
{
    let id = identity_seq(n);
    if k == 1 {
        lemma_minor_identity(n);
        lemma_det_identity((n - 1) as nat);
        assert(id[0][0] == 1);
        assert(det(minor(id, 0, 0)) == 1);
        lemma_mul_basics(det(minor(id, 0, 0)));
        assert(id[0][0] * det(minor(id, 0, 0)) == 1);
        assert(laplace_term(id, 0, 0) == 1);
        assert(det_partial(id, 0) == 0);
        assert(det_partial(id, 1) == det_partial(id, 0) + laplace_term(id, 0, 0));
    } else {
        lemma_identity_partial(n, k - 1);
        lemma_mul_basics(det(minor(id, 0, k - 1)));
        assert(id[0][k - 1] == 0);
        assert(id[0][k - 1] * det(minor(id, 0, k - 1)) == 0);
        assert(laplace_term(id, 0, k - 1) == 0);
    }
}

/// The determinant of the identity matrix is the multiplicative identity,
/// 1, for every size `n >= 1` -- distinct from this library's convention
/// that the 0 x 0 determinant is the additive identity.
pub proof fn lemma_det_identity(n: nat)
    requires
        n >= 1,
    ensures
        det(identity_seq(n)) == 1,
    decreases n, n + 1,
{
    let id = identity_seq(n);
    if n == 1 {
        assert(id[0][0] == 1);
    } else {
        lemma_identity_partial(n, n as int);
    }
}

/// Adding `b` elementwise and then subtracting it again is the identity on
/// the first operand, and every difference taken on the way back stays
/// within `i64` whenever the first operand's elements do.
pub proof fn lemma_add_sub_roundtrip(a: Seq<Seq<int>>, b: Seq<Seq<int>>, rows: nat, cols: nat)
    requires
        is_grid(a, rows, cols),
        is_grid(b, rows, cols),
        elems_in_i64(a),
    ensures
        mat_sub(mat_add(a, b), b) == a,
        sub_fits(mat_add(a, b), b),
{
    let s = mat_add(a, b);
    assert forall|i: int| 0 <= i < a.len() implies mat_sub(s, b)[i] =~= a[i] by {
        assert(s[i].len() == a[i].len());
        assert forall|j: int| 0 <= j < a[i].len() implies mat_sub(s, b)[i][j] == a[i][j] by {
            assert(s[i][j] == a[i][j] + b[i][j]);
        }
    }
    assert(mat_sub(s, b) =~~= a);
    assert forall|i: int, j: int| 0 <= i < s.len() && 0 <= j < s[i].len() implies in_i64(
        (#[trigger] s[i][j]) - b[i][j],
    ) by {
        assert(s[i][j] == a[i][j] + b[i][j]);
        assert(in_i64(a[i][j]));
    }
}

/// Partial triple sum over `l`: the first `ll` terms of
/// `a[i][l] * (b[l][k] * c[k][j])` for a fixed `k`.
spec fn tri(
    a: Seq<Seq<int>>,
    b: Seq<Seq<int>>,
    c: Seq<Seq<int>>,
    i: int,
    j: int,
    k: int,
    ll: int,
) -> int
    decreases ll,
{
    if ll <= 0 {
        0
    } else {
        tri(a, b, c, i, j, k, ll - 1) + a[i][ll - 1] * (b[ll - 1][k] * c[k][j])
    }
}

/// Triple sum with the outer index `k`: the first `kk` values of
/// `tri(.., k, ll)`.
spec fn tri_sum_k(
    a: Seq<Seq<int>>,
    b: Seq<Seq<int>>,
    c: Seq<Seq<int>>,
    i: int,
    j: int,
    kk: int,
    ll: int,
) -> int
    decreases kk,
{
    if kk <= 0 {
        0
    } else {
        tri_sum_k(a, b, c, i, j, kk - 1, ll) + tri(a, b, c, i, j, kk - 1, ll)
    }
}

/// Partial triple sum over `k`: the first `kk` terms of
/// `a[i][l] * (b[l][k] * c[k][j])` for a fixed `l`.
spec fn tri_l(
    a: Seq<Seq<int>>,
    b: Seq<Seq<int>>,
    c: Seq<Seq<int>>,
    i: int,
    j: int,
    l: int,
    kk: int,
) -> int
    decreases kk,
{
    if kk <= 0 {
        0
    } else {
        tri_l(a, b, c, i, j, l, kk - 1) + a[i][l] * (b[l][kk - 1] * c[kk - 1][j])
    }
}

/// Triple sum with the outer index `l`: the first `ll` values of
/// `tri_l(.., l, kk)`.
spec fn tri_sum_l(
    a: Seq<Seq<int>>,
    b: Seq<Seq<int>>,
    c: Seq<Seq<int>>,
    i: int,
    j: int,
    ll: int,
    kk: int,
) -> int
    decreases ll,
{
    if ll <= 0 {
        0
    } else {
        tri_sum_l(a, b, c, i, j, ll - 1, kk) + tri_l(a, b, c, i, j, ll - 1, kk)
    }
}

/// An inner product of a row of `a` with a column of `b`, multiplied on the
/// right by one element of `c`, distributes into a triple sum.
proof fn lemma_dotp_mul_right(
    a: Seq<Seq<int>>,
    b: Seq<Seq<int>>,
    c: Seq<Seq<int>>,
    i: int,
    j: int,
    k: int,
    ll: int,
)
    ensures
        dotp(a, b, i, k, ll) * c[k][j] == tri(a, b, c, i, j, k, ll),
    decreases ll,
{
    if ll <= 0 {
        lemma_mul_basics(c[k][j]);
    } else {
        lemma_dotp_mul_right(a, b, c, i, j, k, ll - 1);
        lemma_mul_is_distributive_add_other_way(
            c[k][j],
            dotp(a, b, i, k, ll - 1),
            a[i][ll - 1] * b[ll - 1][k],
        );
        lemma_mul_is_associative(a[i][ll - 1], b[ll - 1][k], c[k][j]);
    }
}

/// One element of `a` multiplied by an inner product of a row of `b` with a
/// column of `c` distributes into a triple sum.
proof fn lemma_dotp_mul_left(
    a: Seq<Seq<int>>,
    b: Seq<Seq<int>>,
    c: Seq<Seq<int>>,
    i: int,
    j: int,
    l: int,
    kk: int,
)
    ensures
        a[i][l] * dotp(b, c, l, j, kk) == tri_l(a, b, c, i, j, l, kk),
    decreases kk,
{
    if kk <= 0 {
        lemma_mul_basics(a[i][l]);
    } else {
        lemma_dotp_mul_left(a, b, c, i, j, l, kk - 1);
        lemma_mul_is_distributive_add(
            a[i][l],
            dotp(b, c, l, j, kk - 1),
            b[l][kk - 1] * c[kk - 1][j],
        );
        lemma_mul_is_associative(a[i][l], b[l][kk - 1], c[kk - 1][j]);
    }
}

/// The inner product of a row of `a * b` with a column of `c` is the triple
/// sum with `k` outermost.
proof fn lemma_lhs_element(
    a: Seq<Seq<int>>,
    b: Seq<Seq<int>>,
    c: Seq<Seq<int>>,
    p: nat,
    i: int,
    j: int,
    kk: int,
)
    requires
        0 <= i < a.len(),
        0 <= kk <= p,
    ensures
        dotp(mat_mul(a, b, p), c, i, j, kk) == tri_sum_k(a, b, c, i, j, kk, b.len() as int),
    decreases kk,
{
    if kk > 0 {
        lemma_lhs_element(a, b, c, p, i, j, kk - 1);
        assert(mat_mul(a, b, p)[i][kk - 1] == dotp(a, b, i, kk - 1, b.len() as int));
        lemma_dotp_mul_right(a, b, c, i, j, kk - 1, b.len() as int);
    }
}

/// The inner product of a row of `a` with a column of `b * c` is the triple
/// sum with `l` outermost.
proof fn lemma_rhs_element(
    a: Seq<Seq<int>>,
    b: Seq<Seq<int>>,
    c: Seq<Seq<int>>,
    q: nat,
    i: int,
    j: int,
    ll: int,
)
    requires
        0 <= j < q,
        0 <= ll <= b.len(),
    ensures
        dotp(a, mat_mul(b, c, q), i, j, ll) == tri_sum_l(a, b, c, i, j, ll, c.len() as int),
    decreases ll,
{
    if ll > 0 {
        lemma_rhs_element(a, b, c, q, i, j, ll - 1);
        assert(mat_mul(b, c, q)[ll - 1][j] == dotp(b, c, ll - 1, j, c.len() as int));
        lemma_dotp_mul_left(a, b, c, i, j, ll - 1, c.len() as int);
    }
}

/// A triple sum over no `k` values is 0, whatever the range of `l`.
proof fn lemma_tri_sum_l_zero(
    a: Seq<Seq<int>>,
    b: Seq<Seq<int>>,
    c: Seq<Seq<int>>,
    i: int,
    j: int,
    ll: int,
)
    ensures
        tri_sum_l(a, b, c, i, j, ll, 0) == 0,
    decreases ll,
{
    if ll > 0 {
        lemma_tri_sum_l_zero(a, b, c, i, j, ll - 1);
    }
}

/// Peeling the last `k` value off the `l`-outermost triple sum leaves the
/// sum one `k` shorter plus a `tri` row.
proof fn lemma_tri_sum_l_peel(
    a: Seq<Seq<int>>,
    b: Seq<Seq<int>>,
    c: Seq<Seq<int>>,
    i: int,
    j: int,
    ll: int,
    kk: int,
)
    requires
        kk >= 1,
    ensures
        tri_sum_l(a, b, c, i, j, ll, kk) == tri_sum_l(a, b, c, i, j, ll, kk - 1) + tri(
            a,
            b,
            c,
            i,
            j,
            kk - 1,
            ll,
        ),
    decreases ll,
{
    if ll > 0 {
        lemma_tri_sum_l_peel(a, b, c, i, j, ll - 1, kk);
    }
}

/// The two triple sums agree: summing over `k` outermost equals summing
/// over `l` outermost.
proof fn lemma_tri_sum_swap(
    a: Seq<Seq<int>>,
    b: Seq<Seq<int>>,
    c: Seq<Seq<int>>,
    i: int,
    j: int,
    kk: int,
    ll: int,
)
    requires
        kk >= 0,
    ensures
        tri_sum_k(a, b, c, i, j, kk, ll) == tri_sum_l(a, b, c, i, j, ll, kk),
    decreases kk,
{
    if kk == 0 {
        lemma_tri_sum_l_zero(a, b, c, i, j, ll);
    } else {
        lemma_tri_sum_swap(a, b, c, i, j, kk - 1, ll);
        lemma_tri_sum_l_peel(a, b, c, i, j, ll, kk);
    }
}

/// The matrix product is associative: multiplying `a * b` by `c` gives the
/// same matrix as multiplying `a` by `b * c`, for any shape-compatible
/// `a` (`m x n`), `b` (`n x p`) and `c` (`p x q`).
pub proof fn lemma_mul_assoc(
    a: Seq<Seq<int>>,
    b: Seq<Seq<int>>,
    c: Seq<Seq<int>>,
    m: nat,
    n: nat,
    p: nat,
    q: nat,
)
    requires
        is_grid(a, m, n),
        is_grid(b, n, p),
        is_grid(c, p, q),
    ensures
        mat_mul(mat_mul(a, b, p), c, q) == mat_mul(a, mat_mul(b, c, q), q),
{
    let ab = mat_mul(a, b, p);
    let bc = mat_mul(b, c, q);
    let lhs = mat_mul(ab, c, q);
    let rhs = mat_mul(a, bc, q);
    assert forall|i: int| 0 <= i < m implies lhs[i] =~= rhs[i] by {
        assert forall|j: int| 0 <= j < q implies lhs[i][j] == rhs[i][j] by {
            lemma_lhs_element(a, b, c, p, i, j, p as int);
            lemma_tri_sum_swap(a, b, c, i, j, p as int, n as int);
            lemma_rhs_element(a, b, c, q, i, j, n as int);
            assert(lhs[i][j] == dotp(ab, c, i, j, c.len() as int));
            assert(rhs[i][j] == dotp(a, bc, i, j, bc.len() as int));
        }
    }
    assert(lhs =~~= rhs);
}

/// When every minor along row `r` below column `k` has determinant 0, the
/// partial expansion along row `r` sums to 0.
proof fn lemma_partial_zero(m: Seq<Seq<int>>, r: int, k: int)
    requires
        forall|x: int| 0 <= x < k ==> det(#[trigger] minor(m, r, x)) == 0,
    ensures
        row_partial(m, r, k) == 0,
    decreases k,
{
    if k > 0 && m.len() >= 2 {
        lemma_partial_zero(m, r, k - 1);
        lemma_mul_basics(m[r][k - 1]);
        assert(m[r][k - 1] * det(minor(m, r, k - 1)) == 0);
        assert(laplace_term(m, r, k - 1) == 0);
    }
}

/// When the two top rows are equal, deleting row 0 or row 1 leaves the
/// same minor.
proof fn lemma_minor_top_equal(m: Seq<Seq<int>>, x: int)
    requires
        m.len() >= 2,
        m[0] == m[1],
    ensures
        minor(m, 1, x) == minor(m, 0, x),
{
    let a = minor(m, 1, x);
    let b = minor(m, 0, x);
    assert forall|i: int| 0 <= i < b.len() implies a[i] =~= b[i] by {
        assert forall|j: int| 0 <= j < b.len() implies a[i][j] == b[i][j] by {
            if i == 0 {
                assert(a[i][j] == m[0][skip_idx(j, x)]);
                assert(b[i][j] == m[1][skip_idx(j, x)]);
            } else {
                assert(a[i][j] == m[i + 1][skip_idx(j, x)]);
                assert(b[i][j] == m[i + 1][skip_idx(j, x)]);
            }
        }
    }
    assert(a =~~= b);
}

/// When the two top rows are equal, the expansions along rows 0 and 1 run
/// through the same minors with opposite signs.
proof fn lemma_top_rows_negate(m: Seq<Seq<int>>, k: int)
    requires
        m.len() >= 2,
        m[0] == m[1],
    ensures
        row_partial(m, 1, k) == -det_partial(m, k),
    decreases k,
{
    if k > 0 {
        lemma_top_rows_negate(m, k - 1);
        lemma_minor_top_equal(m, k - 1);
        assert(m[1][k - 1] == m[0][k - 1]);
        assert(m[1][k - 1] * det(minor(m, 1, k - 1)) == m[0][k - 1] * det(minor(m, 0, k - 1)));
        assert(laplace_term(m, 1, k - 1) == -laplace_term(m, 0, k - 1));
    }
}

/// A matrix with two identical rows has determinant 0.
pub proof fn lemma_det_identical_rows(m: Seq<Seq<int>>, i: int, j: int)
    requires
        0 <= i < j < m.len(),
        m[i] == m[j],
    ensures
        det(m) == 0,
    decreases m.len(),
{
    let n = m.len() as int;
    if i == 0 && j == 1 {
        lemma_expand_row_one(m);
        lemma_top_rows_negate(m, n);
        assert(det_along_row(m, 1) == row_partial(m, 1, n));
        assert(det(m) == det_partial(m, n));
    } else if i == 0 {
        lemma_expand_row_one(m);
        assert forall|x: int| 0 <= x < n implies det(#[trigger] minor(m, 1, x)) == 0 by {
            let mn = minor(m, 1, x);
            assert forall|c: int| 0 <= c < mn[0].len() implies mn[0][c] == mn[j - 1][c] by {
                assert(mn[0][c] == m[0][skip_idx(c, x)]);
                assert(mn[j - 1][c] == m[j][skip_idx(c, x)]);
            }
            assert(mn[0] =~= mn[j - 1]);
            lemma_det_identical_rows(mn, 0, j - 1);
        }
        lemma_partial_zero(m, 1, n);
        assert(det_along_row(m, 1) == row_partial(m, 1, n));
    } else {
        assert forall|x: int| 0 <= x < n implies det(#[trigger] minor(m, 0, x)) == 0 by {
            let mn = minor(m, 0, x);
            assert forall|c: int| 0 <= c < mn[i - 1].len() implies (#[trigger] mn[i - 1][c]) == mn[j
                - 1][c] by {
                assert(mn[i - 1][c] == m[i][skip_idx(c, x)]);
                assert(mn[j - 1][c] == m[j][skip_idx(c, x)]);
            }
            assert(mn[i - 1] =~= mn[j - 1]);
            lemma_det_identical_rows(mn, i - 1, j - 1);
        }
        lemma_partial_zero(m, 0, n);
        lemma_row_partial_zero(m, n);
        assert(det(m) == det_partial(m, n));
    }
}

/// Partial sums of the expansion along row 0 agree with the determinant's
/// own partial sums.
proof fn lemma_row_partial_zero(m: Seq<Seq<int>>, k: int)
    ensures
        row_partial(m, 0, k) == det_partial(m, k),
    decreases k,
{
    if k > 0 {
        lemma_row_partial_zero(m, k - 1);
    }
}

} // verus!
