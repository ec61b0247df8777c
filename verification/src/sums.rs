//! Finite double sums of integers and the few facts about them that the
//! algebra of the transform needs.
use vstd::prelude::*;

verus! {

/// The sum of `t(j, lo + l)` over `0 <= l < m`.
pub open spec fn row_sum(t: spec_fn(int, int) -> int, j: int, lo: int, m: int) -> int
    decreases m,
{
    if m <= 0 {
        0
    } else {
        row_sum(t, j, lo, m - 1) + t(j, lo + m - 1)
    }
}

/// The sum of `t(jo + j, lo + l)` over `0 <= j < n` and `0 <= l < m`.
pub open spec fn sum2(t: spec_fn(int, int) -> int, jo: int, n: int, lo: int, m: int) -> int
    decreases n,
{
    if n <= 0 {
        0
    } else {
        sum2(t, jo, n - 1, lo, m) + row_sum(t, jo + n - 1, lo, m)
    }
}

/// A row cut in two.
pub proof fn lemma_row_split(t: spec_fn(int, int) -> int, j: int, lo: int, a: int, b: int)
    requires
        0 <= a,
        0 <= b,
    ensures
        row_sum(t, j, lo, a + b) == row_sum(t, j, lo, a) + row_sum(t, j, lo + a, b),
    decreases b,
{
    if b > 0 {
        lemma_row_split(t, j, lo, a, b - 1);
        assert(row_sum(t, j, lo, a + b) == row_sum(t, j, lo, a + b - 1) + t(j, lo + a + b - 1));
        assert(row_sum(t, j, lo + a, b) == row_sum(t, j, lo + a, b - 1) + t(j, lo + a + b - 1));
    }
}

/// A double sum cut in two along its second index.
pub proof fn lemma_sum2_split_cols(
    t: spec_fn(int, int) -> int,
    jo: int,
    n: int,
    lo: int,
    a: int,
    b: int,
)
    requires
        0 <= a,
        0 <= b,
    ensures
        sum2(t, jo, n, lo, a + b) == sum2(t, jo, n, lo, a) + sum2(t, jo, n, lo + a, b),
    decreases n,
{
    if n > 0 {
        lemma_sum2_split_cols(t, jo, n - 1, lo, a, b);
        lemma_row_split(t, jo + n - 1, lo, a, b);
    }
}

/// A double sum cut in two along its first index.
pub proof fn lemma_sum2_split_rows(
    t: spec_fn(int, int) -> int,
    jo: int,
    a: int,
    b: int,
    lo: int,
    m: int,
)
    requires
        0 <= a,
        0 <= b,
    ensures
        sum2(t, jo, a + b, lo, m) == sum2(t, jo, a, lo, m) + sum2(t, jo + a, b, lo, m),
    decreases b,
{
    if b > 0 {
        lemma_sum2_split_rows(t, jo, a, b - 1, lo, m);
        assert(sum2(t, jo, a + b, lo, m) == sum2(t, jo, a + b - 1, lo, m) + row_sum(
            t,
            jo + a + b - 1,
            lo,
            m,
        ));
        assert(sum2(t, jo + a, b, lo, m) == sum2(t, jo + a, b - 1, lo, m) + row_sum(
            t,
            jo + a + b - 1,
            lo,
            m,
        ));
    }
}

/// Rows whose terms agree modulo 3329 have sums that agree modulo 3329.
pub proof fn lemma_row_congruent(
    t: spec_fn(int, int) -> int,
    tj: int,
    tl: int,
    u: spec_fn(int, int) -> int,
    uj: int,
    ul: int,
    m: int,
)
    requires
        forall|l: int| 0 <= l < m ==> (#[trigger] t(tj, tl + l) - u(uj, ul + l)) % 3329 == 0,
    ensures
        (row_sum(t, tj, tl, m) - row_sum(u, uj, ul, m)) % 3329 == 0,
    decreases m,
{
    if m > 0 {
        lemma_row_congruent(t, tj, tl, u, uj, ul, m - 1);
        assert((t(tj, tl + (m - 1)) - u(uj, ul + (m - 1))) % 3329 == 0);
    }
}

/// Double sums whose terms agree modulo 3329 agree modulo 3329.
pub proof fn lemma_sum2_congruent(
    t: spec_fn(int, int) -> int,
    tj: int,
    tl: int,
    u: spec_fn(int, int) -> int,
    uj: int,
    ul: int,
    n: int,
    m: int,
)
    requires
        forall|j: int, l: int|
            0 <= j < n && 0 <= l < m ==> (#[trigger] t(tj + j, tl + l) - u(uj + j, ul + l)) % 3329
                == 0,
    ensures
        (sum2(t, tj, n, tl, m) - sum2(u, uj, n, ul, m)) % 3329 == 0,
    decreases n,
{
    if n > 0 {
        lemma_sum2_congruent(t, tj, tl, u, uj, ul, n - 1, m);
        assert forall|l: int| 0 <= l < m implies (#[trigger] t(tj + n - 1, tl + l) - u(
            uj + n - 1,
            ul + l,
        )) % 3329 == 0 by {
            assert((t(tj + (n - 1), tl + l) - u(uj + (n - 1), ul + l)) % 3329 == 0);
        }
        lemma_row_congruent(t, tj + n - 1, tl, u, uj + n - 1, ul, m);
    }
}

/// The row sum of `a + c * b` is the row sum of `a` plus `c` times the row
/// sum of `b`.
pub proof fn lemma_row_linear(
    v: spec_fn(int, int) -> int,
    a: spec_fn(int, int) -> int,
    b: spec_fn(int, int) -> int,
    c: int,
    j: int,
    m: int,
)
    requires
        forall|l: int| 0 <= l < m ==> #[trigger] v(j, l) == a(j, l) + c * b(j, l),
    ensures
        row_sum(v, j, 0, m) == row_sum(a, j, 0, m) + c * row_sum(b, j, 0, m),
    decreases m,
{
    if m > 0 {
        lemma_row_linear(v, a, b, c, j, m - 1);
        assert(v(j, m - 1) == a(j, m - 1) + c * b(j, m - 1));
        assert(c * (row_sum(b, j, 0, m - 1) + b(j, 0 + m - 1)) == c * row_sum(b, j, 0, m - 1) + c
            * b(j, m - 1)) by (nonlinear_arith);
    } else {
        assert(c * 0 == 0);
    }
}

/// The double sum of `a + c * b` is the double sum of `a` plus `c` times the
/// double sum of `b`.
pub proof fn lemma_sum2_linear(
    v: spec_fn(int, int) -> int,
    a: spec_fn(int, int) -> int,
    b: spec_fn(int, int) -> int,
    c: int,
    n: int,
    m: int,
)
    requires
        forall|j: int, l: int|
            0 <= j < n && 0 <= l < m ==> #[trigger] v(j, l) == a(j, l) + c * b(j, l),
    ensures
        sum2(v, 0, n, 0, m) == sum2(a, 0, n, 0, m) + c * sum2(b, 0, n, 0, m),
    decreases n,
{
    if n > 0 {
        lemma_sum2_linear(v, a, b, c, n - 1, m);
        lemma_row_linear(v, a, b, c, n - 1, m);
        assert(c * (sum2(b, 0, n - 1, 0, m) + row_sum(b, 0 + n - 1, 0, m)) == c * sum2(
            b,
            0,
            n - 1,
            0,
            m,
        ) + c * row_sum(b, n - 1, 0, m)) by (nonlinear_arith);
    } else {
        assert(c * 0 == 0);
    }
}

/// Four rows folded into one.
proof fn lemma_row_fold(
    v: spec_fn(int, int) -> int,
    t: spec_fn(int, int) -> int,
    j: int,
    n: int,
    m: int,
    width: int,
)
    requires
        0 <= width <= m,
        forall|l: int|
            0 <= l < width ==> #[trigger] v(j, l) == t(j, l) + t(j, l + m) + t(j + n, l) + t(
                j + n,
                l + m,
            ),
    ensures
        row_sum(v, j, 0, width) == row_sum(t, j, 0, width) + row_sum(t, j, m, width) + row_sum(
            t,
            j + n,
            0,
            width,
        ) + row_sum(t, j + n, m, width),
    decreases width,
{
    if width > 0 {
        lemma_row_fold(v, t, j, n, m, width - 1);
        assert(v(j, width - 1) == t(j, width - 1) + t(j, width - 1 + m) + t(j + n, width - 1) + t(
            j + n,
            width - 1 + m,
        ));
        assert(m + width - 1 == width - 1 + m);
    }
}

/// Four quadrants folded into one: the double sum over `2n` by `2m` is the
/// double sum over `n` by `m` of the four terms that lie `n` and `m` apart.
pub proof fn lemma_sum2_fold(
    v: spec_fn(int, int) -> int,
    t: spec_fn(int, int) -> int,
    n: int,
    m: int,
)
    requires
        0 <= n,
        0 <= m,
        forall|j: int, l: int|
            0 <= j < n && 0 <= l < m ==> #[trigger] v(j, l) == t(j, l) + t(j, l + m) + t(j + n, l)
                + t(j + n, l + m),
    ensures
        sum2(t, 0, 2 * n, 0, 2 * m) == sum2(v, 0, n, 0, m),
{
    lemma_sum2_split_rows(t, 0, n, n, 0, 2 * m);
    lemma_sum2_split_cols(t, 0, n, 0, m, m);
    lemma_sum2_split_cols(t, n, n, 0, m, m);
    lemma_sum2_quadrants(v, t, n, m, n);
    assert(n + n == 2 * n && m + m == 2 * m);
}

/// The first `height` rows of the folded sum.
proof fn lemma_sum2_quadrants(
    v: spec_fn(int, int) -> int,
    t: spec_fn(int, int) -> int,
    n: int,
    m: int,
    height: int,
)
    requires
        0 <= height <= n,
        0 <= m,
        forall|j: int, l: int|
            0 <= j < n && 0 <= l < m ==> #[trigger] v(j, l) == t(j, l) + t(j, l + m) + t(j + n, l)
                + t(j + n, l + m),
    ensures
        sum2(v, 0, height, 0, m) == sum2(t, 0, height, 0, m) + sum2(t, 0, height, m, m) + sum2(
            t,
            n,
            height,
            0,
            m,
        ) + sum2(t, n, height, m, m),
    decreases height,
{
    if height > 0 {
        lemma_sum2_quadrants(v, t, n, m, height - 1);
        lemma_row_fold(v, t, height - 1, n, m, m);
        assert(n + height - 1 == height - 1 + n);
    }
}


/// A row with its indices exchanged is a column.
proof fn lemma_row_transpose(
    t: spec_fn(int, int) -> int,
    u: spec_fn(int, int) -> int,
    j: int,
    n: int,
    m: int,
)
    requires
        0 <= j < m,
        forall|a: int, b: int| 0 <= a < n && 0 <= b < m ==> #[trigger] t(a, b) == u(b, a),
    ensures
        sum2(t, 0, n, j, 1) == row_sum(u, j, 0, n),
    decreases n,
{
    if n > 0 {
        lemma_row_transpose(t, u, j, n - 1, m);
        assert(row_sum(t, 0 + n - 1, j, 1) == row_sum(t, 0 + n - 1, j, 0) + t(n - 1, j + 1 - 1));
        assert(t(n - 1, j) == u(j, n - 1));
    }
}

/// Exchanging the two indices of a double sum does not change it.
pub proof fn lemma_sum2_transpose(
    t: spec_fn(int, int) -> int,
    u: spec_fn(int, int) -> int,
    n: int,
    m: int,
)
    requires
        0 <= n,
        0 <= m,
        forall|a: int, b: int| 0 <= a < n && 0 <= b < m ==> #[trigger] t(a, b) == u(b, a),
    ensures
        sum2(t, 0, n, 0, m) == sum2(u, 0, m, 0, n),
    decreases m,
{
    if m > 0 {
        lemma_sum2_transpose(t, u, n, m - 1);
        lemma_sum2_split_cols(t, 0, n, 0, m - 1, 1);
        lemma_row_transpose(t, u, m - 1, n, m);
    } else {
        lemma_sum2_no_cols(t, n);
    }
}

/// A double sum over no columns is zero.
proof fn lemma_sum2_no_cols(t: spec_fn(int, int) -> int, n: int)
    ensures
        sum2(t, 0, n, 0, 0) == 0,
    decreases n,
{
    if n > 0 {
        lemma_sum2_no_cols(t, n - 1);
    }
}

/// A double sum is the sum of its row sums.
pub proof fn lemma_sum2_of_rows(
    t: spec_fn(int, int) -> int,
    rows: spec_fn(int, int) -> int,
    n: int,
    m: int,
)
    requires
        forall|i: int| 0 <= i < n ==> #[trigger] rows(0, i) == row_sum(t, i, 0, m),
    ensures
        sum2(t, 0, n, 0, m) == row_sum(rows, 0, 0, n),
    decreases n,
{
    if n > 0 {
        lemma_sum2_of_rows(t, rows, n - 1, m);
        assert(rows(0, n - 1) == row_sum(t, n - 1, 0, m));
    }
}


/// The row sum of `c * b` is `c` times the row sum of `b`.
pub proof fn lemma_row_scale(
    v: spec_fn(int, int) -> int,
    vj: int,
    b: spec_fn(int, int) -> int,
    bj: int,
    c: int,
    m: int,
)
    requires
        forall|l: int| 0 <= l < m ==> #[trigger] v(vj, l) == c * b(bj, l),
    ensures
        row_sum(v, vj, 0, m) == c * row_sum(b, bj, 0, m),
    decreases m,
{
    if m > 0 {
        lemma_row_scale(v, vj, b, bj, c, m - 1);
        assert(v(vj, m - 1) == c * b(bj, m - 1));
        assert(c * (row_sum(b, bj, 0, m - 1) + b(bj, 0 + m - 1)) == c * row_sum(b, bj, 0, m - 1) + c
            * b(bj, m - 1)) by (nonlinear_arith);
    } else {
        assert(c * 0 == 0);
    }
}

} // verus!
