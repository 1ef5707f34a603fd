//! Index arithmetic of the stored Legendre tables for scalar transforms on
//! a Gaussian grid.
//!
//! The workspace holds, after the quadrature weights and the zonal and first
//! sectoral tables, three coefficient arrays `abel`, `bbel`, `cbel` of the
//! three-term recurrence.  The coefficient belonging to the wavenumber pair
//! `(m, n)` with `2 <= m <= min(n, l)` sits at a position given by
//! [`idx_tri`] when `n < l` (the triangular part) and by [`idx_rect`] when
//! `n >= l` (the rectangular part).  The laws at the end of this file show
//! that these positions enumerate `0 .. scalar_labc(nlat, l)` row by row
//! without gaps or collisions.
use vstd::prelude::*;

verus! {

/// The smaller of two integers.
pub open spec fn min_int(a: int, b: int) -> int {
    if a <= b {
        a
    } else {
        b
    }
}

/// The larger of two integers.
pub open spec fn max_int(a: int, b: int) -> int {
    if a >= b {
        a
    } else {
        b
    }
}

/// `a - b` clipped at zero.
pub open spec fn sat_sub(a: int, b: int) -> int {
    if a >= b {
        a - b
    } else {
        0
    }
}

/// Number of zonal wavenumbers `l = min((nlon + 2) / 2, nlat)`.
pub open spec fn spec_scalar_l(nlat: int, nlon: int) -> int {
    min_int((nlon + 2) / 2, nlat)
}

/// Number of latitudes in one hemisphere, equator included.
pub open spec fn spec_scalar_late(nlat: int) -> int {
    (nlat + 1) / 2
}

/// Length of each recurrence coefficient array.
pub open spec fn spec_scalar_labc(nlat: int, l: int) -> int {
    sat_sub(l, 1) * l / 2 + sat_sub(nlat, l) * sat_sub(l, 1)
}

/// Number of associated Legendre functions `P(m, n)` with `m < l`, `n < nlat`.
pub open spec fn spec_scalar_pmn_count(nlat: int, l: int) -> int {
    l * (2 * nlat - l + 1) / 2
}

/// Position of `(m, n)` in the triangular part of the coefficient arrays.
pub open spec fn spec_idx_tri(m: int, n: int) -> int {
    (n - 2) * (n - 1) / 2 + (m - 2)
}

/// Position of `(m, n)` in the rectangular part of the coefficient arrays.
pub open spec fn spec_idx_rect(l: int, m: int, n: int) -> int {
    (l - 1) * (l - 2) / 2 + (n - l) * (l - 1) + (m - 2)
}

/// Position of `P(m, np1 - 1)` among the stored functions of all orders.
pub open spec fn spec_idx_pmn(nlat: int, m: int, np1: int) -> int {
    m * (2 * nlat - m - 1) / 2 + np1
}

/// Computes `l = min((nlon + 2) / 2, nlat)`, the number of zonal wavenumbers
/// that a grid with `nlat` latitudes and `nlon` longitudes resolves.
pub fn scalar_l(nlat: usize, nlon: usize) -> (l: usize)
    requires
        nlon + 2 <= usize::MAX,
    ensures
        l == spec_scalar_l(nlat as int, nlon as int),
{
    let half = (nlon + 2) / 2;
    if half <= nlat {
        half
    } else {
        nlat
    }
}

/// Computes `(nlat + 1) / 2`, the latitudes of one hemisphere.
pub fn scalar_late(nlat: usize) -> (late: usize)
    requires
        nlat + 1 <= usize::MAX,
    ensures
        late == spec_scalar_late(nlat as int),
{
    (nlat + 1) / 2
}

/// Computes the length of each recurrence coefficient array,
/// `(l - 1) * l / 2 + (nlat - l) * (l - 1)` with both differences clipped at zero.
pub fn scalar_labc(nlat: usize, l: usize) -> (labc: usize)
    requires
        sat_sub(l as int, 1) * l <= usize::MAX,
        sat_sub(nlat as int, l as int) * sat_sub(l as int, 1) <= usize::MAX,
        spec_scalar_labc(nlat as int, l as int) <= usize::MAX,
    ensures
        labc == spec_scalar_labc(nlat as int, l as int),
{
    let lm1 = l.saturating_sub(1);
    let tri = lm1 * l / 2;
    let rect = nlat.saturating_sub(l) * lm1;
    tri + rect
}

/// Computes `l * (2 * nlat - l + 1) / 2`, the number of stored Legendre
/// functions of the orders below `l`.
pub fn scalar_pmn_count(nlat: usize, l: usize) -> (count: usize)
    requires
        l <= 2 * nlat,
        2 * nlat + 1 <= usize::MAX,
        l * (2 * nlat - l + 1) <= usize::MAX,
    ensures
        count == spec_scalar_pmn_count(nlat as int, l as int),
{
    l * (2 * nlat - l + 1) / 2
}

/// Position of the recurrence coefficient of `(m, n)` when `n < l`.
pub fn idx_tri(m: usize, n: usize) -> (idx: usize)
    requires
        2 <= m,
        2 <= n,
        (n - 2) * (n - 1) <= usize::MAX,
        spec_idx_tri(m as int, n as int) <= usize::MAX,
    ensures
        idx == spec_idx_tri(m as int, n as int),
{
    (n - 2) * (n - 1) / 2 + (m - 2)
}

/// Position of the recurrence coefficient of `(m, n)` when `n >= l`.
pub fn idx_rect(l: usize, m: usize, n: usize) -> (idx: usize)
    requires
        2 <= l <= n,
        2 <= m,
        (l - 1) * (l - 2) <= usize::MAX,
        (n - l) * (l - 1) <= usize::MAX,
        spec_idx_rect(l as int, m as int, n as int) <= usize::MAX,
    ensures
        idx == spec_idx_rect(l as int, m as int, n as int),
{
    (l - 1) * (l - 2) / 2 + (n - l) * (l - 1) + (m - 2)
}

/// Position (one-based in `np1`) of `P(m, np1 - 1)` in the table of all orders.
pub fn idx_pmn(nlat: usize, m: usize, np1: usize) -> (idx: usize)
    requires
        m + 1 <= 2 * nlat,
        2 * nlat <= usize::MAX,
        m * (2 * nlat - m - 1) <= usize::MAX,
        spec_idx_pmn(nlat as int, m as int, np1 as int) <= usize::MAX,
    ensures
        idx == spec_idx_pmn(nlat as int, m as int, np1 as int),
{
    m * (2 * nlat - m - 1) / 2 + np1
}

/// The coefficient position of `(m, n)` as the table builder chooses it:
/// rectangular when `n >= l`, triangular otherwise.
pub open spec fn abel_index(l: int, m: int, n: int) -> int {
    if n >= l {
        spec_idx_rect(l, m, n)
    } else {
        spec_idx_tri(m, n)
    }
}

/// The domain of the recurrence coefficients: `2 <= m <= min(n, l)`, `n <= nlat`.
pub open spec fn abel_domain(nlat: int, l: int, m: int, n: int) -> bool {
    2 <= m && m <= n && m <= l && n <= nlat
}

/// Position at which row `n` of the coefficient arrays begins.
pub open spec fn abel_row_start(l: int, n: int) -> int {
    abel_index(l, 2, n)
}

/// Number of coefficients in row `n`.
pub open spec fn abel_row_len(l: int, n: int) -> int {
    min_int(n, l) - 1
}

/// The product of two consecutive integers is even.
pub proof fn lemma_consecutive_product_even(a: int, b: int)
    requires
        b == a + 1,
    ensures
        (a * b) % 2 == 0,
{
    let q = a / 2;
    if a % 2 == 0 {
        assert(a * b == 2 * (q * b)) by (nonlinear_arith)
            requires
                a == 2 * q,
        ;
    } else {
        assert(a * b == 2 * (a * (q + 1))) by (nonlinear_arith)
            requires
                a == 2 * q + 1,
                b == a + 1,
        ;
    }
}

/// `(k + 1) * (k + 2) / 2 == k * (k + 1) / 2 + (k + 1)`, written over the
/// factors that the callers use.
proof fn lemma_half_product_step(a: int, b: int, c: int)
    requires
        b == a + 1,
        c == b + 1,
    ensures
        b * c / 2 == a * b / 2 + b,
{
    lemma_consecutive_product_even(a, b);
    assert(b * c == a * b + 2 * b) by (nonlinear_arith)
        requires
            b == a + 1,
            c == b + 1,
    ;
}

/// Rows follow each other without gap: row `n + 1` starts where row `n` ends.
proof fn lemma_abel_rows_contiguous(l: int, n: int)
    requires
        2 <= l,
        2 <= n,
    ensures
        abel_row_start(l, n + 1) == abel_row_start(l, n) + abel_row_len(l, n),
{
    if n + 1 < l {
        lemma_half_product_step(n - 2, n - 1, n);
        assert(abel_row_start(l, n + 1) == (n - 1) * n / 2);
        assert(abel_row_start(l, n) == (n - 2) * (n - 1) / 2);
    } else if n + 1 == l {
        lemma_half_product_step(n - 2, n - 1, n);
        assert((l - 1) * (l - 2) == (n - 1) * n) by (nonlinear_arith)
            requires
                l == n + 1,
        ;
        assert((l - l) * (l - 1) == 0);
        assert(abel_row_start(l, n + 1) == (l - 1) * (l - 2) / 2);
        assert(abel_row_start(l, n) == (n - 2) * (n - 1) / 2);
    } else {
        assert((n + 1 - l) * (l - 1) == (n - l) * (l - 1) + (l - 1)) by (nonlinear_arith);
        assert(abel_row_start(l, n + 1) == (l - 1) * (l - 2) / 2 + (n + 1 - l) * (l - 1));
        assert(abel_row_start(l, n) == (l - 1) * (l - 2) / 2 + (n - l) * (l - 1));
    }
}

proof fn lemma_abel_row_start_monotone(l: int, n: int, n2: int)
    requires
        2 <= l,
        2 <= n <= n2,
    ensures
        abel_row_start(l, n) + (if n < n2 { abel_row_len(l, n) } else { 0 }) <= abel_row_start(
            l,
            n2,
        ),
    decreases n2 - n,
{
    if n < n2 {
        lemma_abel_rows_contiguous(l, n);
        if n + 1 < n2 {
            lemma_abel_row_start_monotone(l, n + 1, n2);
        }
    }
}

/// The coefficient arrays are filled row by row: within a row the position
/// grows with `m` one by one, and every position of an earlier row lies below
/// every position of a later row.  So the positions of distinct pairs differ.
pub proof fn lemma_abel_index_increasing(nlat: int, l: int, m: int, n: int, m2: int, n2: int)
    requires
        2 <= l <= nlat,
        abel_domain(nlat, l, m, n),
        abel_domain(nlat, l, m2, n2),
        n < n2 || (n == n2 && m < m2),
    ensures
        abel_index(l, m, n) < abel_index(l, m2, n2),
{
    if n < n2 {
        lemma_abel_row_start_monotone(l, n, n2);
        assert(abel_index(l, m, n) == abel_row_start(l, n) + (m - 2));
        assert(abel_index(l, m2, n2) == abel_row_start(l, n2) + (m2 - 2));
    }
}

/// The rows `2 ..= nlat` together hold `scalar_labc(nlat, l)` positions: the
/// row after the last one would start at the table's length.
proof fn lemma_abel_rows_end(nlat: int, l: int)
    requires
        2 <= l <= nlat,
    ensures
        abel_row_start(l, nlat + 1) == spec_scalar_labc(nlat, l),
{
    assert(spec_idx_rect(l, 2, nlat + 1) == (l - 1) * (l - 2) / 2 + (nlat + 1 - l) * (l - 1));
    lemma_consecutive_product_even(l - 2, l - 1);
    lemma_consecutive_product_even(l - 1, l);
    assert((l - 1) * l == (l - 2) * (l - 1) + 2 * (l - 1)) by (nonlinear_arith);
    assert((l - 1) * (l - 2) == (l - 2) * (l - 1)) by (nonlinear_arith);
    assert((nlat + 1 - l) * (l - 1) == (nlat - l) * (l - 1) + (l - 1)) by (nonlinear_arith);
}

/// Every coefficient position lies in `0 .. scalar_labc(nlat, l)`.
pub proof fn lemma_abel_index_in_range(nlat: int, l: int, m: int, n: int)
    requires
        2 <= l <= nlat,
        abel_domain(nlat, l, m, n),
    ensures
        0 <= abel_index(l, m, n) < spec_scalar_labc(nlat, l),
{
    lemma_abel_row_start_nonneg(l, n);
    lemma_abel_rows_contiguous(l, nlat);
    lemma_abel_row_start_monotone(l, n, nlat + 1);
    lemma_abel_rows_end(nlat, l);
}

/// Position `p` of the coefficient arrays belongs to some pair `(m, n)` of
/// the domain.
pub open spec fn abel_position_used(nlat: int, l: int, p: int) -> bool {
    exists|m: int, n: int| abel_domain(nlat, l, m, n) && #[trigger] abel_index(l, m, n) == p
}

/// A position at or after the start of row `n` and before the end of the
/// table belongs to a pair of row `n` or of a later row.
proof fn lemma_abel_onto_from(nlat: int, l: int, n: int, p: int)
    requires
        2 <= l <= nlat,
        2 <= n <= nlat + 1,
        abel_row_start(l, n) <= p < spec_scalar_labc(nlat, l),
    ensures
        abel_position_used(nlat, l, p),
    decreases nlat + 1 - n,
{
    lemma_abel_rows_end(nlat, l);
    if n == nlat + 1 {
        assert(false);
    } else {
        lemma_abel_rows_contiguous(l, n);
        if p < abel_row_start(l, n + 1) {
            let m = p - abel_row_start(l, n) + 2;
            assert(abel_domain(nlat, l, m, n));
            assert(abel_index(l, m, n) == abel_row_start(l, n) + (m - 2));
        } else {
            lemma_abel_onto_from(nlat, l, n + 1, p);
        }
    }
}

/// Every position `0 .. scalar_labc(nlat, l)` of the coefficient arrays
/// belongs to a pair `(m, n)` of the domain: the table is filled without gaps.
pub proof fn lemma_abel_index_onto(nlat: int, l: int, p: int)
    requires
        2 <= l <= nlat,
        0 <= p < spec_scalar_labc(nlat, l),
    ensures
        abel_position_used(nlat, l, p),
{
    assert(abel_row_start(l, 2) == 0) by {
        if l == 2 {
            assert((l - 1) * (l - 2) == 0);
            assert((2 - l) * (l - 1) == 0);
        } else {
            assert((2 - 2) * (2 - 1) == 0);
        }
    }
    lemma_abel_onto_from(nlat, l, 2, p);
}

/// The positions of the recurrence coefficients: the pairs `(m, n)` with
/// `2 <= m <= min(n, l)` and `n <= nlat` map one to one onto
/// `0 .. scalar_labc(nlat, l)`, so the tables are filled without gaps or
/// overlaps.
pub proof fn lemma_abel_index_bijective(nlat: int, l: int)
    requires
        2 <= l <= nlat,
    ensures
        forall|m: int, n: int|
            abel_domain(nlat, l, m, n) ==> 0 <= #[trigger] abel_index(l, m, n) < spec_scalar_labc(
                nlat,
                l,
            ),
        forall|m: int, n: int, m2: int, n2: int|
            abel_domain(nlat, l, m, n) && abel_domain(nlat, l, m2, n2) && #[trigger] abel_index(
                l,
                m,
                n,
            ) == #[trigger] abel_index(l, m2, n2) ==> m == m2 && n == n2,
        forall|p: int|
            0 <= p < spec_scalar_labc(nlat, l) ==> #[trigger] abel_position_used(nlat, l, p),
{
    assert forall|m: int, n: int| abel_domain(nlat, l, m, n) implies 0 <= #[trigger] abel_index(
        l,
        m,
        n,
    ) < spec_scalar_labc(nlat, l) by {
        lemma_abel_index_in_range(nlat, l, m, n);
    }
    assert forall|m: int, n: int, m2: int, n2: int|
        abel_domain(nlat, l, m, n) && abel_domain(nlat, l, m2, n2) && #[trigger] abel_index(
            l,
            m,
            n,
        ) == #[trigger] abel_index(l, m2, n2) implies m == m2 && n == n2 by {
        if n < n2 || (n == n2 && m < m2) {
            lemma_abel_index_increasing(nlat, l, m, n, m2, n2);
        } else if n2 < n || (n == n2 && m2 < m) {
            lemma_abel_index_increasing(nlat, l, m2, n2, m, n);
        }
    }
    assert forall|p: int| 0 <= p < spec_scalar_labc(nlat, l) implies #[trigger] abel_position_used(
        nlat,
        l,
        p,
    ) by {
        lemma_abel_index_onto(nlat, l, p);
    }
}

proof fn lemma_abel_row_start_nonneg(l: int, n: int)
    requires
        2 <= l,
        2 <= n,
    ensures
        abel_row_start(l, n) >= 0,
{
    assert((n - 2) * (n - 1) >= 0) by (nonlinear_arith)
        requires
            n >= 2,
    ;
    assert((l - 1) * (l - 2) >= 0) by (nonlinear_arith)
        requires
            l >= 2,
    ;
    assert(n >= l ==> (n - l) * (l - 1) >= 0) by (nonlinear_arith)
        requires
            l >= 2,
    ;
}

} // verus!
