//! The packed triangular layout of spectral coefficients.
//!
//! A truncation `t` keeps the wavenumbers `1 <= m <= n <= t + 1` (one-based
//! order `m` and degree `n`).  Their coefficients are stored one after the
//! other, order by order: the pair `(m, n)` sits at the one-based position
//! [`spec_nm`]`(t, m, n)`, and `tri(t) = (t + 1) * (t + 2) / 2` positions are
//! used.  From a number of stored coefficients `nmdim` the truncation is
//! recovered as the largest `t` with `tri(t) <= nmdim`.
use vstd::prelude::*;
use crate::flat::{lemma_flat_index_bound, lemma_flat_index_unique};
use crate::gaussian_stored_scalar::lemma_consecutive_product_even;
use crate::size::Size;

verus! {

/// Number of coefficients kept by the truncation `t`.
pub open spec fn tri(t: int) -> int {
    (t + 1) * (t + 2) / 2
}

/// One-based packed position of the pair `(m, n)` under the truncation `t`.
pub open spec fn spec_nm(t: int, m: int, n: int) -> int {
    (m - 1) * (t + 1) - (m - 1) * (m - 2) / 2 + (n - m + 1)
}

/// The pair `(m, n)` is kept by the truncation `t`.
pub open spec fn in_triangle(t: int, m: int, n: int) -> bool {
    1 <= m <= n <= t + 1
}

/// The truncation recovered from a count of coefficients: the largest `t`
/// with `tri(t) <= nmdim`, and 0 when there is no coefficient at all.
pub open spec fn is_ntrunc_of(nmdim: int, t: int) -> bool {
    &&& t >= 0
    &&& nmdim == 0 ==> t == 0
    &&& nmdim >= 1 ==> tri(t) <= nmdim < tri(t + 1)
}

/// Errors of the spectral layout routines.
#[derive(Clone, Copy, Debug, PartialEq, Eq, Structural)]
pub enum SpectralError {
    /// No truncation has a positive number of coefficients equal to or
    /// below the given count (the count is 0).
    InvalidDimension,
    /// The coefficient array does not hold `nmdim * nt` values.
    SizeMismatch,
    /// The sphere radius is zero.
    ZeroRadius,
    /// The smoothing factors do not cover every degree of the truncation.
    SmoothingTooShort,
    /// The truncation is negative.
    NegativeTruncation,
}

proof fn lemma_tri_step(t: int)
    requires
        t >= -1,
    ensures
        tri(t + 1) == tri(t) + t + 2,
        tri(t) >= 0,
{
    lemma_consecutive_product_even(t + 1, t + 2);
    lemma_consecutive_product_even(t + 2, t + 3);
    assert((t + 1 + 1) * (t + 1 + 2) == (t + 2) * (t + 3)) by (nonlinear_arith);
    assert((t + 2) * (t + 3) == (t + 1) * (t + 2) + 2 * (t + 2)) by (nonlinear_arith);
    assert((t + 1) * (t + 2) >= 0) by (nonlinear_arith)
        requires
            t >= -1,
    ;
}

/// From the truncation 1 on, the coefficient count exceeds the truncation by
/// at least 2.
pub proof fn lemma_tri_ge(t: int)
    requires
        t >= 0,
    ensures
        tri(t) >= t + 1,
        t >= 1 ==> tri(t) >= t + 2,
{
    lemma_tri_step(-1);
    lemma_tri_step(t - 1);
    if t >= 1 {
        lemma_tri_step(0);
        if t > 1 {
            lemma_tri_increasing(0, t - 1);
        }
    }
}

/// `tri` grows strictly with the truncation.
pub proof fn lemma_tri_increasing(t: int, u: int)
    requires
        0 <= t < u,
    ensures
        tri(t) < tri(u),
    decreases u - t,
{
    lemma_tri_step(u - 1);
    if t < u - 1 {
        lemma_tri_increasing(t, u - 1);
    }
}

/// Number of coefficients kept by the truncation `t`,
/// `(t + 1) * (t + 2) / 2`.
pub fn nmdim_for_truncation(t: usize) -> (nmdim: usize)
    requires
        t + 2 <= usize::MAX,
        (t + 1) * (t + 2) <= usize::MAX,
    ensures
        nmdim == tri(t as int),
{
    (t + 1) * (t + 2) / 2
}

/// Recovers the truncation from a number of coefficients: the largest `t`
/// with `(t + 1) * (t + 2) / 2 <= nmdim`, or 0 when `nmdim` is 0.  This is
/// the integer root that the expression
/// `-1.5 + 0.5 * sqrt(9 - 8 * (1 - nmdim))` approximates in single precision.
pub fn ntrunc_from_nmdim(nmdim: usize) -> (t: usize)
    ensures
        is_ntrunc_of(nmdim as int, t as int),
        t < 0x2_0000_0000,
        t <= nmdim,
        t + 2 <= usize::MAX,
{
    let mut t: usize = 0;
    proof {
        lemma_tri_step(-1);
        lemma_tri_step(0);
    }
    loop
        invariant
            nmdim == 0 ==> t == 0,
            nmdim >= 1 ==> tri(t as int) <= nmdim,
            t <= nmdim,
            t < 0x2_0000_0000,
        ensures
            nmdim == 0 ==> t == 0,
            nmdim >= 1 ==> tri(t as int) <= nmdim < tri(t as int + 1),
            t <= nmdim,
            t < 0x2_0000_0000,
        decreases nmdim - t,
    {
        proof {
            lemma_tri_step(t as int);
            lemma_tri_step(t as int + 1);
            assert((t + 1 + 1) * (t + 1 + 2) == (t + 2) * (t + 3)) by (nonlinear_arith);
            lemma_consecutive_product_even(t + 2, t + 3);
            assert((t + 2) * (t + 3) <= 0x8_0000_0002_0000_0006) by (nonlinear_arith)
                requires
                    t < 0x2_0000_0000,
            ;
        }
        let p: u128 = ((t as u128) + 2) * ((t as u128) + 3);
        if p / 2 <= nmdim as u128 && nmdim >= 1 {
            proof {
                assert(tri(t as int + 1) <= nmdim);
                assert(t + 1 < 0x2_0000_0000) by {
                    if t + 1 >= 0x2_0000_0000 {
                        assert((t + 2) * (t + 3) >= 0x4_0000_0000_0000_0000) by (nonlinear_arith)
                            requires
                                t + 1 >= 0x2_0000_0000,
                        ;
                    }
                }
                assert(t + 1 <= nmdim);
            }
            t = t + 1;
        } else {
            break ;
        }
    }
    proof {
        lemma_tri_ge(t as int);
    }
    t
}

/// Recovers the truncation from a number of coefficients, refusing a count
/// of 0: `Ok(t)` with `t` the largest truncation whose `(t + 1) * (t + 2) / 2`
/// coefficients fit into `nmdim`.
pub fn infer_ntrunc(nmdim: usize) -> (r: Result<usize, SpectralError>)
    ensures
        nmdim == 0 <==> r is Err,
        r is Err ==> r == Err::<usize, SpectralError>(SpectralError::InvalidDimension),
        r matches Ok(t) ==> is_ntrunc_of(nmdim as int, t as int),
{
    if nmdim == 0 {
        Err(SpectralError::InvalidDimension)
    } else {
        Ok(ntrunc_from_nmdim(nmdim))
    }
}

/// The truncation read back from the coefficient count of a truncation is
/// that truncation.
pub proof fn lemma_ntrunc_roundtrip(t: int, u: int)
    requires
        t >= 0,
        is_ntrunc_of(tri(t), u),
    ensures
        u == t,
{
    lemma_tri_step(-1);
    lemma_tri_step(0);
    lemma_tri_step(t);
    assert(tri(t) >= 1) by {
        if t > 0 {
            lemma_tri_increasing(0, t);
        }
    }
    if u < t {
        lemma_tri_increasing(u + 1, t);
        if u + 1 == t {
        }
    } else if u > t {
        lemma_tri_increasing(t, u);
    }
}

proof fn lemma_nm_row_change(t: int, m: int)
    requires
        m >= 1,
    ensures
        spec_nm(t, m + 1, m + 1) == spec_nm(t, m, t + 1) + 1,
{
    lemma_consecutive_product_even(m - 2, m - 1);
    lemma_consecutive_product_even(m - 1, m);
    assert((m - 1) * (m - 2) == (m - 2) * (m - 1)) by (nonlinear_arith);
    assert(m * (m - 1) == (m - 1) * m) by (nonlinear_arith);
    assert((m - 1) * m == (m - 2) * (m - 1) + 2 * (m - 1)) by (nonlinear_arith);
    assert(m * (t + 1) == (m - 1) * (t + 1) + (t + 1)) by (nonlinear_arith);
    assert((m + 1 - 1) * (m + 1 - 2) == m * (m - 1)) by (nonlinear_arith);
    assert((m + 1 - 1) * (t + 1) == m * (t + 1)) by (nonlinear_arith);
}

proof fn lemma_nm_rows_monotone(t: int, m: int, m2: int)
    requires
        1 <= m < m2 <= t + 1,
    ensures
        spec_nm(t, m, t + 1) < spec_nm(t, m2, m2),
    decreases m2 - m,
{
    lemma_nm_row_change(t, m);
    if m + 1 < m2 {
        lemma_nm_rows_monotone(t, m + 1, m2);
    }
}

/// The packed positions grow strictly with the order `m`, then the degree
/// `n`: distinct kept pairs have distinct positions.
pub proof fn lemma_nm_increasing(t: int, m: int, n: int, m2: int, n2: int)
    requires
        in_triangle(t, m, n),
        in_triangle(t, m2, n2),
        m < m2 || (m == m2 && n < n2),
    ensures
        spec_nm(t, m, n) < spec_nm(t, m2, n2),
{
    if m < m2 {
        lemma_nm_rows_monotone(t, m, m2);
    }
}

/// The packed positions fill `1 ..= tri(t)`: `(1, 1)` is first, `(t + 1, t + 1)`
/// is last, and a row of order `m + 1` begins right after the row of order `m`.
pub proof fn lemma_nm_range(t: int, m: int, n: int)
    requires
        in_triangle(t, m, n),
    ensures
        spec_nm(t, 1, 1) == 1,
        spec_nm(t, t + 1, t + 1) == tri(t),
        1 <= spec_nm(t, m, n) <= tri(t),
        m <= t ==> spec_nm(t, m + 1, m + 1) == spec_nm(t, m, t + 1) + 1,
{
    lemma_consecutive_product_even(t, t + 1);
    lemma_consecutive_product_even(t + 1, t + 2);
    assert((t + 1 - 1) * (t + 1 - 2) == t * (t - 1)) by (nonlinear_arith);
    assert(t * (t - 1) == (t - 1) * t) by (nonlinear_arith);
    lemma_consecutive_product_even(t - 1, t);
    assert((t + 1) * (t + 2) == 2 * t * (t + 1) - t * (t - 1) + 2) by (nonlinear_arith);
    assert(t * (t + 1) == (t + 1 - 1) * (t + 1)) by (nonlinear_arith);
    assert(2 * t * (t + 1) == 2 * (t * (t + 1))) by (nonlinear_arith);
    assert((1 - 1) * (t + 1) == 0) by (nonlinear_arith);
    assert((1 - 1) * (1 - 2) == 0) by (nonlinear_arith);
    assert(spec_nm(t, 1, 1) == 1);
    assert(spec_nm(t, t + 1, t + 1) == t * (t + 1) - t * (t - 1) / 2 + 1);
    assert(tri(t) == (2 * (t * (t + 1)) - t * (t - 1) + 2) / 2);
    if m > 1 || n > 1 {
        lemma_nm_increasing(t, 1, 1, m, n);
    }
    if m < t + 1 || n < t + 1 {
        lemma_nm_increasing(t, m, n, t + 1, t + 1);
    }
    if m <= t {
        lemma_nm_row_change(t, m);
    }
}

/// One-based packed position of the pair `(m, n)` under the truncation `t`:
/// `(m - 1) * (t + 1) - (m - 1) * (m - 2) / 2 + (n - m + 1)`.
pub fn nm_index(t: usize, m: usize, n: usize) -> (nm: usize)
    requires
        in_triangle(t as int, m as int, n as int),
        t + 1 <= usize::MAX,
        t * (t + 1) <= usize::MAX,
        tri(t as int) <= usize::MAX,
    ensures
        nm == spec_nm(t as int, m as int, n as int),
        1 <= nm <= tri(t as int),
{
    proof {
        lemma_nm_range(t as int, m as int, n as int);
        lemma_consecutive_product_even(m - 2, m - 1);
        assert((m - 1) * (t + 1) <= t * (t + 1)) by (nonlinear_arith)
            requires
                m <= t + 1,
                m >= 1,
        ;
        assert((m - 1) * (m - 2) <= (m - 1) * (t + 1)) by (nonlinear_arith)
            requires
                m <= t + 1,
                m >= 1,
        ;
        assert((m - 1) * (m - 2) >= 0) by (nonlinear_arith)
            requires
                m >= 1,
        ;
        assert((m - 1) * (m - 2) / 2 <= (m - 1) * (t + 1));
    }
    let m0 = m - 1;
    let start = m0 * (t + 1) - (m0 * m0.saturating_sub(1)) / 2;
    assert(m0 * m0.saturating_sub(1) == (m - 1) * (m - 2));
    start + (n - m + 1)
}

/// Position reached by the loop that walks the orders: the packed position
/// before the first degree of order `m`.
pub open spec fn nm_start(t: int, m: int) -> int
    decreases m,
{
    if m <= 1 {
        0
    } else {
        nm_start(t, m - 1) + (t + 2) - (m - 1)
    }
}

/// Walking the orders with the running start `nmstrt += t + 2 - m` reaches
/// exactly the packed positions: `nm_start(t, m) + n - m + 1 == spec_nm(t, m, n)`.
pub proof fn lemma_nm_start_closed_form(t: int, m: int)
    requires
        m >= 1,
    ensures
        nm_start(t, m) == spec_nm(t, m, m) - 1,
    decreases m,
{
    if m > 1 {
        lemma_nm_start_closed_form(t, m - 1);
        lemma_nm_row_change(t, m - 1);
    }
}

/// Degree table of the packed layout: entry `k` is the one-based degree `n`
/// of the coefficient stored at position `k + 1`, or 0 for the positions
/// beyond the triangle that a count `nmdim` which is not triangular leaves.
pub fn packed_degrees(nmdim: usize) -> (table: Vec<usize>)
    ensures
        table@.len() == nmdim,
        forall|t: int|
            is_ntrunc_of(nmdim as int, t) ==> {
                &&& forall|m: int, n: int|
                    in_triangle(t, m, n) && nmdim >= 1 ==> table@[#[trigger] spec_nm(t, m, n) - 1] == n
                &&& forall|k: int| tri(t) <= k < nmdim ==> #[trigger] table@[k] == 0
            },
{
    let t = ntrunc_from_nmdim(nmdim);
    let mut table: Vec<usize> = Vec::new();
    if nmdim == 0 {
        return table;
    }
    proof {
        lemma_tri_step(t as int);
    }
    let mut m: usize = 1;
    while m <= t + 1
        invariant
            nmdim >= 1,
            tri(t as int) <= nmdim,
            t + 2 <= usize::MAX,
            is_ntrunc_of(nmdim as int, t as int),
            1 <= m <= t + 2,
            table@.len() == nm_start(t as int, m as int),
            forall|m2: int, n2: int|
                in_triangle(t as int, m2, n2) && m2 < m ==> table@[#[trigger] spec_nm(
                    t as int,
                    m2,
                    n2,
                ) - 1] == n2,
        decreases t + 2 - m,
    {
        proof {
            lemma_nm_start_closed_form(t as int, m as int);
            lemma_nm_range(t as int, m as int, m as int);
        }
        let mut n: usize = m;
        while n <= t + 1
            invariant
                nmdim >= 1,
                tri(t as int) <= nmdim,
                t + 2 <= usize::MAX,
                is_ntrunc_of(nmdim as int, t as int),
                1 <= m <= t + 1,
                m <= n <= t + 2,
                table@.len() == spec_nm(t as int, m as int, n as int) - 1,
                forall|m2: int, n2: int|
                    in_triangle(t as int, m2, n2) && (m2 < m || (m2 == m && n2 < n))
                        ==> table@[#[trigger] spec_nm(t as int, m2, n2) - 1] == n2,
            decreases t + 2 - n,
        {
            let ghost before = table@;
            proof {
                lemma_nm_range(t as int, m as int, n as int);
            }
            table.push(n);
            proof {
                assert forall|m2: int, n2: int|
                    in_triangle(t as int, m2, n2) && (m2 < m || (m2 == m && n2 < n + 1))
                        implies table@[#[trigger] spec_nm(t as int, m2, n2) - 1] == n2 by {
                    if m2 < m || (m2 == m && n2 < n) {
                        lemma_nm_increasing(t as int, m2, n2, m as int, n as int);
                        lemma_nm_range(t as int, m2, n2);
                        assert(table@[spec_nm(t as int, m2, n2) - 1] == before[spec_nm(
                            t as int,
                            m2,
                            n2,
                        ) - 1]);
                    }
                }
            }
            n = n + 1;
        }
        proof {
            lemma_nm_range(t as int, m as int, t as int + 1);
            lemma_nm_start_closed_form(t as int, m as int + 1);
        }
        m = m + 1;
    }
    proof {
        lemma_nm_start_closed_form(t as int, t as int + 2);
        lemma_nm_range(t as int, t as int + 1, t as int + 1);
        assert(table@.len() == tri(t as int)) by {
            lemma_nm_row_change(t as int, t as int + 1);
        }
    }
    let tri_len = table.len();
    while table.len() < nmdim
        invariant
            tri(t as int) <= nmdim,
            tri_len == tri(t as int),
            tri_len <= table@.len() <= nmdim,
            is_ntrunc_of(nmdim as int, t as int),
            forall|m2: int, n2: int|
                in_triangle(t as int, m2, n2) ==> table@[#[trigger] spec_nm(t as int, m2, n2) - 1]
                    == n2,
            forall|k: int| tri_len <= k < table@.len() ==> #[trigger] table@[k] == 0,
        decreases nmdim - table@.len(),
    {
        let ghost before = table@;
        table.push(0);
        proof {
            assert forall|m2: int, n2: int| in_triangle(t as int, m2, n2) implies table@[
                #[trigger] spec_nm(t as int, m2, n2) - 1] == n2 by {
                lemma_nm_range(t as int, m2, n2);
                assert(table@[spec_nm(t as int, m2, n2) - 1] == before[spec_nm(t as int, m2, n2)
                    - 1]);
            }
        }
    }
    proof {
        assert forall|u: int| is_ntrunc_of(nmdim as int, u) implies u == t as int by {
            if u < t {
                lemma_tri_increasing(u + 1, t as int);
                if u + 1 == t {
                }
            } else if u > t {
                lemma_tri_increasing(t as int + 1, u);
                if t + 1 == u {
                }
            }
        }
    }
    table
}

/// The value that [`spectral_to_planes`] places at order `m`, degree `n`,
/// field `i` (all one-based but `i`).
pub open spec fn plane_entry<T>(
    data: Seq<T>,
    zero: T,
    t: int,
    nt: int,
    nmin: int,
    m: int,
    n: int,
    i: int,
) -> T {
    if m <= n && n <= t + 1 && n >= nmin {
        data[(spec_nm(t, m, n) - 1) * nt + i]
    } else {
        zero
    }
}

/// Unpacks stacked triangular coefficients (`nmdim` positions, `nt` fields,
/// field index fastest) into an `nlat x nlat x nt` array indexed by order,
/// degree, field.  The kept pairs with degree at least `nmin` receive their
/// coefficient; every other entry is `zero`.  The truncation is the one
/// recovered from `nmdim`.  Fails when the array does not hold `nmdim * nt`
/// values.
pub fn spectral_to_planes<T: Copy>(
    data: &Vec<T>,
    zero: T,
    nlat: usize,
    nmdim: usize,
    nt: usize,
    nmin: usize,
) -> (r: Result<Vec<T>, SpectralError>)
    requires
        nmdim * nt <= usize::MAX,
        nlat * nlat <= usize::MAX,
        nlat * nlat * nt <= usize::MAX,
        nmdim == 0 && nlat >= 1 && nt >= 1 ==> nmin >= 2,
        forall|t: int| is_ntrunc_of(nmdim as int, t) ==> t * (t + 1) <= usize::MAX,
    ensures
        r is Err <==> data@.len() != nmdim * nt,
        r is Err ==> r == Err::<Vec<T>, SpectralError>(SpectralError::SizeMismatch),
        r matches Ok(out) ==> {
            &&& out@.len() == nlat * nlat * nt
            &&& forall|t: int|
                is_ntrunc_of(nmdim as int, t) ==> forall|m: int, n: int, i: int|
                    1 <= m <= nlat && 1 <= n <= nlat && 0 <= i < nt ==> #[trigger] out@[((m - 1)
                        * nlat + (n - 1)) * nt + i] == plane_entry(
                        data@,
                        zero,
                        t,
                        nt as int,
                        nmin as int,
                        m,
                        n,
                        i,
                    )
        },
{
    if data.len() != nmdim * nt {
        return Err(SpectralError::SizeMismatch);
    }
    let dlen = data.len();
    let t = ntrunc_from_nmdim(nmdim);
    let ghost tt = t as int;
    proof {
        lemma_tri_step(tt);
        assert(t * (t + 1) <= usize::MAX);
        assert(tri(tt) <= usize::MAX) by {
            lemma_tri_ge(tt);
            if nmdim == 0 {
                assert((0int + 1) * (0int + 2) == 2) by (nonlinear_arith);
                assert(tri(0) == 1);
            }
        }
        assert(0 * nlat * nt == 0) by (nonlinear_arith);
        assert(nlat < usize::MAX) by {
            if nlat >= 2 {
                assert(nlat * nlat >= 2 * nlat) by (nonlinear_arith)
                    requires
                        nlat >= 2,
                ;
            }
        }
    }
    let mut out: Vec<T> = Vec::new();
    let mut m: usize = 1;
    while m <= nlat
        invariant
            data@.len() == nmdim * nt,
            is_ntrunc_of(nmdim as int, tt),
            t == tt,
            t * (t + 1) <= usize::MAX,
            tri(tt) <= usize::MAX,
            t + 2 <= usize::MAX,
            dlen == nmdim * nt,
            nlat < usize::MAX,
            nmdim == 0 && nlat >= 1 && nt >= 1 ==> nmin >= 2,
            nlat * nlat * nt <= usize::MAX,
            nlat * nlat <= usize::MAX,
            1 <= m <= nlat + 1,
            out@.len() == (m - 1) * nlat * nt,
            forall|m2: int, n2: int, i2: int|
                1 <= m2 < m && 1 <= n2 <= nlat && 0 <= i2 < nt ==> #[trigger] out@[((m2 - 1)
                    * nlat + (n2 - 1)) * nt + i2] == plane_entry(
                    data@,
                    zero,
                    tt,
                    nt as int,
                    nmin as int,
                    m2,
                    n2,
                    i2,
                ),
        decreases nlat + 1 - m,
    {
        let mut n: usize = 1;
        while n <= nlat
            invariant
                data@.len() == nmdim * nt,
                is_ntrunc_of(nmdim as int, tt),
                t == tt,
                t * (t + 1) <= usize::MAX,
            tri(tt) <= usize::MAX,
            t + 2 <= usize::MAX,
            dlen == nmdim * nt,
            nlat < usize::MAX,
            nmdim == 0 && nlat >= 1 && nt >= 1 ==> nmin >= 2,
                nlat * nlat * nt <= usize::MAX,
                nlat * nlat <= usize::MAX,
                1 <= m <= nlat,
                1 <= n <= nlat + 1,
                out@.len() == ((m - 1) * nlat + (n - 1)) * nt,
                forall|m2: int, n2: int, i2: int|
                    1 <= m2 <= nlat && 1 <= n2 <= nlat && 0 <= i2 < nt && (m2 < m || (m2 == m
                        && n2 < n)) ==> #[trigger] out@[((m2 - 1) * nlat + (n2 - 1)) * nt + i2]
                        == plane_entry(data@, zero, tt, nt as int, nmin as int, m2, n2, i2),
            decreases nlat + 1 - n,
        {
            let keep = m <= n && n <= t + 1 && n >= nmin;
            let mut base: usize = 0;
            if keep && nt > 0 {
                proof {
                    assert(nmdim >= 1) by {
                        if nmdim == 0 {
                            assert(t == 0);
                        }
                    }
                    lemma_nm_range(tt, m as int, n as int);
                }
                let nm = nm_index(t, m, n);
                proof {
                    assert((nm - 1) * nt <= nmdim * nt) by (nonlinear_arith)
                        requires
                            nm <= nmdim,
                            nm >= 1,
                    ;
                }
                base = (nm - 1) * nt;
            }
            let mut i: usize = 0;
            while i < nt
                invariant
                    data@.len() == nmdim * nt,
                    is_ntrunc_of(nmdim as int, tt),
                    t == tt,
                    nlat * nlat * nt <= usize::MAX,
                    1 <= m <= nlat,
                    1 <= n <= nlat,
                    0 <= i <= nt,
                    keep == (m <= n && n <= t + 1 && n >= nmin),
                    dlen == nmdim * nt,
                    keep && nt > 0 ==> base == (spec_nm(tt, m as int, n as int) - 1) * nt,
                    keep && nt > 0 ==> 1 <= spec_nm(tt, m as int, n as int) <= nmdim,
                    out@.len() == ((m - 1) * nlat + (n - 1)) * nt + i,
                    forall|m2: int, n2: int, i2: int|
                        1 <= m2 <= nlat && 1 <= n2 <= nlat && 0 <= i2 < nt && (m2 < m || (m2
                            == m && n2 < n)) ==> #[trigger] out@[((m2 - 1) * nlat + (n2 - 1)) * nt
                            + i2] == plane_entry(data@, zero, tt, nt as int, nmin as int, m2, n2, i2),
                    forall|i2: int|
                        0 <= i2 < i ==> #[trigger] out@[((m - 1) * nlat + (n - 1)) * nt + i2]
                            == plane_entry(data@, zero, tt, nt as int, nmin as int, m as int, n as int, i2),
                decreases nt - i,
            {
                let ghost before = out@;
                let v = if keep {
                    proof {
                        lemma_flat_index_bound(
                            nmdim as int,
                            nt as int,
                            spec_nm(tt, m as int, n as int) - 1,
                            i as int,
                        );
                    }
                    data[base + i]
                } else {
                    zero
                };
                out.push(v);
                proof {
                    assert forall|m2: int, n2: int, i2: int|
                        1 <= m2 <= nlat && 1 <= n2 <= nlat && 0 <= i2 < nt && (m2 < m || (m2 == m
                            && n2 < n)) implies #[trigger] out@[((m2 - 1) * nlat + (n2 - 1)) * nt
                        + i2] == plane_entry(data@, zero, tt, nt as int, nmin as int, m2, n2, i2) by {
                        lemma_cell_before(nlat as int, nt as int, m2, n2, i2, m as int, n as int);
                        assert(out@[((m2 - 1) * nlat + (n2 - 1)) * nt + i2] == before[((m2 - 1)
                            * nlat + (n2 - 1)) * nt + i2]);
                    }
                }
                i = i + 1;
            }
            proof {
                assert(((m - 1) * nlat + (n - 1)) * nt + nt == ((m - 1) * nlat + n) * nt)
                    by (nonlinear_arith);
                assert forall|m2: int, n2: int, i2: int|
                    1 <= m2 <= nlat && 1 <= n2 <= nlat && 0 <= i2 < nt && (m2 < m || (m2 == m
                        && n2 < n + 1)) implies #[trigger] out@[((m2 - 1) * nlat + (n2 - 1)) * nt
                    + i2] == plane_entry(data@, zero, tt, nt as int, nmin as int, m2, n2, i2) by {
                    if m2 == m && n2 == n {
                    }
                }
                assert(((m - 1) * nlat + (n + 1 - 1)) * nt <= nlat * nlat * nt) by {
                    assert((m - 1) * nlat + n <= nlat * nlat) by (nonlinear_arith)
                        requires
                            1 <= m <= nlat,
                            1 <= n <= nlat,
                    ;
                    assert(((m - 1) * nlat + n) * nt <= nlat * nlat * nt) by (nonlinear_arith)
                        requires
                            (m - 1) * nlat + n <= nlat * nlat,
                    ;
                }
            }
            n = n + 1;
        }
        proof {
            assert(((m - 1) * nlat + nlat) * nt == m * nlat * nt) by (nonlinear_arith);
        }
        m = m + 1;
    }
    proof {
        assert forall|u: int| is_ntrunc_of(nmdim as int, u) implies u == tt by {
            if u < tt {
                lemma_tri_increasing(u + 1, tt);
                if u + 1 == tt {
                }
            } else if u > tt {
                lemma_tri_increasing(tt + 1, u);
                if tt + 1 == u {
                }
            }
        }
    }
    Ok(out)
}

/// A cell written earlier (in the order of order, degree, field) lies before
/// the current one in the flat array.
proof fn lemma_cell_before(nlat: int, nt: int, m2: int, n2: int, i2: int, m: int, n: int)
    requires
        1 <= m2 <= nlat,
        1 <= n2 <= nlat,
        0 <= i2 < nt,
        1 <= m <= nlat,
        1 <= n <= nlat,
        m2 < m || (m2 == m && n2 < n),
    ensures
        ((m2 - 1) * nlat + (n2 - 1)) * nt + i2 < ((m - 1) * nlat + (n - 1)) * nt,
        0 <= ((m2 - 1) * nlat + (n2 - 1)) * nt + i2,
{
    assert((m2 - 1) * nlat + (n2 - 1) < (m - 1) * nlat + (n - 1)) by (nonlinear_arith)
        requires
            m2 < m || (m2 == m && n2 < n),
            1 <= n2 <= nlat,
            1 <= n <= nlat,
            1 <= m2,
    ;
    assert(((m2 - 1) * nlat + (n2 - 1)) * nt + i2 < ((m - 1) * nlat + (n - 1)) * nt)
        by (nonlinear_arith)
        requires
            (m2 - 1) * nlat + (n2 - 1) < (m - 1) * nlat + (n - 1),
            0 <= i2 < nt,
    ;
    assert(0 <= ((m2 - 1) * nlat + (n2 - 1)) * nt + i2) by (nonlinear_arith)
        requires
            1 <= m2,
            1 <= n2,
            0 <= i2,
            nlat >= 0,
            nt >= 0,
    ;
}

// ---------------------------------------------------------------------------
// Argument checks of the routines on packed coefficients.

/// The argument checks of the Laplacian and its inverse on packed
/// coefficients: a radius that is not zero and a stack of `nt` arrays of
/// `nmdim` coefficients.  The truncation they work to is returned.
pub fn check_laplacian(radius_is_zero: bool, len: usize, nmdim: usize, nt: usize) -> (r: Result<
    usize,
    SpectralError,
>)
    ensures
        radius_is_zero ==> r == Err::<usize, SpectralError>(SpectralError::ZeroRadius),
        !radius_is_zero && len != nmdim * nt ==> r == Err::<usize, SpectralError>(
            SpectralError::SizeMismatch,
        ),
        !radius_is_zero && len == nmdim * nt ==> (r matches Ok(t) && is_ntrunc_of(
            nmdim as int,
            t as int,
        )),
{
    if radius_is_zero {
        return Err(SpectralError::ZeroRadius);
    }
    if !Size::of(nmdim).times(Size::of(nt)).equals(len) {
        return Err(SpectralError::SizeMismatch);
    }
    Ok(ntrunc_from_nmdim(nmdim))
}

/// The argument checks of the conversion of packed coefficients to the
/// two-dimensional layout: a stack of `nt` arrays of `nmdim` coefficients.
/// The truncation they work to is returned.
pub fn check_packed_stack(len: usize, nmdim: usize, nt: usize) -> (r: Result<usize, SpectralError>)
    ensures
        len != nmdim * nt ==> r == Err::<usize, SpectralError>(SpectralError::SizeMismatch),
        len == nmdim * nt ==> (r matches Ok(t) && is_ntrunc_of(nmdim as int, t as int)),
{
    if !Size::of(nmdim).times(Size::of(nt)).equals(len) {
        return Err(SpectralError::SizeMismatch);
    }
    Ok(ntrunc_from_nmdim(nmdim))
}

/// The argument checks of the conversion of packed vorticity and
/// divergence to the two-dimensional layout: two stacks of `nt` arrays of
/// `nmdim` coefficients.
pub fn check_vrtdiv_stacks(vlen: usize, dlen: usize, nmdim: usize, nt: usize) -> (r: Result<
    usize,
    SpectralError,
>)
    ensures
        (vlen != nmdim * nt || dlen != nmdim * nt) ==> r == Err::<usize, SpectralError>(
            SpectralError::SizeMismatch,
        ),
        vlen == nmdim * nt && dlen == nmdim * nt ==> (r matches Ok(t) && is_ntrunc_of(
            nmdim as int,
            t as int,
        )),
{
    let stack = Size::of(nmdim).times(Size::of(nt));
    if !stack.equals(vlen) || !stack.equals(dlen) {
        return Err(SpectralError::SizeMismatch);
    }
    Ok(ntrunc_from_nmdim(nmdim))
}

/// The argument checks of the multiplication by smoothing factors: a stack
/// of `nt` arrays of `nmdim` coefficients and a factor for every degree
/// `0 ..= t` of the truncation `t`.
pub fn check_smoothing(len: usize, slen: usize, nmdim: usize, nt: usize) -> (r: Result<
    usize,
    SpectralError,
>)
    ensures
        len != nmdim * nt ==> r == Err::<usize, SpectralError>(SpectralError::SizeMismatch),
        len == nmdim * nt ==> match r {
            Ok(t) => is_ntrunc_of(nmdim as int, t as int) && slen >= t + 1,
            Err(e) => e == SpectralError::SmoothingTooShort && exists|t: int|
                is_ntrunc_of(nmdim as int, t) && slen < t + 1,
        },
{
    if !Size::of(nmdim).times(Size::of(nt)).equals(len) {
        return Err(SpectralError::SizeMismatch);
    }
    let t = ntrunc_from_nmdim(nmdim);
    if slen < t + 1 {
        return Err(SpectralError::SmoothingTooShort);
    }
    Ok(t)
}

/// The argument checks of the interpolation of packed coefficients to a
/// longitude: a non-negative truncation `t`, and `(t + 1) * (t + 2) / 2`
/// coefficients and as many Legendre values.  The number of orders `t + 1`
/// is returned.
pub fn check_specintrp(ntrunc: i32, dlen: usize, plen: usize) -> (r: Result<usize, SpectralError>)
    ensures
        ntrunc < 0 ==> r == Err::<usize, SpectralError>(SpectralError::NegativeTruncation),
        ntrunc >= 0 && (dlen != tri(ntrunc as int) || plen != tri(ntrunc as int)) ==> r == Err::<
            usize,
            SpectralError,
        >(SpectralError::SizeMismatch),
        ntrunc >= 0 && dlen == tri(ntrunc as int) && plen == tri(ntrunc as int) ==> r == Ok::<
            usize,
            SpectralError,
        >((ntrunc + 1) as usize),
{
    if ntrunc < 0 {
        return Err(SpectralError::NegativeTruncation);
    }
    let t = ntrunc as usize;
    let pairs = Size::of(t).plus(Size::of(1)).times(Size::of(t).plus(Size::of(2)));
    proof {
        lemma_tri_step(t as int);
        lemma_consecutive_product_even(t + 1, t + 2);
    }
    let count = match pairs.word {
        Some(p) => Size::of(p / 2),
        None => {
            assert((t + 1) * (t + 2) <= 0x1_0000_0000_0000_0000) by (nonlinear_arith)
                requires
                    t <= 0x8000_0000,
            ;
            Size::of_wide(((t as u128 + 1) * (t as u128 + 2)) / 2)
        },
    };
    if !count.equals(dlen) || !count.equals(plen) {
        return Err(SpectralError::SizeMismatch);
    }
    Ok(t + 1)
}

} // verus!
