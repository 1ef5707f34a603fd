//! Lengths of the saved tables (the `w*` workspaces) that the initialisers
//! fill and that the transforms read, as integer formulas of the grid size.
//!
//! The transforms that take no `nlon` argument recover it from the length of
//! their saved table (see `nlon_inference`); the initialisers and the
//! transforms check the lengths that their callers pass against these
//! formulas (see `checks`).
use vstd::prelude::*;
use crate::gaussian_stored_scalar::{
    lemma_consecutive_product_even, min_int, sat_sub, spec_scalar_l, spec_scalar_late, spec_scalar_labc, spec_scalar_pmn_count,
};
use crate::workspace::{half_up, spec_scalar_saved_len, spec_vector_saved_len};

verus! {

/// Wavenumber limit of the scalar transforms on a regular grid,
/// `min(nlat, nlon / 2 + 1)`.
pub open spec fn scalar_mmax(nlat: int, nlon: int) -> int {
    min_int(nlat, nlon / 2 + 1)
}

/// Wavenumber limit of the vector transforms on a regular grid,
/// `min(nlat, (nlon + 1) / 2)`.
pub open spec fn vector_mmax(nlat: int, nlon: int) -> int {
    min_int(nlat, (nlon + 1) / 2)
}

/// Length of the three recurrence-coefficient arrays of the computed
/// Legendre tables, `3 * max(mmax - 2, 0) * (2 * nlat - mmax - 1) / 2`.
pub open spec fn recurrence_len(nlat: int, mmax: int) -> int {
    (3 * sat_sub(mmax, 2) * (2 * nlat - mmax - 1)) / 2
}

/// Length of the zonal and first sectoral tables, `2 * nlat * imid`.
pub open spec fn zonal_len(nlat: int) -> int {
    2 * nlat * half_up(nlat)
}

/// Saved-table length of the scalar transforms with computed tables on a
/// regular grid: `2 * nlat * imid + labc + nlon + 15`.
pub open spec fn wshsec_len(nlat: int, nlon: int) -> int {
    zonal_len(nlat) + recurrence_len(nlat, scalar_mmax(nlat, nlon)) + nlon + 15
}

/// Saved-table length of the scalar transforms with stored tables on a
/// regular grid.
pub open spec fn wshses_len(nlat: int, nlon: int) -> int {
    spec_scalar_saved_len(nlat, nlon)
}

/// Part of the saved table of the scalar transforms with stored tables on a
/// Gaussian grid that precedes the stored functions:
/// `nlat + 2 * nlat * late + 3 * labc + nlon + 15`.
pub open spec fn wshags_prefix(nlat: int, nlon: int) -> int {
    let l = spec_scalar_l(nlat, nlon);
    let late = spec_scalar_late(nlat);
    nlat + 2 * nlat * late + 3 * spec_scalar_labc(nlat, l) + nlon + 15
}

/// Saved-table length of the scalar transforms with stored tables on a
/// Gaussian grid: the prefix and `late` values of each stored function.
pub open spec fn wshags_len(nlat: int, nlon: int) -> int {
    let l = spec_scalar_l(nlat, nlon);
    wshags_prefix(nlat, nlon) + spec_scalar_late(nlat) * spec_scalar_pmn_count(nlat, l)
}

/// Saved-table length of the scalar transforms with computed tables on a
/// Gaussian grid: `nlat * (2 * late + 3 * l - 2) + 3 * l * (1 - l) / 2 + nlon + 15`.
pub open spec fn wshsgc_len(nlat: int, nlon: int) -> int {
    let l = spec_scalar_l(nlat, nlon);
    let late = spec_scalar_late(nlat);
    nlat * (2 * late + 3 * l - 2) + 3 * l * (1 - l) / 2 + nlon + 15
}

/// Saved-table length of the vector transforms with computed tables on a
/// Gaussian grid: `2 * (2 * nlat * imid + labc) + nlon + 15`.
pub open spec fn wvhsgc_len(nlat: int, nlon: int) -> int {
    2 * (zonal_len(nlat) + recurrence_len(nlat, vector_mmax(nlat, nlon))) + nlon + 15
}

/// Number of stored functions of one vector table on a regular grid,
/// `imid * mmax * (2 * nlat - mmax + 1)`, twice the triangle it covers.
pub open spec fn vector_stored_len(nlat: int, mmax: int) -> int {
    half_up(nlat) * mmax * (2 * nlat - mmax + 1)
}

/// Number of wavenumber pairs `(m, n)` with `m <= n < nlat`,
/// `nlat * (nlat + 1) / 2`.
pub open spec fn full_triangle(nlat: int) -> int {
    nlat * (nlat + 1) / 2
}

/// Saved-table length of the vector transforms with stored tables on a
/// Gaussian grid that keep the quadrature weights:
/// `2 * imid * (mmax * (2 * nlat - mmax + 1) / 2) + nlon + 15 + 2 * nlat`.
pub open spec fn wvhsgs_weighted_len(nlat: int, nlon: int) -> int {
    let mmax = vector_mmax(nlat, nlon);
    2 * (half_up(nlat) * ((mmax * (2 * nlat - mmax + 1)) / 2)) + nlon + 15 + 2 * nlat
}

/// Saved-table length of the vector transforms with stored tables on a
/// Gaussian grid that store the full triangle for every latitude:
/// `2 * imid * nlat * (nlat + 1) / 2 + nlon + 15`.
pub open spec fn wvhsgs_full_len(nlat: int, nlon: int) -> int {
    2 * (half_up(nlat) * full_triangle(nlat)) + nlon + 15
}

/// Saved-table length of the vector transforms with stored tables on a
/// Gaussian grid that store the wavenumbers `m < mmax` only.
pub open spec fn wvhsgs_len(nlat: int, nlon: int) -> int {
    spec_vector_saved_len(nlat, nlon)
}

/// Saved-table length of the vector transforms with stored tables on a
/// regular grid, `2 * (imid * mmax * (2 * nlat - mmax + 1) / 2) + nlon + 15`,
/// for a given wavenumber limit.
pub open spec fn wvhses_len_with(nlat: int, nlon: int, mmax: int) -> int {
    2 * (vector_stored_len(nlat, mmax) / 2) + nlon + 15
}

/// Division by two rounding toward zero, as machine division does.
pub open spec fn trunc_half(x: int) -> int {
    if x >= 0 {
        x / 2
    } else {
        -((-x) / 2)
    }
}

/// The minimum saved-table length that the scalar analysis with stored
/// tables on a Gaussian grid asks for:
/// `nlat * (3 * (l + late) - 2) + ((l - 1) * (late * (2 * nlat - l) - 3 * l)) / 2 + nlon + 15`,
/// the division rounding toward zero.
pub open spec fn shags_min_len(nlat: int, nlon: int) -> int {
    let l = spec_scalar_l(nlat, nlon);
    let late = spec_scalar_late(nlat);
    nlat * (3 * (l + late) - 2) + trunc_half((l - 1) * late * (2 * nlat - l) - 3 * l * (l - 1))
        + nlon + 15
}

/// Offset of the FFT table in the saved table of the scalar analysis on a
/// Gaussian grid: `nlat + 2 * nlat * late + 3 * labc`.
pub open spec fn gaussian_fft_offset(nlat: int, nlon: int) -> int {
    wshags_prefix(nlat, nlon) - nlon - 15
}

/// `m * (2 * nlat - m + 1)` is even: its factors add up to an odd number.
pub proof fn lemma_triangle_even(nlat: int, m: int)
    ensures
        (m * (2 * nlat - m + 1)) % 2 == 0,
{
    if m % 2 == 0 {
        assert(m * (2 * nlat - m + 1) == 2 * ((m / 2) * (2 * nlat - m + 1))) by (nonlinear_arith)
            requires
                m % 2 == 0,
        ;
    } else {
        assert(m * (2 * nlat - m + 1) == 2 * (m * ((2 * nlat - m + 1) / 2))) by (nonlinear_arith)
            requires
                m % 2 == 1,
        ;
    }
}

/// On a Gaussian grid, the part of the computed-table workspace before the
/// FFT table is as long as the zonal, sectoral and recurrence tables of the
/// stored-table workspace.
pub(crate) proof fn lemma_gaussian_prefix_identity(nlat: int, nlon: int)
    requires
        nlat >= 1,
        nlon >= 4,
    ensures
        wshags_prefix(nlat, nlon) == wshsgc_len(nlat, nlon),
{
    let l = spec_scalar_l(nlat, nlon);
    let late = spec_scalar_late(nlat);
    let u = (l - 1) * l / 2;
    lemma_consecutive_product_even(l - 1, l);
    assert(3 * l * (1 - l) == -(3 * ((l - 1) * l))) by (nonlinear_arith);
    assert(3 * l * (1 - l) / 2 == -(3 * u));
    assert(spec_scalar_labc(nlat, l) == u + (nlat - l) * (l - 1));
    assert(nlat + 2 * nlat * late + 3 * (u + (nlat - l) * (l - 1)) == nlat * (2 * late + 3 * l - 2)
        - 3 * u) by (nonlinear_arith)
        requires
            2 * u == (l - 1) * l,
    ;
}

/// The minimum length that the Gaussian stored-table analysis asks for is
/// the length of the stored-table workspace.
pub(crate) proof fn lemma_shags_min_len(nlat: int, nlon: int)
    requires
        nlat >= 1,
        nlon >= 4,
    ensures
        shags_min_len(nlat, nlon) == wshags_len(nlat, nlon),
{
    let l = spec_scalar_l(nlat, nlon);
    let late = spec_scalar_late(nlat);
    let u = (l - 1) * l / 2;
    let v = spec_scalar_pmn_count(nlat, l);
    lemma_consecutive_product_even(l - 1, l);
    lemma_triangle_even(nlat, l);
    assert(spec_scalar_labc(nlat, l) == u + (nlat - l) * (l - 1));
    let w = nlat + 2 * nlat * late + 3 * (u + (nlat - l) * (l - 1)) + late * v;
    let a = nlat * (3 * (l + late) - 2);
    let n = (l - 1) * late * (2 * nlat - l) - 3 * l * (l - 1);
    assert(n == 2 * (w - a)) by (nonlinear_arith)
        requires
            2 * u == (l - 1) * l,
            2 * v == l * (2 * nlat - l + 1),
            w == nlat + 2 * nlat * late + 3 * (u + (nlat - l) * (l - 1)) + late * v,
            a == nlat * (3 * (l + late) - 2),
            n == (l - 1) * late * (2 * nlat - l) - 3 * l * (l - 1),
    ;
    assert(trunc_half(n) == w - a);
}

} // verus!
