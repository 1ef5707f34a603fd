//! Lengths of the saved tables and of the scratch arrays that the transform
//! drivers allocate.
//!
//! Each length is stated as an integer formula (`spec_*`).  The executable
//! functions compute the same values in machine words; their preconditions
//! (`*_fits`) say that every intermediate quantity of the computation fits a
//! machine word, which is what the computation needs to be exact.
use vstd::prelude::*;
use crate::gaussian_stored_scalar::{max_int, min_int, sat_sub};

verus! {

/// `x` fits a machine word.
pub open spec fn fits(x: int) -> bool {
    0 <= x <= usize::MAX
}

/// `ceil(nlat / 2)`.
pub open spec fn half_up(nlat: int) -> int {
    (nlat + 1) / 2
}

/// `ceil(x / 2)` without an intermediate `x + 1`.
pub fn div_ceil2(x: usize) -> (r: usize)
    ensures
        r == half_up(x as int),
{
    x / 2 + x % 2
}

/// Length of the saved table of the grid-shifting routines:
/// `2 * (2 * nlat + nlon + 16)`.
pub open spec fn spec_shift_lsav(nlon: int, nlat: int) -> int {
    2 * (2 * nlat + nlon + 16)
}

/// Length of the saved table of the grid-shifting routines.
pub fn shift_lsav(nlon: usize, nlat: usize) -> (r: usize)
    requires
        spec_shift_lsav(nlon as int, nlat as int) <= usize::MAX,
    ensures
        r == spec_shift_lsav(nlon as int, nlat as int),
{
    2 * (2 * nlat + nlon + 16)
}

/// Scratch length of the grid-shifting routines: `2 * nlon * (nlat + 1)` for
/// an even number of longitudes, `nlon * (5 * nlat + 1)` for an odd one.
pub open spec fn spec_shift_lwork(nlon: int, nlat: int) -> int {
    if nlon % 2 == 0 {
        2 * nlon * (nlat + 1)
    } else {
        nlon * (5 * nlat + 1)
    }
}

/// The intermediate quantities of [`shift_lwork`].
pub open spec fn shift_lwork_fits(nlon: int, nlat: int) -> bool {
    if nlon % 2 == 0 {
        fits(nlat + 1) && fits(2 * nlon) && fits(2 * nlon * (nlat + 1))
    } else {
        fits(5 * nlat + 1) && fits(nlon * (5 * nlat + 1))
    }
}

/// Scratch length of the grid-shifting routines.
pub fn shift_lwork(nlon: usize, nlat: usize) -> (r: usize)
    requires
        shift_lwork_fits(nlon as int, nlat as int),
    ensures
        r == spec_shift_lwork(nlon as int, nlat as int),
{
    if nlon.is_multiple_of(2) {
        2 * nlon * (nlat + 1)
    } else {
        nlon * (5 * nlat + 1)
    }
}

/// Wavenumber limit of the gradient routines.
pub open spec fn spec_gradient_l1(nlat: int, nlon: int) -> int {
    if nlon % 2 == 0 {
        min_int(nlat, nlon / 2)
    } else {
        min_int(nlat, (nlon + 1) / 2)
    }
}

/// Scratch length that covers every gradient driver: the largest of the
/// stored-table, computed-synthesis and computed-analysis requirements.
pub open spec fn spec_gradient_lwork(nlat: int, nlon: int, nt: int) -> int {
    let l1 = spec_gradient_l1(nlat, nlon);
    let l2 = half_up(nlat);
    let stored = nlat * ((2 * nt + 1) * nlon + 2 * l1 * nt + 1);
    let computed_synthesis = nlat * (2 * nt * nlon + max_int(6 * l2, nlon)) + nlat * (2 * l1 * nt
        + 1);
    let computed_analysis = nlat * (4 * nlon * nt + 6 * l2);
    max_int(max_int(stored, computed_synthesis), computed_analysis)
}

/// The intermediate quantities of [`gradient_lwork`].
pub open spec fn gradient_lwork_fits(nlat: int, nlon: int, nt: int) -> bool {
    let l1 = spec_gradient_l1(nlat, nlon);
    let l2 = half_up(nlat);
    &&& fits(nlon + 1)
    &&& fits(2 * nt + 1)
    &&& fits((2 * nt + 1) * nlon)
    &&& fits(2 * l1)
    &&& fits(2 * l1 * nt + 1)
    &&& fits((2 * nt + 1) * nlon + 2 * l1 * nt + 1)
    &&& fits(nlat * ((2 * nt + 1) * nlon + 2 * l1 * nt + 1))
    &&& fits(2 * nt * nlon)
    &&& fits(6 * l2)
    &&& fits(2 * nt * nlon + max_int(6 * l2, nlon))
    &&& fits(nlat * (2 * nt * nlon + max_int(6 * l2, nlon)))
    &&& fits(nlat * (2 * l1 * nt + 1))
    &&& fits(nlat * (2 * nt * nlon + max_int(6 * l2, nlon)) + nlat * (2 * l1 * nt + 1))
    &&& fits(4 * nlon)
    &&& fits(4 * nlon * nt + 6 * l2)
    &&& fits(nlat * (4 * nlon * nt + 6 * l2))
}

/// The larger of two machine words.
pub fn max_usize(a: usize, b: usize) -> (r: usize)
    ensures
        r == max_int(a as int, b as int),
{
    if a >= b {
        a
    } else {
        b
    }
}

/// The smaller of two machine words.
pub fn min_usize(a: usize, b: usize) -> (r: usize)
    ensures
        r == min_int(a as int, b as int),
{
    if a <= b {
        a
    } else {
        b
    }
}

/// Scratch length that covers every gradient driver.
pub fn gradient_lwork(nlat: usize, nlon: usize, nt: usize) -> (r: usize)
    requires
        gradient_lwork_fits(nlat as int, nlon as int, nt as int),
    ensures
        r == spec_gradient_lwork(nlat as int, nlon as int, nt as int),
{
    let l1 = if nlon % 2 == 0 {
        min_usize(nlat, nlon / 2)
    } else {
        min_usize(nlat, (nlon + 1) / 2)
    };
    let l2 = div_ceil2(nlat);
    proof {
        assert(2 * nt <= 2 * nt + 1);
        assert(2 * l1 * nt <= 2 * l1 * nt + 1);
        assert(4 * nlon * nt <= 4 * nlon * nt + 6 * l2);
    }
    let stored = nlat * ((2 * nt + 1) * nlon + 2 * l1 * nt + 1);
    let computed_synthesis = nlat * (2 * nt * nlon + max_usize(6 * l2, nlon)) + nlat * (2 * l1 * nt
        + 1);
    let computed_analysis = nlat * (4 * nlon * nt + 6 * l2);
    max_usize(max_usize(stored, computed_synthesis), computed_analysis)
}

/// Scratch length that covers every vector Laplacian driver.
pub open spec fn spec_vector_laplacian_lwork(nlat: int, nlon: int, nt: int) -> int {
    let imid = half_up(nlat);
    let mmax = min_int(nlat, (nlon + 1) / 2);
    let mn = mmax * nlat * nt;
    let stored_full = (2 * nt + 1) * nlat * nlon + nlat * (4 * nt * mmax + 1);
    let stored_half = (2 * nt + 1) * imid * nlon + nlat * (4 * nt * mmax + 1);
    let computed_full = nlat * (2 * nt * nlon + max_int(6 * imid, nlon) + 1) + 4 * mn;
    let computed_half = imid * (2 * nt * nlon + max_int(6 * nlat, nlon)) + 4 * mn + nlat;
    max_int(max_int(max_int(stored_full, stored_half), computed_full), computed_half)
}

/// The intermediate quantities of [`vector_laplacian_lwork`].
pub open spec fn vector_laplacian_lwork_fits(nlat: int, nlon: int, nt: int) -> bool {
    let imid = half_up(nlat);
    let mmax = min_int(nlat, (nlon + 1) / 2);
    let mn = mmax * nlat * nt;
    &&& fits(nlon + 1)
    &&& fits(mmax * nlat)
    &&& fits(mn)
    &&& fits(2 * nt + 1)
    &&& fits((2 * nt + 1) * nlat)
    &&& fits((2 * nt + 1) * nlat * nlon)
    &&& fits(4 * nt)
    &&& fits(4 * nt * mmax + 1)
    &&& fits(nlat * (4 * nt * mmax + 1))
    &&& fits((2 * nt + 1) * nlat * nlon + nlat * (4 * nt * mmax + 1))
    &&& fits((2 * nt + 1) * imid)
    &&& fits((2 * nt + 1) * imid * nlon)
    &&& fits((2 * nt + 1) * imid * nlon + nlat * (4 * nt * mmax + 1))
    &&& fits(2 * nt * nlon)
    &&& fits(6 * imid)
    &&& fits(2 * nt * nlon + max_int(6 * imid, nlon) + 1)
    &&& fits(nlat * (2 * nt * nlon + max_int(6 * imid, nlon) + 1))
    &&& fits(4 * mn)
    &&& fits(nlat * (2 * nt * nlon + max_int(6 * imid, nlon) + 1) + 4 * mn)
    &&& fits(6 * nlat)
    &&& fits(2 * nt * nlon + max_int(6 * nlat, nlon))
    &&& fits(imid * (2 * nt * nlon + max_int(6 * nlat, nlon)))
    &&& fits(imid * (2 * nt * nlon + max_int(6 * nlat, nlon)) + 4 * mn + nlat)
}

/// Scratch length that covers every vector Laplacian driver.
pub fn vector_laplacian_lwork(nlat: usize, nlon: usize, nt: usize) -> (r: usize)
    requires
        vector_laplacian_lwork_fits(nlat as int, nlon as int, nt as int),
    ensures
        r == spec_vector_laplacian_lwork(nlat as int, nlon as int, nt as int),
{
    let imid = div_ceil2(nlat);
    let mmax = min_usize(nlat, (nlon + 1) / 2);
    let mn = mmax * nlat * nt;
    proof {
        assert(2 * nt * nlon <= 2 * nt * nlon + max_int(6 * imid as int, nlon as int) + 1);
        assert(4 * nt * mmax <= 4 * nt * mmax + 1);
        assert(4 * mn + nlat <= imid * (2 * nt * nlon + max_int(6 * nlat as int, nlon as int)) + 4
            * mn + nlat);
    }
    let stored_full = (2 * nt + 1) * nlat * nlon + nlat * (4 * nt * mmax + 1);
    let stored_half = (2 * nt + 1) * imid * nlon + nlat * (4 * nt * mmax + 1);
    let computed_full = nlat * (2 * nt * nlon + max_usize(6 * imid, nlon) + 1) + 4 * mn;
    let computed_half = imid * (2 * nt * nlon + max_usize(6 * nlat, nlon)) + 4 * mn + nlat;
    max_usize(max_usize(max_usize(stored_full, stored_half), computed_full), computed_half)
}

/// Scratch length that covers every vector reconstruction driver.
pub open spec fn spec_vector_reconstruction_lwork(nlat: int, nlon: int, nt: int) -> int {
    let imid = half_up(nlat);
    let mmax = min_int(nlat, (nlon + 1) / 2);
    let mn = mmax * nlat * nt;
    let full = nlat * (2 * nt * nlon + max_int(6 * imid, nlon)) + 4 * mn + nlat;
    let half = imid * (2 * nt * nlon + max_int(6 * nlat, nlon)) + 4 * mn + nlat;
    let stored_vts = (2 * nt + 1) * nlat * nlon;
    max_int(max_int(full, half), stored_vts)
}

/// The intermediate quantities of [`vector_reconstruction_lwork`].
pub open spec fn vector_reconstruction_lwork_fits(nlat: int, nlon: int, nt: int) -> bool {
    let imid = half_up(nlat);
    let mmax = min_int(nlat, (nlon + 1) / 2);
    let mn = mmax * nlat * nt;
    &&& fits(nlon + 1)
    &&& fits(mmax * nlat)
    &&& fits(mn)
    &&& fits(4 * mn)
    &&& fits(2 * nt * nlon)
    &&& fits(6 * imid)
    &&& fits(2 * nt * nlon + max_int(6 * imid, nlon))
    &&& fits(nlat * (2 * nt * nlon + max_int(6 * imid, nlon)))
    &&& fits(nlat * (2 * nt * nlon + max_int(6 * imid, nlon)) + 4 * mn + nlat)
    &&& fits(6 * nlat)
    &&& fits(2 * nt * nlon + max_int(6 * nlat, nlon))
    &&& fits(imid * (2 * nt * nlon + max_int(6 * nlat, nlon)))
    &&& fits(imid * (2 * nt * nlon + max_int(6 * nlat, nlon)) + 4 * mn + nlat)
    &&& fits(2 * nt + 1)
    &&& fits((2 * nt + 1) * nlat)
    &&& fits((2 * nt + 1) * nlat * nlon)
}

/// Scratch length that covers every vector reconstruction driver.
pub fn vector_reconstruction_lwork(nlat: usize, nlon: usize, nt: usize) -> (r: usize)
    requires
        vector_reconstruction_lwork_fits(nlat as int, nlon as int, nt as int),
    ensures
        r == spec_vector_reconstruction_lwork(nlat as int, nlon as int, nt as int),
{
    let imid = div_ceil2(nlat);
    let mmax = min_usize(nlat, (nlon + 1) / 2);
    let mn = mmax * nlat * nt;
    proof {
        assert(4 * mn + nlat <= nlat * (2 * nt * nlon + max_int(6 * imid as int, nlon as int)) + 4
            * mn + nlat);
        assert(4 * mn + nlat <= imid * (2 * nt * nlon + max_int(6 * nlat as int, nlon as int)) + 4
            * mn + nlat);
    }
    let full = nlat * (2 * nt * nlon + max_usize(6 * imid, nlon)) + 4 * mn + nlat;
    let half = imid * (2 * nt * nlon + max_usize(6 * nlat, nlon)) + 4 * mn + nlat;
    let stored_vts = (2 * nt + 1) * nlat * nlon;
    max_usize(max_usize(full, half), stored_vts)
}

/// Scratch length that covers every stream function / velocity potential
/// driver.
pub open spec fn spec_sfvp_lwork(nlat: int, nlon: int, nt: int) -> int {
    let imid = half_up(nlat);
    let ls_full = nlat;
    let ls_half = imid;
    let mab = min_int(nlat, nlon / 2 + 1);
    let mn = mab * nlat * nt;
    let stored_full = ls_full * (nt + 1) * nlon + 2 * mab * nlat * nt + nlat;
    let stored_half = ls_half * (nt + 1) * nlon + 2 * mab * nlat * nt + nlat;
    let computed_full = ls_full * nt * nlon + max_int(ls_full * nlon, 3 * nlat * imid) + 2 * mn
        + nlat;
    let computed_half = ls_half * nt * nlon + max_int(ls_half * nlon, 3 * nlat * imid) + 2 * mn
        + nlat;
    max_int(max_int(max_int(stored_full, stored_half), computed_full), computed_half)
}

/// The intermediate quantities of [`sfvp_lwork`].
pub open spec fn sfvp_lwork_fits(nlat: int, nlon: int, nt: int) -> bool {
    let imid = half_up(nlat);
    let mab = min_int(nlat, nlon / 2 + 1);
    let mn = mab * nlat * nt;
    &&& fits(mab * nlat)
    &&& fits(mn)
    &&& fits(2 * mn)
    &&& fits(nt + 1)
    &&& fits(nlat * (nt + 1))
    &&& fits(nlat * (nt + 1) * nlon)
    &&& fits(2 * mab)
    &&& fits(2 * mab * nlat)
    &&& fits(2 * mab * nlat * nt)
    &&& fits(nlat * (nt + 1) * nlon + 2 * mab * nlat * nt + nlat)
    &&& fits(imid * (nt + 1))
    &&& fits(imid * (nt + 1) * nlon)
    &&& fits(imid * (nt + 1) * nlon + 2 * mab * nlat * nt + nlat)
    &&& fits(nlat * nt)
    &&& fits(nlat * nt * nlon)
    &&& fits(nlat * nlon)
    &&& fits(3 * nlat)
    &&& fits(3 * nlat * imid)
    &&& fits(nlat * nt * nlon + max_int(nlat * nlon, 3 * nlat * imid) + 2 * mn + nlat)
    &&& fits(imid * nt)
    &&& fits(imid * nt * nlon)
    &&& fits(imid * nlon)
    &&& fits(imid * nt * nlon + max_int(imid * nlon, 3 * nlat * imid) + 2 * mn + nlat)
}

/// Scratch length that covers every stream function / velocity potential
/// driver.
pub fn sfvp_lwork(nlat: usize, nlon: usize, nt: usize) -> (r: usize)
    requires
        sfvp_lwork_fits(nlat as int, nlon as int, nt as int),
    ensures
        r == spec_sfvp_lwork(nlat as int, nlon as int, nt as int),
{
    let imid = div_ceil2(nlat);
    let ls_full = nlat;
    let ls_half = imid;
    let mab = min_usize(nlat, nlon / 2 + 1);
    let mn = mab * nlat * nt;
    proof {
        assert(nlat * (nt + 1) * nlon + 2 * mab * nlat * nt <= nlat * (nt + 1) * nlon + 2 * mab
            * nlat * nt + nlat);
        assert(imid * (nt + 1) * nlon + 2 * mab * nlat * nt <= imid * (nt + 1) * nlon + 2 * mab
            * nlat * nt + nlat);
        assert(nlat * nt * nlon + max_int(nlat * nlon, 3 * nlat * imid) + 2 * mn <= nlat * nt
            * nlon + max_int(nlat * nlon, 3 * nlat * imid) + 2 * mn + nlat);
        assert(imid * nt * nlon + max_int(imid * nlon, 3 * nlat * imid) + 2 * mn <= imid * nt
            * nlon + max_int(imid * nlon, 3 * nlat * imid) + 2 * mn + nlat);
    }
    let stored_full = ls_full * (nt + 1) * nlon + 2 * mab * nlat * nt + nlat;
    let stored_half = ls_half * (nt + 1) * nlon + 2 * mab * nlat * nt + nlat;
    let computed_full = ls_full * nt * nlon + max_usize(ls_full * nlon, 3 * nlat * imid) + 2 * mn
        + nlat;
    let computed_half = ls_half * nt * nlon + max_usize(ls_half * nlon, 3 * nlat * imid) + 2 * mn
        + nlat;
    max_usize(max_usize(max_usize(stored_full, stored_half), computed_full), computed_half)
}

/// Scratch length that covers every inverse stream function / velocity
/// potential driver.
pub open spec fn spec_isfvp_lwork(nlat: int, nlon: int, nt: int) -> int {
    let imid = half_up(nlat);
    let l1 = min_int(nlat, (nlon + 2) / 2);
    let mn = l1 * nlat * nt;
    let stored_full = nlat * ((2 * nt + 1) * nlon + 4 * l1 * nt + 1);
    let stored_half = (2 * nt + 1) * nlon + nlat * (4 * l1 * nt + 1);
    let computed_full = nlat * (2 * nt * nlon + max_int(6 * imid, nlon) + 1) + 4 * mn;
    let computed_half = imid * (2 * nt * nlon + max_int(6 * nlat, nlon)) + 4 * mn + nlat;
    max_int(max_int(max_int(stored_full, stored_half), computed_full), computed_half)
}

/// The intermediate quantities of [`isfvp_lwork`].
pub open spec fn isfvp_lwork_fits(nlat: int, nlon: int, nt: int) -> bool {
    let imid = half_up(nlat);
    let l1 = min_int(nlat, (nlon + 2) / 2);
    let mn = l1 * nlat * nt;
    &&& fits(nlon + 2)
    &&& fits(l1 * nlat)
    &&& fits(mn)
    &&& fits(4 * mn)
    &&& fits(2 * nt + 1)
    &&& fits((2 * nt + 1) * nlon)
    &&& fits(4 * l1)
    &&& fits(4 * l1 * nt + 1)
    &&& fits((2 * nt + 1) * nlon + 4 * l1 * nt + 1)
    &&& fits(nlat * ((2 * nt + 1) * nlon + 4 * l1 * nt + 1))
    &&& fits(nlat * (4 * l1 * nt + 1))
    &&& fits((2 * nt + 1) * nlon + nlat * (4 * l1 * nt + 1))
    &&& fits(2 * nt * nlon)
    &&& fits(6 * imid)
    &&& fits(2 * nt * nlon + max_int(6 * imid, nlon) + 1)
    &&& fits(nlat * (2 * nt * nlon + max_int(6 * imid, nlon) + 1))
    &&& fits(nlat * (2 * nt * nlon + max_int(6 * imid, nlon) + 1) + 4 * mn)
    &&& fits(6 * nlat)
    &&& fits(2 * nt * nlon + max_int(6 * nlat, nlon))
    &&& fits(imid * (2 * nt * nlon + max_int(6 * nlat, nlon)))
    &&& fits(imid * (2 * nt * nlon + max_int(6 * nlat, nlon)) + 4 * mn + nlat)
}

/// Scratch length that covers every inverse stream function / velocity
/// potential driver.
pub fn isfvp_lwork(nlat: usize, nlon: usize, nt: usize) -> (r: usize)
    requires
        isfvp_lwork_fits(nlat as int, nlon as int, nt as int),
    ensures
        r == spec_isfvp_lwork(nlat as int, nlon as int, nt as int),
{
    let imid = div_ceil2(nlat);
    let l1 = min_usize(nlat, (nlon + 2) / 2);
    let mn = l1 * nlat * nt;
    proof {
        assert(2 * nt * nlon <= 2 * nt * nlon + max_int(6 * imid as int, nlon as int) + 1);
        assert(4 * mn + nlat <= imid * (2 * nt * nlon + max_int(6 * nlat as int, nlon as int)) + 4
            * mn + nlat);
    }
    let stored_full = nlat * ((2 * nt + 1) * nlon + 4 * l1 * nt + 1);
    let stored_half = (2 * nt + 1) * nlon + nlat * (4 * l1 * nt + 1);
    let computed_full = nlat * (2 * nt * nlon + max_usize(6 * imid, nlon) + 1) + 4 * mn;
    let computed_half = imid * (2 * nt * nlon + max_usize(6 * nlat, nlon)) + 4 * mn + nlat;
    max_usize(max_usize(max_usize(stored_full, stored_half), computed_full), computed_half)
}

/// Length of the saved table of the stored-table scalar transforms on a
/// regular grid, `imid * mmax * (2 * nlat - mmax + 1) / 2 + nlon + 15` with
/// `mmax = min(nlat, nlon / 2 + 1)`.
pub open spec fn spec_scalar_saved_len(nlat: int, nlon: int) -> int {
    let mmax = min_int(nlat, nlon / 2 + 1);
    let imid = half_up(nlat);
    (imid * mmax * (2 * nlat - mmax + 1)) / 2 + nlon + 15
}

/// The intermediate quantities of [`scalar_saved_len`].
pub open spec fn scalar_saved_len_fits(nlat: int, nlon: int) -> bool {
    let mmax = min_int(nlat, nlon / 2 + 1);
    let imid = half_up(nlat);
    &&& fits(2 * nlat + 1)
    &&& fits(imid * mmax)
    &&& fits(imid * mmax * (2 * nlat - mmax + 1))
    &&& fits((imid * mmax * (2 * nlat - mmax + 1)) / 2 + nlon + 15)
}

/// Length of the saved table of the stored-table scalar transforms on a
/// regular grid.
pub fn scalar_saved_len(nlat: usize, nlon: usize) -> (r: usize)
    requires
        scalar_saved_len_fits(nlat as int, nlon as int),
    ensures
        r == spec_scalar_saved_len(nlat as int, nlon as int),
{
    let mmax = min_usize(nlat, nlon / 2 + 1);
    let imid = div_ceil2(nlat);
    (imid * mmax * (2 * nlat - mmax + 1)) / 2 + nlon + 15
}

/// Length of the saved table of the stored-table vector transforms on a
/// regular grid, `imid * mmax * (2 * nlat - mmax + 1) + nlon + 15` with
/// `mmax = min(nlat, (nlon + 1) / 2)`.
pub open spec fn spec_vector_saved_len(nlat: int, nlon: int) -> int {
    let mmax = min_int(nlat, (nlon + 1) / 2);
    let imid = half_up(nlat);
    imid * mmax * (2 * nlat - mmax + 1) + nlon + 15
}

/// The intermediate quantities of [`vector_saved_len`].
pub open spec fn vector_saved_len_fits(nlat: int, nlon: int) -> bool {
    let mmax = min_int(nlat, (nlon + 1) / 2);
    let imid = half_up(nlat);
    &&& fits(nlon + 1)
    &&& fits(2 * nlat + 1)
    &&& fits(imid * mmax)
    &&& fits(imid * mmax * (2 * nlat - mmax + 1))
    &&& fits(imid * mmax * (2 * nlat - mmax + 1) + nlon + 15)
}

/// Length of the saved table of the stored-table vector transforms on a
/// regular grid.
pub fn vector_saved_len(nlat: usize, nlon: usize) -> (r: usize)
    requires
        vector_saved_len_fits(nlat as int, nlon as int),
    ensures
        r == spec_vector_saved_len(nlat as int, nlon as int),
{
    let mmax = min_usize(nlat, (nlon + 1) / 2);
    let imid = div_ceil2(nlat);
    imid * mmax * (2 * nlat - mmax + 1) + nlon + 15
}

/// Scratch length of the table initialisations on a regular grid:
/// `5 * nlat * imid + labc` with
/// `labc = 3 * max(mmax - 2, 0) * (2 * nlat - mmax - 1) / 2` and
/// `mmax = min(nlat, nlon / 2 + 1)`.
pub open spec fn spec_init_work_len(nlat: int, nlon: int) -> int {
    let mmax = min_int(nlat, nlon / 2 + 1);
    let imid = half_up(nlat);
    let labc = 3 * sat_sub(mmax, 2) * (2 * nlat - mmax - 1) / 2;
    5 * nlat * imid + labc
}

/// The intermediate quantities of [`init_work_len`].
pub open spec fn init_work_len_fits(nlat: int, nlon: int) -> bool {
    let mmax = min_int(nlat, nlon / 2 + 1);
    let imid = half_up(nlat);
    &&& nlat >= 1
    &&& fits(2 * nlat)
    &&& fits(3 * sat_sub(mmax, 2))
    &&& fits(3 * sat_sub(mmax, 2) * (2 * nlat - mmax - 1))
    &&& fits(5 * nlat)
    &&& fits(5 * nlat * imid)
    &&& fits(5 * nlat * imid + 3 * sat_sub(mmax, 2) * (2 * nlat - mmax - 1) / 2)
}

/// Scratch length of the table initialisations on a regular grid.
pub fn init_work_len(nlat: usize, nlon: usize) -> (r: usize)
    requires
        init_work_len_fits(nlat as int, nlon as int),
    ensures
        r == spec_init_work_len(nlat as int, nlon as int),
{
    let mmax = min_usize(nlat, nlon / 2 + 1);
    let imid = div_ceil2(nlat);
    let labc = 3 * mmax.saturating_sub(2) * (2 * nlat - mmax - 1) / 2;
    5 * nlat * imid + labc
}

/// Scratch length of the low-level vector drivers,
/// `4 * nlat * nlon + 2 * nlat * (nlat + 1)`.
pub open spec fn spec_low_level_lwork(nlat: int, nlon: int) -> int {
    4 * nlat * nlon + 2 * nlat * (nlat + 1)
}

/// The intermediate quantities of [`low_level_lwork`].
pub open spec fn low_level_lwork_fits(nlat: int, nlon: int) -> bool {
    &&& fits(4 * nlat)
    &&& fits(4 * nlat * nlon)
    &&& fits(2 * nlat)
    &&& fits(nlat + 1)
    &&& fits(2 * nlat * (nlat + 1))
    &&& fits(4 * nlat * nlon + 2 * nlat * (nlat + 1))
}

/// Scratch length of the low-level vector drivers.
pub fn low_level_lwork(nlat: usize, nlon: usize) -> (r: usize)
    requires
        low_level_lwork_fits(nlat as int, nlon as int),
    ensures
        r == spec_low_level_lwork(nlat as int, nlon as int),
{
    4 * nlat * nlon + 2 * nlat * (nlat + 1)
}

} // verus!
