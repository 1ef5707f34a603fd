//! The argument checks that the spherical-harmonic transforms make before
//! they touch any data, and the quantities they derive from the grid size.
//!
//! Each transform refuses its arguments in a fixed order.  A refusal is
//! either one of the routine's error codes (the routine then returns empty
//! outputs with that code) or a rejection of the call itself (array lengths
//! that disagree with the grid, a saved table whose length matches no
//! number of longitudes, a symmetry flag out of range).
//!
//! Sizes are compared as integers: a size too large for a machine word
//! differs from every array length and exceeds every scratch length.
use vstd::prelude::*;
use crate::gaussian_stored_scalar::{max_int, min_int};
use crate::size::Size;
use crate::nlon_inference::{
    big_grid, eval_recurrence_len, eval_wshsec_len, eval_zonal_len, infer_nlon_from_wshsec,
    infer_nlon_from_wshses, lemma_mul_le, lemma_search_outcome_is_first, lemma_stored_product_big,
    lemma_stored_product_nonneg, lemma_triangle_lower, lemma_wshsec_parts, max_candidate,
    eval_stored_product, eval_wshses_len, wshsec_nlon, wshses_nlon, eval_wshags, eval_wshsgc,
    infer_nlon_from_wshags, infer_nlon_from_wshsgc, lemma_big_square, lemma_wshags_parts,
    lemma_wshsgc_lower, wshags_nlon, wshsgc_nlon, min_u128,
};
use crate::tables::{
    gaussian_fft_offset, lemma_gaussian_prefix_identity, lemma_shags_min_len, recurrence_len,
    scalar_mmax, shags_min_len, vector_stored_len, wshags_len, wshags_prefix, wshsec_len,
    wshses_len, wshsgc_len, zonal_len,
};
use crate::gaussian_stored_scalar::{spec_scalar_l, spec_scalar_late};
use crate::workspace::{half_up, spec_init_work_len};

verus! {

/// Why a transform refused its arguments.
#[derive(Clone, Copy, Debug, PartialEq, Eq, Structural)]
pub enum Refusal {
    /// The routine's error code; its outputs are empty.
    Code(i32),
    /// The input arrays do not have the lengths that the grid calls for.
    SizeMismatch,
    /// No candidate number of longitudes gives the saved table its length.
    NlonNotInferred,
    /// The symmetry flag is not 0, 1 or 2.
    InvalidIsym,
}

/// `nlat * nlat * nt`, the length of a stack of `nt` coefficient arrays.
pub(crate) fn coeff_stack_size(nlat: usize, nt: usize) -> (r: Size)
    ensures
        r.wf(),
        r.val() == nlat * nlat * nt,
{
    Size::of(nlat).times(Size::of(nlat)).times(Size::of(nt))
}

/// `nlat * nlon * nt`, the length of a stack of `nt` grids.
pub(crate) fn grid_stack_size(nlat: usize, nlon: usize, nt: usize) -> (r: Size)
    ensures
        r.wf(),
        r.val() == nlat * nlon * nt,
{
    Size::of(nlat).times(Size::of(nlon)).times(Size::of(nt))
}

/// `wshsec_len(nlat, nlon)` as a size.
pub(crate) fn wshsec_size(nlat: usize, nlon: usize) -> (r: Size)
    requires
        nlon >= 4,
    ensures
        r.wf(),
        r.val() == wshsec_len(nlat as int, nlon as int),
{
    if nlat as u128 >= 0x2_0000_0000 {
        proof {
            lemma_wshsec_parts(nlat as int, nlon as int);
        }
        Size::beyond_words(Ghost(wshsec_len(nlat as int, nlon as int)))
    } else {
        Size::of_wide(eval_wshsec_len(nlat as u128, nlon as u128))
    }
}

/// What the transforms on a regular grid derive from the grid size before
/// they read the data: the number of longitudes, the wavenumber limit
/// `mmax`, the hemisphere size `imid`, the number of orders `mdo` that the
/// longitudes resolve, the number of latitudes `imm1` strictly north of the
/// equator, and the offset of the FFT table in the saved table.
#[derive(Clone, Copy, Debug, PartialEq, Eq, Structural)]
pub struct RegularPlan {
    pub nlon: usize,
    pub mmax: usize,
    pub imid: usize,
    pub mdo: usize,
    pub imm1: usize,
    pub fft_offset: usize,
}

/// The plan of a regular grid with wavenumber limit `mmax` and the FFT
/// table at `fft_offset`.
pub open spec fn regular_plan(nlat: int, nlon: int, mmax: int, fft_offset: int) -> RegularPlan {
    RegularPlan {
        nlon: nlon as usize,
        mmax: mmax as usize,
        imid: half_up(nlat) as usize,
        mdo: (if 2 * mmax - 1 > nlon {
            mmax - 1
        } else {
            mmax
        }) as usize,
        imm1: (half_up(nlat) - nlat % 2) as usize,
        fft_offset: fft_offset as usize,
    }
}

/// Builds the plan of a regular grid.
pub(crate) fn make_regular_plan(nlat: usize, nlon: usize, mmax: usize, fft_offset: usize) -> (r: RegularPlan)
    requires
        3 <= nlat,
        4 <= nlon,
        1 <= mmax <= nlat,
    ensures
        r == regular_plan(nlat as int, nlon as int, mmax as int, fft_offset as int),
{
    let imid = nlat / 2 + nlat % 2;
    let mdo = if mmax > nlon || mmax - 1 > nlon - mmax {
        mmax - 1
    } else {
        mmax
    };
    RegularPlan { nlon, mmax, imid, mdo, imm1: imid - nlat % 2, fft_offset }
}

// ---------------------------------------------------------------------------
// Scalar synthesis with computed tables on a regular grid.

/// Scratch length of the scalar synthesis with computed tables on a regular
/// grid: `nt * ls * nlon + max(ls * nlon, 3 * nlat * imid)` with `ls = nlat`
/// for a full-sphere field (`isym == 0`) and `ls = imid` otherwise.
pub open spec fn shsec_lwork(nlat: int, nlon: int, nt: int, isym: int) -> int {
    let imid = half_up(nlat);
    let ls = if isym == 0 {
        nlat
    } else {
        imid
    };
    nt * ls * nlon + max_int(ls * nlon, 3 * nlat * imid)
}

/// The outcome of the argument checks of the scalar synthesis with
/// computed tables on a regular grid, for coefficient arrays of `alen` and
/// `blen` entries, a saved table of `wlen` entries and `lwork` words of
/// scratch.
pub open spec fn shsec_outcome(
    nlat: int,
    nt: int,
    isym: int,
    alen: int,
    blen: int,
    wlen: int,
    lwork: int,
) -> Result<RegularPlan, Refusal> {
    if nlat < 3 {
        Err(Refusal::Code(1))
    } else {
        match wshsec_nlon(nlat, wlen) {
            None => Err(Refusal::NlonNotInferred),
            Some(nlon) => {
                let mmax = scalar_mmax(nlat, nlon);
                if nlon < 4 {
                    Err(Refusal::Code(2))
                } else if nt == 0 {
                    Err(Refusal::Code(4))
                } else if alen != blen || alen != nlat * nlat * nt {
                    Err(Refusal::SizeMismatch)
                } else if wlen < wshsec_len(nlat, nlon) {
                    Err(Refusal::Code(9))
                } else if lwork < shsec_lwork(nlat, nlon, nt, isym) {
                    Err(Refusal::Code(10))
                } else {
                    Ok(
                        regular_plan(
                            nlat,
                            nlon,
                            mmax,
                            zonal_len(nlat) + recurrence_len(nlat, mmax),
                        ),
                    )
                }
            },
        }
    }
}

/// The argument checks of the scalar synthesis with computed tables on a
/// regular grid, and the plan it works to.
pub fn check_shsec(
    nlat: usize,
    nt: usize,
    isym: usize,
    alen: usize,
    blen: usize,
    wlen: usize,
    lwork: usize,
) -> (r: Result<RegularPlan, Refusal>)
    ensures
        r == shsec_outcome(
            nlat as int,
            nt as int,
            isym as int,
            alen as int,
            blen as int,
            wlen as int,
            lwork as int,
        ),
{
    if nlat < 3 {
        return Err(Refusal::Code(1));
    }
    let found = infer_nlon_from_wshsec(nlat, wlen);
    proof {
        lemma_search_outcome_is_first(
            |c: int| wshsec_len(nlat as int, c) == wlen,
            nlat as int,
            found,
        );
    }
    let nlon = match found {
        None => {
            return Err(Refusal::NlonNotInferred);
        },
        Some(n) => n,
    };
    if nlon < 4 {
        return Err(Refusal::Code(2));
    }
    if nt == 0 {
        return Err(Refusal::Code(4));
    }
    if alen != blen || !coeff_stack_size(nlat, nt).equals(alen) {
        return Err(Refusal::SizeMismatch);
    }
    if wshsec_size(nlat, nlon).exceeds(wlen) {
        return Err(Refusal::Code(9));
    }
    let imid = nlat / 2 + nlat % 2;
    let ls = if isym == 0 {
        nlat
    } else {
        imid
    };
    let need = Size::of(nt).times(Size::of(ls)).times(Size::of(nlon)).plus(
        Size::of(ls).times(Size::of(nlon)).larger(
            Size::of(3).times(Size::of(nlat)).times(Size::of(imid)),
        ),
    );
    if need.exceeds(lwork) {
        return Err(Refusal::Code(10));
    }
    proof {
        lemma_wshsec_parts(nlat as int, nlon as int);
    }
    let mmax = min_usize_of(nlat, nlon / 2 + 1);
    let tables = (eval_zonal_len(nlat as u128) + eval_recurrence_len(nlat as u128, mmax as u128))
        as usize;
    Ok(make_regular_plan(nlat, nlon, mmax, tables))
}

/// The smaller of two words.
pub(crate) fn min_usize_of(a: usize, b: usize) -> (r: usize)
    ensures
        r == min_int(a as int, b as int),
{
    if a <= b {
        a
    } else {
        b
    }
}

/// `wshses_len(nlat, nlon)` as a size.
pub(crate) fn wshses_size(nlat: usize, nlon: usize) -> (r: Size)
    requires
        nlon >= 4,
    ensures
        r.wf(),
        r.val() == wshses_len(nlat as int, nlon as int),
{
    if nlat as u128 >= 0x2_0000_0000 {
        proof {
            lemma_stored_product_big(nlat as int, scalar_mmax(nlat as int, nlon as int));
        }
        Size::beyond_words(Ghost(wshses_len(nlat as int, nlon as int)))
    } else {
        proof {
            lemma_stored_product_nonneg(nlat as int, scalar_mmax(nlat as int, nlon as int));
        }
        Size::of_wide(eval_wshses_len(nlat as u128, nlon as u128))
    }
}

/// `imid * (mmax * (2 * nlat - mmax + 1) / 2)`, the way the analysis
/// routines count the stored functions, is half the stored product: the
/// product `mmax * (2 * nlat - mmax + 1)` is even.
proof fn lemma_stored_half(nlat: int, mmax: int)
    requires
        0 <= mmax <= nlat,
    ensures
        half_up(nlat) * ((mmax * (2 * nlat - mmax + 1)) / 2) == vector_stored_len(nlat, mmax) / 2,
{
    let t = mmax * (2 * nlat - mmax + 1);
    let h = half_up(nlat);
    if mmax % 2 == 0 {
        assert(t == 2 * ((mmax / 2) * (2 * nlat - mmax + 1))) by (nonlinear_arith)
            requires
                t == mmax * (2 * nlat - mmax + 1),
                mmax % 2 == 0,
        ;
    } else {
        assert(t == 2 * (mmax * ((2 * nlat - mmax + 1) / 2))) by (nonlinear_arith)
            requires
                t == mmax * (2 * nlat - mmax + 1),
                mmax % 2 == 1,
        ;
    }
    assert(t % 2 == 0);
    assert(h * t == 2 * (h * (t / 2))) by (nonlinear_arith)
        requires
            t % 2 == 0,
    ;
    assert(h * mmax * (2 * nlat - mmax + 1) == h * t) by (nonlinear_arith)
        requires
            t == mmax * (2 * nlat - mmax + 1),
    ;
}

/// `(nt + 1) * nlat * nlon`, the scratch length of the scalar transforms
/// that keep one extra grid.
pub open spec fn spare_grid_lwork(nlat: int, nlon: int, nt: int) -> int {
    (nt + 1) * nlat * nlon
}

/// `(nt + 1) * nlat * nlon` as a size.
fn spare_grid_size(nlat: usize, nlon: usize, nt: usize) -> (r: Size)
    ensures
        r.wf(),
        r.val() == spare_grid_lwork(nlat as int, nlon as int, nt as int),
{
    Size::of(nt).plus(Size::of(1)).times(Size::of(nlat)).times(Size::of(nlon))
}

// ---------------------------------------------------------------------------
// Scalar synthesis with stored tables on a regular grid.

/// The outcome of the argument checks of the scalar synthesis with stored
/// tables on a regular grid.
pub open spec fn shses_outcome(
    nlat: int,
    nt: int,
    alen: int,
    blen: int,
    wlen: int,
    lwork: int,
) -> Result<RegularPlan, Refusal> {
    if nlat < 3 {
        Err(Refusal::Code(1))
    } else if wlen < 16 {
        Err(Refusal::Code(2))
    } else {
        match wshses_nlon(nlat, wlen) {
            None => Err(Refusal::NlonNotInferred),
            Some(nlon) => {
                let mmax = scalar_mmax(nlat, nlon);
                if nlon < 4 {
                    Err(Refusal::Code(2))
                } else if nt == 0 {
                    Err(Refusal::Code(4))
                } else if alen != blen || alen != nlat * nlat * nt {
                    Err(Refusal::SizeMismatch)
                } else if wlen < wshses_len(nlat, nlon) {
                    Err(Refusal::Code(9))
                } else if lwork < spare_grid_lwork(nlat, nlon, nt) {
                    Err(Refusal::Code(10))
                } else {
                    Ok(regular_plan(nlat, nlon, mmax, vector_stored_len(nlat, mmax) / 2))
                }
            },
        }
    }
}

/// The argument checks of the scalar synthesis with stored tables on a
/// regular grid, and the plan it works to.
pub fn check_shses(
    nlat: usize,
    nt: usize,
    alen: usize,
    blen: usize,
    wlen: usize,
    lwork: usize,
) -> (r: Result<RegularPlan, Refusal>)
    ensures
        r == shses_outcome(
            nlat as int,
            nt as int,
            alen as int,
            blen as int,
            wlen as int,
            lwork as int,
        ),
{
    if nlat < 3 {
        return Err(Refusal::Code(1));
    }
    if wlen < 16 {
        return Err(Refusal::Code(2));
    }
    let found = infer_nlon_from_wshses(nlat, wlen);
    proof {
        lemma_search_outcome_is_first(
            |c: int| wshses_len(nlat as int, c) == wlen,
            nlat as int,
            found,
        );
    }
    let nlon = match found {
        None => {
            return Err(Refusal::NlonNotInferred);
        },
        Some(n) => n,
    };
    if nlon < 4 {
        return Err(Refusal::Code(2));
    }
    if nt == 0 {
        return Err(Refusal::Code(4));
    }
    if alen != blen || !coeff_stack_size(nlat, nt).equals(alen) {
        return Err(Refusal::SizeMismatch);
    }
    if wshses_size(nlat, nlon).exceeds(wlen) {
        return Err(Refusal::Code(9));
    }
    if spare_grid_size(nlat, nlon, nt).exceeds(lwork) {
        return Err(Refusal::Code(10));
    }
    proof {
        if nlat >= big_grid() {
            lemma_stored_product_big(nlat as int, scalar_mmax(nlat as int, nlon as int));
        }
        lemma_stored_product_nonneg(nlat as int, scalar_mmax(nlat as int, nlon as int));
    }
    let mmax = min_usize_of(nlat, nlon / 2 + 1);
    let stored = (eval_stored_product(nlat as u128, mmax as u128) / 2) as usize;
    Ok(make_regular_plan(nlat, nlon, mmax, stored))
}

// ---------------------------------------------------------------------------
// Scalar analysis on a regular grid.

/// The outcome of the argument checks of the scalar analysis with computed
/// tables on a regular grid, for a stack of grids of `glen` values.
pub open spec fn shaec_outcome(
    nlat: int,
    nlon: int,
    nt: int,
    glen: int,
    wlen: int,
    lwork: int,
) -> Result<RegularPlan, Refusal> {
    let mmax = scalar_mmax(nlat, nlon);
    if nlat < 3 {
        Err(Refusal::Code(1))
    } else if nlon < 4 {
        Err(Refusal::Code(2))
    } else if nt == 0 {
        Err(Refusal::Code(4))
    } else if glen != nlat * nlon * nt {
        Err(Refusal::SizeMismatch)
    } else if wlen < wshsec_len(nlat, nlon) {
        Err(Refusal::Code(9))
    } else if lwork < spare_grid_lwork(nlat, nlon, nt) {
        Err(Refusal::Code(10))
    } else {
        Ok(regular_plan(nlat, nlon, mmax, zonal_len(nlat) + recurrence_len(nlat, mmax)))
    }
}

/// The argument checks of the scalar analysis with computed tables on a
/// regular grid, and the plan it works to.
pub fn check_shaec(
    nlat: usize,
    nlon: usize,
    nt: usize,
    glen: usize,
    wlen: usize,
    lwork: usize,
) -> (r: Result<RegularPlan, Refusal>)
    ensures
        r == shaec_outcome(nlat as int, nlon as int, nt as int, glen as int, wlen as int, lwork as int),
{
    if nlat < 3 {
        return Err(Refusal::Code(1));
    }
    if nlon < 4 {
        return Err(Refusal::Code(2));
    }
    if nt == 0 {
        return Err(Refusal::Code(4));
    }
    if !grid_stack_size(nlat, nlon, nt).equals(glen) {
        return Err(Refusal::SizeMismatch);
    }
    if wshsec_size(nlat, nlon).exceeds(wlen) {
        return Err(Refusal::Code(9));
    }
    if spare_grid_size(nlat, nlon, nt).exceeds(lwork) {
        return Err(Refusal::Code(10));
    }
    proof {
        lemma_wshsec_parts(nlat as int, nlon as int);
    }
    let mmax = min_usize_of(nlat, nlon / 2 + 1);
    let tables = (eval_zonal_len(nlat as u128) + eval_recurrence_len(nlat as u128, mmax as u128))
        as usize;
    Ok(make_regular_plan(nlat, nlon, mmax, tables))
}

/// The outcome of the argument checks of the scalar analysis with stored
/// tables on a regular grid.  The stored functions are counted as
/// `imid * (mmax * (2 * nlat - mmax + 1) / 2)`, which is the stored-table
/// length of the synthesis.
pub open spec fn shaes_outcome(
    nlat: int,
    nlon: int,
    nt: int,
    glen: int,
    wlen: int,
    lwork: int,
) -> Result<RegularPlan, Refusal> {
    let mmax = scalar_mmax(nlat, nlon);
    let lzimn = half_up(nlat) * ((mmax * (2 * nlat - mmax + 1)) / 2);
    if nlat < 3 {
        Err(Refusal::Code(1))
    } else if nlon < 4 {
        Err(Refusal::Code(2))
    } else if nt == 0 {
        Err(Refusal::Code(4))
    } else if glen != nlat * nlon * nt {
        Err(Refusal::SizeMismatch)
    } else if wlen < lzimn + nlon + 15 {
        Err(Refusal::Code(9))
    } else if lwork < spare_grid_lwork(nlat, nlon, nt) {
        Err(Refusal::Code(10))
    } else {
        Ok(regular_plan(nlat, nlon, mmax, lzimn))
    }
}

/// The argument checks of the scalar analysis with stored tables on a
/// regular grid, and the plan it works to.
pub fn check_shaes(
    nlat: usize,
    nlon: usize,
    nt: usize,
    glen: usize,
    wlen: usize,
    lwork: usize,
) -> (r: Result<RegularPlan, Refusal>)
    ensures
        r == shaes_outcome(nlat as int, nlon as int, nt as int, glen as int, wlen as int, lwork as int),
{
    if nlat < 3 {
        return Err(Refusal::Code(1));
    }
    if nlon < 4 {
        return Err(Refusal::Code(2));
    }
    if nt == 0 {
        return Err(Refusal::Code(4));
    }
    if !grid_stack_size(nlat, nlon, nt).equals(glen) {
        return Err(Refusal::SizeMismatch);
    }
    proof {
        lemma_stored_half(nlat as int, scalar_mmax(nlat as int, nlon as int));
    }
    if wshses_size(nlat, nlon).exceeds(wlen) {
        return Err(Refusal::Code(9));
    }
    if spare_grid_size(nlat, nlon, nt).exceeds(lwork) {
        return Err(Refusal::Code(10));
    }
    proof {
        if nlat >= big_grid() {
            lemma_stored_product_big(nlat as int, scalar_mmax(nlat as int, nlon as int));
        }
        lemma_stored_product_nonneg(nlat as int, scalar_mmax(nlat as int, nlon as int));
    }
    let mmax = min_usize_of(nlat, nlon / 2 + 1);
    let stored = (eval_stored_product(nlat as u128, mmax as u128) / 2) as usize;
    Ok(make_regular_plan(nlat, nlon, mmax, stored))
}

// ---------------------------------------------------------------------------
// Scalar transforms on a Gaussian grid.

/// What the transforms on a Gaussian grid derive from the grid size before
/// they read the data: the number of longitudes, the number `l` of zonal
/// wavenumbers, the hemisphere size `late` and the offset of the FFT table
/// in the saved table.
#[derive(Clone, Copy, Debug, PartialEq, Eq, Structural)]
pub struct GaussianPlan {
    pub nlon: usize,
    pub l: usize,
    pub late: usize,
    pub fft_offset: usize,
}

/// The plan of a Gaussian grid with the FFT table at `fft_offset`.
pub open spec fn gaussian_plan(nlat: int, nlon: int, fft_offset: int) -> GaussianPlan {
    GaussianPlan {
        nlon: nlon as usize,
        l: spec_scalar_l(nlat, nlon) as usize,
        late: spec_scalar_late(nlat) as usize,
        fft_offset: fft_offset as usize,
    }
}

/// `wshsgc_len(nlat, nlon)` as a size.
fn wshsgc_size(nlat: usize, nlon: usize) -> (r: Size)
    requires
        nlon >= 4,
    ensures
        r.wf(),
        r.val() == wshsgc_len(nlat as int, nlon as int),
{
    proof {
        lemma_wshsgc_lower(nlat as int, nlon as int);
    }
    if nlat as u128 >= 0x2_0000_0000 {
        proof {
            lemma_mul_le(0x2_0000_0000, 0x1_0000_0000, nlat as int, nlat - 2);
        }
        Size::beyond_words(Ghost(wshsgc_len(nlat as int, nlon as int)))
    } else {
        let parts = eval_wshsgc(nlat as u128, nlon as u128);
        Size::of_wide(parts.2)
    }
}

/// `wshags_len(nlat, nlon)` as a size.
fn wshags_size(nlat: usize, nlon: usize) -> (r: Size)
    requires
        nlon >= 4,
    ensures
        r.wf(),
        r.val() == wshags_len(nlat as int, nlon as int),
{
    proof {
        lemma_wshags_parts(nlat as int, nlon as int);
    }
    if nlat as u128 >= 0x2_0000_0000 {
        proof {
            lemma_big_square(nlat as int);
        }
        Size::beyond_words(Ghost(wshags_len(nlat as int, nlon as int)))
    } else {
        let parts = eval_wshags(nlat as u128, nlon as u128);
        Size::of_wide(parts.3)
    }
}

/// The FFT-table offset of the Gaussian analysis, for a grid whose
/// workspace fits a machine word.
fn gaussian_fft_offset_of(nlat: usize, nlon: usize) -> (r: usize)
    requires
        nlat >= 1,
        nlon >= 4,
        wshags_prefix(nlat as int, nlon as int) <= usize::MAX,
    ensures
        r == gaussian_fft_offset(nlat as int, nlon as int),
{
    proof {
        lemma_wshags_parts(nlat as int, nlon as int);
        if nlat >= big_grid() {
            lemma_big_square(nlat as int);
        }
    }
    let parts = eval_wshags(nlat as u128, nlon as u128);
    (parts.2 - nlon as u128 - 15) as usize
}

/// Builds the plan of a Gaussian grid.
fn make_gaussian_plan(nlat: usize, nlon: usize, fft_offset: usize) -> (r: GaussianPlan)
    requires
        nlon >= 4,
    ensures
        r == gaussian_plan(nlat as int, nlon as int, fft_offset as int),
{
    GaussianPlan {
        nlon,
        l: min_usize_of(nlon / 2 + 1, nlat),
        late: nlat / 2 + nlat % 2,
        fft_offset,
    }
}

/// The outcome of the argument checks of the scalar synthesis with
/// computed tables on a Gaussian grid.
pub open spec fn shsgc_outcome(
    nlat: int,
    nt: int,
    alen: int,
    blen: int,
    wlen: int,
    lwork: int,
) -> Result<GaussianPlan, Refusal> {
    if nlat < 3 {
        Err(Refusal::Code(1))
    } else {
        match wshsgc_nlon(nlat, wlen) {
            None => Err(Refusal::NlonNotInferred),
            Some(nlon) => {
                if nlon < 4 {
                    Err(Refusal::Code(2))
                } else if nt < 1 {
                    Err(Refusal::Code(4))
                } else if alen != blen || alen != nlat * nlat * nt {
                    Err(Refusal::SizeMismatch)
                } else if lwork < spare_grid_lwork(nlat, nlon, nt) {
                    Err(Refusal::Code(10))
                } else {
                    Ok(gaussian_plan(nlat, nlon, wshsgc_len(nlat, nlon) - nlon - 15))
                }
            },
        }
    }
}

/// The argument checks of the scalar synthesis with computed tables on a
/// Gaussian grid, and the plan it works to.
pub fn check_shsgc(
    nlat: usize,
    nt: usize,
    alen: usize,
    blen: usize,
    wlen: usize,
    lwork: usize,
) -> (r: Result<GaussianPlan, Refusal>)
    ensures
        r == shsgc_outcome(
            nlat as int,
            nt as int,
            alen as int,
            blen as int,
            wlen as int,
            lwork as int,
        ),
{
    if nlat < 3 {
        return Err(Refusal::Code(1));
    }
    let found = infer_nlon_from_wshsgc(nlat, wlen);
    proof {
        lemma_search_outcome_is_first(
            |c: int| wshsgc_len(nlat as int, c) == wlen,
            nlat as int,
            match found {
                Some(t) => Some(t.0),
                None => None,
            },
        );
    }
    let nlon = match found {
        None => {
            return Err(Refusal::NlonNotInferred);
        },
        Some(t) => t.0,
    };
    if nlon < 4 {
        return Err(Refusal::Code(2));
    }
    if nt < 1 {
        return Err(Refusal::Code(4));
    }
    if alen != blen || !coeff_stack_size(nlat, nt).equals(alen) {
        return Err(Refusal::SizeMismatch);
    }
    if spare_grid_size(nlat, nlon, nt).exceeds(lwork) {
        return Err(Refusal::Code(10));
    }
    proof {
        lemma_wshsgc_lower(nlat as int, nlon as int);
    }
    Ok(make_gaussian_plan(nlat, nlon, wlen - nlon - 15))
}

/// The outcome of the argument checks of the scalar synthesis with stored
/// tables on a Gaussian grid.
pub open spec fn shsgs_outcome(
    nlat: int,
    nt: int,
    alen: int,
    blen: int,
    wlen: int,
    lwork: int,
) -> Result<GaussianPlan, Refusal> {
    if nlat < 3 {
        Err(Refusal::Code(1))
    } else {
        match wshags_nlon(nlat, wlen) {
            None => Err(Refusal::NlonNotInferred),
            Some(nlon) => {
                if nlon < 4 {
                    Err(Refusal::Code(2))
                } else if nt < 1 {
                    Err(Refusal::Code(4))
                } else if alen != blen || alen != nlat * nlat * nt {
                    Err(Refusal::SizeMismatch)
                } else if lwork < spare_grid_lwork(nlat, nlon, nt) {
                    Err(Refusal::Code(10))
                } else {
                    Ok(gaussian_plan(nlat, nlon, gaussian_fft_offset(nlat, nlon)))
                }
            },
        }
    }
}

/// The argument checks of the scalar synthesis with stored tables on a
/// Gaussian grid, and the plan it works to.
pub fn check_shsgs(
    nlat: usize,
    nt: usize,
    alen: usize,
    blen: usize,
    wlen: usize,
    lwork: usize,
) -> (r: Result<GaussianPlan, Refusal>)
    ensures
        r == shsgs_outcome(
            nlat as int,
            nt as int,
            alen as int,
            blen as int,
            wlen as int,
            lwork as int,
        ),
{
    if nlat < 3 {
        return Err(Refusal::Code(1));
    }
    let found = infer_nlon_from_wshags(nlat, wlen);
    proof {
        lemma_search_outcome_is_first(
            |c: int| wshags_len(nlat as int, c) == wlen,
            nlat as int,
            match found {
                Some(t) => Some(t.0),
                None => None,
            },
        );
    }
    let (nlon, prefix) = match found {
        None => {
            return Err(Refusal::NlonNotInferred);
        },
        Some(t) => (t.0, t.3),
    };
    if nlon < 4 {
        return Err(Refusal::Code(2));
    }
    if nt < 1 {
        return Err(Refusal::Code(4));
    }
    if alen != blen || !coeff_stack_size(nlat, nt).equals(alen) {
        return Err(Refusal::SizeMismatch);
    }
    if spare_grid_size(nlat, nlon, nt).exceeds(lwork) {
        return Err(Refusal::Code(10));
    }
    proof {
        lemma_wshags_parts(nlat as int, nlon as int);
    }
    Ok(make_gaussian_plan(nlat, nlon, prefix - (nlon + 15)))
}

/// The outcome of the argument checks of the scalar analysis with computed
/// tables on a Gaussian grid.
pub open spec fn shagc_outcome(
    nlat: int,
    nlon: int,
    nt: int,
    glen: int,
    wlen: int,
    lwork: int,
) -> Result<GaussianPlan, Refusal> {
    if nlat < 3 {
        Err(Refusal::Code(1))
    } else if nlon < 4 {
        Err(Refusal::Code(2))
    } else if nt < 1 {
        Err(Refusal::Code(4))
    } else if glen != nlat * nlon * nt {
        Err(Refusal::SizeMismatch)
    } else if wlen < wshsgc_len(nlat, nlon) {
        Err(Refusal::Code(9))
    } else if lwork < spare_grid_lwork(nlat, nlon, nt) {
        Err(Refusal::Code(10))
    } else {
        Ok(gaussian_plan(nlat, nlon, gaussian_fft_offset(nlat, nlon)))
    }
}

/// The argument checks of the scalar analysis with computed tables on a
/// Gaussian grid, and the plan it works to.
pub fn check_shagc(
    nlat: usize,
    nlon: usize,
    nt: usize,
    glen: usize,
    wlen: usize,
    lwork: usize,
) -> (r: Result<GaussianPlan, Refusal>)
    ensures
        r == shagc_outcome(nlat as int, nlon as int, nt as int, glen as int, wlen as int, lwork as int),
{
    if nlat < 3 {
        return Err(Refusal::Code(1));
    }
    if nlon < 4 {
        return Err(Refusal::Code(2));
    }
    if nt < 1 {
        return Err(Refusal::Code(4));
    }
    if !grid_stack_size(nlat, nlon, nt).equals(glen) {
        return Err(Refusal::SizeMismatch);
    }
    if wshsgc_size(nlat, nlon).exceeds(wlen) {
        return Err(Refusal::Code(9));
    }
    if spare_grid_size(nlat, nlon, nt).exceeds(lwork) {
        return Err(Refusal::Code(10));
    }
    proof {
        lemma_gaussian_prefix_identity(nlat as int, nlon as int);
    }
    Ok(make_gaussian_plan(nlat, nlon, gaussian_fft_offset_of(nlat, nlon)))
}

/// The outcome of the argument checks of the scalar analysis with stored
/// tables on a Gaussian grid.
pub open spec fn shags_outcome(
    nlat: int,
    nlon: int,
    nt: int,
    glen: int,
    wlen: int,
    lwork: int,
) -> Result<GaussianPlan, Refusal> {
    if nlat < 3 {
        Err(Refusal::Code(1))
    } else if nlon < 4 {
        Err(Refusal::Code(2))
    } else if nt < 1 {
        Err(Refusal::Code(4))
    } else if glen != nlat * nlon * nt {
        Err(Refusal::SizeMismatch)
    } else if wlen < shags_min_len(nlat, nlon) {
        Err(Refusal::Code(9))
    } else if lwork < spare_grid_lwork(nlat, nlon, nt) {
        Err(Refusal::Code(10))
    } else {
        Ok(gaussian_plan(nlat, nlon, gaussian_fft_offset(nlat, nlon)))
    }
}

/// The argument checks of the scalar analysis with stored tables on a
/// Gaussian grid, and the plan it works to.
pub fn check_shags(
    nlat: usize,
    nlon: usize,
    nt: usize,
    glen: usize,
    wlen: usize,
    lwork: usize,
) -> (r: Result<GaussianPlan, Refusal>)
    ensures
        r == shags_outcome(nlat as int, nlon as int, nt as int, glen as int, wlen as int, lwork as int),
{
    if nlat < 3 {
        return Err(Refusal::Code(1));
    }
    if nlon < 4 {
        return Err(Refusal::Code(2));
    }
    if nt < 1 {
        return Err(Refusal::Code(4));
    }
    if !grid_stack_size(nlat, nlon, nt).equals(glen) {
        return Err(Refusal::SizeMismatch);
    }
    proof {
        lemma_shags_min_len(nlat as int, nlon as int);
    }
    if wshags_size(nlat, nlon).exceeds(wlen) {
        return Err(Refusal::Code(9));
    }
    if spare_grid_size(nlat, nlon, nt).exceeds(lwork) {
        return Err(Refusal::Code(10));
    }
    proof {
        lemma_wshags_parts(nlat as int, nlon as int);
    }
    Ok(make_gaussian_plan(nlat, nlon, gaussian_fft_offset_of(nlat, nlon)))
}

// ---------------------------------------------------------------------------
// Table initialisations.

/// Where the initialisation of a regular-grid workspace puts its parts: the
/// length of the workspace and the offset of the FFT table.
#[derive(Clone, Copy, Debug, PartialEq, Eq, Structural)]
pub struct TableLayout {
    pub len: usize,
    pub fft_offset: usize,
}

/// `v < x` for a non-negative `x` evaluated exactly in 128 bits.
fn i32_below(v: i32, x: u128) -> (b: bool)
    ensures
        b == (v < x),
{
    v < 0 || (v as u128) < x
}

/// The outcome of the argument checks of the initialisation of the
/// computed tables of the scalar analysis on a regular grid, for a
/// workspace of `lsave` entries and `ldwork` words of double-precision
/// scratch.
pub open spec fn shaeci_outcome(nlat: int, nlon: int, lsave: int, ldwork: int) -> Result<
    TableLayout,
    i32,
> {
    if nlat < 3 {
        Err(1)
    } else if nlon < 4 {
        Err(2)
    } else if lsave < wshsec_len(nlat, nlon) {
        Err(3)
    } else if ldwork < nlat + 1 {
        Err(4)
    } else {
        Ok(
            TableLayout {
                len: lsave as usize,
                fft_offset: (zonal_len(nlat) + recurrence_len(nlat, scalar_mmax(nlat, nlon))) as usize,
            },
        )
    }
}

/// The argument checks of the initialisation of the computed tables of the
/// scalar analysis on a regular grid, and where it puts the FFT table.
pub fn check_shaeci(nlat: i32, nlon: i32, lsave: i32, ldwork: i32) -> (r: Result<TableLayout, i32>)
    ensures
        r == shaeci_outcome(nlat as int, nlon as int, lsave as int, ldwork as int),
{
    if nlat < 3 {
        return Err(1);
    }
    if nlon < 4 {
        return Err(2);
    }
    let n = nlat as u128;
    let c = nlon as u128;
    if i32_below(lsave, eval_wshsec_len(n, c)) {
        return Err(3);
    }
    if (ldwork as i64) < (nlat as i64) + 1 {
        return Err(4);
    }
    proof {
        lemma_wshsec_parts(nlat as int, nlon as int);
    }
    let mmax = min_u128(n, c / 2 + 1);
    let tables = eval_zonal_len(n) + eval_recurrence_len(n, mmax);
    Ok(TableLayout { len: lsave as usize, fft_offset: tables as usize })
}

/// The outcome of the argument checks of the initialisation of the stored
/// tables of the scalar transforms on a regular grid (analysis and
/// synthesis check alike), with `lwork` words of scratch.
pub open spec fn stored_regular_init_outcome(
    nlat: int,
    nlon: int,
    lsave: int,
    lwork: int,
    ldwork: int,
) -> Result<TableLayout, i32> {
    if nlat < 3 {
        Err(1)
    } else if nlon < 4 {
        Err(2)
    } else if lsave < wshses_len(nlat, nlon) {
        Err(3)
    } else if lwork < spec_init_work_len(nlat, nlon) {
        Err(4)
    } else if ldwork < nlat + 1 {
        Err(5)
    } else {
        Ok(
            TableLayout {
                len: lsave as usize,
                fft_offset: (vector_stored_len(nlat, scalar_mmax(nlat, nlon)) / 2) as usize,
            },
        )
    }
}

/// The argument checks of the initialisation of the stored tables of the
/// scalar transforms on a regular grid, and where it puts the FFT table.
pub fn check_stored_regular_init(nlat: i32, nlon: i32, lsave: i32, lwork: i32, ldwork: i32) -> (r:
    Result<TableLayout, i32>)
    ensures
        r == stored_regular_init_outcome(
            nlat as int,
            nlon as int,
            lsave as int,
            lwork as int,
            ldwork as int,
        ),
{
    if nlat < 3 {
        return Err(1);
    }
    if nlon < 4 {
        return Err(2);
    }
    let n = nlat as u128;
    let c = nlon as u128;
    if i32_below(lsave, eval_wshses_len(n, c)) {
        return Err(3);
    }
    let mmax = min_u128(n, c / 2 + 1);
    proof {
        lemma_mul_le(5 * n, (n + 1) / 2, 0x2_8000_0000, 0x8000_0000);
    }
    let work = 5 * n * ((n + 1) / 2) + eval_recurrence_len(n, mmax);
    if i32_below(lwork, work) {
        return Err(4);
    }
    if (ldwork as i64) < (nlat as i64) + 1 {
        return Err(5);
    }
    proof {
        lemma_stored_product_nonneg(nlat as int, mmax as int);
    }
    let stored = eval_stored_product(n, mmax) / 2;
    Ok(TableLayout { len: lsave as usize, fft_offset: stored as usize })
}

/// The outcome of the argument checks of the initialisation of the
/// computed tables of the scalar transforms on a Gaussian grid (analysis
/// and synthesis check alike).
pub open spec fn computed_gaussian_init_outcome(nlat: int, nlon: int, lsave: int, ldwork: int) -> Result<
    (),
    i32,
> {
    if nlat < 3 {
        Err(1)
    } else if nlon < 4 {
        Err(2)
    } else if lsave < wshsgc_len(nlat, nlon) {
        Err(3)
    } else if ldwork < nlat * (nlat + 4) {
        Err(4)
    } else {
        Ok(())
    }
}

/// The argument checks of the initialisation of the computed tables of the
/// scalar transforms on a Gaussian grid.
pub fn check_computed_gaussian_init(nlat: i32, nlon: i32, lsave: i32, ldwork: i32) -> (r: Result<
    (),
    i32,
>)
    ensures
        r == computed_gaussian_init_outcome(nlat as int, nlon as int, lsave as int, ldwork as int),
{
    if nlat < 3 {
        return Err(1);
    }
    if nlon < 4 {
        return Err(2);
    }
    let parts = eval_wshsgc(nlat as u128, nlon as u128);
    if i32_below(lsave, parts.2) {
        return Err(3);
    }
    let n = nlat as i64;
    proof {
        lemma_mul_le(n as int, n + 4, 0x8000_0000, 0x8000_0004);
    }
    if (ldwork as i64) < n * (n + 4) {
        return Err(4);
    }
    Ok(())
}

/// The outcome of the argument checks of the initialisation of the stored
/// tables of the scalar analysis on a Gaussian grid.
pub open spec fn shagsi_outcome(nlat: int, nlon: int, lsave: int, lwork: int, ldwork: int) -> Result<
    (),
    i32,
> {
    if nlat < 3 {
        Err(1)
    } else if nlon < 4 {
        Err(2)
    } else if lsave < shags_min_len(nlat, nlon) {
        Err(3)
    } else if lwork < 4 * nlat * (nlat + 2) + 2 {
        Err(4)
    } else if ldwork < nlat * (nlat + 4) {
        Err(5)
    } else {
        Ok(())
    }
}

/// The argument checks of the initialisation of the stored tables of the
/// scalar analysis on a Gaussian grid.
pub fn check_shagsi(nlat: i32, nlon: i32, lsave: i32, lwork: i32, ldwork: i32) -> (r: Result<
    (),
    i32,
>)
    ensures
        r == shagsi_outcome(nlat as int, nlon as int, lsave as int, lwork as int, ldwork as int),
{
    if nlat < 3 {
        return Err(1);
    }
    if nlon < 4 {
        return Err(2);
    }
    proof {
        lemma_shags_min_len(nlat as int, nlon as int);
    }
    let parts = eval_wshags(nlat as u128, nlon as u128);
    if i32_below(lsave, parts.3) {
        return Err(3);
    }
    let n = nlat as i128;
    proof {
        lemma_mul_le(4 * n, n + 2, 0x2_0000_0000, 0x8000_0002);
        lemma_mul_le(n as int, n + 4, 0x8000_0000, 0x8000_0004);
    }
    if (lwork as i128) < 4 * n * (n + 2) + 2 {
        return Err(4);
    }
    if (ldwork as i128) < n * (n + 4) {
        return Err(5);
    }
    Ok(())
}

// ---------------------------------------------------------------------------
// Scalar Laplacian.

/// Scratch length of the scalar Laplacian on a regular grid with stored
/// tables.
pub open spec fn slapes_lwork(nlat: int, nlon: int, nt: int, isym: int) -> int {
    let rows = if isym == 0 {
        nlat
    } else {
        half_up(nlat)
    };
    (nt + 1) * rows * nlon + nlat * (2 * nt * scalar_mmax(nlat, nlon) + 1)
}

/// The outcome of the argument checks of the scalar Laplacian on a regular
/// grid with stored tables.
pub open spec fn slapes_outcome(
    nlon: int,
    nlat: int,
    isym: int,
    nt: int,
    alen: int,
    blen: int,
    wlen: int,
    lwork: int,
) -> Result<RegularPlan, Refusal> {
    let mmax = scalar_mmax(nlat, nlon);
    if nlat < 3 {
        Err(Refusal::Code(1))
    } else if nlon < 4 {
        Err(Refusal::Code(2))
    } else if isym > 2 {
        Err(Refusal::Code(3))
    } else if nt < 1 {
        Err(Refusal::Code(4))
    } else if alen != blen || alen != nlat * nlat * nt {
        Err(Refusal::SizeMismatch)
    } else if wlen < wshses_len(nlat, nlon) {
        Err(Refusal::Code(9))
    } else if lwork < slapes_lwork(nlat, nlon, nt, isym) {
        Err(Refusal::Code(10))
    } else {
        Ok(regular_plan(nlat, nlon, mmax, vector_stored_len(nlat, mmax) / 2))
    }
}

/// The argument checks of the scalar Laplacian on a regular grid with
/// stored tables, and the plan of the synthesis it makes.
pub fn check_slapes(
    nlon: usize,
    nlat: usize,
    isym: usize,
    nt: usize,
    alen: usize,
    blen: usize,
    wlen: usize,
    lwork: usize,
) -> (r: Result<RegularPlan, Refusal>)
    ensures
        r == slapes_outcome(
            nlon as int,
            nlat as int,
            isym as int,
            nt as int,
            alen as int,
            blen as int,
            wlen as int,
            lwork as int,
        ),
{
    if nlat < 3 {
        return Err(Refusal::Code(1));
    }
    if nlon < 4 {
        return Err(Refusal::Code(2));
    }
    if isym > 2 {
        return Err(Refusal::Code(3));
    }
    if nt < 1 {
        return Err(Refusal::Code(4));
    }
    if alen != blen || !coeff_stack_size(nlat, nt).equals(alen) {
        return Err(Refusal::SizeMismatch);
    }
    if wshses_size(nlat, nlon).exceeds(wlen) {
        return Err(Refusal::Code(9));
    }
    let rows = if isym == 0 {
        nlat
    } else {
        nlat / 2 + nlat % 2
    };
    let mmax = min_usize_of(nlat, nlon / 2 + 1);
    let need = Size::of(nt).plus(Size::of(1)).times(Size::of(rows)).times(Size::of(nlon)).plus(
        Size::of(nlat).times(
            Size::of(2).times(Size::of(nt)).times(Size::of(mmax)).plus(Size::of(1)),
        ),
    );
    if need.exceeds(lwork) {
        return Err(Refusal::Code(10));
    }
    proof {
        if nlat >= big_grid() {
            lemma_stored_product_big(nlat as int, mmax as int);
        }
        lemma_stored_product_nonneg(nlat as int, mmax as int);
    }
    let stored = (eval_stored_product(nlat as u128, mmax as u128) / 2) as usize;
    Ok(make_regular_plan(nlat, nlon, mmax, stored))
}

/// Scratch length of the scalar Laplacian on a Gaussian grid with computed
/// tables.
pub open spec fn slapgc_lwork(nlat: int, nlon: int, nt: int, isym: int) -> int {
    let l2 = half_up(nlat);
    let mmax = scalar_mmax(nlat, nlon);
    if isym == 0 {
        nlat * (2 * nt * nlon + max_int(6 * l2, nlon) + 2 * nt * mmax + 1)
    } else {
        l2 * (2 * nt * nlon + max_int(6 * nlat, nlon)) + nlat * (2 * nt * mmax + 1)
    }
}

/// The outcome of the argument checks of the scalar Laplacian on a
/// Gaussian grid with computed tables.
pub open spec fn slapgc_outcome(
    nlon: int,
    nlat: int,
    isym: int,
    nt: int,
    alen: int,
    blen: int,
    wlen: int,
    lwork: int,
) -> Result<GaussianPlan, Refusal> {
    if nlat < 3 {
        Err(Refusal::Code(1))
    } else if nlon < 4 {
        Err(Refusal::Code(2))
    } else if isym > 2 {
        Err(Refusal::Code(3))
    } else if nt < 1 {
        Err(Refusal::Code(4))
    } else if alen != blen || alen != nlat * nlat * nt {
        Err(Refusal::SizeMismatch)
    } else if wlen < wshsgc_len(nlat, nlon) {
        Err(Refusal::Code(9))
    } else if lwork < slapgc_lwork(nlat, nlon, nt, isym) {
        Err(Refusal::Code(10))
    } else {
        Ok(gaussian_plan(nlat, nlon, wshsgc_len(nlat, nlon) - nlon - 15))
    }
}

/// The argument checks of the scalar Laplacian on a Gaussian grid with
/// computed tables, and the plan of the synthesis it makes.
pub fn check_slapgc(
    nlon: usize,
    nlat: usize,
    isym: usize,
    nt: usize,
    alen: usize,
    blen: usize,
    wlen: usize,
    lwork: usize,
) -> (r: Result<GaussianPlan, Refusal>)
    ensures
        r == slapgc_outcome(
            nlon as int,
            nlat as int,
            isym as int,
            nt as int,
            alen as int,
            blen as int,
            wlen as int,
            lwork as int,
        ),
{
    if nlat < 3 {
        return Err(Refusal::Code(1));
    }
    if nlon < 4 {
        return Err(Refusal::Code(2));
    }
    if isym > 2 {
        return Err(Refusal::Code(3));
    }
    if nt < 1 {
        return Err(Refusal::Code(4));
    }
    if alen != blen || !coeff_stack_size(nlat, nt).equals(alen) {
        return Err(Refusal::SizeMismatch);
    }
    let table = wshsgc_size(nlat, nlon);
    if table.exceeds(wlen) {
        return Err(Refusal::Code(9));
    }
    let l2 = nlat / 2 + nlat % 2;
    let mmax = min_usize_of(nlat, nlon / 2 + 1);
    let coeffs = Size::of(2).times(Size::of(nt)).times(Size::of(mmax));
    let grids = Size::of(2).times(Size::of(nt)).times(Size::of(nlon));
    let need = if isym == 0 {
        Size::of(nlat).times(
            grids.plus(Size::of(6).times(Size::of(l2)).larger(Size::of(nlon))).plus(coeffs).plus(
                Size::of(1),
            ),
        )
    } else {
        Size::of(l2).times(grids.plus(Size::of(6).times(Size::of(nlat)).larger(Size::of(nlon))))
            .plus(Size::of(nlat).times(coeffs.plus(Size::of(1))))
    };
    if need.exceeds(lwork) {
        return Err(Refusal::Code(10));
    }
    proof {
        lemma_wshsgc_lower(nlat as int, nlon as int);
    }
    let offset = match table.word {
        Some(w) => w - nlon - 15,
        None => 0,
    };
    Ok(make_gaussian_plan(nlat, nlon, offset))
}

// ---------------------------------------------------------------------------
// Helmholtz demonstration on a regular grid.

/// Workspace lengths that the Helmholtz demonstration on a regular grid
/// allots: the saved table, the scratch and the double-precision scratch.
#[derive(Clone, Copy, Debug, PartialEq, Eq, Structural)]
pub struct HelmholtzWorkspace {
    pub lsave: usize,
    pub lwork: usize,
    pub ldwork: usize,
}

/// Scratch length of the Helmholtz demonstration,
/// `nlat * (2 * nlon + 3 * (nlat + 1) + 2 * nlat + 1)`.
pub open spec fn helmsph_lwork(nlat: int, nlon: int) -> int {
    nlat * (2 * nlon + 3 * (nlat + 1) + 2 * nlat + 1)
}

/// The outcome of the argument checks of the Helmholtz demonstration, and
/// the workspace it allots: the saved table of the computed-table scalar
/// transforms, the scratch above, and `nlat + 1` double-precision words.
pub open spec fn helmsph_outcome(nlat: int, nlon: int) -> Result<HelmholtzWorkspace, i32> {
    if nlat < 3 {
        Err(1)
    } else if nlon < 4 {
        Err(2)
    } else {
        Ok(
            HelmholtzWorkspace {
                lsave: wshsec_len(nlat, nlon) as usize,
                lwork: helmsph_lwork(nlat, nlon) as usize,
                ldwork: (nlat + 1) as usize,
            },
        )
    }
}

/// The argument checks of the Helmholtz demonstration on a regular grid,
/// and the workspace lengths it allots.
pub fn check_helmsph(nlat: usize, nlon: usize) -> (r: Result<HelmholtzWorkspace, i32>)
    requires
        nlat >= 3 && nlon >= 4 ==> wshsec_len(nlat as int, nlon as int) <= usize::MAX,
        nlat >= 3 && nlon >= 4 ==> helmsph_lwork(nlat as int, nlon as int) <= usize::MAX,
    ensures
        r == helmsph_outcome(nlat as int, nlon as int),
{
    if nlat < 3 {
        return Err(1);
    }
    if nlon < 4 {
        return Err(2);
    }
    proof {
        let w = 2 * nlon + 3 * (nlat + 1) + 2 * nlat + 1;
        assert(nlat * w >= nlat * nlat) by (nonlinear_arith)
            requires
                nlat >= 3,
                w >= nlat,
        ;
        if nlat >= big_grid() {
            assert(nlat * nlat >= big_grid() * big_grid()) by (nonlinear_arith)
                requires
                    nlat >= big_grid(),
                    big_grid() > 0,
            ;
        }
        assert(nlat * w >= 3 * w) by (nonlinear_arith)
            requires
                nlat >= 3,
                w >= 0,
        ;
    }
    let n = nlat as u128;
    let c = nlon as u128;
    let lsave = eval_wshsec_len(n, c);
    let w = 2 * c + 3 * (n + 1) + 2 * n + 1;
    proof {
        lemma_mul_le(n as int, w as int, big_grid(), 0x10_0000_0000_0000_0000);
    }
    let lwork = n * w;
    Ok(HelmholtzWorkspace { lsave: lsave as usize, lwork: lwork as usize, ldwork: nlat + 1 })
}

} // verus!
