//! The argument checks of the vector routines (gradients, divergence,
//! vorticity and their inverses, stream function and velocity potential),
//! and the quantities they derive from the grid size.
//!
//! Refusals and sizes follow the conventions of `checks`.
use vstd::prelude::*;
use crate::checks::{
    coeff_stack_size, make_regular_plan, min_usize_of, regular_plan, shsec_lwork, wshsec_size,
    wshses_size, RegularPlan, Refusal,
};
use crate::gaussian_stored_scalar::{max_int, sat_sub};
use crate::nlon_inference::{
    big_grid, eval_stored_product, eval_wvhsgc_len, infer_nlon_from_wshses,
    infer_nlon_from_wvhses, infer_nlon_from_wvhsgc, infer_nlon_from_wvhsgs,
    infer_nlon_from_wvhsgs_synthesis, lemma_big_square, lemma_recurrence_len_nonneg,
    lemma_search_outcome_is_first, lemma_stored_product_big, lemma_stored_product_nonneg,
    lemma_zonal_len_lower, lemma_wshsec_parts, eval_zonal_len, eval_recurrence_len, wshses_nlon, wvhses_nlon, wvhsgc_nlon, wvhsgs_nlon,
    wvhsgs_synthesis_nlon,
};
use crate::size::Size;
use crate::tables::{
    recurrence_len, scalar_mmax, vector_mmax, vector_stored_len, wshsec_len, wshses_len,
    wvhses_len_with, wvhsgc_len, zonal_len,
    wvhsgs_full_len, wvhsgs_len, wvhsgs_weighted_len,
};
use crate::workspace::half_up;

verus! {

/// The table selector of a vector routine for the symmetry flag `isym`:
/// `full` for a field on the whole sphere (`isym == 0`), `half` for a field
/// symmetric about the equator in the one sense (`isym == 1`) and
/// `half + 3` in the other (`isym == 2`); none for any other flag.
pub open spec fn ityp_for(isym: int, full: int, half: int) -> Option<int> {
    if isym == 0 {
        Some(full)
    } else if isym == 1 {
        Some(half)
    } else if isym == 2 {
        Some(half + 3)
    } else {
        None
    }
}

/// The table selector of a vector routine for the symmetry flag `isym`.
pub fn ityp_from_isym(isym: usize, full: usize, half: usize) -> (r: Option<usize>)
    requires
        half + 3 <= usize::MAX,
    ensures
        r == match ityp_for(isym as int, full as int, half as int) {
            Some(t) => Some(t as usize),
            None => None,
        },
{
    if isym == 0 {
        Some(full)
    } else if isym == 1 {
        Some(half)
    } else if isym == 2 {
        Some(half + 3)
    } else {
        None
    }
}

/// The table selector of the inverse stream-function routines, `3 * isym`,
/// for a flag already checked to be 0, 1 or 2.
pub fn isym_to_ityp(isym: usize) -> (r: usize)
    requires
        isym <= 2,
    ensures
        r == 3 * isym,
{
    3 * isym
}

/// What the vector routines derive from the grid size before they read
/// the data: the number of longitudes, the wavenumber limit, the hemisphere
/// size and the table selector.
#[derive(Clone, Copy, Debug, PartialEq, Eq, Structural)]
pub struct VectorPlan {
    pub nlon: usize,
    pub mmax: usize,
    pub imid: usize,
    pub ityp: usize,
}

/// The plan of a vector routine.
pub open spec fn vector_plan(nlat: int, nlon: int, mmax: int, ityp: int) -> VectorPlan {
    VectorPlan {
        nlon: nlon as usize,
        mmax: mmax as usize,
        imid: half_up(nlat) as usize,
        ityp: ityp as usize,
    }
}

/// Builds the plan of a vector routine.
fn make_vector_plan(nlat: usize, nlon: usize, mmax: usize, ityp: usize) -> (r: VectorPlan)
    ensures
        r == vector_plan(nlat as int, nlon as int, mmax as int, ityp as int),
{
    VectorPlan { nlon, mmax, imid: nlat / 2 + nlat % 2, ityp }
}

/// `min(nlat, (nlon + 1) / 2)`, the wavenumber limit of the vector routines.
fn vector_mmax_of(nlat: usize, nlon: usize) -> (r: usize)
    ensures
        r == vector_mmax(nlat as int, nlon as int),
{
    min_usize_of(nlat, nlon / 2 + nlon % 2)
}

/// Every one of four stacks of coefficient arrays has `nlat * nlat * nt`
/// entries.
fn four_stacks_match(a: usize, b: usize, c: usize, d: usize, nlat: usize, nt: usize) -> (m: bool)
    ensures
        m == (a == nlat * nlat * nt && b == nlat * nlat * nt && c == nlat * nlat * nt && d == nlat
            * nlat * nt),
{
    let s = coeff_stack_size(nlat, nt);
    s.equals(a) && s.equals(b) && s.equals(c) && s.equals(d)
}

/// `wvhsgc_len(nlat, nlon)` as a size.
fn wvhsgc_size(nlat: usize, nlon: usize) -> (r: Size)
    ensures
        r.wf(),
        r.val() == wvhsgc_len(nlat as int, nlon as int),
{
    proof {
        lemma_zonal_len_lower(nlat as int);
        assert(nlat * nlat >= 0) by (nonlinear_arith);
        lemma_recurrence_len_nonneg(nlat as int, vector_mmax(nlat as int, nlon as int));
    }
    if nlat as u128 >= 0x2_0000_0000 {
        proof {
            lemma_big_square(nlat as int);
        }
        Size::beyond_words(Ghost(wvhsgc_len(nlat as int, nlon as int)))
    } else {
        Size::of_wide(eval_wvhsgc_len(nlat as u128, nlon as u128))
    }
}

/// `vector_stored_len(nlat, mmax)` as a size.
fn stored_size(nlat: usize, mmax: usize) -> (r: Size)
    requires
        1 <= mmax <= nlat,
    ensures
        r.wf(),
        r.val() == vector_stored_len(nlat as int, mmax as int),
{
    proof {
        lemma_stored_product_nonneg(nlat as int, mmax as int);
    }
    if nlat as u128 >= 0x2_0000_0000 {
        proof {
            lemma_stored_product_big(nlat as int, mmax as int);
        }
        Size::beyond_words(Ghost(vector_stored_len(nlat as int, mmax as int)))
    } else {
        Size::of_wide(eval_stored_product(nlat as u128, mmax as u128))
    }
}

/// `vector_stored_len(nlat, mmax) / 2` as a size.
fn stored_half_size(nlat: usize, mmax: usize) -> (r: Size)
    requires
        1 <= mmax <= nlat,
    ensures
        r.wf(),
        r.val() == vector_stored_len(nlat as int, mmax as int) / 2,
{
    proof {
        lemma_stored_product_nonneg(nlat as int, mmax as int);
    }
    if nlat as u128 >= 0x2_0000_0000 {
        proof {
            lemma_stored_product_big(nlat as int, mmax as int);
        }
        Size::beyond_words(Ghost(vector_stored_len(nlat as int, mmax as int) / 2))
    } else {
        Size::of_wide(eval_stored_product(nlat as u128, mmax as u128) / 2)
    }
}

/// `a * (2 * nt * nlon + max(6 * b, nlon))`, the scratch of a vector
/// synthesis over `a` latitudes of which `b` are kept by the other
/// hemisphere.
pub open spec fn synthesis_scratch(a: int, b: int, nlon: int, nt: int) -> int {
    a * (2 * nt * nlon + max_int(6 * b, nlon))
}

/// [`synthesis_scratch`] as a size.
fn synthesis_scratch_size(a: usize, b: usize, nlon: usize, nt: usize) -> (r: Size)
    ensures
        r.wf(),
        r.val() == synthesis_scratch(a as int, b as int, nlon as int, nt as int),
{
    Size::of(a).times(
        Size::of(2).times(Size::of(nt)).times(Size::of(nlon)).plus(
            Size::of(6).times(Size::of(b)).larger(Size::of(nlon)),
        ),
    )
}

/// `k * mmax * nlat * nt + nlat`, the coefficient scratch of a vector
/// routine that keeps `k` coefficient arrays.
pub open spec fn coeff_scratch(k: int, mmax: int, nlat: int, nt: int) -> int {
    k * (mmax * nlat * nt) + nlat
}

/// [`coeff_scratch`] as a size.
fn coeff_scratch_size(k: usize, mmax: usize, nlat: usize, nt: usize) -> (r: Size)
    ensures
        r.wf(),
        r.val() == coeff_scratch(k as int, mmax as int, nlat as int, nt as int),
{
    Size::of(k).times(Size::of(mmax).times(Size::of(nlat)).times(Size::of(nt))).plus(
        Size::of(nlat),
    )
}

// ---------------------------------------------------------------------------
// Divergence and gradient.

/// The outcome of the argument checks of the divergence on a regular grid
/// with stored tables, for coefficient stacks of `brlen` and `bilen`
/// entries.
pub open spec fn dives_outcome(
    nlon: int,
    nlat: int,
    isym: int,
    nt: int,
    brlen: int,
    bilen: int,
    wlen: int,
    lwork: int,
) -> Result<RegularPlan, Refusal> {
    let imid = half_up(nlat);
    let mmax = scalar_mmax(nlat, nlon);
    let ls = if isym == 0 {
        nlat
    } else {
        imid
    };
    if nlat < 3 {
        Err(Refusal::Code(1))
    } else if nlon < 4 {
        Err(Refusal::Code(2))
    } else if isym > 2 {
        Err(Refusal::Code(3))
    } else if nt < 1 {
        Err(Refusal::Code(4))
    } else if brlen != bilen || brlen != nlat * nlat * nt {
        Err(Refusal::SizeMismatch)
    } else if wlen < wshses_len(nlat, nlon) {
        Err(Refusal::Code(9))
    } else if lwork < nt * ls * nlon + ls * nlon + 2 * (mmax * nlat * nt) + nlat {
        Err(Refusal::Code(10))
    } else {
        Ok(regular_plan(nlat, nlon, mmax, vector_stored_len(nlat, mmax) / 2))
    }
}

/// The argument checks of the divergence on a regular grid with stored
/// tables, and the plan of the synthesis it makes.
pub fn check_dives(
    nlon: usize,
    nlat: usize,
    isym: usize,
    nt: usize,
    brlen: usize,
    bilen: usize,
    wlen: usize,
    lwork: usize,
) -> (r: Result<RegularPlan, Refusal>)
    ensures
        r == dives_outcome(
            nlon as int,
            nlat as int,
            isym as int,
            nt as int,
            brlen as int,
            bilen as int,
            wlen as int,
            lwork as int,
        ),
{
    if nlat < 3 {
        return Err(Refusal::Code(1));
    }
    if nlon < 4 {
        return Err(Refusal::Code(2));
    }
    if isym > 2 {
        return Err(Refusal::Code(3));
    }
    if nt < 1 {
        return Err(Refusal::Code(4));
    }
    if brlen != bilen || !coeff_stack_size(nlat, nt).equals(brlen) {
        return Err(Refusal::SizeMismatch);
    }
    if wshses_size(nlat, nlon).exceeds(wlen) {
        return Err(Refusal::Code(9));
    }
    let imid = nlat / 2 + nlat % 2;
    let ls = if isym == 0 {
        nlat
    } else {
        imid
    };
    let mmax = min_usize_of(nlat, nlon / 2 + 1);
    let need = Size::of(nt).times(Size::of(ls)).times(Size::of(nlon)).plus(
        Size::of(ls).times(Size::of(nlon)),
    ).plus(Size::of(2).times(Size::of(mmax).times(Size::of(nlat)).times(Size::of(nt)))).plus(
        Size::of(nlat),
    );
    if need.exceeds(lwork) {
        return Err(Refusal::Code(10));
    }
    proof {
        if nlat >= big_grid() {
            lemma_stored_product_big(nlat as int, mmax as int);
        }
        lemma_stored_product_nonneg(nlat as int, mmax as int);
    }
    let stored = (eval_stored_product(nlat as u128, mmax as u128) / 2) as usize;
    Ok(make_regular_plan(nlat, nlon, mmax, stored))
}

/// Scratch length of the gradient on a regular grid with computed tables.
pub open spec fn gradec_lwork(nlat: int, nlon: int, nt: int, isym: int) -> int {
    let l1 = vector_mmax(nlat, nlon);
    let l2 = half_up(nlat);
    if isym == 0 {
        synthesis_scratch(nlat, l2, nlon, nt) + nlat * (2 * l1 * nt + 1)
    } else {
        synthesis_scratch(l2, nlat, nlon, nt) + nlat * (2 * l1 * nt + 1)
    }
}

/// The outcome of the argument checks of the gradient on a regular grid
/// with computed tables.
pub open spec fn gradec_outcome(
    nlat: int,
    nlon: int,
    nt: int,
    isym: int,
    alen: int,
    blen: int,
    lwork: int,
) -> Result<VectorPlan, Refusal> {
    if nlat < 3 {
        Err(Refusal::Code(1))
    } else if nlon < 4 {
        Err(Refusal::Code(2))
    } else {
        match ityp_for(isym, 1, 4) {
            None => Err(Refusal::InvalidIsym),
            Some(ityp) => {
                if nt < 1 {
                    Err(Refusal::Code(4))
                } else if alen != blen || alen != nlat * nlat * nt {
                    Err(Refusal::SizeMismatch)
                } else if lwork < gradec_lwork(nlat, nlon, nt, isym) {
                    Err(Refusal::Code(10))
                } else {
                    Ok(vector_plan(nlat, nlon, vector_mmax(nlat, nlon), ityp))
                }
            },
        }
    }
}

/// The argument checks of the gradient on a regular grid with computed
/// tables, and the plan it works to.
pub fn check_gradec(
    nlat: usize,
    nlon: usize,
    nt: usize,
    isym: usize,
    alen: usize,
    blen: usize,
    lwork: usize,
) -> (r: Result<VectorPlan, Refusal>)
    ensures
        r == gradec_outcome(
            nlat as int,
            nlon as int,
            nt as int,
            isym as int,
            alen as int,
            blen as int,
            lwork as int,
        ),
{
    if nlat < 3 {
        return Err(Refusal::Code(1));
    }
    if nlon < 4 {
        return Err(Refusal::Code(2));
    }
    let ityp = match ityp_from_isym(isym, 1, 4) {
        None => {
            return Err(Refusal::InvalidIsym);
        },
        Some(t) => t,
    };
    if nt < 1 {
        return Err(Refusal::Code(4));
    }
    if alen != blen || !coeff_stack_size(nlat, nt).equals(alen) {
        return Err(Refusal::SizeMismatch);
    }
    let l1 = vector_mmax_of(nlat, nlon);
    let l2 = nlat / 2 + nlat % 2;
    let tail = Size::of(nlat).times(
        Size::of(2).times(Size::of(l1)).times(Size::of(nt)).plus(Size::of(1)),
    );
    let need = if isym == 0 {
        synthesis_scratch_size(nlat, l2, nlon, nt).plus(tail)
    } else {
        synthesis_scratch_size(l2, nlat, nlon, nt).plus(tail)
    };
    if need.exceeds(lwork) {
        return Err(Refusal::Code(10));
    }
    Ok(make_vector_plan(nlat, nlon, l1, ityp))
}

/// The outcome of the argument checks of the gradient on a Gaussian grid
/// with computed tables.
pub open spec fn gradgc_outcome(
    nlat: int,
    nt: int,
    isym: int,
    alen: int,
    blen: int,
    wlen: int,
) -> Result<VectorPlan, Refusal> {
    if nlat < 3 {
        Err(Refusal::Code(1))
    } else {
        match wvhsgc_nlon(nlat, wlen) {
            None => Err(Refusal::NlonNotInferred),
            Some(nlon) => match ityp_for(isym, 0, 4) {
                None => Err(Refusal::InvalidIsym),
                Some(ityp) => {
                    if nlon < 4 {
                        Err(Refusal::Code(2))
                    } else if nt < 1 {
                        Err(Refusal::Code(4))
                    } else if alen != blen || alen != nlat * nlat * nt {
                        Err(Refusal::SizeMismatch)
                    } else {
                        Ok(vector_plan(nlat, nlon, vector_mmax(nlat, nlon), ityp))
                    }
                },
            },
        }
    }
}

/// The argument checks of the gradient on a Gaussian grid with computed
/// tables, and the plan it works to.
pub fn check_gradgc(
    nlat: usize,
    nt: usize,
    isym: usize,
    alen: usize,
    blen: usize,
    wlen: usize,
) -> (r: Result<VectorPlan, Refusal>)
    ensures
        r == gradgc_outcome(nlat as int, nt as int, isym as int, alen as int, blen as int, wlen as int),
{
    if nlat < 3 {
        return Err(Refusal::Code(1));
    }
    let found = infer_nlon_from_wvhsgc(nlat, wlen);
    proof {
        lemma_search_outcome_is_first(
            |c: int| wvhsgc_len(nlat as int, c) == wlen,
            nlat as int,
            found,
        );
    }
    let nlon = match found {
        None => {
            return Err(Refusal::NlonNotInferred);
        },
        Some(n) => n,
    };
    let ityp = match ityp_from_isym(isym, 0, 4) {
        None => {
            return Err(Refusal::InvalidIsym);
        },
        Some(t) => t,
    };
    if nlon < 4 {
        return Err(Refusal::Code(2));
    }
    if nt < 1 {
        return Err(Refusal::Code(4));
    }
    if alen != blen || !coeff_stack_size(nlat, nt).equals(alen) {
        return Err(Refusal::SizeMismatch);
    }
    Ok(make_vector_plan(nlat, nlon, vector_mmax_of(nlat, nlon), ityp))
}

/// Scratch length of the gradient on a Gaussian grid with stored tables:
/// `(2 * nt + 1) * idv * nlon + 2 * mmax * nlat * nt + nlat`.
pub open spec fn gradgs_lwork(nlat: int, nlon: int, nt: int, isym: int) -> int {
    let idv = if isym == 0 {
        nlat
    } else {
        half_up(nlat)
    };
    (2 * nt + 1) * idv * nlon + coeff_scratch(2, vector_mmax(nlat, nlon), nlat, nt)
}

/// The outcome of the argument checks of the gradient on a Gaussian grid
/// with stored tables.
pub open spec fn gradgs_outcome(
    nlat: int,
    nt: int,
    isym: int,
    alen: int,
    blen: int,
    wlen: int,
    lwork: int,
) -> Result<VectorPlan, Refusal> {
    if nlat < 3 {
        Err(Refusal::Code(1))
    } else {
        match wvhsgs_nlon(nlat, wlen) {
            None => Err(Refusal::NlonNotInferred),
            Some(nlon) => {
                if nlon < 4 {
                    Err(Refusal::Code(2))
                } else {
                    match ityp_for(isym, 1, 4) {
                        None => Err(Refusal::InvalidIsym),
                        Some(ityp) => {
                            if nt < 1 {
                                Err(Refusal::Code(4))
                            } else if alen != blen || alen != nlat * nlat * nt {
                                Err(Refusal::SizeMismatch)
                            } else if lwork < gradgs_lwork(nlat, nlon, nt, isym) {
                                Err(Refusal::Code(10))
                            } else {
                                Ok(vector_plan(nlat, nlon, vector_mmax(nlat, nlon), ityp))
                            }
                        },
                    }
                }
            },
        }
    }
}

/// The argument checks of the gradient on a Gaussian grid with stored
/// tables, and the plan it works to.
pub fn check_gradgs(
    nlat: usize,
    nt: usize,
    isym: usize,
    alen: usize,
    blen: usize,
    wlen: usize,
    lwork: usize,
) -> (r: Result<VectorPlan, Refusal>)
    ensures
        r == gradgs_outcome(
            nlat as int,
            nt as int,
            isym as int,
            alen as int,
            blen as int,
            wlen as int,
            lwork as int,
        ),
{
    if nlat < 3 {
        return Err(Refusal::Code(1));
    }
    let found = infer_nlon_from_wvhsgs(nlat, wlen);
    proof {
        lemma_search_outcome_is_first(
            |c: int|
                wvhsgs_weighted_len(nlat as int, c) == wlen || wvhsgs_full_len(nlat as int, c)
                    == wlen,
            nlat as int,
            found,
        );
    }
    let nlon = match found {
        None => {
            return Err(Refusal::NlonNotInferred);
        },
        Some(n) => n,
    };
    if nlon < 4 {
        return Err(Refusal::Code(2));
    }
    let ityp = match ityp_from_isym(isym, 1, 4) {
        None => {
            return Err(Refusal::InvalidIsym);
        },
        Some(t) => t,
    };
    if nt < 1 {
        return Err(Refusal::Code(4));
    }
    if alen != blen || !coeff_stack_size(nlat, nt).equals(alen) {
        return Err(Refusal::SizeMismatch);
    }
    let mmax = vector_mmax_of(nlat, nlon);
    let idv = if isym == 0 {
        nlat
    } else {
        nlat / 2 + nlat % 2
    };
    let need = Size::of(2).times(Size::of(nt)).plus(Size::of(1)).times(Size::of(idv)).times(
        Size::of(nlon),
    ).plus(coeff_scratch_size(2, mmax, nlat, nt));
    if need.exceeds(lwork) {
        return Err(Refusal::Code(10));
    }
    Ok(make_vector_plan(nlat, nlon, mmax, ityp))
}

/// The outcome of the argument checks of the inverse gradient on a regular
/// grid with stored tables.
pub open spec fn igrades_outcome(nlat: int, nt: int, brlen: int, bilen: int, wlen: int) -> Result<
    VectorPlan,
    Refusal,
> {
    if nlat < 3 {
        Err(Refusal::Code(1))
    } else {
        match wshses_nlon(nlat, wlen) {
            None => Err(Refusal::NlonNotInferred),
            Some(nlon) => {
                if nlon < 4 {
                    Err(Refusal::Code(2))
                } else if nt < 1 {
                    Err(Refusal::Code(4))
                } else if brlen != bilen || brlen != nlat * nlat * nt {
                    Err(Refusal::SizeMismatch)
                } else {
                    Ok(vector_plan(nlat, nlon, vector_mmax(nlat, nlon), 0))
                }
            },
        }
    }
}

/// The argument checks of the inverse gradient on a regular grid with
/// stored tables, and the plan it works to (its table selector is 0).
pub fn check_igrades(nlat: usize, nt: usize, brlen: usize, bilen: usize, wlen: usize) -> (r: Result<
    VectorPlan,
    Refusal,
>)
    ensures
        r == igrades_outcome(nlat as int, nt as int, brlen as int, bilen as int, wlen as int),
{
    if nlat < 3 {
        return Err(Refusal::Code(1));
    }
    let found = infer_nlon_from_wshses(nlat, wlen);
    proof {
        lemma_search_outcome_is_first(
            |c: int| wshses_len(nlat as int, c) == wlen,
            nlat as int,
            found,
        );
    }
    let nlon = match found {
        None => {
            return Err(Refusal::NlonNotInferred);
        },
        Some(n) => n,
    };
    if nlon < 4 {
        return Err(Refusal::Code(2));
    }
    if nt < 1 {
        return Err(Refusal::Code(4));
    }
    if brlen != bilen || !coeff_stack_size(nlat, nt).equals(brlen) {
        return Err(Refusal::SizeMismatch);
    }
    Ok(make_vector_plan(nlat, nlon, vector_mmax_of(nlat, nlon), 0))
}

// ---------------------------------------------------------------------------
// Inverse divergence, vorticity and their combinations.

/// Scratch length of the inverse routines that synthesise over the whole
/// sphere for `isym == 0` with `k` coefficient arrays:
/// `imid * (2 * nt * nlon + max(6 * nlat, nlon)) + k * mmax * nlat * nt + nlat`,
/// and over one hemisphere otherwise:
/// `nlat * (2 * nt * nlon + max(6 * imid, nlon)) + k * mmax * nlat * nt + nlat`.
pub open spec fn inverse_lwork(nlat: int, nlon: int, nt: int, full: bool, k: int) -> int {
    let imid = half_up(nlat);
    let mmax = vector_mmax(nlat, nlon);
    if full {
        synthesis_scratch(imid, nlat, nlon, nt) + coeff_scratch(k, mmax, nlat, nt)
    } else {
        synthesis_scratch(nlat, imid, nlon, nt) + coeff_scratch(k, mmax, nlat, nt)
    }
}

/// [`inverse_lwork`] as a size.
fn inverse_lwork_size(nlat: usize, nlon: usize, nt: usize, full: bool, k: usize) -> (r: Size)
    ensures
        r.wf(),
        r.val() == inverse_lwork(nlat as int, nlon as int, nt as int, full, k as int),
{
    let imid = nlat / 2 + nlat % 2;
    let mmax = vector_mmax_of(nlat, nlon);
    if full {
        synthesis_scratch_size(imid, nlat, nlon, nt).plus(coeff_scratch_size(k, mmax, nlat, nt))
    } else {
        synthesis_scratch_size(nlat, imid, nlon, nt).plus(coeff_scratch_size(k, mmax, nlat, nt))
    }
}

/// Minimum saved-table length of the inverse divergence on a regular grid
/// with computed tables:
/// `4 * nlat * imid + 3 * max(l1 - 2, 0) * (2 * nlat - l1 - 1) + nlon + 15`.
pub open spec fn idivec_min_len(nlat: int, nlon: int) -> int {
    let l1 = vector_mmax(nlat, nlon);
    4 * nlat * half_up(nlat) + 3 * sat_sub(l1, 2) * (2 * nlat - l1 - 1) + nlon + 15
}

/// The outcome of the argument checks of the inverse divergence on a
/// regular grid with computed tables.
pub open spec fn idivec_outcome(
    nlon: int,
    nlat: int,
    nt: int,
    isym: int,
    alen: int,
    blen: int,
    wlen: int,
    lwork: int,
) -> Result<VectorPlan, Refusal> {
    if nlat < 3 {
        Err(Refusal::Code(1))
    } else {
        match ityp_for(isym, 1, 4) {
            None => Err(Refusal::InvalidIsym),
            Some(ityp) => {
                if nlon < 4 {
                    Err(Refusal::Code(2))
                } else if nt < 1 {
                    Err(Refusal::Code(4))
                } else if alen != blen || alen != nlat * nlat * nt {
                    Err(Refusal::SizeMismatch)
                } else if wlen < idivec_min_len(nlat, nlon) {
                    Err(Refusal::Code(9))
                } else if lwork < inverse_lwork(nlat, nlon, nt, isym == 0, 2) {
                    Err(Refusal::Code(10))
                } else {
                    Ok(vector_plan(nlat, nlon, vector_mmax(nlat, nlon), ityp))
                }
            },
        }
    }
}

/// The argument checks of the inverse divergence on a regular grid with
/// computed tables, and the plan it works to.
pub fn check_idivec(
    nlon: usize,
    nlat: usize,
    nt: usize,
    isym: usize,
    alen: usize,
    blen: usize,
    wlen: usize,
    lwork: usize,
) -> (r: Result<VectorPlan, Refusal>)
    ensures
        r == idivec_outcome(
            nlon as int,
            nlat as int,
            nt as int,
            isym as int,
            alen as int,
            blen as int,
            wlen as int,
            lwork as int,
        ),
{
    if nlat < 3 {
        return Err(Refusal::Code(1));
    }
    let ityp = match ityp_from_isym(isym, 1, 4) {
        None => {
            return Err(Refusal::InvalidIsym);
        },
        Some(t) => t,
    };
    if nlon < 4 {
        return Err(Refusal::Code(2));
    }
    if nt < 1 {
        return Err(Refusal::Code(4));
    }
    if alen != blen || !coeff_stack_size(nlat, nt).equals(alen) {
        return Err(Refusal::SizeMismatch);
    }
    let l1 = vector_mmax_of(nlat, nlon);
    let l2 = nlat / 2 + nlat % 2;
    let s = if l1 >= 2 {
        l1 - 2
    } else {
        0
    };
    let min_len = Size::of(4).times(Size::of(nlat)).times(Size::of(l2)).plus(
        Size::of(3).times(Size::of(s)).times(Size::of(nlat - l1).plus(Size::of(nlat - 1))),
    ).plus(Size::of(nlon)).plus(Size::of(15));
    if min_len.exceeds(wlen) {
        return Err(Refusal::Code(9));
    }
    if inverse_lwork_size(nlat, nlon, nt, isym == 0, 2).exceeds(lwork) {
        return Err(Refusal::Code(10));
    }
    Ok(make_vector_plan(nlat, nlon, l1, ityp))
}

/// The outcome of the argument checks of the inverse of divergence and
/// vorticity together on a regular grid with stored tables, for four
/// coefficient stacks of `adlen`, `bdlen`, `avlen` and `bvlen` entries.
pub open spec fn idvtes_outcome(
    nlon: int,
    nlat: int,
    nt: int,
    isym: int,
    adlen: int,
    bdlen: int,
    avlen: int,
    bvlen: int,
    wlen: int,
    lwork: int,
) -> Result<VectorPlan, Refusal> {
    let stack = nlat * nlat * nt;
    let mmax = vector_mmax(nlat, nlon);
    let lzimn = ((mmax * (2 * nlat - mmax + 1)) / 2) * half_up(nlat);
    if nlat < 3 {
        Err(Refusal::Code(1))
    } else if nlon < 4 {
        Err(Refusal::Code(2))
    } else if isym > 2 {
        Err(Refusal::Code(3))
    } else if nt < 1 {
        Err(Refusal::Code(4))
    } else if adlen != stack || bdlen != stack || avlen != stack || bvlen != stack {
        Err(Refusal::SizeMismatch)
    } else if wlen < 2 * lzimn + nlon + 15 {
        Err(Refusal::Code(9))
    } else if lwork < inverse_lwork(nlat, nlon, nt, isym == 0, 4) {
        Err(Refusal::Code(10))
    } else {
        Ok(vector_plan(nlat, nlon, mmax, 3 * isym))
    }
}

/// The argument checks of the inverse of divergence and vorticity together
/// on a regular grid with stored tables, and the plan it works to.
pub fn check_idvtes(
    nlon: usize,
    nlat: usize,
    nt: usize,
    isym: usize,
    adlen: usize,
    bdlen: usize,
    avlen: usize,
    bvlen: usize,
    wlen: usize,
    lwork: usize,
) -> (r: Result<VectorPlan, Refusal>)
    ensures
        r == idvtes_outcome(
            nlon as int,
            nlat as int,
            nt as int,
            isym as int,
            adlen as int,
            bdlen as int,
            avlen as int,
            bvlen as int,
            wlen as int,
            lwork as int,
        ),
{
    if nlat < 3 {
        return Err(Refusal::Code(1));
    }
    if nlon < 4 {
        return Err(Refusal::Code(2));
    }
    if isym > 2 {
        return Err(Refusal::Code(3));
    }
    if nt < 1 {
        return Err(Refusal::Code(4));
    }
    if !four_stacks_match(adlen, bdlen, avlen, bvlen, nlat, nt) {
        return Err(Refusal::SizeMismatch);
    }
    let mmax = vector_mmax_of(nlat, nlon);
    proof {
        let m = mmax as int;
        crate::tables::lemma_triangle_even(nlat as int, m);
        let t = m * (2 * nlat - m + 1);
        assert(((t / 2) * half_up(nlat as int)) * 2 == vector_stored_len(nlat as int, m))
            by (nonlinear_arith)
            requires
                t % 2 == 0,
                t == m * (2 * nlat - m + 1),
                vector_stored_len(nlat as int, m) == half_up(nlat as int) * m * (2 * nlat - m + 1),
        ;
    }
    let min_len = stored_size(nlat, mmax).plus(Size::of(nlon)).plus(Size::of(15));
    if min_len.exceeds(wlen) {
        return Err(Refusal::Code(9));
    }
    if inverse_lwork_size(nlat, nlon, nt, isym == 0, 4).exceeds(lwork) {
        return Err(Refusal::Code(10));
    }
    Ok(make_vector_plan(nlat, nlon, mmax, isym_to_ityp(isym)))
}

/// Scratch length of the inverse of divergence and vorticity together on a
/// Gaussian grid with stored tables:
/// `(2 * nt + 1) * idv * nlon + 4 * mmax * nlat * nt + nlat`.
pub open spec fn idvtgs_lwork(nlat: int, nlon: int, nt: int, isym: int) -> int {
    let idv = if isym != 0 {
        half_up(nlat)
    } else {
        nlat
    };
    (2 * nt + 1) * idv * nlon + coeff_scratch(4, vector_mmax(nlat, nlon), nlat, nt)
}

/// The outcome of the argument checks of the inverse of divergence and
/// vorticity together on a Gaussian grid with stored tables.
pub open spec fn idvtgs_outcome(
    nlat: int,
    nt: int,
    isym: int,
    adlen: int,
    bdlen: int,
    avlen: int,
    bvlen: int,
    wlen: int,
    lwork: int,
) -> Result<VectorPlan, Refusal> {
    let stack = nlat * nlat * nt;
    if nlat < 3 {
        Err(Refusal::Code(1))
    } else {
        match wvhsgs_synthesis_nlon(nlat, wlen) {
            None => Err(Refusal::NlonNotInferred),
            Some(nlon) => match ityp_for(isym, 0, 3) {
                None => Err(Refusal::InvalidIsym),
                Some(ityp) => {
                    if nlon < 4 {
                        Err(Refusal::Code(2))
                    } else if nt < 1 {
                        Err(Refusal::Code(4))
                    } else if adlen != stack || bdlen != stack || avlen != stack || bvlen
                        != stack {
                        Err(Refusal::SizeMismatch)
                    } else if lwork < idvtgs_lwork(nlat, nlon, nt, isym) {
                        Err(Refusal::Code(10))
                    } else {
                        Ok(vector_plan(nlat, nlon, vector_mmax(nlat, nlon), ityp))
                    }
                },
            },
        }
    }
}

/// The argument checks of the inverse of divergence and vorticity together
/// on a Gaussian grid with stored tables, and the plan it works to.
pub fn check_idvtgs(
    nlat: usize,
    nt: usize,
    isym: usize,
    adlen: usize,
    bdlen: usize,
    avlen: usize,
    bvlen: usize,
    wlen: usize,
    lwork: usize,
) -> (r: Result<VectorPlan, Refusal>)
    ensures
        r == idvtgs_outcome(
            nlat as int,
            nt as int,
            isym as int,
            adlen as int,
            bdlen as int,
            avlen as int,
            bvlen as int,
            wlen as int,
            lwork as int,
        ),
{
    if nlat < 3 {
        return Err(Refusal::Code(1));
    }
    let found = infer_nlon_from_wvhsgs_synthesis(nlat, wlen);
    proof {
        lemma_search_outcome_is_first(
            |c: int|
                wvhsgs_full_len(nlat as int, c) == wlen || wvhsgs_len(nlat as int, c) == wlen,
            nlat as int,
            found,
        );
    }
    let nlon = match found {
        None => {
            return Err(Refusal::NlonNotInferred);
        },
        Some(n) => n,
    };
    let ityp = match ityp_from_isym(isym, 0, 3) {
        None => {
            return Err(Refusal::InvalidIsym);
        },
        Some(t) => t,
    };
    if nlon < 4 {
        return Err(Refusal::Code(2));
    }
    if nt < 1 {
        return Err(Refusal::Code(4));
    }
    if !four_stacks_match(adlen, bdlen, avlen, bvlen, nlat, nt) {
        return Err(Refusal::SizeMismatch);
    }
    let mmax = vector_mmax_of(nlat, nlon);
    let idv = if isym != 0 {
        nlat / 2 + nlat % 2
    } else {
        nlat
    };
    let need = Size::of(2).times(Size::of(nt)).plus(Size::of(1)).times(Size::of(idv)).times(
        Size::of(nlon),
    ).plus(coeff_scratch_size(4, mmax, nlat, nt));
    if need.exceeds(lwork) {
        return Err(Refusal::Code(10));
    }
    Ok(make_vector_plan(nlat, nlon, mmax, ityp))
}

/// The outcome of the argument checks of the inverse vorticity on a
/// regular grid with stored tables.
pub open spec fn ivrtes_outcome(
    nlat: int,
    nt: int,
    isym: int,
    alen: int,
    blen: int,
    wlen: int,
    lwork: int,
) -> Result<VectorPlan, Refusal> {
    if nlat < 3 {
        Err(Refusal::Code(1))
    } else {
        match wvhses_nlon(nlat, wlen) {
            None => Err(Refusal::NlonNotInferred),
            Some(nlon) => match ityp_for(isym, 2, 5) {
                None => Err(Refusal::InvalidIsym),
                Some(ityp) => {
                    let mmax = vector_mmax(nlat, nlon);
                    if nlon < 4 {
                        Err(Refusal::Code(2))
                    } else if nt < 1 {
                        Err(Refusal::Code(4))
                    } else if alen != blen || alen != nlat * nlat * nt {
                        Err(Refusal::SizeMismatch)
                    } else if wlen < vector_stored_len(nlat, mmax) / 2 + nlon + 15 {
                        Err(Refusal::Code(9))
                    } else if lwork < inverse_lwork(nlat, nlon, nt, isym == 0, 2) {
                        Err(Refusal::Code(10))
                    } else {
                        Ok(vector_plan(nlat, nlon, mmax, ityp))
                    }
                },
            },
        }
    }
}

/// The argument checks of the inverse vorticity on a regular grid with
/// stored tables, and the plan it works to.
pub fn check_ivrtes(
    nlat: usize,
    nt: usize,
    isym: usize,
    alen: usize,
    blen: usize,
    wlen: usize,
    lwork: usize,
) -> (r: Result<VectorPlan, Refusal>)
    ensures
        r == ivrtes_outcome(
            nlat as int,
            nt as int,
            isym as int,
            alen as int,
            blen as int,
            wlen as int,
            lwork as int,
        ),
{
    if nlat < 3 {
        return Err(Refusal::Code(1));
    }
    let found = infer_nlon_from_wvhses(nlat, wlen);
    proof {
        lemma_search_outcome_is_first(
            |c: int|
                wvhses_len_with(nlat as int, c, vector_mmax(nlat as int, c)) == wlen
                    || wvhses_len_with(nlat as int, c, scalar_mmax(nlat as int, c)) == wlen,
            nlat as int,
            found,
        );
    }
    let nlon = match found {
        None => {
            return Err(Refusal::NlonNotInferred);
        },
        Some(n) => n,
    };
    let ityp = match ityp_from_isym(isym, 2, 5) {
        None => {
            return Err(Refusal::InvalidIsym);
        },
        Some(t) => t,
    };
    if nlon < 4 {
        return Err(Refusal::Code(2));
    }
    if nt < 1 {
        return Err(Refusal::Code(4));
    }
    if alen != blen || !coeff_stack_size(nlat, nt).equals(alen) {
        return Err(Refusal::SizeMismatch);
    }
    let mmax = vector_mmax_of(nlat, nlon);
    if stored_half_size(nlat, mmax).plus(Size::of(nlon)).plus(Size::of(15)).exceeds(wlen) {
        return Err(Refusal::Code(9));
    }
    if inverse_lwork_size(nlat, nlon, nt, isym == 0, 2).exceeds(lwork) {
        return Err(Refusal::Code(10));
    }
    Ok(make_vector_plan(nlat, nlon, mmax, ityp))
}

// ---------------------------------------------------------------------------
// Inverse stream function and velocity potential.

/// Scratch length of the inverse stream-function routine on a regular grid
/// with computed tables.
pub open spec fn isfvpec_lwork(nlat: int, nlon: int, nt: int, isym: int) -> int {
    let l1 = vector_mmax(nlat, nlon);
    let l2 = half_up(nlat);
    if isym == 0 {
        nlat * (2 * nt * nlon + max_int(6 * l2, nlon) + 4 * l1 * nt + 1)
    } else {
        synthesis_scratch(l2, nlat, nlon, nt) + nlat * (4 * l1 * nt + 1)
    }
}

/// The outcome of the argument checks of the inverse stream-function and
/// velocity-potential routine on a regular grid with computed tables, for
/// four coefficient stacks.
pub open spec fn isfvpec_outcome(
    nlon: int,
    nlat: int,
    nt: int,
    isym: int,
    aslen: int,
    bslen: int,
    avlen: int,
    bvlen: int,
    wlen: int,
    lwork: int,
) -> Result<VectorPlan, Refusal> {
    let stack = nlat * nlat * nt;
    if nlat < 3 {
        Err(Refusal::Code(1))
    } else if nlon < 4 {
        Err(Refusal::Code(2))
    } else if isym > 2 {
        Err(Refusal::Code(3))
    } else if nt < 1 {
        Err(Refusal::Code(4))
    } else if aslen != stack || bslen != stack || avlen != stack || bvlen != stack {
        Err(Refusal::SizeMismatch)
    } else if wlen < wvhsgc_len(nlat, nlon) {
        Err(Refusal::Code(9))
    } else if lwork < isfvpec_lwork(nlat, nlon, nt, isym) {
        Err(Refusal::Code(10))
    } else {
        Ok(vector_plan(nlat, nlon, vector_mmax(nlat, nlon), 3 * isym))
    }
}

/// The argument checks of the inverse stream-function and
/// velocity-potential routine on a regular grid with computed tables, and
/// the plan it works to.
pub fn check_isfvpec(
    nlon: usize,
    nlat: usize,
    nt: usize,
    isym: usize,
    aslen: usize,
    bslen: usize,
    avlen: usize,
    bvlen: usize,
    wlen: usize,
    lwork: usize,
) -> (r: Result<VectorPlan, Refusal>)
    ensures
        r == isfvpec_outcome(
            nlon as int,
            nlat as int,
            nt as int,
            isym as int,
            aslen as int,
            bslen as int,
            avlen as int,
            bvlen as int,
            wlen as int,
            lwork as int,
        ),
{
    if nlat < 3 {
        return Err(Refusal::Code(1));
    }
    if nlon < 4 {
        return Err(Refusal::Code(2));
    }
    if isym > 2 {
        return Err(Refusal::Code(3));
    }
    if nt < 1 {
        return Err(Refusal::Code(4));
    }
    if !four_stacks_match(aslen, bslen, avlen, bvlen, nlat, nt) {
        return Err(Refusal::SizeMismatch);
    }
    if wvhsgc_size(nlat, nlon).exceeds(wlen) {
        return Err(Refusal::Code(9));
    }
    let l1 = vector_mmax_of(nlat, nlon);
    let l2 = nlat / 2 + nlat % 2;
    let coeffs = Size::of(4).times(Size::of(l1)).times(Size::of(nt));
    let need = if isym == 0 {
        Size::of(nlat).times(
            Size::of(2).times(Size::of(nt)).times(Size::of(nlon)).plus(
                Size::of(6).times(Size::of(l2)).larger(Size::of(nlon)),
            ).plus(coeffs).plus(Size::of(1)),
        )
    } else {
        synthesis_scratch_size(l2, nlat, nlon, nt).plus(
            Size::of(nlat).times(coeffs.plus(Size::of(1))),
        )
    };
    if need.exceeds(lwork) {
        return Err(Refusal::Code(10));
    }
    Ok(make_vector_plan(nlat, nlon, l1, isym_to_ityp(isym)))
}

/// Scratch length of the inverse stream-function routine on a regular grid
/// with stored tables.
pub open spec fn isfvpes_lwork(nlat: int, nlon: int, nt: int, isym: int) -> int {
    let l1 = scalar_mmax(nlat, nlon);
    if isym == 0 {
        nlat * ((2 * nt + 1) * nlon + 4 * l1 * nt + 1)
    } else {
        (2 * nt + 1) * nlon + nlat * (4 * l1 * nt + 1)
    }
}

/// The outcome of the argument checks of the inverse stream-function and
/// velocity-potential routine on a regular grid with stored tables.
pub open spec fn isfvpes_outcome(
    nlon: int,
    nlat: int,
    nt: int,
    isym: int,
    aslen: int,
    bslen: int,
    avlen: int,
    bvlen: int,
    wlen: int,
    lwork: int,
) -> Result<VectorPlan, Refusal> {
    let stack = nlat * nlat * nt;
    let l1 = scalar_mmax(nlat, nlon);
    if nlat < 3 {
        Err(Refusal::Code(1))
    } else if nlon < 4 {
        Err(Refusal::Code(2))
    } else if isym > 2 {
        Err(Refusal::Code(3))
    } else if nt < 1 {
        Err(Refusal::Code(4))
    } else if aslen != stack || bslen != stack || avlen != stack || bvlen != stack {
        Err(Refusal::SizeMismatch)
    } else if wlen < vector_stored_len(nlat, l1) + nlon + 15 {
        Err(Refusal::Code(9))
    } else if lwork < isfvpes_lwork(nlat, nlon, nt, isym) {
        Err(Refusal::Code(10))
    } else {
        Ok(vector_plan(nlat, nlon, l1, 3 * isym))
    }
}

/// The argument checks of the inverse stream-function and
/// velocity-potential routine on a regular grid with stored tables, and the
/// plan it works to.
pub fn check_isfvpes(
    nlon: usize,
    nlat: usize,
    nt: usize,
    isym: usize,
    aslen: usize,
    bslen: usize,
    avlen: usize,
    bvlen: usize,
    wlen: usize,
    lwork: usize,
) -> (r: Result<VectorPlan, Refusal>)
    ensures
        r == isfvpes_outcome(
            nlon as int,
            nlat as int,
            nt as int,
            isym as int,
            aslen as int,
            bslen as int,
            avlen as int,
            bvlen as int,
            wlen as int,
            lwork as int,
        ),
{
    if nlat < 3 {
        return Err(Refusal::Code(1));
    }
    if nlon < 4 {
        return Err(Refusal::Code(2));
    }
    if isym > 2 {
        return Err(Refusal::Code(3));
    }
    if nt < 1 {
        return Err(Refusal::Code(4));
    }
    if !four_stacks_match(aslen, bslen, avlen, bvlen, nlat, nt) {
        return Err(Refusal::SizeMismatch);
    }
    let l1 = min_usize_of(nlat, nlon / 2 + 1);
    if stored_size(nlat, l1).plus(Size::of(nlon)).plus(Size::of(15)).exceeds(wlen) {
        return Err(Refusal::Code(9));
    }
    let coeffs = Size::of(nlat).times(
        Size::of(4).times(Size::of(l1)).times(Size::of(nt)).plus(Size::of(1)),
    );
    let grids = Size::of(2).times(Size::of(nt)).plus(Size::of(1)).times(Size::of(nlon));
    let need = if isym == 0 {
        Size::of(nlat).times(
            Size::of(2).times(Size::of(nt)).plus(Size::of(1)).times(Size::of(nlon)).plus(
                Size::of(4).times(Size::of(l1)).times(Size::of(nt)),
            ).plus(Size::of(1)),
        )
    } else {
        grids.plus(coeffs)
    };
    if need.exceeds(lwork) {
        return Err(Refusal::Code(10));
    }
    Ok(make_vector_plan(nlat, nlon, l1, isym_to_ityp(isym)))
}

// ---------------------------------------------------------------------------
// Laplacians and stream functions.

/// Scratch length of the inverse vector Laplacian on a regular grid with
/// computed tables, by table selector.
pub open spec fn ivlapec_lwork(nlat: int, nlon: int, nt: int, ityp: int) -> int {
    let imid = half_up(nlat);
    let mn = vector_mmax(nlat, nlon) * nlat * nt;
    if ityp < 3 {
        if ityp == 0 {
            nlat * (2 * nt * nlon + max_int(6 * imid, nlon) + 1) + 4 * mn
        } else {
            nlat * (2 * nt * nlon + max_int(6 * imid, nlon) + 1) + 2 * mn
        }
    } else if ityp == 3 || ityp == 6 {
        synthesis_scratch(imid, nlat, nlon, nt) + 4 * mn + nlat
    } else {
        synthesis_scratch(imid, nlat, nlon, nt) + 2 * mn + nlat
    }
}

/// The outcome of the argument checks of the inverse vector Laplacian on a
/// regular grid with computed tables, for four coefficient stacks.
pub open spec fn ivlapec_outcome(
    nlon: int,
    nlat: int,
    nt: int,
    ityp: int,
    brlen: int,
    bilen: int,
    crlen: int,
    cilen: int,
    wlen: int,
    lwork: int,
) -> Result<VectorPlan, Refusal> {
    let stack = nlat * nlat * nt;
    if nlat < 3 {
        Err(Refusal::Code(1))
    } else if nlon < 1 {
        Err(Refusal::Code(2))
    } else if ityp > 8 {
        Err(Refusal::Code(3))
    } else if nt < 1 {
        Err(Refusal::Code(4))
    } else if brlen != stack || bilen != stack || crlen != stack || cilen != stack {
        Err(Refusal::SizeMismatch)
    } else if wlen < wvhsgc_len(nlat, nlon) {
        Err(Refusal::Code(9))
    } else if lwork < ivlapec_lwork(nlat, nlon, nt, ityp) {
        Err(Refusal::Code(10))
    } else {
        Ok(vector_plan(nlat, nlon, vector_mmax(nlat, nlon), ityp))
    }
}

/// The argument checks of the inverse vector Laplacian on a regular grid
/// with computed tables, and the plan it works to.
pub fn check_ivlapec(
    nlon: usize,
    nlat: usize,
    nt: usize,
    ityp: usize,
    brlen: usize,
    bilen: usize,
    crlen: usize,
    cilen: usize,
    wlen: usize,
    lwork: usize,
) -> (r: Result<VectorPlan, Refusal>)
    ensures
        r == ivlapec_outcome(
            nlon as int,
            nlat as int,
            nt as int,
            ityp as int,
            brlen as int,
            bilen as int,
            crlen as int,
            cilen as int,
            wlen as int,
            lwork as int,
        ),
{
    if nlat < 3 {
        return Err(Refusal::Code(1));
    }
    if nlon < 1 {
        return Err(Refusal::Code(2));
    }
    if ityp > 8 {
        return Err(Refusal::Code(3));
    }
    if nt < 1 {
        return Err(Refusal::Code(4));
    }
    if !four_stacks_match(brlen, bilen, crlen, cilen, nlat, nt) {
        return Err(Refusal::SizeMismatch);
    }
    if wvhsgc_size(nlat, nlon).exceeds(wlen) {
        return Err(Refusal::Code(9));
    }
    let imid = nlat / 2 + nlat % 2;
    let mmax = vector_mmax_of(nlat, nlon);
    let mn = Size::of(mmax).times(Size::of(nlat)).times(Size::of(nt));
    let need = if ityp < 3 {
        let base = Size::of(nlat).times(
            Size::of(2).times(Size::of(nt)).times(Size::of(nlon)).plus(
                Size::of(6).times(Size::of(imid)).larger(Size::of(nlon)),
            ).plus(Size::of(1)),
        );
        if ityp == 0 {
            base.plus(Size::of(4).times(mn))
        } else {
            base.plus(Size::of(2).times(mn))
        }
    } else if ityp == 3 || ityp == 6 {
        synthesis_scratch_size(imid, nlat, nlon, nt).plus(Size::of(4).times(mn)).plus(
            Size::of(nlat),
        )
    } else {
        synthesis_scratch_size(imid, nlat, nlon, nt).plus(Size::of(2).times(mn)).plus(
            Size::of(nlat),
        )
    };
    if need.exceeds(lwork) {
        return Err(Refusal::Code(10));
    }
    Ok(make_vector_plan(nlat, nlon, mmax, ityp))
}

/// Scratch length of the inverse vector Laplacian on a Gaussian grid with
/// stored tables, by table selector.
pub open spec fn ivlapgs_lwork(nlat: int, nlon: int, nt: int, ityp: int) -> int {
    let rows = if ityp <= 2 {
        nlat
    } else {
        half_up(nlat)
    };
    (2 * nt + 1) * rows * nlon + nlat * (4 * nt * vector_mmax(nlat, nlon) + 1)
}

/// The outcome of the argument checks of the inverse vector Laplacian on a
/// Gaussian grid with stored tables, for four coefficient stacks.
pub open spec fn ivlapgs_outcome(
    nlon: int,
    nlat: int,
    nt: int,
    ityp: int,
    brlen: int,
    bilen: int,
    crlen: int,
    cilen: int,
    wlen: int,
    lwork: int,
) -> Result<VectorPlan, Refusal> {
    let stack = nlat * nlat * nt;
    let mmax = vector_mmax(nlat, nlon);
    let idz = (mmax * (2 * nlat - mmax + 1)) / 2;
    if nlat < 3 {
        Err(Refusal::Code(1))
    } else if nlon < 1 {
        Err(Refusal::Code(2))
    } else if ityp > 8 {
        Err(Refusal::Code(3))
    } else if nt < 1 {
        Err(Refusal::Code(4))
    } else if brlen != stack || bilen != stack || crlen != stack || cilen != stack {
        Err(Refusal::SizeMismatch)
    } else if wlen < 2 * (idz * half_up(nlat)) + nlon + 15 {
        Err(Refusal::Code(9))
    } else if lwork < ivlapgs_lwork(nlat, nlon, nt, ityp) {
        Err(Refusal::Code(10))
    } else {
        Ok(vector_plan(nlat, nlon, mmax, ityp))
    }
}

/// The argument checks of the inverse vector Laplacian on a Gaussian grid
/// with stored tables, and the plan it works to.
pub fn check_ivlapgs(
    nlon: usize,
    nlat: usize,
    nt: usize,
    ityp: usize,
    brlen: usize,
    bilen: usize,
    crlen: usize,
    cilen: usize,
    wlen: usize,
    lwork: usize,
) -> (r: Result<VectorPlan, Refusal>)
    ensures
        r == ivlapgs_outcome(
            nlon as int,
            nlat as int,
            nt as int,
            ityp as int,
            brlen as int,
            bilen as int,
            crlen as int,
            cilen as int,
            wlen as int,
            lwork as int,
        ),
{
    if nlat < 3 {
        return Err(Refusal::Code(1));
    }
    if nlon < 1 {
        return Err(Refusal::Code(2));
    }
    if ityp > 8 {
        return Err(Refusal::Code(3));
    }
    if nt < 1 {
        return Err(Refusal::Code(4));
    }
    if !four_stacks_match(brlen, bilen, crlen, cilen, nlat, nt) {
        return Err(Refusal::SizeMismatch);
    }
    let mmax = vector_mmax_of(nlat, nlon);
    proof {
        let m = mmax as int;
        crate::tables::lemma_triangle_even(nlat as int, m);
        let t = m * (2 * nlat - m + 1);
        assert(2 * ((t / 2) * half_up(nlat as int)) == vector_stored_len(nlat as int, m))
            by (nonlinear_arith)
            requires
                t % 2 == 0,
                t == m * (2 * nlat - m + 1),
                vector_stored_len(nlat as int, m) == half_up(nlat as int) * m * (2 * nlat - m + 1),
        ;
    }
    if stored_size(nlat, mmax).plus(Size::of(nlon)).plus(Size::of(15)).exceeds(wlen) {
        return Err(Refusal::Code(9));
    }
    let rows = if ityp <= 2 {
        nlat
    } else {
        nlat / 2 + nlat % 2
    };
    let need = Size::of(2).times(Size::of(nt)).plus(Size::of(1)).times(Size::of(rows)).times(
        Size::of(nlon),
    ).plus(
        Size::of(nlat).times(
            Size::of(4).times(Size::of(nt)).times(Size::of(mmax)).plus(Size::of(1)),
        ),
    );
    if need.exceeds(lwork) {
        return Err(Refusal::Code(10));
    }
    Ok(make_vector_plan(nlat, nlon, mmax, ityp))
}

/// The outcome of the argument checks of the stream function and velocity
/// potential on a regular grid with computed tables, for four coefficient
/// stacks.
pub open spec fn sfvpec_outcome(
    nlon: int,
    nlat: int,
    nt: int,
    isym: int,
    brlen: int,
    bilen: int,
    crlen: int,
    cilen: int,
    wlen: int,
    lwork: int,
) -> Result<RegularPlan, Refusal> {
    let stack = nlat * nlat * nt;
    let mmax = scalar_mmax(nlat, nlon);
    if nlat < 3 {
        Err(Refusal::Code(1))
    } else if nlon < 4 {
        Err(Refusal::Code(2))
    } else if isym > 2 {
        Err(Refusal::Code(3))
    } else if nt < 1 {
        Err(Refusal::Code(4))
    } else if brlen != stack || bilen != stack || crlen != stack || cilen != stack {
        Err(Refusal::SizeMismatch)
    } else if wlen < wshsec_len(nlat, nlon) {
        Err(Refusal::Code(9))
    } else if lwork < shsec_lwork(nlat, nlon, nt, isym) + 2 * (mmax * nlat * nt) + nlat {
        Err(Refusal::Code(10))
    } else {
        Ok(regular_plan(nlat, nlon, mmax, zonal_len(nlat) + recurrence_len(nlat, mmax)))
    }
}

/// The argument checks of the stream function and velocity potential on a
/// regular grid with computed tables, and the plan of the synthesis it
/// makes.
pub fn check_sfvpec(
    nlon: usize,
    nlat: usize,
    nt: usize,
    isym: usize,
    brlen: usize,
    bilen: usize,
    crlen: usize,
    cilen: usize,
    wlen: usize,
    lwork: usize,
) -> (r: Result<RegularPlan, Refusal>)
    ensures
        r == sfvpec_outcome(
            nlon as int,
            nlat as int,
            nt as int,
            isym as int,
            brlen as int,
            bilen as int,
            crlen as int,
            cilen as int,
            wlen as int,
            lwork as int,
        ),
{
    if nlat < 3 {
        return Err(Refusal::Code(1));
    }
    if nlon < 4 {
        return Err(Refusal::Code(2));
    }
    if isym > 2 {
        return Err(Refusal::Code(3));
    }
    if nt < 1 {
        return Err(Refusal::Code(4));
    }
    if !four_stacks_match(brlen, bilen, crlen, cilen, nlat, nt) {
        return Err(Refusal::SizeMismatch);
    }
    if wshsec_size(nlat, nlon).exceeds(wlen) {
        return Err(Refusal::Code(9));
    }
    let imid = nlat / 2 + nlat % 2;
    let ls = if isym == 0 {
        nlat
    } else {
        imid
    };
    let mmax = min_usize_of(nlat, nlon / 2 + 1);
    let need = Size::of(nt).times(Size::of(ls)).times(Size::of(nlon)).plus(
        Size::of(ls).times(Size::of(nlon)).larger(
            Size::of(3).times(Size::of(nlat)).times(Size::of(imid)),
        ),
    ).plus(Size::of(2).times(Size::of(mmax).times(Size::of(nlat)).times(Size::of(nt)))).plus(
        Size::of(nlat),
    );
    if need.exceeds(lwork) {
        return Err(Refusal::Code(10));
    }
    proof {
        lemma_wshsec_parts(nlat as int, nlon as int);
    }
    let tables = (eval_zonal_len(nlat as u128) + eval_recurrence_len(nlat as u128, mmax as u128))
        as usize;
    Ok(make_regular_plan(nlat, nlon, mmax, tables))
}

/// Scratch length of the inverse scalar Laplacian on a regular grid with
/// stored tables.
pub open spec fn islapes_lwork(nlat: int, nlon: int, nt: int, isym: int) -> int {
    let rows = if isym == 0 {
        nlat
    } else {
        half_up(nlat)
    };
    (nt + 1) * rows * nlon + nlat * (2 * nt * scalar_mmax(nlat, nlon) + 1)
}

/// The outcome of the argument checks of the inverse scalar Laplacian
/// (Helmholtz inversion) on a regular grid with stored tables, for `xlen`
/// Helmholtz constants and coefficient stacks of `alen` and `blen` entries.
pub open spec fn islapes_outcome(
    nlon: int,
    nlat: int,
    isym: int,
    nt: int,
    xlen: int,
    alen: int,
    blen: int,
    wlen: int,
    lwork: int,
) -> Result<RegularPlan, Refusal> {
    let mmax = scalar_mmax(nlat, nlon);
    if nlat < 3 {
        Err(Refusal::Code(1))
    } else if nlon < 4 {
        Err(Refusal::Code(2))
    } else if isym > 2 {
        Err(Refusal::Code(3))
    } else if nt < 1 {
        Err(Refusal::Code(4))
    } else if xlen != nt {
        Err(Refusal::SizeMismatch)
    } else if alen != blen || alen != nlat * nlat * nt {
        Err(Refusal::SizeMismatch)
    } else if wlen < wshses_len(nlat, nlon) {
        Err(Refusal::Code(9))
    } else if lwork < islapes_lwork(nlat, nlon, nt, isym) {
        Err(Refusal::Code(10))
    } else {
        Ok(regular_plan(nlat, nlon, mmax, vector_stored_len(nlat, mmax) / 2))
    }
}

/// The argument checks of the inverse scalar Laplacian on a regular grid
/// with stored tables, and the plan of the synthesis it makes.
pub fn check_islapes(
    nlon: usize,
    nlat: usize,
    isym: usize,
    nt: usize,
    xlen: usize,
    alen: usize,
    blen: usize,
    wlen: usize,
    lwork: usize,
) -> (r: Result<RegularPlan, Refusal>)
    ensures
        r == islapes_outcome(
            nlon as int,
            nlat as int,
            isym as int,
            nt as int,
            xlen as int,
            alen as int,
            blen as int,
            wlen as int,
            lwork as int,
        ),
{
    if nlat < 3 {
        return Err(Refusal::Code(1));
    }
    if nlon < 4 {
        return Err(Refusal::Code(2));
    }
    if isym > 2 {
        return Err(Refusal::Code(3));
    }
    if nt < 1 {
        return Err(Refusal::Code(4));
    }
    if xlen != nt {
        return Err(Refusal::SizeMismatch);
    }
    if alen != blen || !coeff_stack_size(nlat, nt).equals(alen) {
        return Err(Refusal::SizeMismatch);
    }
    if wshses_size(nlat, nlon).exceeds(wlen) {
        return Err(Refusal::Code(9));
    }
    let rows = if isym == 0 {
        nlat
    } else {
        nlat / 2 + nlat % 2
    };
    let mmax = min_usize_of(nlat, nlon / 2 + 1);
    let need = Size::of(nt).plus(Size::of(1)).times(Size::of(rows)).times(Size::of(nlon)).plus(
        Size::of(nlat).times(
            Size::of(2).times(Size::of(nt)).times(Size::of(mmax)).plus(Size::of(1)),
        ),
    );
    if need.exceeds(lwork) {
        return Err(Refusal::Code(10));
    }
    proof {
        if nlat >= big_grid() {
            lemma_stored_product_big(nlat as int, mmax as int);
        }
        lemma_stored_product_nonneg(nlat as int, mmax as int);
    }
    let stored = (eval_stored_product(nlat as u128, mmax as u128) / 2) as usize;
    Ok(make_regular_plan(nlat, nlon, mmax, stored))
}

} // verus!
