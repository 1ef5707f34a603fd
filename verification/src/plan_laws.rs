//! Laws of the plans that the argument checks return and of the scratch
//! they ask for, stated over the checks' inputs and results.
//!
//! Each check's contract gives its result as `*_outcome(..)`; the laws here
//! say what such a result is: which grid a plan describes, and how much
//! scratch a call needs (a call that succeeds has at least that much, and
//! the same call with exactly that much succeeds with the same plan).
use vstd::prelude::*;
use crate::checks::{
    GaussianPlan, RegularPlan, gaussian_plan, regular_plan, shaec_outcome, shaes_outcome,
    shagc_outcome, shags_outcome, shsec_outcome, shses_outcome, shsgc_outcome, shsgs_outcome,
    slapes_outcome, slapgc_outcome,
};
use crate::vector_checks::{
    VectorPlan, vector_plan, dives_outcome, gradec_outcome, gradgc_outcome, gradgs_outcome,
    idivec_outcome, idvtes_outcome, idvtgs_outcome, igrades_outcome, isfvpec_outcome,
    isfvpes_outcome, islapes_outcome, ivlapec_outcome, ivlapgs_outcome, ivrtes_outcome,
    sfvpec_outcome,
};
use crate::nlon_inference::{
    lemma_stored_product_nonneg, lemma_wshags_parts, lemma_wshsec_parts, lemma_wshsgc_lower,
    wshags_nlon, wshsec_nlon, wshses_nlon, wshsgc_nlon,
};
use crate::tables::{scalar_mmax, wshags_len, wshsec_len, wshses_len, wshsgc_len};

verus! {

/// A plan describes a regular grid of `nlat` latitudes: `imid` latitudes in
/// a hemisphere with the equator (`(nlat + 1) / 2`), `imm1` strictly north
/// of the equator (`nlat / 2`), and `mdo` orders that the `nlon` longitudes
/// resolve: the highest, `mdo - 1`, has `2 * mdo - 1 <= nlon`, and `mdo`
/// falls one short of `mmax` exactly when `2 * mmax - 1 > nlon`.
pub open spec fn describes_regular_grid(nlat: int, p: RegularPlan) -> bool {
    &&& nlat <= 2 * p.imid <= nlat + 1
    &&& nlat - 1 <= 2 * p.imm1 <= nlat
    &&& 2 * p.mdo <= p.nlon + 1
    &&& p.mdo <= p.mmax <= p.mdo + 1
    &&& (p.mdo < p.mmax <==> 2 * p.mmax > p.nlon + 1)
}

/// The wavenumber limit of the scalar transforms, `min(nlat, nlon / 2 + 1)`:
/// no more than `nlat` and no more than `nlon / 2 + 1`, and one of the two.
pub open spec fn scalar_limit(nlat: int, nlon: int, mmax: int) -> bool {
    &&& mmax <= nlat
    &&& 2 * mmax <= nlon + 2
    &&& (mmax == nlat || nlon + 1 <= 2 * mmax)
}

/// A plan describes a Gaussian grid of `nlat` latitudes: `late` latitudes in
/// a hemisphere with the equator and `l = min(nlat, nlon / 2 + 1)` zonal
/// wavenumbers.
pub open spec fn describes_gaussian_grid(nlat: int, p: GaussianPlan) -> bool {
    &&& nlat <= 2 * p.late <= nlat + 1
    &&& scalar_limit(nlat, p.nlon as int, p.l as int)
}

proof fn lemma_regular_plan_describes(nlat: int, nlon: int, mmax: int, off: int)
    requires
        3 <= nlat <= usize::MAX,
        4 <= nlon <= usize::MAX,
        mmax == scalar_mmax(nlat, nlon),
    ensures
        regular_plan(nlat, nlon, mmax, off).nlon == nlon,
        regular_plan(nlat, nlon, mmax, off).mmax == mmax,
        describes_regular_grid(nlat, regular_plan(nlat, nlon, mmax, off)),
        scalar_limit(nlat, nlon, mmax),
{
}

proof fn lemma_gaussian_plan_describes(nlat: int, nlon: int, off: int)
    requires
        3 <= nlat <= usize::MAX,
        4 <= nlon <= usize::MAX,
    ensures
        gaussian_plan(nlat, nlon, off).nlon == nlon,
        describes_gaussian_grid(nlat, gaussian_plan(nlat, nlon, off)),
{
}

proof fn lemma_vector_plan_hemisphere(nlat: int, nlon: int, mmax: int, ityp: int)
    requires
        0 <= nlat <= usize::MAX,
    ensures
        nlat <= 2 * vector_plan(nlat, nlon, mmax, ityp).imid <= nlat + 1,
{
}


/// The plan of the scalar synthesis with computed tables on a regular grid describes its grid, with the scalar wavenumber
/// limit.
pub proof fn lemma_shsec_plan(nlat: usize, nt: usize, isym: usize, alen: usize, blen: usize, wlen: usize, lwork: usize)
    ensures
        shsec_outcome(nlat as int, nt as int, isym as int, alen as int, blen as int, wlen as int, lwork as int) matches Ok(p) ==> describes_regular_grid(nlat as int, p) && scalar_limit(nlat as int, p.nlon as int, p.mmax as int),
{
    if nlat >= 3 {
        if let Some(nlon) = wshsec_nlon(nlat as int, wlen as int) {
            if nlon >= 4 && wlen >= wshsec_len(nlat as int, nlon) {
                lemma_wshsec_parts(nlat as int, nlon);
                lemma_regular_plan_describes(nlat as int, nlon, scalar_mmax(nlat as int, nlon), 0);
                assert forall|off: int| #[trigger] regular_plan(nlat as int, nlon, scalar_mmax(nlat as int, nlon), off).nlon == nlon && describes_regular_grid(nlat as int, regular_plan(nlat as int, nlon, scalar_mmax(nlat as int, nlon), off)) by {
                    lemma_regular_plan_describes(nlat as int, nlon, scalar_mmax(nlat as int, nlon), off);
                }
            }
        }
    }
}

/// The plan of the scalar synthesis with stored tables on a regular grid describes its grid, with the scalar wavenumber
/// limit.
pub proof fn lemma_shses_plan(nlat: usize, nt: usize, alen: usize, blen: usize, wlen: usize, lwork: usize)
    ensures
        shses_outcome(nlat as int, nt as int, alen as int, blen as int, wlen as int, lwork as int) matches Ok(p) ==> describes_regular_grid(nlat as int, p) && scalar_limit(nlat as int, p.nlon as int, p.mmax as int),
{
    if nlat >= 3 {
        if let Some(nlon) = wshses_nlon(nlat as int, wlen as int) {
            if nlon >= 4 && wlen >= wshses_len(nlat as int, nlon) {
                lemma_stored_product_nonneg(nlat as int, scalar_mmax(nlat as int, nlon));
                lemma_regular_plan_describes(nlat as int, nlon, scalar_mmax(nlat as int, nlon), 0);
                assert forall|off: int| #[trigger] regular_plan(nlat as int, nlon, scalar_mmax(nlat as int, nlon), off).nlon == nlon && describes_regular_grid(nlat as int, regular_plan(nlat as int, nlon, scalar_mmax(nlat as int, nlon), off)) by {
                    lemma_regular_plan_describes(nlat as int, nlon, scalar_mmax(nlat as int, nlon), off);
                }
            }
        }
    }
}

/// The plan of the scalar analysis with computed tables on a regular grid describes its grid, with the scalar wavenumber
/// limit.
pub proof fn lemma_shaec_plan(nlat: usize, nlon: usize, nt: usize, glen: usize, wlen: usize, lwork: usize)
    ensures
        shaec_outcome(nlat as int, nlon as int, nt as int, glen as int, wlen as int, lwork as int) matches Ok(p) ==> describes_regular_grid(nlat as int, p) && scalar_limit(nlat as int, p.nlon as int, p.mmax as int),
{
    if nlat >= 3 && nlon >= 4 {
        let nlon = nlon as int;
                lemma_regular_plan_describes(nlat as int, nlon, scalar_mmax(nlat as int, nlon), 0);
                assert forall|off: int| #[trigger] regular_plan(nlat as int, nlon, scalar_mmax(nlat as int, nlon), off).nlon == nlon && describes_regular_grid(nlat as int, regular_plan(nlat as int, nlon, scalar_mmax(nlat as int, nlon), off)) by {
                    lemma_regular_plan_describes(nlat as int, nlon, scalar_mmax(nlat as int, nlon), off);
                }
    }
}

/// The plan of the scalar analysis with stored tables on a regular grid describes its grid, with the scalar wavenumber
/// limit.
pub proof fn lemma_shaes_plan(nlat: usize, nlon: usize, nt: usize, glen: usize, wlen: usize, lwork: usize)
    ensures
        shaes_outcome(nlat as int, nlon as int, nt as int, glen as int, wlen as int, lwork as int) matches Ok(p) ==> describes_regular_grid(nlat as int, p) && scalar_limit(nlat as int, p.nlon as int, p.mmax as int),
{
    if nlat >= 3 && nlon >= 4 {
        let nlon = nlon as int;
                lemma_regular_plan_describes(nlat as int, nlon, scalar_mmax(nlat as int, nlon), 0);
                assert forall|off: int| #[trigger] regular_plan(nlat as int, nlon, scalar_mmax(nlat as int, nlon), off).nlon == nlon && describes_regular_grid(nlat as int, regular_plan(nlat as int, nlon, scalar_mmax(nlat as int, nlon), off)) by {
                    lemma_regular_plan_describes(nlat as int, nlon, scalar_mmax(nlat as int, nlon), off);
                }
    }
}

/// The plan of the scalar Laplacian on a regular grid describes its grid, with the scalar wavenumber
/// limit.
pub proof fn lemma_slapes_plan(nlon: usize, nlat: usize, isym: usize, nt: usize, alen: usize, blen: usize, wlen: usize, lwork: usize)
    ensures
        slapes_outcome(nlon as int, nlat as int, isym as int, nt as int, alen as int, blen as int, wlen as int, lwork as int) matches Ok(p) ==> describes_regular_grid(nlat as int, p) && scalar_limit(nlat as int, p.nlon as int, p.mmax as int),
{
    if nlat >= 3 && nlon >= 4 {
        let nlon = nlon as int;
                lemma_regular_plan_describes(nlat as int, nlon, scalar_mmax(nlat as int, nlon), 0);
                assert forall|off: int| #[trigger] regular_plan(nlat as int, nlon, scalar_mmax(nlat as int, nlon), off).nlon == nlon && describes_regular_grid(nlat as int, regular_plan(nlat as int, nlon, scalar_mmax(nlat as int, nlon), off)) by {
                    lemma_regular_plan_describes(nlat as int, nlon, scalar_mmax(nlat as int, nlon), off);
                }
    }
}

/// The plan of the divergence on a regular grid describes its grid, with the scalar wavenumber
/// limit.
pub proof fn lemma_dives_plan(nlon: usize, nlat: usize, isym: usize, nt: usize, brlen: usize, bilen: usize, wlen: usize, lwork: usize)
    ensures
        dives_outcome(nlon as int, nlat as int, isym as int, nt as int, brlen as int, bilen as int, wlen as int, lwork as int) matches Ok(p) ==> describes_regular_grid(nlat as int, p) && scalar_limit(nlat as int, p.nlon as int, p.mmax as int),
{
    if nlat >= 3 && nlon >= 4 {
        let nlon = nlon as int;
                lemma_regular_plan_describes(nlat as int, nlon, scalar_mmax(nlat as int, nlon), 0);
                assert forall|off: int| #[trigger] regular_plan(nlat as int, nlon, scalar_mmax(nlat as int, nlon), off).nlon == nlon && describes_regular_grid(nlat as int, regular_plan(nlat as int, nlon, scalar_mmax(nlat as int, nlon), off)) by {
                    lemma_regular_plan_describes(nlat as int, nlon, scalar_mmax(nlat as int, nlon), off);
                }
    }
}

/// The plan of the stream function and velocity potential on a regular grid describes its grid, with the scalar wavenumber
/// limit.
pub proof fn lemma_sfvpec_plan(nlon: usize, nlat: usize, nt: usize, isym: usize, brlen: usize, bilen: usize, crlen: usize, cilen: usize, wlen: usize, lwork: usize)
    ensures
        sfvpec_outcome(nlon as int, nlat as int, nt as int, isym as int, brlen as int, bilen as int, crlen as int, cilen as int, wlen as int, lwork as int) matches Ok(p) ==> describes_regular_grid(nlat as int, p) && scalar_limit(nlat as int, p.nlon as int, p.mmax as int),
{
    if nlat >= 3 && nlon >= 4 {
        let nlon = nlon as int;
                lemma_regular_plan_describes(nlat as int, nlon, scalar_mmax(nlat as int, nlon), 0);
                assert forall|off: int| #[trigger] regular_plan(nlat as int, nlon, scalar_mmax(nlat as int, nlon), off).nlon == nlon && describes_regular_grid(nlat as int, regular_plan(nlat as int, nlon, scalar_mmax(nlat as int, nlon), off)) by {
                    lemma_regular_plan_describes(nlat as int, nlon, scalar_mmax(nlat as int, nlon), off);
                }
    }
}

/// The plan of the inverse scalar Laplacian on a regular grid describes its grid, with the scalar wavenumber
/// limit.
pub proof fn lemma_islapes_plan(nlon: usize, nlat: usize, isym: usize, nt: usize, xlen: usize, alen: usize, blen: usize, wlen: usize, lwork: usize)
    ensures
        islapes_outcome(nlon as int, nlat as int, isym as int, nt as int, xlen as int, alen as int, blen as int, wlen as int, lwork as int) matches Ok(p) ==> describes_regular_grid(nlat as int, p) && scalar_limit(nlat as int, p.nlon as int, p.mmax as int),
{
    if nlat >= 3 && nlon >= 4 {
        let nlon = nlon as int;
                lemma_regular_plan_describes(nlat as int, nlon, scalar_mmax(nlat as int, nlon), 0);
                assert forall|off: int| #[trigger] regular_plan(nlat as int, nlon, scalar_mmax(nlat as int, nlon), off).nlon == nlon && describes_regular_grid(nlat as int, regular_plan(nlat as int, nlon, scalar_mmax(nlat as int, nlon), off)) by {
                    lemma_regular_plan_describes(nlat as int, nlon, scalar_mmax(nlat as int, nlon), off);
                }
    }
}

/// The plan of the scalar synthesis with computed tables on a Gaussian grid describes its grid.
pub proof fn lemma_shsgc_plan(nlat: usize, nt: usize, alen: usize, blen: usize, wlen: usize, lwork: usize)
    ensures
        shsgc_outcome(nlat as int, nt as int, alen as int, blen as int, wlen as int, lwork as int) matches Ok(p) ==> describes_gaussian_grid(nlat as int, p),
{
    if nlat >= 3 {
        if let Some(nlon) = wshsgc_nlon(nlat as int, wlen as int) {
            if nlon >= 4 && wlen >= wshsgc_len(nlat as int, nlon) {
                lemma_wshsgc_lower(nlat as int, nlon);
                assert forall|off: int| #[trigger] gaussian_plan(nlat as int, nlon, off).nlon == nlon && describes_gaussian_grid(nlat as int, gaussian_plan(nlat as int, nlon, off)) by {
                    lemma_gaussian_plan_describes(nlat as int, nlon, off);
                }
            }
        }
    }
}

/// The plan of the scalar synthesis with stored tables on a Gaussian grid describes its grid.
pub proof fn lemma_shsgs_plan(nlat: usize, nt: usize, alen: usize, blen: usize, wlen: usize, lwork: usize)
    ensures
        shsgs_outcome(nlat as int, nt as int, alen as int, blen as int, wlen as int, lwork as int) matches Ok(p) ==> describes_gaussian_grid(nlat as int, p),
{
    if nlat >= 3 {
        if let Some(nlon) = wshags_nlon(nlat as int, wlen as int) {
            if nlon >= 4 && wlen >= wshags_len(nlat as int, nlon) {
                lemma_wshags_parts(nlat as int, nlon);
                assert forall|off: int| #[trigger] gaussian_plan(nlat as int, nlon, off).nlon == nlon && describes_gaussian_grid(nlat as int, gaussian_plan(nlat as int, nlon, off)) by {
                    lemma_gaussian_plan_describes(nlat as int, nlon, off);
                }
            }
        }
    }
}

/// The plan of the scalar analysis with computed tables on a Gaussian grid describes its grid.
pub proof fn lemma_shagc_plan(nlat: usize, nlon: usize, nt: usize, glen: usize, wlen: usize, lwork: usize)
    ensures
        shagc_outcome(nlat as int, nlon as int, nt as int, glen as int, wlen as int, lwork as int) matches Ok(p) ==> describes_gaussian_grid(nlat as int, p),
{
    if nlat >= 3 && nlon >= 4 {
        let nlon = nlon as int;
                assert forall|off: int| #[trigger] gaussian_plan(nlat as int, nlon, off).nlon == nlon && describes_gaussian_grid(nlat as int, gaussian_plan(nlat as int, nlon, off)) by {
                    lemma_gaussian_plan_describes(nlat as int, nlon, off);
                }
    }
}

/// The plan of the scalar analysis with stored tables on a Gaussian grid describes its grid.
pub proof fn lemma_shags_plan(nlat: usize, nlon: usize, nt: usize, glen: usize, wlen: usize, lwork: usize)
    ensures
        shags_outcome(nlat as int, nlon as int, nt as int, glen as int, wlen as int, lwork as int) matches Ok(p) ==> describes_gaussian_grid(nlat as int, p),
{
    if nlat >= 3 && nlon >= 4 {
        let nlon = nlon as int;
                assert forall|off: int| #[trigger] gaussian_plan(nlat as int, nlon, off).nlon == nlon && describes_gaussian_grid(nlat as int, gaussian_plan(nlat as int, nlon, off)) by {
                    lemma_gaussian_plan_describes(nlat as int, nlon, off);
                }
    }
}

/// The plan of the scalar Laplacian on a Gaussian grid describes its grid.
pub proof fn lemma_slapgc_plan(nlon: usize, nlat: usize, isym: usize, nt: usize, alen: usize, blen: usize, wlen: usize, lwork: usize)
    ensures
        slapgc_outcome(nlon as int, nlat as int, isym as int, nt as int, alen as int, blen as int, wlen as int, lwork as int) matches Ok(p) ==> describes_gaussian_grid(nlat as int, p),
{
    if nlat >= 3 && nlon >= 4 {
        let nlon = nlon as int;
                assert forall|off: int| #[trigger] gaussian_plan(nlat as int, nlon, off).nlon == nlon && describes_gaussian_grid(nlat as int, gaussian_plan(nlat as int, nlon, off)) by {
                    lemma_gaussian_plan_describes(nlat as int, nlon, off);
                }
    }
}

/// The scalar synthesis with stored tables on a regular grid needs `(nt + 1) * nlat * nlon` words
/// of scratch: a call that succeeds has at least that many, and the same
/// call with exactly that many succeeds with the same plan.
pub proof fn lemma_shses_scratch(nlat: usize, nt: usize, alen: usize, blen: usize, wlen: usize, lwork: usize)
    ensures
        shses_outcome(nlat as int, nt as int, alen as int, blen as int, wlen as int, lwork as int) matches Ok(p) ==> lwork >= (nt + 1) * nlat * p.nlon && shses_outcome(nlat as int, nt as int, alen as int, blen as int, wlen as int, (nt + 1) * nlat * p.nlon) == shses_outcome(nlat as int, nt as int, alen as int, blen as int, wlen as int, lwork as int),
{
    if nlat >= 3 {
        if let Some(nlon) = wshses_nlon(nlat as int, wlen as int) {
            if nlon >= 4 && wlen >= wshses_len(nlat as int, nlon) {
                lemma_stored_product_nonneg(nlat as int, scalar_mmax(nlat as int, nlon));
                assert forall|off: int| #[trigger] regular_plan(nlat as int, nlon, scalar_mmax(nlat as int, nlon), off).nlon == nlon by {
                    lemma_regular_plan_describes(nlat as int, nlon, scalar_mmax(nlat as int, nlon), off);
                }
            }
        }
    }
}

/// The scalar analysis with computed tables on a regular grid needs `(nt + 1) * nlat * nlon` words
/// of scratch: a call that succeeds has at least that many, and the same
/// call with exactly that many succeeds with the same plan.
pub proof fn lemma_shaec_scratch(nlat: usize, nlon: usize, nt: usize, glen: usize, wlen: usize, lwork: usize)
    ensures
        shaec_outcome(nlat as int, nlon as int, nt as int, glen as int, wlen as int, lwork as int) matches Ok(p) ==> lwork >= (nt + 1) * nlat * nlon && shaec_outcome(nlat as int, nlon as int, nt as int, glen as int, wlen as int, (nt + 1) * nlat * nlon) == shaec_outcome(nlat as int, nlon as int, nt as int, glen as int, wlen as int, lwork as int),
{
}

/// The scalar analysis with stored tables on a regular grid needs `(nt + 1) * nlat * nlon` words
/// of scratch: a call that succeeds has at least that many, and the same
/// call with exactly that many succeeds with the same plan.
pub proof fn lemma_shaes_scratch(nlat: usize, nlon: usize, nt: usize, glen: usize, wlen: usize, lwork: usize)
    ensures
        shaes_outcome(nlat as int, nlon as int, nt as int, glen as int, wlen as int, lwork as int) matches Ok(p) ==> lwork >= (nt + 1) * nlat * nlon && shaes_outcome(nlat as int, nlon as int, nt as int, glen as int, wlen as int, (nt + 1) * nlat * nlon) == shaes_outcome(nlat as int, nlon as int, nt as int, glen as int, wlen as int, lwork as int),
{
}

/// The scalar synthesis with computed tables on a Gaussian grid needs `(nt + 1) * nlat * nlon` words
/// of scratch: a call that succeeds has at least that many, and the same
/// call with exactly that many succeeds with the same plan.
pub proof fn lemma_shsgc_scratch(nlat: usize, nt: usize, alen: usize, blen: usize, wlen: usize, lwork: usize)
    ensures
        shsgc_outcome(nlat as int, nt as int, alen as int, blen as int, wlen as int, lwork as int) matches Ok(p) ==> lwork >= (nt + 1) * nlat * p.nlon && shsgc_outcome(nlat as int, nt as int, alen as int, blen as int, wlen as int, (nt + 1) * nlat * p.nlon) == shsgc_outcome(nlat as int, nt as int, alen as int, blen as int, wlen as int, lwork as int),
{
    if nlat >= 3 {
        if let Some(nlon) = wshsgc_nlon(nlat as int, wlen as int) {
            if nlon >= 4 && wlen >= wshsgc_len(nlat as int, nlon) {
                lemma_wshsgc_lower(nlat as int, nlon);
                assert forall|off: int| #[trigger] gaussian_plan(nlat as int, nlon, off).nlon == nlon by {
                    lemma_gaussian_plan_describes(nlat as int, nlon, off);
                }
            }
        }
    }
}

/// The scalar synthesis with stored tables on a Gaussian grid needs `(nt + 1) * nlat * nlon` words
/// of scratch: a call that succeeds has at least that many, and the same
/// call with exactly that many succeeds with the same plan.
pub proof fn lemma_shsgs_scratch(nlat: usize, nt: usize, alen: usize, blen: usize, wlen: usize, lwork: usize)
    ensures
        shsgs_outcome(nlat as int, nt as int, alen as int, blen as int, wlen as int, lwork as int) matches Ok(p) ==> lwork >= (nt + 1) * nlat * p.nlon && shsgs_outcome(nlat as int, nt as int, alen as int, blen as int, wlen as int, (nt + 1) * nlat * p.nlon) == shsgs_outcome(nlat as int, nt as int, alen as int, blen as int, wlen as int, lwork as int),
{
    if nlat >= 3 {
        if let Some(nlon) = wshags_nlon(nlat as int, wlen as int) {
            if nlon >= 4 && wlen >= wshags_len(nlat as int, nlon) {
                lemma_wshags_parts(nlat as int, nlon);
                assert forall|off: int| #[trigger] gaussian_plan(nlat as int, nlon, off).nlon == nlon by {
                    lemma_gaussian_plan_describes(nlat as int, nlon, off);
                }
            }
        }
    }
}

/// The scalar analysis with computed tables on a Gaussian grid needs `(nt + 1) * nlat * nlon` words
/// of scratch: a call that succeeds has at least that many, and the same
/// call with exactly that many succeeds with the same plan.
pub proof fn lemma_shagc_scratch(nlat: usize, nlon: usize, nt: usize, glen: usize, wlen: usize, lwork: usize)
    ensures
        shagc_outcome(nlat as int, nlon as int, nt as int, glen as int, wlen as int, lwork as int) matches Ok(p) ==> lwork >= (nt + 1) * nlat * nlon && shagc_outcome(nlat as int, nlon as int, nt as int, glen as int, wlen as int, (nt + 1) * nlat * nlon) == shagc_outcome(nlat as int, nlon as int, nt as int, glen as int, wlen as int, lwork as int),
{
}

/// The scalar analysis with stored tables on a Gaussian grid needs `(nt + 1) * nlat * nlon` words
/// of scratch: a call that succeeds has at least that many, and the same
/// call with exactly that many succeeds with the same plan.
pub proof fn lemma_shags_scratch(nlat: usize, nlon: usize, nt: usize, glen: usize, wlen: usize, lwork: usize)
    ensures
        shags_outcome(nlat as int, nlon as int, nt as int, glen as int, wlen as int, lwork as int) matches Ok(p) ==> lwork >= (nt + 1) * nlat * nlon && shags_outcome(nlat as int, nlon as int, nt as int, glen as int, wlen as int, (nt + 1) * nlat * nlon) == shags_outcome(nlat as int, nlon as int, nt as int, glen as int, wlen as int, lwork as int),
{
}

/// The scalar Laplacian on a regular grid needs `(nt + 1) * rows * nlon + nlat *
/// (2 * nt * mmax + 1)` words of scratch, where `rows` is `nlat` for a
/// full-sphere field (`isym == 0`) and the `(nlat + 1) / 2` latitudes of one
/// hemisphere otherwise: a call that succeeds has at least that many, and
/// the same call with exactly that many succeeds with the same plan.
pub proof fn lemma_slapes_scratch(nlon: usize, nlat: usize, isym: usize, nt: usize, alen: usize, blen: usize, wlen: usize, lwork: usize)
    ensures
        slapes_outcome(nlon as int, nlat as int, isym as int, nt as int, alen as int, blen as int, wlen as int, lwork as int) matches Ok(p) ==> lwork >= (nt + 1) * (if isym == 0 { nlat as int } else { (nlat + 1) / 2 }) * nlon + nlat * (2 * nt * p.mmax + 1) && slapes_outcome(nlon as int, nlat as int, isym as int, nt as int, alen as int, blen as int, wlen as int, (nt + 1) * (if isym == 0 { nlat as int } else { (nlat + 1) / 2 }) * nlon + nlat * (2 * nt * p.mmax + 1)) == slapes_outcome(nlon as int, nlat as int, isym as int, nt as int, alen as int, blen as int, wlen as int, lwork as int),
{
    lemma_slapes_plan(nlon, nlat, isym, nt, alen, blen, wlen, lwork);
}

/// The inverse scalar Laplacian on a regular grid needs `(nt + 1) * rows * nlon + nlat *
/// (2 * nt * mmax + 1)` words of scratch, where `rows` is `nlat` for a
/// full-sphere field (`isym == 0`) and the `(nlat + 1) / 2` latitudes of one
/// hemisphere otherwise: a call that succeeds has at least that many, and
/// the same call with exactly that many succeeds with the same plan.
pub proof fn lemma_islapes_scratch(nlon: usize, nlat: usize, isym: usize, nt: usize, xlen: usize, alen: usize, blen: usize, wlen: usize, lwork: usize)
    ensures
        islapes_outcome(nlon as int, nlat as int, isym as int, nt as int, xlen as int, alen as int, blen as int, wlen as int, lwork as int) matches Ok(p) ==> lwork >= (nt + 1) * (if isym == 0 { nlat as int } else { (nlat + 1) / 2 }) * nlon + nlat * (2 * nt * p.mmax + 1) && islapes_outcome(nlon as int, nlat as int, isym as int, nt as int, xlen as int, alen as int, blen as int, wlen as int, (nt + 1) * (if isym == 0 { nlat as int } else { (nlat + 1) / 2 }) * nlon + nlat * (2 * nt * p.mmax + 1)) == islapes_outcome(nlon as int, nlat as int, isym as int, nt as int, xlen as int, alen as int, blen as int, wlen as int, lwork as int),
{
    lemma_islapes_plan(nlon, nlat, isym, nt, xlen, alen, blen, wlen, lwork);
}

/// The scalar Laplacian on a Gaussian grid needs, for a full-sphere field
/// (`isym == 0`), `nlat * (2 * nt * nlon + max(6 * l2, nlon) + 2 * nt * l + 1)`
/// words of scratch, and otherwise `l2 * (2 * nt * nlon + max(6 * nlat,
/// nlon)) + nlat * (2 * nt * l + 1)`, where `l2 = (nlat + 1) / 2` counts the
/// latitudes of one hemisphere: a call that succeeds has at least that
/// many, and the same call with exactly that many succeeds with the same
/// plan.
pub proof fn lemma_slapgc_scratch(nlon: usize, nlat: usize, isym: usize, nt: usize, alen: usize, blen: usize, wlen: usize, lwork: usize)
    ensures
        slapgc_outcome(nlon as int, nlat as int, isym as int, nt as int, alen as int, blen as int, wlen as int, lwork as int) matches Ok(p) ==> lwork >= (if isym == 0 { nlat * (2 * nt * nlon + (if 6 * ((nlat + 1) / 2) >= nlon { 6 * ((nlat + 1) / 2) } else { nlon as int }) + 2 * nt * p.l + 1) } else { ((nlat + 1) / 2) * (2 * nt * nlon + (if 6 * nlat >= nlon { 6 * nlat } else { nlon as int })) + nlat * (2 * nt * p.l + 1) }) && slapgc_outcome(nlon as int, nlat as int, isym as int, nt as int, alen as int, blen as int, wlen as int, (if isym == 0 { nlat * (2 * nt * nlon + (if 6 * ((nlat + 1) / 2) >= nlon { 6 * ((nlat + 1) / 2) } else { nlon as int }) + 2 * nt * p.l + 1) } else { ((nlat + 1) / 2) * (2 * nt * nlon + (if 6 * nlat >= nlon { 6 * nlat } else { nlon as int })) + nlat * (2 * nt * p.l + 1) })) == slapgc_outcome(nlon as int, nlat as int, isym as int, nt as int, alen as int, blen as int, wlen as int, lwork as int),
{
    lemma_slapgc_plan(nlon, nlat, isym, nt, alen, blen, wlen, lwork);
}

/// The plan of the gradient on a regular grid counts the `(nlat + 1) / 2` latitudes of a
/// hemisphere with the equator.
pub proof fn lemma_gradec_hemisphere(nlat: usize, nlon: usize, nt: usize, isym: usize, alen: usize, blen: usize, lwork: usize)
    ensures
        gradec_outcome(nlat as int, nlon as int, nt as int, isym as int, alen as int, blen as int, lwork as int) matches Ok(p) ==> nlat <= 2 * p.imid <= nlat + 1,
{
    assert forall|nl: int, mm: int, it: int| #[trigger] vector_plan(nlat as int, nl, mm, it).imid * 2 >= nlat && vector_plan(nlat as int, nl, mm, it).imid * 2 <= nlat + 1 by {
        lemma_vector_plan_hemisphere(nlat as int, nl, mm, it);
    }
}

/// The plan of the gradient on a Gaussian grid with computed tables counts the `(nlat + 1) / 2` latitudes of a
/// hemisphere with the equator.
pub proof fn lemma_gradgc_hemisphere(nlat: usize, nt: usize, isym: usize, alen: usize, blen: usize, wlen: usize)
    ensures
        gradgc_outcome(nlat as int, nt as int, isym as int, alen as int, blen as int, wlen as int) matches Ok(p) ==> nlat <= 2 * p.imid <= nlat + 1,
{
    assert forall|nl: int, mm: int, it: int| #[trigger] vector_plan(nlat as int, nl, mm, it).imid * 2 >= nlat && vector_plan(nlat as int, nl, mm, it).imid * 2 <= nlat + 1 by {
        lemma_vector_plan_hemisphere(nlat as int, nl, mm, it);
    }
}

/// The plan of the gradient on a Gaussian grid with stored tables counts the `(nlat + 1) / 2` latitudes of a
/// hemisphere with the equator.
pub proof fn lemma_gradgs_hemisphere(nlat: usize, nt: usize, isym: usize, alen: usize, blen: usize, wlen: usize, lwork: usize)
    ensures
        gradgs_outcome(nlat as int, nt as int, isym as int, alen as int, blen as int, wlen as int, lwork as int) matches Ok(p) ==> nlat <= 2 * p.imid <= nlat + 1,
{
    assert forall|nl: int, mm: int, it: int| #[trigger] vector_plan(nlat as int, nl, mm, it).imid * 2 >= nlat && vector_plan(nlat as int, nl, mm, it).imid * 2 <= nlat + 1 by {
        lemma_vector_plan_hemisphere(nlat as int, nl, mm, it);
    }
}

/// The plan of the inverse gradient on a regular grid counts the `(nlat + 1) / 2` latitudes of a
/// hemisphere with the equator.
pub proof fn lemma_igrades_hemisphere(nlat: usize, nt: usize, brlen: usize, bilen: usize, wlen: usize)
    ensures
        igrades_outcome(nlat as int, nt as int, brlen as int, bilen as int, wlen as int) matches Ok(p) ==> nlat <= 2 * p.imid <= nlat + 1,
{
    assert forall|nl: int, mm: int, it: int| #[trigger] vector_plan(nlat as int, nl, mm, it).imid * 2 >= nlat && vector_plan(nlat as int, nl, mm, it).imid * 2 <= nlat + 1 by {
        lemma_vector_plan_hemisphere(nlat as int, nl, mm, it);
    }
}

/// The plan of the inverse divergence on a regular grid counts the `(nlat + 1) / 2` latitudes of a
/// hemisphere with the equator.
pub proof fn lemma_idivec_hemisphere(nlon: usize, nlat: usize, nt: usize, isym: usize, alen: usize, blen: usize, wlen: usize, lwork: usize)
    ensures
        idivec_outcome(nlon as int, nlat as int, nt as int, isym as int, alen as int, blen as int, wlen as int, lwork as int) matches Ok(p) ==> nlat <= 2 * p.imid <= nlat + 1,
{
    assert forall|nl: int, mm: int, it: int| #[trigger] vector_plan(nlat as int, nl, mm, it).imid * 2 >= nlat && vector_plan(nlat as int, nl, mm, it).imid * 2 <= nlat + 1 by {
        lemma_vector_plan_hemisphere(nlat as int, nl, mm, it);
    }
}

/// The plan of the inverse of divergence and vorticity on a regular grid counts the `(nlat + 1) / 2` latitudes of a
/// hemisphere with the equator.
pub proof fn lemma_idvtes_hemisphere(nlon: usize, nlat: usize, nt: usize, isym: usize, adlen: usize, bdlen: usize, avlen: usize, bvlen: usize, wlen: usize, lwork: usize)
    ensures
        idvtes_outcome(nlon as int, nlat as int, nt as int, isym as int, adlen as int, bdlen as int, avlen as int, bvlen as int, wlen as int, lwork as int) matches Ok(p) ==> nlat <= 2 * p.imid <= nlat + 1,
{
    assert forall|nl: int, mm: int, it: int| #[trigger] vector_plan(nlat as int, nl, mm, it).imid * 2 >= nlat && vector_plan(nlat as int, nl, mm, it).imid * 2 <= nlat + 1 by {
        lemma_vector_plan_hemisphere(nlat as int, nl, mm, it);
    }
}

/// The plan of the inverse of divergence and vorticity on a Gaussian grid counts the `(nlat + 1) / 2` latitudes of a
/// hemisphere with the equator.
pub proof fn lemma_idvtgs_hemisphere(nlat: usize, nt: usize, isym: usize, adlen: usize, bdlen: usize, avlen: usize, bvlen: usize, wlen: usize, lwork: usize)
    ensures
        idvtgs_outcome(nlat as int, nt as int, isym as int, adlen as int, bdlen as int, avlen as int, bvlen as int, wlen as int, lwork as int) matches Ok(p) ==> nlat <= 2 * p.imid <= nlat + 1,
{
    assert forall|nl: int, mm: int, it: int| #[trigger] vector_plan(nlat as int, nl, mm, it).imid * 2 >= nlat && vector_plan(nlat as int, nl, mm, it).imid * 2 <= nlat + 1 by {
        lemma_vector_plan_hemisphere(nlat as int, nl, mm, it);
    }
}

/// The plan of the inverse vorticity on a regular grid counts the `(nlat + 1) / 2` latitudes of a
/// hemisphere with the equator.
pub proof fn lemma_ivrtes_hemisphere(nlat: usize, nt: usize, isym: usize, alen: usize, blen: usize, wlen: usize, lwork: usize)
    ensures
        ivrtes_outcome(nlat as int, nt as int, isym as int, alen as int, blen as int, wlen as int, lwork as int) matches Ok(p) ==> nlat <= 2 * p.imid <= nlat + 1,
{
    assert forall|nl: int, mm: int, it: int| #[trigger] vector_plan(nlat as int, nl, mm, it).imid * 2 >= nlat && vector_plan(nlat as int, nl, mm, it).imid * 2 <= nlat + 1 by {
        lemma_vector_plan_hemisphere(nlat as int, nl, mm, it);
    }
}

/// The plan of the inverse stream function and velocity potential with computed tables counts the `(nlat + 1) / 2` latitudes of a
/// hemisphere with the equator.
pub proof fn lemma_isfvpec_hemisphere(nlon: usize, nlat: usize, nt: usize, isym: usize, aslen: usize, bslen: usize, avlen: usize, bvlen: usize, wlen: usize, lwork: usize)
    ensures
        isfvpec_outcome(nlon as int, nlat as int, nt as int, isym as int, aslen as int, bslen as int, avlen as int, bvlen as int, wlen as int, lwork as int) matches Ok(p) ==> nlat <= 2 * p.imid <= nlat + 1,
{
    assert forall|nl: int, mm: int, it: int| #[trigger] vector_plan(nlat as int, nl, mm, it).imid * 2 >= nlat && vector_plan(nlat as int, nl, mm, it).imid * 2 <= nlat + 1 by {
        lemma_vector_plan_hemisphere(nlat as int, nl, mm, it);
    }
}

/// The plan of the inverse stream function and velocity potential with stored tables counts the `(nlat + 1) / 2` latitudes of a
/// hemisphere with the equator.
pub proof fn lemma_isfvpes_hemisphere(nlon: usize, nlat: usize, nt: usize, isym: usize, aslen: usize, bslen: usize, avlen: usize, bvlen: usize, wlen: usize, lwork: usize)
    ensures
        isfvpes_outcome(nlon as int, nlat as int, nt as int, isym as int, aslen as int, bslen as int, avlen as int, bvlen as int, wlen as int, lwork as int) matches Ok(p) ==> nlat <= 2 * p.imid <= nlat + 1,
{
    assert forall|nl: int, mm: int, it: int| #[trigger] vector_plan(nlat as int, nl, mm, it).imid * 2 >= nlat && vector_plan(nlat as int, nl, mm, it).imid * 2 <= nlat + 1 by {
        lemma_vector_plan_hemisphere(nlat as int, nl, mm, it);
    }
}

/// The plan of the inverse vector Laplacian with computed tables counts the `(nlat + 1) / 2` latitudes of a
/// hemisphere with the equator.
pub proof fn lemma_ivlapec_hemisphere(nlon: usize, nlat: usize, nt: usize, ityp: usize, brlen: usize, bilen: usize, crlen: usize, cilen: usize, wlen: usize, lwork: usize)
    ensures
        ivlapec_outcome(nlon as int, nlat as int, nt as int, ityp as int, brlen as int, bilen as int, crlen as int, cilen as int, wlen as int, lwork as int) matches Ok(p) ==> nlat <= 2 * p.imid <= nlat + 1,
{
    assert forall|nl: int, mm: int, it: int| #[trigger] vector_plan(nlat as int, nl, mm, it).imid * 2 >= nlat && vector_plan(nlat as int, nl, mm, it).imid * 2 <= nlat + 1 by {
        lemma_vector_plan_hemisphere(nlat as int, nl, mm, it);
    }
}

/// The plan of the inverse vector Laplacian on a Gaussian grid counts the `(nlat + 1) / 2` latitudes of a
/// hemisphere with the equator.
pub proof fn lemma_ivlapgs_hemisphere(nlon: usize, nlat: usize, nt: usize, ityp: usize, brlen: usize, bilen: usize, crlen: usize, cilen: usize, wlen: usize, lwork: usize)
    ensures
        ivlapgs_outcome(nlon as int, nlat as int, nt as int, ityp as int, brlen as int, bilen as int, crlen as int, cilen as int, wlen as int, lwork as int) matches Ok(p) ==> nlat <= 2 * p.imid <= nlat + 1,
{
    assert forall|nl: int, mm: int, it: int| #[trigger] vector_plan(nlat as int, nl, mm, it).imid * 2 >= nlat && vector_plan(nlat as int, nl, mm, it).imid * 2 <= nlat + 1 by {
        lemma_vector_plan_hemisphere(nlat as int, nl, mm, it);
    }
}

/// The scalar synthesis with computed tables on a regular grid needs
/// `nt * ls * nlon + max(ls * nlon, 3 * nlat * imid)` words of scratch, where
/// `imid = (nlat + 1) / 2` and `ls` is `nlat` for a full-sphere field
/// (`isym == 0`) and `imid` otherwise: a call that succeeds has at least
/// that many, and the same call with exactly that many succeeds with the
/// same plan.
pub proof fn lemma_shsec_scratch(nlat: usize, nt: usize, isym: usize, alen: usize, blen: usize, wlen: usize, lwork: usize)
    ensures
        shsec_outcome(nlat as int, nt as int, isym as int, alen as int, blen as int, wlen as int, lwork as int) matches Ok(p) ==> {
            let imid = (nlat + 1) / 2;
            let ls = if isym == 0 { nlat as int } else { imid };
            let need = nt * ls * p.nlon + (if ls * p.nlon >= 3 * nlat * imid { ls * p.nlon } else { 3 * nlat * imid });
            lwork >= need && shsec_outcome(nlat as int, nt as int, isym as int, alen as int, blen as int, wlen as int, need) == shsec_outcome(nlat as int, nt as int, isym as int, alen as int, blen as int, wlen as int, lwork as int)
        },
{
    if nlat >= 3 {
        if let Some(nlon) = wshsec_nlon(nlat as int, wlen as int) {
            if nlon >= 4 && wlen >= wshsec_len(nlat as int, nlon) {
                lemma_wshsec_parts(nlat as int, nlon);
                assert forall|off: int| #[trigger] regular_plan(nlat as int, nlon, scalar_mmax(nlat as int, nlon), off).nlon == nlon by {
                    lemma_regular_plan_describes(nlat as int, nlon, scalar_mmax(nlat as int, nlon), off);
                }
            }
        }
    }
}

/// The saved table of the scalar synthesis with computed tables on a
/// regular grid ends with the FFT table: the plan puts it at `wlen - nlon -
/// 15`, so that its `nlon + 15` entries close the table.
pub proof fn lemma_shsec_fft_table(nlat: usize, nt: usize, isym: usize, alen: usize, blen: usize, wlen: usize, lwork: usize)
    ensures
        shsec_outcome(nlat as int, nt as int, isym as int, alen as int, blen as int, wlen as int, lwork as int) matches Ok(p) ==> p.fft_offset + p.nlon + 15 == wlen,
{
    if nlat >= 3 {
        if let Some(nlon) = wshsec_nlon(nlat as int, wlen as int) {
            assert(wshsec_len(nlat as int, nlon) == wlen);
            if nlon >= 4 && wlen >= wshsec_len(nlat as int, nlon) {
                lemma_wshsec_parts(nlat as int, nlon);
                assert forall|off: int| 0 <= off <= usize::MAX implies #[trigger] regular_plan(nlat as int, nlon, scalar_mmax(nlat as int, nlon), off).nlon == nlon && regular_plan(nlat as int, nlon, scalar_mmax(nlat as int, nlon), off).fft_offset == off by {
                    lemma_regular_plan_describes(nlat as int, nlon, scalar_mmax(nlat as int, nlon), off);
                }
            }
        }
    }
}

/// The divergence on a regular grid needs `nt * ls * nlon + ls * nlon + 2 *
/// mmax * nlat * nt + nlat` words of scratch, where `ls` is `nlat` for a
/// full-sphere field (`isym == 0`) and `(nlat + 1) / 2` otherwise: a call
/// that succeeds has at least that many, and the same call with exactly
/// that many succeeds with the same plan.
pub proof fn lemma_dives_scratch(nlon: usize, nlat: usize, isym: usize, nt: usize, brlen: usize, bilen: usize, wlen: usize, lwork: usize)
    ensures
        dives_outcome(nlon as int, nlat as int, isym as int, nt as int, brlen as int, bilen as int, wlen as int, lwork as int) matches Ok(p) ==> {
            let ls = if isym == 0 { nlat as int } else { (nlat + 1) / 2 };
            let need = nt * ls * nlon + ls * nlon + 2 * (p.mmax * nlat * nt) + nlat;
            lwork >= need && dives_outcome(nlon as int, nlat as int, isym as int, nt as int, brlen as int, bilen as int, wlen as int, need) == dives_outcome(nlon as int, nlat as int, isym as int, nt as int, brlen as int, bilen as int, wlen as int, lwork as int)
        },
{
    lemma_dives_plan(nlon, nlat, isym, nt, brlen, bilen, wlen, lwork);
    if nlat >= 3 && nlon >= 4 {
        lemma_regular_plan_describes(nlat as int, nlon as int, scalar_mmax(nlat as int, nlon as int), 0);
        assert forall|off: int| #[trigger] regular_plan(nlat as int, nlon as int, scalar_mmax(nlat as int, nlon as int), off).mmax == scalar_mmax(nlat as int, nlon as int) by {
            lemma_regular_plan_describes(nlat as int, nlon as int, scalar_mmax(nlat as int, nlon as int), off);
        }
    }
}

/// The saved table of the scalar synthesis with stored tables on a regular
/// grid ends with the FFT table: the plan puts it at `wlen - nlon - 15`, so
/// that its `nlon + 15` entries close the table.
pub proof fn lemma_shses_fft_table(nlat: usize, nt: usize, alen: usize, blen: usize, wlen: usize, lwork: usize)
    ensures
        shses_outcome(nlat as int, nt as int, alen as int, blen as int, wlen as int, lwork as int) matches Ok(p) ==> p.fft_offset + p.nlon + 15 == wlen,
{
    if nlat >= 3 {
        if let Some(nlon) = wshses_nlon(nlat as int, wlen as int) {
            assert(wshses_len(nlat as int, nlon) == wlen);
            if nlon >= 4 && wlen >= wshses_len(nlat as int, nlon) {
                lemma_stored_product_nonneg(nlat as int, scalar_mmax(nlat as int, nlon));
                assert forall|off: int| 0 <= off <= usize::MAX implies #[trigger] regular_plan(nlat as int, nlon, scalar_mmax(nlat as int, nlon), off).nlon == nlon && regular_plan(nlat as int, nlon, scalar_mmax(nlat as int, nlon), off).fft_offset == off by {
                    lemma_regular_plan_describes(nlat as int, nlon, scalar_mmax(nlat as int, nlon), off);
                }
            }
        }
    }
}

/// The saved table of the scalar synthesis with computed tables on a
/// Gaussian grid ends with the FFT table: the plan puts it at `wlen - nlon -
/// 15`, so that its `nlon + 15` entries close the table.
pub proof fn lemma_shsgc_fft_table(nlat: usize, nt: usize, alen: usize, blen: usize, wlen: usize, lwork: usize)
    ensures
        shsgc_outcome(nlat as int, nt as int, alen as int, blen as int, wlen as int, lwork as int) matches Ok(p) ==> p.fft_offset + p.nlon + 15 == wlen,
{
    if nlat >= 3 {
        if let Some(nlon) = wshsgc_nlon(nlat as int, wlen as int) {
            assert(wshsgc_len(nlat as int, nlon) == wlen);
            if nlon >= 4 && wlen >= wshsgc_len(nlat as int, nlon) {
                lemma_wshsgc_lower(nlat as int, nlon);
                assert forall|off: int| 0 <= off <= usize::MAX implies #[trigger] gaussian_plan(nlat as int, nlon, off).nlon == nlon && gaussian_plan(nlat as int, nlon, off).fft_offset == off by {
                    lemma_gaussian_plan_describes(nlat as int, nlon, off);
                }
            }
        }
    }
}

} // verus!
