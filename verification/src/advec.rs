//! Integer side of the advection test driver: grid indexing and the table
//! sizes it allocates for the Gaussian-grid transforms with computed tables.
use vstd::prelude::*;
use crate::gaussian_stored_scalar::{min_int, sat_sub, lemma_consecutive_product_even};
use crate::workspace::{fits, half_up, div_ceil2, min_usize};

verus! {

/// Row-major position of latitude `i`, longitude `j`: `i * nlon + j`.
pub fn idx(nlon: usize, i: usize, j: usize) -> (r: usize)
    requires
        fits(i * nlon + j),
    ensures
        r == i * nlon + j,
{
    proof {
        assert(i * nlon >= 0) by (nonlinear_arith);
    }
    i * nlon + j
}

/// Saved-table length of the scalar Gaussian transforms with computed
/// tables, `nlat * (2 * l2 + 3 * l1 - 2) + 3 * l1 * (1 - l1) / 2 + nlon + 15`
/// with `l1 = min(nlat, (nlon + 2) / 2)` and `l2 = ceil(nlat / 2)`; the formula
/// is taken as 0 if it is negative (it never is).
pub open spec fn spec_shagc_lsave(nlat: int, nlon: int) -> int {
    let l1 = min_int(nlat, (nlon + 2) / 2);
    let l2 = half_up(nlat);
    let v = nlat * (2 * l2 + 3 * l1 - 2) + 3 * l1 * (1 - l1) / 2 + nlon + 15;
    if v < 0 {
        0
    } else {
        v
    }
}

/// The quantities of [`calc_shagc_sizes`] must fit both a machine word and
/// the signed 64-bit words that the formula is evaluated in.
pub open spec fn shagc_sizes_fit(nlat: int, nlon: int) -> bool {
    let l1 = min_int(nlat, (nlon + 2) / 2);
    let l2 = half_up(nlat);
    &&& fits(nlon + 2)
    &&& fits(2 * l2 + 3 * l1)
    &&& fits(nlat * (2 * l2 + 3 * l1))
    &&& fits(3 * l1 * l1)
    &&& fits(nlat * (2 * l2 + 3 * l1 - 2) + 3 * l1 * (1 - l1) / 2 + nlon + 15)
    &&& nlat * (2 * l2 + 3 * l1) <= 0x7fff_ffff_ffff_ffff
    &&& 3 * l1 * l1 <= 0x7fff_ffff_ffff_ffff
    &&& nlat * (2 * l2 + 3 * l1 - 2) + nlon + 15 <= 0x7fff_ffff_ffff_ffff
    &&& fits(nlat + 4)
    &&& fits(nlat * (nlat + 4))
}

/// Saved-table and double-precision scratch lengths of the scalar Gaussian
/// transforms with computed tables: `(lsave, nlat * (nlat + 4))`.
pub fn calc_shagc_sizes(nlat: usize, nlon: usize) -> (r: (usize, usize))
    requires
        shagc_sizes_fit(nlat as int, nlon as int),
    ensures
        r.0 == spec_shagc_lsave(nlat as int, nlon as int),
        r.1 == nlat * (nlat + 4),
{
    let l1 = min_usize(nlat, (nlon + 2) / 2);
    let l2 = div_ceil2(nlat);
    let ghost v = nlat * (2 * l2 + 3 * l1 - 2) + 3 * l1 * (1 - l1) / 2 + nlon + 15;
    proof {
        lemma_consecutive_product_even(l1 - 1, l1 as int);
        assert(3 * l1 * (1 - l1) == -(3 * ((l1 - 1) * l1))) by (nonlinear_arith);
        assert(3 * l1 * (1 - l1) / 2 == -(3 * ((l1 - 1) * l1) / 2));
        assert(3 * ((l1 - 1) * l1) <= 3 * l1 * l1) by (nonlinear_arith)
            requires
                l1 >= 0,
        ;
    }
    let lsave = if nlat == 0 {
        proof {
            assert(l1 == 0);
            assert(v == nlon + 15) by (nonlinear_arith)
                requires
                    nlat == 0,
                    l1 == 0,
                    v == nlat * (2 * l2 + 3 * l1 - 2) + 3 * l1 * (1 - l1) / 2 + nlon + 15,
            ;
        }
        nlon + 15
    } else {
        proof {
            assert(l2 >= 1);
            assert(3 * ((l1 - 1) * l1) / 2 <= nlat * (2 * l2 + 3 * l1 - 2)) by (nonlinear_arith)
                requires
                    l1 <= nlat,
                    l1 >= 0,
                    l2 >= 1,
                    nlat >= 1,
            ;
            assert(nlat * (2 * l2 + 3 * l1 - 2) <= nlat * (2 * l2 + 3 * l1)) by (nonlinear_arith)
                requires
                    nlat >= 0,
            ;
            assert(l1 * l1 >= 0) by (nonlinear_arith);
            if l1 >= 1 {
                assert((l1 - 1) * l1 <= l1 * l1) by (nonlinear_arith)
                    requires
                        l1 >= 1,
                ;
            }
        }
        let lm1 = l1.saturating_sub(1);
        assert(lm1 * l1 == (l1 - 1) * l1) by {
            if l1 == 0 {
                assert(0 * l1 == 0);
                assert((l1 - 1) * l1 == 0) by (nonlinear_arith)
                    requires
                        l1 == 0,
                ;
            }
        }
        nlat * (2 * l2 + 3 * l1 - 2) - 3 * (lm1 * l1) / 2 + nlon + 15
    };
    let ldwork = nlat * (nlat + 4);
    (lsave, ldwork)
}

/// Saved-table length of the vector Gaussian transforms with computed
/// tables: `4 * nlat * l2 + 3 * max(l1 - 2, 0) * (2 * nlat - l1 - 1) + nlon + 15`
/// with `l1 = min(nlat, (nlon + 1) / 2)` and `l2 = ceil(nlat / 2)`.
pub open spec fn spec_vhsgc_lsave(nlat: int, nlon: int) -> int {
    let l1 = min_int(nlat, (nlon + 1) / 2);
    let l2 = half_up(nlat);
    4 * nlat * l2 + 3 * sat_sub(l1, 2) * (2 * nlat - l1 - 1) + nlon + 15
}

/// The intermediate quantities of [`calc_vhsgc_sizes`].
pub open spec fn vhsgc_sizes_fit(nlat: int, nlon: int) -> bool {
    let l1 = min_int(nlat, (nlon + 1) / 2);
    let l2 = half_up(nlat);
    &&& nlat >= 1
    &&& fits(nlon + 1)
    &&& fits(4 * nlat)
    &&& fits(4 * nlat * l2)
    &&& fits(2 * nlat)
    &&& fits(3 * sat_sub(l1, 2))
    &&& fits(3 * sat_sub(l1, 2) * (2 * nlat - l1 - 1))
    &&& fits(spec_vhsgc_lsave(nlat, nlon))
    &&& fits(nlat + 1)
    &&& fits(2 * nlat * (nlat + 1) + 1)
}

/// Saved-table and double-precision scratch lengths of the vector Gaussian
/// transforms with computed tables: `(lsave, 2 * nlat * (nlat + 1) + 1)`.
pub fn calc_vhsgc_sizes(nlat: usize, nlon: usize) -> (r: (usize, usize))
    requires
        vhsgc_sizes_fit(nlat as int, nlon as int),
    ensures
        r.0 == spec_vhsgc_lsave(nlat as int, nlon as int),
        r.1 == 2 * nlat * (nlat + 1) + 1,
{
    let l1 = min_usize(nlat, (nlon + 1) / 2);
    let l2 = div_ceil2(nlat);
    let lsave = 4 * nlat * l2 + 3 * l1.saturating_sub(2) * (2 * nlat - l1 - 1) + nlon + 15;
    let ldwork = 2 * nlat * (nlat + 1) + 1;
    (lsave, ldwork)
}

} // verus!
