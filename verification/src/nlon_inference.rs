//! Recovering the number of longitudes from the length of a saved table.
//!
//! The transforms that take no `nlon` argument try the candidates
//! `4, 5, ..., 4 * max(nlat, 4)` in turn and keep the first one whose table
//! length (see `tables`) equals the length of the table they were handed.
use vstd::prelude::*;
use crate::gaussian_stored_scalar::{
    lemma_consecutive_product_even, min_int, sat_sub, spec_scalar_l, spec_scalar_labc,
    spec_scalar_late, spec_scalar_pmn_count,
};
use crate::tables::{
    full_triangle, recurrence_len, scalar_mmax, vector_mmax, vector_stored_len, wshags_len,
    wshags_prefix, wshsec_len, wshses_len, wshsgc_len, wvhses_len_with, wvhsgc_len, wvhsgs_full_len,
    wvhsgs_len, wvhsgs_weighted_len, zonal_len,
};
use crate::workspace::{half_up, spec_scalar_saved_len, spec_vector_saved_len};

verus! {

/// The largest candidate that is tried, `4 * max(nlat, 4)`.
pub open spec fn max_candidate(nlat: int) -> int {
    if nlat > 4 {
        4 * nlat
    } else {
        16
    }
}

/// `n` is the first candidate that `p` accepts.
pub open spec fn first_candidate(p: spec_fn(int) -> bool, nlat: int, n: int) -> bool {
    &&& 4 <= n <= max_candidate(nlat)
    &&& p(n)
    &&& forall|d: int| 4 <= d < n ==> !#[trigger] p(d)
}

/// `p` accepts no candidate.
pub open spec fn no_candidate(p: spec_fn(int) -> bool, nlat: int) -> bool {
    forall|d: int| 4 <= d <= max_candidate(nlat) ==> !#[trigger] p(d)
}

/// `r` is the outcome of the search for the first candidate that `p`
/// accepts: that candidate, or `None` where there is none.
pub open spec fn search_outcome(p: spec_fn(int) -> bool, nlat: int, r: Option<usize>) -> bool {
    match r {
        Some(n) => first_candidate(p, nlat, n as int),
        None => no_candidate(p, nlat),
    }
}

/// The first candidate that `p` accepts, where there is one.
pub open spec fn first_nlon(p: spec_fn(int) -> bool, nlat: int) -> Option<int> {
    if exists|n: int| first_candidate(p, nlat, n) {
        Some(choose|n: int| first_candidate(p, nlat, n))
    } else {
        None
    }
}

/// The outcome of a search is the first candidate, which is unique.
pub proof fn lemma_search_outcome_is_first(p: spec_fn(int) -> bool, nlat: int, r: Option<usize>)
    requires
        search_outcome(p, nlat, r),
    ensures
        match r {
            Some(n) => first_nlon(p, nlat) == Some(n as int),
            None => first_nlon(p, nlat) is None,
        },
{
    match r {
        Some(n) => {
            assert(first_candidate(p, nlat, n as int));
            let m = choose|m: int| first_candidate(p, nlat, m);
            assert(first_candidate(p, nlat, m));
            if m < n {
                assert(!p(m));
            } else if m > n {
                assert(!p(n as int));
            }
        },
        None => {
            if exists|n: int| first_candidate(p, nlat, n) {
                let m = choose|m: int| first_candidate(p, nlat, m);
                assert(p(m));
            }
        },
    }
}

/// `nlon` recovered from a saved table of the scalar transforms with
/// computed tables on a regular grid.
pub open spec fn wshsec_nlon(nlat: int, ltotal: int) -> Option<int> {
    first_nlon(|c: int| wshsec_len(nlat, c) == ltotal, nlat)
}

/// `nlon` recovered from a saved table of the scalar transforms with stored
/// tables on a regular grid.
pub open spec fn wshses_nlon(nlat: int, ltotal: int) -> Option<int> {
    first_nlon(|c: int| wshses_len(nlat, c) == ltotal, nlat)
}

/// `nlon` recovered from a saved table of the scalar transforms with stored
/// tables on a Gaussian grid.
pub open spec fn wshags_nlon(nlat: int, ltotal: int) -> Option<int> {
    first_nlon(|c: int| wshags_len(nlat, c) == ltotal, nlat)
}

/// `nlon` recovered from a saved table of the scalar transforms with
/// computed tables on a Gaussian grid.
pub open spec fn wshsgc_nlon(nlat: int, ltotal: int) -> Option<int> {
    first_nlon(|c: int| wshsgc_len(nlat, c) == ltotal, nlat)
}

/// `nlon` recovered from a saved table of the vector transforms with
/// computed tables on a Gaussian grid.
pub open spec fn wvhsgc_nlon(nlat: int, ltotal: int) -> Option<int> {
    first_nlon(|c: int| wvhsgc_len(nlat, c) == ltotal, nlat)
}

/// `nlon` recovered from a saved table of the vector transforms with stored
/// tables on a Gaussian grid that keep the quadrature weights.
pub open spec fn wvhsgs_nlon(nlat: int, ltotal: int) -> Option<int> {
    first_nlon(
        |c: int| wvhsgs_weighted_len(nlat, c) == ltotal || wvhsgs_full_len(nlat, c) == ltotal,
        nlat,
    )
}

/// `nlon` recovered from a saved table of the vector transforms with stored
/// tables on a Gaussian grid, as the inverse vorticity-divergence routine
/// reads it.
pub open spec fn wvhsgs_synthesis_nlon(nlat: int, ltotal: int) -> Option<int> {
    first_nlon(|c: int| wvhsgs_full_len(nlat, c) == ltotal || wvhsgs_len(nlat, c) == ltotal, nlat)
}

/// `nlon` recovered from a saved table of the vector transforms with stored
/// tables on a regular grid.
pub open spec fn wvhses_nlon(nlat: int, ltotal: int) -> Option<int> {
    first_nlon(
        |c: int|
            wvhses_len_with(nlat, c, vector_mmax(nlat, c)) == ltotal || wvhses_len_with(
                nlat,
                c,
                scalar_mmax(nlat, c),
            ) == ltotal,
        nlat,
    )
}

/// Bound on the number of latitudes below which every table length is
/// evaluated exactly in 128 bits; above it no table fits a machine word.
pub open spec fn big_grid() -> int {
    0x2_0000_0000
}

/// `a * b <= x * y` for bounded non-negative factors.
pub(crate) proof fn lemma_mul_le(a: int, b: int, x: int, y: int)
    requires
        0 <= a <= x,
        0 <= b <= y,
    ensures
        0 <= a * b <= x * y,
{
    assert(0 <= a * b <= x * y) by (nonlinear_arith)
        requires
            0 <= a <= x,
            0 <= b <= y,
    ;
}

/// A test of one candidate against the length of a saved table.
trait CandidateTest {
    /// The candidate `nlon` is accepted for a table of `ltotal` entries.
    spec fn accepts(nlat: int, ltotal: int, nlon: int) -> bool;

    fn test(nlat: u128, ltotal: u128, nlon: u128) -> (b: bool)
        requires
            nlat < big_grid(),
            ltotal <= usize::MAX,
            4 <= nlon <= max_candidate(nlat as int),
        ensures
            b == Self::accepts(nlat as int, ltotal as int, nlon as int),
    ;

    proof fn lemma_big_grid_rejected(nlat: int, ltotal: int, nlon: int)
        requires
            nlat >= big_grid(),
            0 <= ltotal <= usize::MAX,
            nlon >= 4,
        ensures
            !Self::accepts(nlat, ltotal, nlon),
    ;

    proof fn lemma_accepted_fits(nlat: int, ltotal: int, nlon: int)
        requires
            nlat >= 0,
            nlon >= 4,
            Self::accepts(nlat, ltotal, nlon),
        ensures
            nlon <= ltotal,
    ;
}

/// The first candidate that `T` accepts.
fn first_accepted<T: CandidateTest>(nlat: usize, ltotal: usize) -> (r: Option<usize>)
    ensures
        match r {
            Some(n) => {
                &&& 4 <= n <= max_candidate(nlat as int)
                &&& T::accepts(nlat as int, ltotal as int, n as int)
                &&& forall|d: int| 4 <= d < n ==> !#[trigger] T::accepts(nlat as int, ltotal as int, d)
            },
            None => forall|d: int|
                4 <= d <= max_candidate(nlat as int) ==> !#[trigger] T::accepts(
                    nlat as int,
                    ltotal as int,
                    d,
                ),
        },
{
    let n: u128 = nlat as u128;
    if n >= 0x2_0000_0000 {
        proof {
            assert forall|d: int| 4 <= d <= max_candidate(nlat as int) implies !#[trigger] T::accepts(
                nlat as int,
                ltotal as int,
                d,
            ) by {
                T::lemma_big_grid_rejected(nlat as int, ltotal as int, d);
            }
        }
        return None;
    }
    let hi: u128 = if n > 4 {
        4 * n
    } else {
        16
    };
    let lt: u128 = ltotal as u128;
    let mut c: u128 = 4;
    while c <= hi
        invariant
            4 <= c <= hi + 1,
            n == nlat,
            lt == ltotal,
            n < big_grid(),
            hi == max_candidate(nlat as int),
            forall|d: int| 4 <= d < c ==> !#[trigger] T::accepts(nlat as int, ltotal as int, d),
        decreases hi + 1 - c,
    {
        if T::test(n, lt, c) {
            proof {
                T::lemma_accepted_fits(nlat as int, ltotal as int, c as int);
            }
            return Some(c as usize);
        }
        c = c + 1;
    }
    None
}

// ---------------------------------------------------------------------------
// Scalar transforms with computed tables on a regular grid.

struct WshsecTest;

/// `zonal_len` evaluated exactly.
pub(crate) fn eval_zonal_len(n: u128) -> (r: u128)
    requires
        n < big_grid(),
    ensures
        r == zonal_len(n as int),
        r <= 0x10_0000_0000_0000_0000,
{
    let imid = (n + 1) / 2;
    proof {
        lemma_mul_le(2 * n, imid as int, 0x4_0000_0000, 0x2_0000_0000);
    }
    2 * n * imid
}

/// `recurrence_len` evaluated exactly.
pub(crate) fn eval_recurrence_len(n: u128, mmax: u128) -> (r: u128)
    requires
        n < big_grid(),
        mmax <= n,
    ensures
        r == recurrence_len(n as int, mmax as int),
        r <= 0x10_0000_0000_0000_0000,
{
    if mmax < 2 {
        assert(sat_sub(mmax as int, 2) == 0);
        assert(3 * 0 * (2 * n - mmax - 1) == 0) by (nonlinear_arith);
        0
    } else {
        proof {
            lemma_mul_le(3 * (mmax - 2), 2 * n - mmax - 1, 0x8_0000_0000, 0x4_0000_0000);
        }
        (3 * (mmax - 2) * (2 * n - mmax - 1)) / 2
    }
}

/// The smaller of two words.
pub(crate) fn min_u128(a: u128, b: u128) -> (r: u128)
    ensures
        r == min_int(a as int, b as int),
{
    if a <= b {
        a
    } else {
        b
    }
}

/// `wshsec_len` evaluated exactly.
pub(crate) fn eval_wshsec_len(n: u128, c: u128) -> (r: u128)
    requires
        n < big_grid(),
        4 <= c < 0x1_0000_0000_0000_0000,
    ensures
        r == wshsec_len(n as int, c as int),
{
    let mmax = min_u128(n, c / 2 + 1);
    eval_zonal_len(n) + eval_recurrence_len(n, mmax) + c + 15
}

/// The recurrence tables of a regular grid have a non-negative length.
pub(crate) proof fn lemma_recurrence_len_nonneg(nlat: int, mmax: int)
    requires
        0 <= mmax <= nlat,
    ensures
        recurrence_len(nlat, mmax) >= 0,
{
    if mmax >= 2 {
        lemma_mul_le(3 * sat_sub(mmax, 2), 2 * nlat - mmax - 1, 3 * nlat, 2 * nlat);
    } else {
        assert(3 * sat_sub(mmax, 2) * (2 * nlat - mmax - 1) == 0) by (nonlinear_arith)
            requires
                sat_sub(mmax, 2) == 0,
        ;
    }
}

/// `2 * nlat * ceil(nlat / 2) >= nlat * nlat`.
pub(crate) proof fn lemma_zonal_len_lower(nlat: int)
    requires
        nlat >= 0,
    ensures
        zonal_len(nlat) >= nlat * nlat,
{
    assert(2 * half_up(nlat) >= nlat);
    lemma_mul_le(nlat, nlat, nlat, 2 * half_up(nlat));
    assert(2 * nlat * half_up(nlat) == nlat * (2 * half_up(nlat))) by (nonlinear_arith);
}

/// A grid of at least [`big_grid`] latitudes has more than `2^64` latitude
/// pairs.
pub(crate) proof fn lemma_big_square(nlat: int)
    requires
        nlat >= big_grid(),
    ensures
        nlat * nlat >= 0x4_0000_0000_0000_0000,
{
    lemma_mul_le(0x2_0000_0000, 0x2_0000_0000, nlat, nlat);
}

impl CandidateTest for WshsecTest {
    spec fn accepts(nlat: int, ltotal: int, nlon: int) -> bool {
        wshsec_len(nlat, nlon) == ltotal
    }

    fn test(nlat: u128, ltotal: u128, nlon: u128) -> (b: bool) {
        eval_wshsec_len(nlat, nlon) == ltotal
    }

    proof fn lemma_big_grid_rejected(nlat: int, ltotal: int, nlon: int) {
        lemma_zonal_len_lower(nlat);
        lemma_big_square(nlat);
        lemma_recurrence_len_nonneg(nlat, scalar_mmax(nlat, nlon));
    }

    proof fn lemma_accepted_fits(nlat: int, ltotal: int, nlon: int) {
        lemma_zonal_len_lower(nlat);
        assert(nlat * nlat >= 0) by (nonlinear_arith);
        lemma_recurrence_len_nonneg(nlat, scalar_mmax(nlat, nlon));
    }
}

/// The parts of the regular computed-table length are non-negative, and no
/// such table of a grid of at least [`big_grid`] latitudes fits a machine
/// word.
pub(crate) proof fn lemma_wshsec_parts(nlat: int, nlon: int)
    requires
        nlat >= 0,
        nlon >= 4,
    ensures
        zonal_len(nlat) >= 0,
        recurrence_len(nlat, scalar_mmax(nlat, nlon)) >= 0,
        nlat >= big_grid() ==> wshsec_len(nlat, nlon) > usize::MAX,
{
    lemma_zonal_len_lower(nlat);
    assert(nlat * nlat >= 0) by (nonlinear_arith);
    lemma_recurrence_len_nonneg(nlat, scalar_mmax(nlat, nlon));
    if nlat >= big_grid() {
        lemma_big_square(nlat);
    }
}

/// Number of longitudes of a grid whose saved table for the scalar
/// transforms with computed tables on a regular grid has `ltotal` entries:
/// the first candidate `nlon` with `wshsec_len(nlat, nlon) == ltotal`, or
/// `None` where no candidate has that length.
pub fn infer_nlon_from_wshsec(nlat: usize, ltotal: usize) -> (r: Option<usize>)
    ensures
        search_outcome(|c: int| wshsec_len(nlat as int, c) == ltotal, nlat as int, r),
{
    let r = first_accepted::<WshsecTest>(nlat, ltotal);
    proof {
        let p = |c: int| wshsec_len(nlat as int, c) == ltotal;
        assert forall|d: int| #[trigger] p(d) == WshsecTest::accepts(nlat as int, ltotal as int, d) by {}
    }
    r
}

// ---------------------------------------------------------------------------
// Shared bounds.

/// `m * (2 * n - m + 1)`, twice the number of pairs `(m', k)` with
/// `m' < m`, `m' <= k < n`, is at least `n + 1` once `m >= 1`.
pub(crate) proof fn lemma_triangle_lower(n: int, m: int)
    requires
        0 <= m <= n,
    ensures
        m * (2 * n - m + 1) >= 0,
        m >= 1 ==> m * (2 * n - m + 1) >= n + 1,
{
    if m >= 1 {
        assert(m * (2 * n - m + 1) == (m - 1) * (2 * n - m) + 2 * n) by (nonlinear_arith);
        lemma_mul_le(m - 1, 2 * n - m, n, 2 * n);
    } else {
        assert(m * (2 * n - m + 1) == 0) by (nonlinear_arith)
            requires
                m == 0,
        ;
    }
}

/// `half_up(n) * mmax * (2 * n - mmax + 1)` evaluated exactly.
pub(crate) fn eval_stored_product(n: u128, mmax: u128) -> (r: u128)
    requires
        n < big_grid(),
        mmax <= n,
    ensures
        r == vector_stored_len(n as int, mmax as int),
        r <= 0x10_0000_0000_0000_0000_0000_0000,
{
    let imid = (n + 1) / 2;
    proof {
        lemma_mul_le(imid as int, mmax as int, 0x2_0000_0000, 0x2_0000_0000);
        lemma_mul_le(
            imid * mmax,
            2 * n - mmax + 1,
            0x4_0000_0000_0000_0000,
            0x4_0000_0000,
        );
    }
    imid * mmax * (2 * n - mmax + 1)
}

/// Lower bounds of the stored-table length on a large grid.
pub(crate) proof fn lemma_stored_product_big(nlat: int, mmax: int)
    requires
        nlat >= big_grid(),
        1 <= mmax <= nlat,
    ensures
        vector_stored_len(nlat, mmax) >= 0x2_0000_0000_0000_0000,
        vector_stored_len(nlat, mmax) / 2 >= 0x1_0000_0000_0000_0000,
{
    lemma_triangle_lower(nlat, mmax);
    lemma_mul_le(0x1_0000_0000, 0x2_0000_0000, half_up(nlat), mmax * (2 * nlat - mmax + 1));
    assert(half_up(nlat) * mmax * (2 * nlat - mmax + 1) == half_up(nlat) * (mmax * (2 * nlat
        - mmax + 1))) by (nonlinear_arith);
}

/// The stored-table length is non-negative.
pub(crate) proof fn lemma_stored_product_nonneg(nlat: int, mmax: int)
    requires
        0 <= mmax <= nlat,
    ensures
        vector_stored_len(nlat, mmax) >= 0,
{
    lemma_triangle_lower(nlat, mmax);
    lemma_mul_le(half_up(nlat), mmax * (2 * nlat - mmax + 1), half_up(nlat), mmax * (2 * nlat
        - mmax + 1));
    assert(half_up(nlat) * mmax * (2 * nlat - mmax + 1) == half_up(nlat) * (mmax * (2 * nlat
        - mmax + 1))) by (nonlinear_arith);
}

// ---------------------------------------------------------------------------
// Scalar transforms with stored tables on a regular grid.

struct WshsesTest;

/// `wshses_len` evaluated exactly.
pub(crate) fn eval_wshses_len(n: u128, c: u128) -> (r: u128)
    requires
        n < big_grid(),
        4 <= c < 0x1_0000_0000_0000_0000,
    ensures
        r == wshses_len(n as int, c as int),
{
    let mmax = min_u128(n, c / 2 + 1);
    let p = eval_stored_product(n, mmax);
    p / 2 + c + 15
}

impl CandidateTest for WshsesTest {
    spec fn accepts(nlat: int, ltotal: int, nlon: int) -> bool {
        wshses_len(nlat, nlon) == ltotal
    }

    fn test(nlat: u128, ltotal: u128, nlon: u128) -> (b: bool) {
        eval_wshses_len(nlat, nlon) == ltotal
    }

    proof fn lemma_big_grid_rejected(nlat: int, ltotal: int, nlon: int) {
        lemma_stored_product_big(nlat, scalar_mmax(nlat, nlon));
    }

    proof fn lemma_accepted_fits(nlat: int, ltotal: int, nlon: int) {
        lemma_stored_product_nonneg(nlat, scalar_mmax(nlat, nlon));
    }
}

/// Number of longitudes of a grid whose saved table for the scalar
/// transforms with stored tables on a regular grid has `ltotal` entries: the
/// first candidate `nlon` with `wshses_len(nlat, nlon) == ltotal`, or `None`.
pub fn infer_nlon_from_wshses(nlat: usize, ltotal: usize) -> (r: Option<usize>)
    ensures
        search_outcome(|c: int| wshses_len(nlat as int, c) == ltotal, nlat as int, r),
{
    let r = first_accepted::<WshsesTest>(nlat, ltotal);
    proof {
        let p = |c: int| wshses_len(nlat as int, c) == ltotal;
        assert forall|d: int| #[trigger] p(d) == WshsesTest::accepts(nlat as int, ltotal as int, d) by {}
    }
    r
}

// ---------------------------------------------------------------------------
// Scalar transforms with stored tables on a Gaussian grid.

struct WshagsTest;

/// `l`, `late`, the prefix and the whole length of the saved table of the
/// scalar transforms with stored tables on a Gaussian grid, evaluated
/// exactly.
pub(crate) fn eval_wshags(n: u128, c: u128) -> (r: (u128, u128, u128, u128))
    requires
        n < big_grid(),
        4 <= c < 0x1_0000_0000_0000_0000,
    ensures
        r.0 == spec_scalar_l(n as int, c as int),
        r.1 == spec_scalar_late(n as int),
        r.2 == wshags_prefix(n as int, c as int),
        r.3 == wshags_len(n as int, c as int),
        r.2 <= r.3,
{
    let half = (c + 2) / 2;
    let l = if half <= n {
        half
    } else {
        n
    };
    let late = (n + 1) / 2;
    let labc: u128 = if l == 0 {
        assert(sat_sub(l as int, 1) * l / 2 + sat_sub(n as int, l as int) * sat_sub(l as int, 1)
            == 0) by (nonlinear_arith)
            requires
                l == 0,
                sat_sub(l as int, 1) == 0,
        ;
        0
    } else {
        proof {
            lemma_mul_le(l - 1, l as int, 0x2_0000_0000, 0x2_0000_0000);
            lemma_mul_le(n - l, l - 1, 0x2_0000_0000, 0x2_0000_0000);
        }
        (l - 1) * l / 2 + (n - l) * (l - 1)
    };
    proof {
        lemma_mul_le(2 * n, late as int, 0x4_0000_0000, 0x2_0000_0000);
        lemma_triangle_lower(n as int, l as int);
        lemma_mul_le(l as int, 2 * n - l + 1, 0x2_0000_0000, 0x4_0000_0000);
    }
    let prefix = n + 2 * n * late + 3 * labc + c + 15;
    let pmn = l * (2 * n - l + 1) / 2;
    proof {
        lemma_mul_le(late as int, pmn as int, 0x2_0000_0000, 0x4_0000_0000_0000_0000);
    }
    (l, late, prefix, prefix + late * pmn)
}

/// The parts of the Gaussian stored-table length are non-negative, and the
/// zonal part is at least `nlat * nlat`.
pub(crate) proof fn lemma_wshags_parts(nlat: int, nlon: int)
    requires
        nlat >= 0,
        nlon >= 4,
    ensures
        wshags_prefix(nlat, nlon) >= nlat * nlat + nlon,
        wshags_prefix(nlat, nlon) >= nlon + 15,
        wshags_len(nlat, nlon) >= wshags_prefix(nlat, nlon),
{
    let l = spec_scalar_l(nlat, nlon);
    let late = spec_scalar_late(nlat);
    lemma_zonal_len_lower(nlat);
    lemma_mul_le(sat_sub(l, 1), l, nlat, nlat);
    lemma_mul_le(sat_sub(nlat, l), sat_sub(l, 1), nlat, nlat);
    lemma_triangle_lower(nlat, l);
    lemma_mul_le(late, spec_scalar_pmn_count(nlat, l), late, spec_scalar_pmn_count(nlat, l));
}

impl CandidateTest for WshagsTest {
    spec fn accepts(nlat: int, ltotal: int, nlon: int) -> bool {
        wshags_len(nlat, nlon) == ltotal
    }

    fn test(nlat: u128, ltotal: u128, nlon: u128) -> (b: bool) {
        let parts = eval_wshags(nlat, nlon);
        parts.3 == ltotal
    }

    proof fn lemma_big_grid_rejected(nlat: int, ltotal: int, nlon: int) {
        lemma_wshags_parts(nlat, nlon);
        lemma_big_square(nlat);
    }

    proof fn lemma_accepted_fits(nlat: int, ltotal: int, nlon: int) {
        lemma_wshags_parts(nlat, nlon);
        assert(nlat * nlat >= 0) by (nonlinear_arith);
    }
}

/// Number of longitudes of a grid whose saved table for the scalar
/// transforms with stored tables on a Gaussian grid has `ltotal` entries,
/// with `l`, `late` and the offset of the stored functions: the first
/// candidate `nlon` with `wshags_len(nlat, nlon) == ltotal`, or `None`.
pub fn infer_nlon_from_wshags(nlat: usize, ltotal: usize) -> (r: Option<
    (usize, usize, usize, usize),
>)
    ensures
        search_outcome(
            |c: int| wshags_len(nlat as int, c) == ltotal,
            nlat as int,
            match r {
                Some(t) => Some(t.0),
                None => None,
            },
        ),
        r matches Some(t) ==> {
            &&& t.1 == spec_scalar_l(nlat as int, t.0 as int)
            &&& t.2 == spec_scalar_late(nlat as int)
            &&& t.3 == wshags_prefix(nlat as int, t.0 as int)
        },
{
    let found = first_accepted::<WshagsTest>(nlat, ltotal);
    proof {
        let p = |c: int| wshags_len(nlat as int, c) == ltotal;
        assert forall|d: int| #[trigger] p(d) == WshagsTest::accepts(nlat as int, ltotal as int, d) by {}
    }
    match found {
        None => None,
        Some(nlon) => {
            proof {
                if nlat >= big_grid() {
                    WshagsTest::lemma_big_grid_rejected(nlat as int, ltotal as int, nlon as int);
                }
                lemma_wshags_parts(nlat as int, nlon as int);
                assert(nlat * nlat >= nlat) by (nonlinear_arith);
            }
            let parts = eval_wshags(nlat as u128, nlon as u128);
            Some((nlon, parts.0 as usize, parts.1 as usize, parts.2 as usize))
        },
    }
}

// ---------------------------------------------------------------------------
// Scalar transforms with computed tables on a Gaussian grid.

struct WshsgcTest;

/// `3 * l * (1 - l) / 2 == -(3 * ((l - 1) * l / 2))`: the product is even.
pub(crate) proof fn lemma_wshsgc_correction(l: int)
    ensures
        3 * l * (1 - l) / 2 == -(3 * ((l - 1) * l / 2)),
{
    lemma_consecutive_product_even(l - 1, l);
    assert(3 * l * (1 - l) == -(3 * ((l - 1) * l))) by (nonlinear_arith);
}

/// `l`, `late` and the length of the saved table of the scalar transforms
/// with computed tables on a Gaussian grid, evaluated exactly.
pub(crate) fn eval_wshsgc(n: u128, c: u128) -> (r: (u128, u128, u128))
    requires
        n < big_grid(),
        4 <= c < 0x1_0000_0000_0000_0000,
    ensures
        r.0 == spec_scalar_l(n as int, c as int),
        r.1 == spec_scalar_late(n as int),
        r.2 == wshsgc_len(n as int, c as int),
{
    let half = (c + 2) / 2;
    let l = if half <= n {
        half
    } else {
        n
    };
    let late = (n + 1) / 2;
    proof {
        lemma_wshsgc_correction(l as int);
    }
    if n == 0 {
        assert(l == 0);
        assert(n * (2 * late + 3 * l - 2) == 0 && (l - 1) * l == 0) by (nonlinear_arith)
            requires
                n == 0,
                l == 0,
        ;
        (l, late, c + 15)
    } else {
        proof {
            lemma_mul_le(n as int, 2 * late + 3 * l - 2, 0x2_0000_0000, 0x20_0000_0000);
            lemma_mul_le(l - 1, l as int, 0x2_0000_0000, 0x2_0000_0000);
            assert(n * (2 * late + 3 * l - 2) >= 3 * ((l - 1) * l / 2)) by (nonlinear_arith)
                requires
                    1 <= l <= n,
                    late >= 1,
            ;
        }
        let a = n * (2 * late + 3 * l - 2);
        let b = 3 * ((l - 1) * l / 2);
        (l, late, a - b + c + 15)
    }
}

/// The Gaussian computed-table length is at least `nlon`, and at least
/// `nlat * (nlat - 2)` on top of it.
pub(crate) proof fn lemma_wshsgc_lower(nlat: int, nlon: int)
    requires
        nlat >= 0,
        nlon >= 4,
    ensures
        wshsgc_len(nlat, nlon) >= nlat * (nlat - 2) + nlon,
        wshsgc_len(nlat, nlon) >= nlon + 15,
{
    let l = spec_scalar_l(nlat, nlon);
    let late = spec_scalar_late(nlat);
    lemma_wshsgc_correction(l);
    if nlat == 0 {
        assert(l == 0);
        assert(nlat * (2 * late + 3 * l - 2) == 0 && nlat * (nlat - 2) == 0 && (l - 1) * l == 0)
            by (nonlinear_arith)
            requires
                nlat == 0,
                l == 0,
        ;
    } else {
        assert(nlat * (2 * late + 3 * l - 2) - 3 * ((l - 1) * l / 2) >= nlat * (nlat - 2))
            by (nonlinear_arith)
            requires
                1 <= l <= nlat,
                2 * late >= nlat,
        ;
        assert(nlat * (nlat - 2) >= 0 || nlat == 1) by (nonlinear_arith)
            requires
                nlat >= 1,
        ;
        assert(nlat * (2 * late + 3 * l - 2) - 3 * ((l - 1) * l / 2) >= 0) by (nonlinear_arith)
            requires
                1 <= l <= nlat,
                late >= 1,
        ;
    }
}

impl CandidateTest for WshsgcTest {
    spec fn accepts(nlat: int, ltotal: int, nlon: int) -> bool {
        wshsgc_len(nlat, nlon) == ltotal
    }

    fn test(nlat: u128, ltotal: u128, nlon: u128) -> (b: bool) {
        let parts = eval_wshsgc(nlat, nlon);
        parts.2 == ltotal
    }

    proof fn lemma_big_grid_rejected(nlat: int, ltotal: int, nlon: int) {
        lemma_wshsgc_lower(nlat, nlon);
        lemma_mul_le(0x2_0000_0000, 0x1_0000_0000, nlat, nlat - 2);
    }

    proof fn lemma_accepted_fits(nlat: int, ltotal: int, nlon: int) {
        lemma_wshsgc_lower(nlat, nlon);
    }
}

/// Number of longitudes of a grid whose saved table for the scalar
/// transforms with computed tables on a Gaussian grid has `ltotal` entries,
/// with `l` and `late`: the first candidate `nlon` with
/// `wshsgc_len(nlat, nlon) == ltotal`, or `None`.
pub fn infer_nlon_from_wshsgc(nlat: usize, ltotal: usize) -> (r: Option<(usize, usize, usize)>)
    ensures
        search_outcome(
            |c: int| wshsgc_len(nlat as int, c) == ltotal,
            nlat as int,
            match r {
                Some(t) => Some(t.0),
                None => None,
            },
        ),
        r matches Some(t) ==> {
            &&& t.1 == spec_scalar_l(nlat as int, t.0 as int)
            &&& t.2 == spec_scalar_late(nlat as int)
        },
{
    let found = first_accepted::<WshsgcTest>(nlat, ltotal);
    proof {
        let p = |c: int| wshsgc_len(nlat as int, c) == ltotal;
        assert forall|d: int| #[trigger] p(d) == WshsgcTest::accepts(nlat as int, ltotal as int, d) by {}
    }
    match found {
        None => None,
        Some(nlon) => {
            proof {
                if nlat >= big_grid() {
                    WshsgcTest::lemma_big_grid_rejected(nlat as int, ltotal as int, nlon as int);
                }
            }
            let parts = eval_wshsgc(nlat as u128, nlon as u128);
            Some((nlon, parts.0 as usize, parts.1 as usize))
        },
    }
}

// ---------------------------------------------------------------------------
// Vector transforms with computed tables on a Gaussian grid.

struct WvhsgcTest;

/// `wvhsgc_len` evaluated exactly.
pub(crate) fn eval_wvhsgc_len(n: u128, c: u128) -> (r: u128)
    requires
        n < big_grid(),
        c < 0x1_0000_0000_0000_0000,
    ensures
        r == wvhsgc_len(n as int, c as int),
{
    let mmax = min_u128(n, (c + 1) / 2);
    2 * (eval_zonal_len(n) + eval_recurrence_len(n, mmax)) + c + 15
}

impl CandidateTest for WvhsgcTest {
    spec fn accepts(nlat: int, ltotal: int, nlon: int) -> bool {
        wvhsgc_len(nlat, nlon) == ltotal
    }

    fn test(nlat: u128, ltotal: u128, nlon: u128) -> (b: bool) {
        eval_wvhsgc_len(nlat, nlon) == ltotal
    }

    proof fn lemma_big_grid_rejected(nlat: int, ltotal: int, nlon: int) {
        lemma_zonal_len_lower(nlat);
        lemma_big_square(nlat);
        lemma_recurrence_len_nonneg(nlat, vector_mmax(nlat, nlon));
    }

    proof fn lemma_accepted_fits(nlat: int, ltotal: int, nlon: int) {
        lemma_zonal_len_lower(nlat);
        assert(nlat * nlat >= 0) by (nonlinear_arith);
        lemma_recurrence_len_nonneg(nlat, vector_mmax(nlat, nlon));
    }
}

/// Number of longitudes of a grid whose saved table for the vector
/// transforms with computed tables on a Gaussian grid has `ltotal` entries:
/// the first candidate `nlon` with `wvhsgc_len(nlat, nlon) == ltotal`, or
/// `None`.
pub fn infer_nlon_from_wvhsgc(nlat: usize, ltotal: usize) -> (r: Option<usize>)
    ensures
        search_outcome(|c: int| wvhsgc_len(nlat as int, c) == ltotal, nlat as int, r),
{
    let r = first_accepted::<WvhsgcTest>(nlat, ltotal);
    proof {
        let p = |c: int| wvhsgc_len(nlat as int, c) == ltotal;
        assert forall|d: int| #[trigger] p(d) == WvhsgcTest::accepts(nlat as int, ltotal as int, d) by {}
    }
    r
}

// ---------------------------------------------------------------------------
// Vector transforms with stored tables on a Gaussian grid.

/// `wvhsgs_weighted_len` evaluated exactly.
pub(crate) fn eval_wvhsgs_weighted_len(n: u128, c: u128) -> (r: u128)
    requires
        n < big_grid(),
        4 <= c < 0x1_0000_0000_0000_0000,
    ensures
        r == wvhsgs_weighted_len(n as int, c as int),
{
    let mmax = min_u128(n, (c + 1) / 2);
    let imid = (n + 1) / 2;
    proof {
        lemma_triangle_lower(n as int, mmax as int);
        lemma_mul_le(mmax as int, 2 * n - mmax + 1, 0x2_0000_0000, 0x4_0000_0000);
    }
    let idz = (mmax * (2 * n - mmax + 1)) / 2;
    proof {
        lemma_mul_le(imid as int, idz as int, 0x2_0000_0000, 0x8_0000_0000_0000_0000);
    }
    2 * (imid * idz) + c + 15 + 2 * n
}

/// `wvhsgs_full_len` evaluated exactly.
pub(crate) fn eval_wvhsgs_full_len(n: u128, c: u128) -> (r: u128)
    requires
        n < big_grid(),
        4 <= c < 0x1_0000_0000_0000_0000,
    ensures
        r == wvhsgs_full_len(n as int, c as int),
{
    let imid = (n + 1) / 2;
    proof {
        lemma_mul_le(n as int, n + 1, 0x2_0000_0000, 0x2_0000_0000);
    }
    let lmn = n * (n + 1) / 2;
    proof {
        lemma_mul_le(imid as int, lmn as int, 0x2_0000_0000, 0x4_0000_0000_0000_0000);
    }
    2 * (imid * lmn) + c + 15
}

/// Lower bounds of the stored vector-table lengths on a Gaussian grid.
pub(crate) proof fn lemma_wvhsgs_lower(nlat: int, nlon: int)
    requires
        nlat >= 0,
        nlon >= 4,
    ensures
        wvhsgs_weighted_len(nlat, nlon) >= nlon,
        wvhsgs_full_len(nlat, nlon) >= nlon,
        nlat >= big_grid() ==> wvhsgs_weighted_len(nlat, nlon) >= 0x2_0000_0000_0000_0000,
        nlat >= big_grid() ==> wvhsgs_full_len(nlat, nlon) >= 0x2_0000_0000_0000_0000,
{
    let mmax = vector_mmax(nlat, nlon);
    let imid = half_up(nlat);
    lemma_triangle_lower(nlat, mmax);
    let idz = (mmax * (2 * nlat - mmax + 1)) / 2;
    lemma_mul_le(imid, idz, imid, idz);
    lemma_mul_le(nlat, nlat + 1, nlat, nlat + 1);
    lemma_mul_le(imid, full_triangle(nlat), imid, full_triangle(nlat));
    if nlat >= big_grid() {
        lemma_mul_le(0x1_0000_0000, 0x1_0000_0000, imid, idz);
        lemma_mul_le(0x2_0000_0000, 0x2_0000_0000, nlat, nlat + 1);
        lemma_mul_le(0x1_0000_0000, 0x2_0000_0000_0000_0000, imid, full_triangle(nlat));
    }
}

/// The vector transforms on a Gaussian grid that keep the quadrature
/// weights accept a table of either stored layout.
struct WvhsgsTest;

impl CandidateTest for WvhsgsTest {
    spec fn accepts(nlat: int, ltotal: int, nlon: int) -> bool {
        wvhsgs_weighted_len(nlat, nlon) == ltotal || wvhsgs_full_len(nlat, nlon) == ltotal
    }

    fn test(nlat: u128, ltotal: u128, nlon: u128) -> (b: bool) {
        eval_wvhsgs_weighted_len(nlat, nlon) == ltotal || eval_wvhsgs_full_len(nlat, nlon)
            == ltotal
    }

    proof fn lemma_big_grid_rejected(nlat: int, ltotal: int, nlon: int) {
        lemma_wvhsgs_lower(nlat, nlon);
    }

    proof fn lemma_accepted_fits(nlat: int, ltotal: int, nlon: int) {
        lemma_wvhsgs_lower(nlat, nlon);
    }
}

/// Number of longitudes of a grid whose saved table for the vector
/// transforms with stored tables on a Gaussian grid (with the quadrature
/// weights kept) has `ltotal` entries: the first candidate `nlon` for which
/// `wvhsgs_weighted_len` or `wvhsgs_full_len` is `ltotal`, or `None`.
pub fn infer_nlon_from_wvhsgs(nlat: usize, ltotal: usize) -> (r: Option<usize>)
    ensures
        search_outcome(
            |c: int|
                wvhsgs_weighted_len(nlat as int, c) == ltotal || wvhsgs_full_len(nlat as int, c)
                    == ltotal,
            nlat as int,
            r,
        ),
{
    let r = first_accepted::<WvhsgsTest>(nlat, ltotal);
    proof {
        let p = |c: int|
            wvhsgs_weighted_len(nlat as int, c) == ltotal || wvhsgs_full_len(nlat as int, c)
                == ltotal;
        assert forall|d: int| #[trigger] p(d) == WvhsgsTest::accepts(nlat as int, ltotal as int, d) by {}
    }
    r
}

/// The vector transforms on a Gaussian grid that accept the full-triangle
/// layout or the layout without weights.
struct WvhsgsSynthesisTest;

impl CandidateTest for WvhsgsSynthesisTest {
    spec fn accepts(nlat: int, ltotal: int, nlon: int) -> bool {
        wvhsgs_full_len(nlat, nlon) == ltotal || wvhsgs_len(nlat, nlon) == ltotal
    }

    fn test(nlat: u128, ltotal: u128, nlon: u128) -> (b: bool) {
        if eval_wvhsgs_full_len(nlat, nlon) == ltotal {
            true
        } else {
            let mmax = min_u128(nlat, (nlon + 1) / 2);
            eval_stored_product(nlat, mmax) + nlon + 15 == ltotal
        }
    }

    proof fn lemma_big_grid_rejected(nlat: int, ltotal: int, nlon: int) {
        lemma_wvhsgs_lower(nlat, nlon);
        lemma_stored_product_big(nlat, vector_mmax(nlat, nlon));
    }

    proof fn lemma_accepted_fits(nlat: int, ltotal: int, nlon: int) {
        lemma_wvhsgs_lower(nlat, nlon);
        lemma_stored_product_nonneg(nlat, vector_mmax(nlat, nlon));
    }
}

/// Number of longitudes of a grid whose saved table for the vector
/// transforms with stored tables on a Gaussian grid, as the inverse
/// vorticity-divergence routine reads it, has `ltotal` entries: the first
/// candidate `nlon` for which `wvhsgs_full_len` or `wvhsgs_len` is `ltotal`,
/// or `None`.
pub fn infer_nlon_from_wvhsgs_synthesis(nlat: usize, ltotal: usize) -> (r: Option<usize>)
    ensures
        search_outcome(
            |c: int|
                wvhsgs_full_len(nlat as int, c) == ltotal || wvhsgs_len(nlat as int, c) == ltotal,
            nlat as int,
            r,
        ),
{
    let r = first_accepted::<WvhsgsSynthesisTest>(nlat, ltotal);
    proof {
        let p = |c: int|
            wvhsgs_full_len(nlat as int, c) == ltotal || wvhsgs_len(nlat as int, c) == ltotal;
        assert forall|d: int| #[trigger] p(d) == WvhsgsSynthesisTest::accepts(
            nlat as int,
            ltotal as int,
            d,
        ) by {}
    }
    r
}

// ---------------------------------------------------------------------------
// Vector transforms with stored tables on a regular grid.

struct WvhsesTest;

/// `wvhses_len_with` evaluated exactly.
pub(crate) fn eval_wvhses_len_with(n: u128, c: u128, mmax: u128) -> (r: u128)
    requires
        n < big_grid(),
        4 <= c < 0x1_0000_0000_0000_0000,
        mmax <= n,
    ensures
        r == wvhses_len_with(n as int, c as int, mmax as int),
{
    2 * (eval_stored_product(n, mmax) / 2) + c + 15
}

impl CandidateTest for WvhsesTest {
    spec fn accepts(nlat: int, ltotal: int, nlon: int) -> bool {
        wvhses_len_with(nlat, nlon, vector_mmax(nlat, nlon)) == ltotal || wvhses_len_with(
            nlat,
            nlon,
            scalar_mmax(nlat, nlon),
        ) == ltotal
    }

    fn test(nlat: u128, ltotal: u128, nlon: u128) -> (b: bool) {
        eval_wvhses_len_with(nlat, nlon, min_u128(nlat, (nlon + 1) / 2)) == ltotal
            || eval_wvhses_len_with(nlat, nlon, min_u128(nlat, (nlon + 2) / 2)) == ltotal
    }

    proof fn lemma_big_grid_rejected(nlat: int, ltotal: int, nlon: int) {
        lemma_stored_product_big(nlat, vector_mmax(nlat, nlon));
        lemma_stored_product_big(nlat, scalar_mmax(nlat, nlon));
    }

    proof fn lemma_accepted_fits(nlat: int, ltotal: int, nlon: int) {
        lemma_stored_product_nonneg(nlat, vector_mmax(nlat, nlon));
        lemma_stored_product_nonneg(nlat, scalar_mmax(nlat, nlon));
    }
}

/// Number of longitudes of a grid whose saved table for the vector
/// transforms with stored tables on a regular grid has `ltotal` entries: the
/// first candidate `nlon` whose table, with the wavenumber limit of the
/// vector transforms or with that of the scalar ones, has `ltotal` entries,
/// or `None`.
pub fn infer_nlon_from_wvhses(nlat: usize, ltotal: usize) -> (r: Option<usize>)
    ensures
        search_outcome(
            |c: int|
                wvhses_len_with(nlat as int, c, vector_mmax(nlat as int, c)) == ltotal
                    || wvhses_len_with(nlat as int, c, scalar_mmax(nlat as int, c)) == ltotal,
            nlat as int,
            r,
        ),
{
    let r = first_accepted::<WvhsesTest>(nlat, ltotal);
    proof {
        let p = |c: int|
            wvhses_len_with(nlat as int, c, vector_mmax(nlat as int, c)) == ltotal
                || wvhses_len_with(nlat as int, c, scalar_mmax(nlat as int, c)) == ltotal;
        assert forall|d: int| #[trigger] p(d) == WvhsesTest::accepts(nlat as int, ltotal as int, d) by {}
    }
    r
}

// ---------------------------------------------------------------------------
// Tables made for a grid are recognised.

/// `recurrence_len(nlat, m)` does not decrease as `m` grows up to `nlat`.
pub(crate) proof fn lemma_recurrence_len_monotone(nlat: int, m1: int, m2: int)
    requires
        0 <= m1 <= m2 <= nlat,
    ensures
        recurrence_len(nlat, m1) <= recurrence_len(nlat, m2),
{
    let a = 3 * sat_sub(m1, 2) * (2 * nlat - m1 - 1);
    let b = 3 * sat_sub(m2, 2) * (2 * nlat - m2 - 1);
    if m1 >= 2 {
        assert(b - a == 3 * (m2 - m1) * (2 * nlat + 1 - m1 - m2)) by (nonlinear_arith)
            requires
                a == 3 * (m1 - 2) * (2 * nlat - m1 - 1),
                b == 3 * (m2 - 2) * (2 * nlat - m2 - 1),
        ;
        lemma_mul_le(3 * (m2 - m1), 2 * nlat + 1 - m1 - m2, 3 * (m2 - m1), 2 * nlat + 1 - m1
            - m2);
    } else {
        assert(a == 0) by (nonlinear_arith)
            requires
                a == 3 * sat_sub(m1, 2) * (2 * nlat - m1 - 1),
                sat_sub(m1, 2) == 0,
        ;
        lemma_recurrence_len_nonneg(nlat, m2);
    }
}

/// `half_up(nlat) * m * (2 * nlat - m + 1)` does not decrease as `m` grows
/// up to `nlat`.
pub(crate) proof fn lemma_stored_product_monotone(nlat: int, m1: int, m2: int)
    requires
        0 <= m1 <= m2 <= nlat,
    ensures
        vector_stored_len(nlat, m1) <= vector_stored_len(nlat, m2),
{
    let t1 = m1 * (2 * nlat - m1 + 1);
    let t2 = m2 * (2 * nlat - m2 + 1);
    assert(t2 - t1 == (m2 - m1) * (2 * nlat + 1 - m1 - m2)) by (nonlinear_arith)
        requires
            t1 == m1 * (2 * nlat - m1 + 1),
            t2 == m2 * (2 * nlat - m2 + 1),
    ;
    lemma_mul_le(m2 - m1, 2 * nlat + 1 - m1 - m2, m2 - m1, 2 * nlat + 1 - m1 - m2);
    assert(half_up(nlat) * t1 <= half_up(nlat) * t2) by (nonlinear_arith)
        requires
            t1 <= t2,
            half_up(nlat) >= 0,
    ;
    let h = half_up(nlat);
    assert(h * m1 * (2 * nlat - m1 + 1) == h * t1) by (nonlinear_arith)
        requires
            t1 == m1 * (2 * nlat - m1 + 1),
    ;
    assert(h * m2 * (2 * nlat - m2 + 1) == h * t2) by (nonlinear_arith)
        requires
            t2 == m2 * (2 * nlat - m2 + 1),
    ;
}

/// Two candidates with the same table length are equal when the length
/// grows strictly with the candidate.
proof fn lemma_first_candidate_of_injective(p: spec_fn(int) -> bool, nlat: int, nlon: int, r: Option<usize>)
    requires
        4 <= nlon <= max_candidate(nlat),
        p(nlon),
        forall|c: int| 4 <= c <= max_candidate(nlat) && #[trigger] p(c) ==> c == nlon,
        search_outcome(p, nlat, r),
    ensures
        r == Some(nlon as usize),
{
    match r {
        Some(n) => {
            assert(p(n as int));
        },
        None => {
            assert(!p(nlon));
        },
    }
}

/// A saved table for the scalar transforms with computed tables on a
/// regular grid, made for `nlat` latitudes and `nlon` longitudes, gives back
/// `nlon` whenever `nlon` is among the candidates: the search over its
/// length finds exactly `nlon`.
pub proof fn lemma_wshsec_recognized(nlat: int, nlon: int, r: Option<usize>)
    requires
        nlat >= 0,
        4 <= nlon <= max_candidate(nlat),
        search_outcome(|c: int| wshsec_len(nlat, c) == wshsec_len(nlat, nlon), nlat, r),
    ensures
        r == Some(nlon as usize),
{
    let p = |c: int| wshsec_len(nlat, c) == wshsec_len(nlat, nlon);
    assert forall|c: int| 4 <= c <= max_candidate(nlat) && #[trigger] p(c) implies c == nlon by {
        if c < nlon {
            lemma_recurrence_len_monotone(nlat, scalar_mmax(nlat, c), scalar_mmax(nlat, nlon));
        } else if c > nlon {
            lemma_recurrence_len_monotone(nlat, scalar_mmax(nlat, nlon), scalar_mmax(nlat, c));
        }
    }
    lemma_first_candidate_of_injective(p, nlat, nlon, r);
}

/// A saved table for the scalar transforms with stored tables on a regular
/// grid, made for `nlat` latitudes and `nlon` longitudes, gives back `nlon`
/// whenever `nlon` is among the candidates.
pub proof fn lemma_wshses_recognized(nlat: int, nlon: int, r: Option<usize>)
    requires
        nlat >= 0,
        4 <= nlon <= max_candidate(nlat),
        search_outcome(|c: int| wshses_len(nlat, c) == wshses_len(nlat, nlon), nlat, r),
    ensures
        r == Some(nlon as usize),
{
    let p = |c: int| wshses_len(nlat, c) == wshses_len(nlat, nlon);
    assert forall|c: int| 4 <= c <= max_candidate(nlat) && #[trigger] p(c) implies c == nlon by {
        assert(wshses_len(nlat, c) == vector_stored_len(nlat, scalar_mmax(nlat, c)) / 2 + c + 15);
        assert(wshses_len(nlat, nlon) == vector_stored_len(nlat, scalar_mmax(nlat, nlon)) / 2
            + nlon + 15);
        if c < nlon {
            lemma_stored_product_monotone(nlat, scalar_mmax(nlat, c), scalar_mmax(nlat, nlon));
        } else if c > nlon {
            lemma_stored_product_monotone(nlat, scalar_mmax(nlat, nlon), scalar_mmax(nlat, c));
        }
    }
    lemma_first_candidate_of_injective(p, nlat, nlon, r);
}

/// A saved table for the vector transforms with computed tables on a
/// Gaussian grid, made for `nlat` latitudes and `nlon` longitudes, gives
/// back `nlon` whenever `nlon` is among the candidates.
pub proof fn lemma_wvhsgc_recognized(nlat: int, nlon: int, r: Option<usize>)
    requires
        nlat >= 0,
        4 <= nlon <= max_candidate(nlat),
        search_outcome(|c: int| wvhsgc_len(nlat, c) == wvhsgc_len(nlat, nlon), nlat, r),
    ensures
        r == Some(nlon as usize),
{
    let p = |c: int| wvhsgc_len(nlat, c) == wvhsgc_len(nlat, nlon);
    assert forall|c: int| 4 <= c <= max_candidate(nlat) && #[trigger] p(c) implies c == nlon by {
        if c < nlon {
            lemma_recurrence_len_monotone(nlat, vector_mmax(nlat, c), vector_mmax(nlat, nlon));
        } else if c > nlon {
            lemma_recurrence_len_monotone(nlat, vector_mmax(nlat, nlon), vector_mmax(nlat, c));
        }
    }
    lemma_first_candidate_of_injective(p, nlat, nlon, r);
}

/// Twice the length of each recurrence array of the Gaussian tables,
/// `(l - 1) * (2 * nlat - l)`, does not decrease as `l` grows up to `nlat`,
/// and neither does twice the number of stored functions,
/// `l * (2 * nlat - l + 1)`.
proof fn lemma_gaussian_counts_monotone(nlat: int, l1: int, l2: int)
    requires
        1 <= l1 <= l2 <= nlat,
    ensures
        spec_scalar_labc(nlat, l1) <= spec_scalar_labc(nlat, l2),
        spec_scalar_pmn_count(nlat, l1) <= spec_scalar_pmn_count(nlat, l2),
{
    let u1 = (l1 - 1) * l1 / 2;
    let u2 = (l2 - 1) * l2 / 2;
    lemma_consecutive_product_even(l1 - 1, l1);
    lemma_consecutive_product_even(l2 - 1, l2);
    assert(spec_scalar_labc(nlat, l1) == u1 + (nlat - l1) * (l1 - 1));
    assert(spec_scalar_labc(nlat, l2) == u2 + (nlat - l2) * (l2 - 1));
    lemma_mul_le(l2 - l1, 2 * nlat + 1 - l1 - l2, l2 - l1, 2 * nlat + 1 - l1 - l2);
    assert(2 * (u2 + (nlat - l2) * (l2 - 1)) - 2 * (u1 + (nlat - l1) * (l1 - 1)) == (l2 - l1) * (2
        * nlat + 1 - l1 - l2)) by (nonlinear_arith)
        requires
            2 * u1 == (l1 - 1) * l1,
            2 * u2 == (l2 - 1) * l2,
    ;
    crate::tables::lemma_triangle_even(nlat, l1);
    crate::tables::lemma_triangle_even(nlat, l2);
    let t1 = l1 * (2 * nlat - l1 + 1);
    let t2 = l2 * (2 * nlat - l2 + 1);
    assert(t2 - t1 == (l2 - l1) * (2 * nlat + 1 - l1 - l2)) by (nonlinear_arith)
        requires
            t1 == l1 * (2 * nlat - l1 + 1),
            t2 == l2 * (2 * nlat - l2 + 1),
    ;
}

/// A saved table for the scalar transforms with stored tables on a
/// Gaussian grid, made for `nlat` latitudes and `nlon` longitudes, gives
/// back `nlon` whenever `nlon` is among the candidates.
pub proof fn lemma_wshags_recognized(nlat: int, nlon: int, r: Option<usize>)
    requires
        nlat >= 1,
        4 <= nlon <= max_candidate(nlat),
        search_outcome(|c: int| wshags_len(nlat, c) == wshags_len(nlat, nlon), nlat, r),
    ensures
        r == Some(nlon as usize),
{
    let p = |c: int| wshags_len(nlat, c) == wshags_len(nlat, nlon);
    let late = spec_scalar_late(nlat);
    assert forall|c: int| 4 <= c <= max_candidate(nlat) && #[trigger] p(c) implies c == nlon by {
        let la = spec_scalar_l(nlat, c);
        let lb = spec_scalar_l(nlat, nlon);
        if c < nlon {
            lemma_gaussian_counts_monotone(nlat, la, lb);
            lemma_mul_le(late, spec_scalar_pmn_count(nlat, la), late, spec_scalar_pmn_count(nlat, lb));
            assert(late * spec_scalar_pmn_count(nlat, la) <= late * spec_scalar_pmn_count(nlat, lb))
                by (nonlinear_arith)
                requires
                    late >= 0,
                    spec_scalar_pmn_count(nlat, la) <= spec_scalar_pmn_count(nlat, lb),
            ;
        } else if c > nlon {
            lemma_gaussian_counts_monotone(nlat, lb, la);
            assert(late * spec_scalar_pmn_count(nlat, lb) <= late * spec_scalar_pmn_count(nlat, la))
                by (nonlinear_arith)
                requires
                    late >= 0,
                    spec_scalar_pmn_count(nlat, lb) <= spec_scalar_pmn_count(nlat, la),
            ;
        }
    }
    lemma_first_candidate_of_injective(p, nlat, nlon, r);
}

/// A saved table for the scalar transforms with computed tables on a
/// Gaussian grid, made for `nlat` latitudes and `nlon` longitudes, gives
/// back `nlon` whenever `nlon` is among the candidates.
pub proof fn lemma_wshsgc_recognized(nlat: int, nlon: int, r: Option<usize>)
    requires
        nlat >= 1,
        4 <= nlon <= max_candidate(nlat),
        search_outcome(|c: int| wshsgc_len(nlat, c) == wshsgc_len(nlat, nlon), nlat, r),
    ensures
        r == Some(nlon as usize),
{
    let p = |c: int| wshsgc_len(nlat, c) == wshsgc_len(nlat, nlon);
    assert forall|c: int| 4 <= c <= max_candidate(nlat) && #[trigger] p(c) implies c == nlon by {
        crate::tables::lemma_gaussian_prefix_identity(nlat, c);
        crate::tables::lemma_gaussian_prefix_identity(nlat, nlon);
        let la = spec_scalar_l(nlat, c);
        let lb = spec_scalar_l(nlat, nlon);
        if c < nlon {
            lemma_gaussian_counts_monotone(nlat, la, lb);
        } else if c > nlon {
            lemma_gaussian_counts_monotone(nlat, lb, la);
        }
    }
    lemma_first_candidate_of_injective(p, nlat, nlon, r);
}

} // verus!
