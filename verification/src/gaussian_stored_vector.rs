//! Index arithmetic of the stored Legendre tables for vector transforms on
//! a Gaussian grid.
//!
//! The tables `vb` and `wb` hold, for every pair `0 <= m <= n < nlat`, the
//! values at the `imid` latitudes of one hemisphere.  The pair `(m, n)` owns
//! the block that [`indx`] numbers (from one); the law at the end of this
//! file shows that these numbers run through `1 ..= gauss_lmn(nlat)` in the
//! order of `m`, then `n`, without gap or collision.
use vstd::prelude::*;
use crate::gaussian_stored_scalar::{min_int, sat_sub};

verus! {

/// One-based block number of the pair `(m, n)`.
pub open spec fn spec_indx(m: int, n: int, nlat: int) -> int {
    m * nlat - (m * (m + 1)) / 2 + n + 1
}

/// Latitudes of one hemisphere, equator included.
pub open spec fn spec_gauss_imid(nlat: int) -> int {
    (nlat + 1) / 2
}

/// Number of pairs `0 <= m <= n < nlat`.
pub open spec fn spec_gauss_lmn(nlat: int) -> int {
    nlat * (nlat + 1) / 2
}

/// Position in the three-plane scratch array of the normalized functions.
pub open spec fn spec_dpbar_index(imid: int, nlat: int, i: int, m_slot: int, plane: int) -> int {
    ((plane * nlat + m_slot) * imid) + i
}

/// Highest order plus one that the initialisation covers.
pub open spec fn spec_mmax_init(nlat: int, nlon: int) -> int {
    min_int(nlat, nlon / 2 + 1)
}

/// Highest order plus one that the synthesis uses.
pub open spec fn spec_mmax_synth(nlat: int, nlon: int) -> int {
    min_int(nlat, (nlon + 1) / 2)
}

/// Length of one recurrence coefficient block for orders below `mmax`.
pub open spec fn spec_labc_block(nlat: int, mmax: int) -> int {
    (sat_sub(mmax, 2) * (2 * nlat - mmax - 1)) / 2
}

/// Position in the three-plane recurrence array of the vector functions.
pub open spec fn spec_vin_idx(imid: int, nlat: int, i: int, np1: int, plane: int) -> int {
    ((plane * nlat + (np1 - 1)) * imid) + i
}

/// One-based block number of the pair `(m, n)`:
/// `m * nlat - m * (m + 1) / 2 + n + 1`.
pub fn indx(m: usize, n: usize, nlat: usize) -> (r: usize)
    requires
        m + 1 <= usize::MAX,
        m * nlat <= usize::MAX,
        m * (m + 1) <= usize::MAX,
        (m * (m + 1)) / 2 <= m * nlat,
        spec_indx(m as int, n as int, nlat as int) <= usize::MAX,
    ensures
        r == spec_indx(m as int, n as int, nlat as int),
{
    m * nlat - (m * (m + 1)) / 2 + n + 1
}

/// `(nlat + 1) / 2`, the latitudes of one hemisphere.
pub fn gauss_imid(nlat: usize) -> (r: usize)
    requires
        nlat + 1 <= usize::MAX,
    ensures
        r == spec_gauss_imid(nlat as int),
{
    (nlat + 1) / 2
}

/// `nlat * (nlat + 1) / 2`, the number of pairs `0 <= m <= n < nlat`.
pub fn gauss_lmn(nlat: usize) -> (r: usize)
    requires
        nlat + 1 <= usize::MAX,
        nlat * (nlat + 1) <= usize::MAX,
    ensures
        r == spec_gauss_lmn(nlat as int),
{
    nlat * (nlat + 1) / 2
}

/// `((plane * nlat + m_slot) * imid) + i`.
pub fn dpbar_index(imid: usize, nlat: usize, i: usize, m_slot: usize, plane: usize) -> (r: usize)
    requires
        plane * nlat + m_slot <= usize::MAX,
        (plane * nlat + m_slot) * imid + i <= usize::MAX,
    ensures
        r == spec_dpbar_index(imid as int, nlat as int, i as int, m_slot as int, plane as int),
{
    assert(plane * nlat <= plane * nlat + m_slot);
    assert((plane * nlat + m_slot) * imid <= (plane * nlat + m_slot) * imid + i);
    ((plane * nlat + m_slot) * imid) + i
}

/// `min(nlat, nlon / 2 + 1)`.
pub fn mmax_init(nlat: usize, nlon: usize) -> (r: usize)
    ensures
        r == spec_mmax_init(nlat as int, nlon as int),
{
    let half = nlon / 2 + 1;
    if nlat <= half {
        nlat
    } else {
        half
    }
}

/// `min(nlat, (nlon + 1) / 2)`.
pub fn mmax_synth(nlat: usize, nlon: usize) -> (r: usize)
    ensures
        r == spec_mmax_synth(nlat as int, nlon as int),
{
    let half = nlon / 2 + nlon % 2;
    if nlat <= half {
        nlat
    } else {
        half
    }
}

/// Length of one recurrence coefficient block when the orders run up to
/// `mmax_init(nlat, nlon)`.
pub fn labc_init_one_block(nlat: usize, nlon: usize) -> (r: usize)
    requires
        1 <= nlat,
        2 * nlat <= usize::MAX,
        sat_sub(spec_mmax_init(nlat as int, nlon as int), 2) * (2 * nlat - spec_mmax_init(
            nlat as int,
            nlon as int,
        ) - 1) <= usize::MAX,
    ensures
        r == spec_labc_block(nlat as int, spec_mmax_init(nlat as int, nlon as int)),
{
    let mmax = mmax_init(nlat, nlon);
    (mmax.saturating_sub(2) * (2 * nlat - mmax - 1)) / 2
}

/// Length of one recurrence coefficient block when the orders run up to
/// `mmax_synth(nlat, nlon)`.
pub fn labc_synth_one_block(nlat: usize, nlon: usize) -> (r: usize)
    requires
        1 <= nlat,
        2 * nlat <= usize::MAX,
        sat_sub(spec_mmax_synth(nlat as int, nlon as int), 2) * (2 * nlat - spec_mmax_synth(
            nlat as int,
            nlon as int,
        ) - 1) <= usize::MAX,
    ensures
        r == spec_labc_block(nlat as int, spec_mmax_synth(nlat as int, nlon as int)),
{
    let mmax = mmax_synth(nlat, nlon);
    (mmax.saturating_sub(2) * (2 * nlat - mmax - 1)) / 2
}

/// `((plane * nlat + (np1 - 1)) * imid) + i`.
pub fn vin_idx(imid: usize, nlat: usize, i: usize, np1: usize, plane: usize) -> (r: usize)
    requires
        1 <= np1,
        plane * nlat + (np1 - 1) <= usize::MAX,
        (plane * nlat + (np1 - 1)) * imid + i <= usize::MAX,
    ensures
        r == spec_vin_idx(imid as int, nlat as int, i as int, np1 as int, plane as int),
{
    assert(plane * nlat <= plane * nlat + (np1 - 1));
    assert((plane * nlat + (np1 - 1)) * imid <= (plane * nlat + (np1 - 1)) * imid + i);
    ((plane * nlat + (np1 - 1)) * imid) + i
}

/// The refusals of the initialisations of the stored vector tables on a
/// Gaussian grid (for the analysis, the synthesis and the derivative
/// synthesis alike): error 1 for fewer than 3 latitudes, then error 2 for
/// no longitude.
pub open spec fn vector_gaussian_init_outcome(nlat: int, nlon: int) -> Result<(), i32> {
    if nlat < 3 {
        Err(1)
    } else if nlon < 1 {
        Err(2)
    } else {
        Ok(())
    }
}

/// The argument checks of the initialisations of the stored vector tables on
/// a Gaussian grid.
pub fn check_vector_gaussian_init(nlat: usize, nlon: usize) -> (r: Result<(), i32>)
    ensures
        r == vector_gaussian_init_outcome(nlat as int, nlon as int),
{
    if nlat < 3 {
        return Err(1);
    }
    if nlon < 1 {
        return Err(2);
    }
    Ok(())
}

proof fn lemma_indx_next_order(m: int, nlat: int)
    requires
        0 <= m,
    ensures
        spec_indx(m + 1, m + 1, nlat) == spec_indx(m, nlat - 1, nlat) + 1,
{
    crate::gaussian_stored_scalar::lemma_consecutive_product_even(m, m + 1);
    crate::gaussian_stored_scalar::lemma_consecutive_product_even(m + 1, m + 2);
    assert((m + 1) * (m + 2) == m * (m + 1) + 2 * (m + 1)) by (nonlinear_arith);
    assert((m + 1) * nlat == m * nlat + nlat) by (nonlinear_arith);
}

proof fn lemma_indx_orders_monotone(m: int, m2: int, nlat: int)
    requires
        0 <= m < m2 < nlat,
    ensures
        spec_indx(m, nlat - 1, nlat) < spec_indx(m2, m2, nlat),
    decreases m2 - m,
{
    lemma_indx_next_order(m, nlat);
    if m + 1 < m2 {
        lemma_indx_orders_monotone(m + 1, m2, nlat);
        assert(spec_indx(m + 1, m + 1, nlat) <= spec_indx(m + 1, nlat - 1, nlat));
    }
}

/// The block numbers of `0 <= m <= n < nlat` grow strictly in the order of
/// `m`, then `n`; so distinct pairs own distinct blocks.
pub proof fn lemma_indx_increasing(nlat: int, m: int, n: int, m2: int, n2: int)
    requires
        0 <= m <= n < nlat,
        0 <= m2 <= n2 < nlat,
        m < m2 || (m == m2 && n < n2),
    ensures
        spec_indx(m, n, nlat) < spec_indx(m2, n2, nlat),
{
    if m < m2 {
        lemma_indx_orders_monotone(m, m2, nlat);
    }
}

/// The block numbers fill `1 ..= gauss_lmn(nlat)`: the first pair `(0, 0)` owns
/// block 1, the last pair `(nlat - 1, nlat - 1)` owns block `gauss_lmn(nlat)`,
/// and every pair lies between.
pub proof fn lemma_indx_range(nlat: int, m: int, n: int)
    requires
        0 <= m <= n < nlat,
    ensures
        spec_indx(0, 0, nlat) == 1,
        spec_indx(nlat - 1, nlat - 1, nlat) == spec_gauss_lmn(nlat),
        1 <= spec_indx(m, n, nlat) <= spec_gauss_lmn(nlat),
{
    let k = nlat - 1;
    crate::gaussian_stored_scalar::lemma_consecutive_product_even(k, nlat);
    crate::gaussian_stored_scalar::lemma_consecutive_product_even(nlat, nlat + 1);
    assert((nlat - 1) * nlat == (nlat - 1) * (nlat - 1 + 1)) by (nonlinear_arith);
    assert(nlat * (nlat + 1) == (nlat - 1) * nlat + 2 * nlat) by (nonlinear_arith);
    assert((nlat - 1) * nlat - (nlat - 1) * nlat / 2 == (nlat - 1) * nlat / 2);
    if m > 0 || n > 0 {
        lemma_indx_increasing(nlat, 0, 0, m, n);
    }
    if m < nlat - 1 || n < nlat - 1 {
        lemma_indx_increasing(nlat, m, n, nlat - 1, nlat - 1);
    }
}

/// Block `q` is owned by some pair `0 <= m <= n < nlat`.
pub open spec fn indx_block_used(nlat: int, q: int) -> bool {
    exists|m: int, n: int| 0 <= m <= n < nlat && #[trigger] spec_indx(m, n, nlat) == q
}

/// A block at or after the first one of order `m`, up to the last block,
/// is owned by a pair of order `m` or higher.
proof fn lemma_indx_onto_from(nlat: int, m: int, q: int)
    requires
        0 <= m < nlat,
        spec_indx(m, m, nlat) <= q <= spec_gauss_lmn(nlat),
    ensures
        indx_block_used(nlat, q),
    decreases nlat - m,
{
    if q <= spec_indx(m, nlat - 1, nlat) {
        let n = q - spec_indx(m, m, nlat) + m;
        assert(spec_indx(m, n, nlat) == q);
    } else {
        lemma_indx_range(nlat, nlat - 1, nlat - 1);
        if m == nlat - 1 {
            assert(false);
        } else {
            lemma_indx_next_order(m, nlat);
            lemma_indx_onto_from(nlat, m + 1, q);
        }
    }
}

/// Every block `1 ..= gauss_lmn(nlat)` is owned by some pair
/// `0 <= m <= n < nlat`: the tables are filled without gaps.
pub proof fn lemma_indx_onto(nlat: int, q: int)
    requires
        nlat >= 1,
        1 <= q <= spec_gauss_lmn(nlat),
    ensures
        indx_block_used(nlat, q),
{
    assert(spec_indx(0, 0, nlat) == 1);
    lemma_indx_onto_from(nlat, 0, q);
}

/// The block numbering is a bijection: the pairs `0 <= m <= n < nlat` map
/// one to one onto `1 ..= gauss_lmn(nlat)`, in increasing order of `m`, then
/// `n`, the pairs of order 0 taking the blocks `n + 1`.
pub proof fn lemma_indx_bijective(nlat: int)
    requires
        nlat >= 1,
    ensures
        forall|m: int, n: int|
            0 <= m <= n < nlat ==> 1 <= #[trigger] spec_indx(m, n, nlat) <= spec_gauss_lmn(nlat),
        forall|m: int, n: int, m2: int, n2: int|
            0 <= m <= n < nlat && 0 <= m2 <= n2 < nlat && (m < m2 || (m == m2 && n < n2))
                ==> #[trigger] spec_indx(m, n, nlat) < #[trigger] spec_indx(m2, n2, nlat),
        forall|n: int| 0 <= n < nlat ==> #[trigger] spec_indx(0, n, nlat) == n + 1,
        forall|q: int| 1 <= q <= spec_gauss_lmn(nlat) ==> #[trigger] indx_block_used(nlat, q),
{
    assert forall|m: int, n: int| 0 <= m <= n < nlat implies 1 <= #[trigger] spec_indx(
        m,
        n,
        nlat,
    ) <= spec_gauss_lmn(nlat) by {
        lemma_indx_range(nlat, m, n);
    }
    assert forall|m: int, n: int, m2: int, n2: int|
        0 <= m <= n < nlat && 0 <= m2 <= n2 < nlat && (m < m2 || (m == m2 && n < n2)) implies
        #[trigger] spec_indx(m, n, nlat) < #[trigger] spec_indx(m2, n2, nlat) by {
        lemma_indx_increasing(nlat, m, n, m2, n2);
    }
    assert forall|q: int| 1 <= q <= spec_gauss_lmn(nlat) implies #[trigger] indx_block_used(
        nlat,
        q,
    ) by {
        lemma_indx_onto(nlat, q);
    }
}

} // verus!
