//! Index arithmetic of the icosahedral geodesic grid.
//!
//! Each of the five pairs of icosahedron faces is an `idp x jdp` array of
//! points with `jdp = m` and `idp = 2 * m - 1` for a refinement `m >= 1`
//! (a smaller `m` is taken as 1).  The coordinates of point `(i, j)` of
//! face pair `k` (all one-based) are stored at `((i - 1) * jdp + (j - 1)) * 5
//! + (k - 1)`.
use vstd::prelude::*;
use crate::flat::{lemma_flat_index_bound, lemma_flat_index_unique};

verus! {

/// The refinement used for a requested one: at least 1.
pub open spec fn refinement(m: int) -> int {
    if m >= 1 {
        m
    } else {
        1
    }
}

/// The dimensions of the geodesic grid for the refinement `m`:
/// `(idp, jdp, idp * jdp * 5)`.
pub fn geodesic_dims(m: i32) -> (r: (usize, usize, usize))
    requires
        (2 * refinement(m as int) - 1) * refinement(m as int) * 5 <= usize::MAX,
    ensures
        r.1 == refinement(m as int),
        r.0 == 2 * refinement(m as int) - 1,
        r.2 == r.0 * r.1 * 5,
{
    let mm: usize = if m >= 1 {
        m as usize
    } else {
        1
    };
    proof {
        assert(mm <= (2 * mm - 1) * mm * 5) by (nonlinear_arith)
            requires
                mm >= 1,
        ;
        assert((2 * mm - 1) * mm <= (2 * mm - 1) * mm * 5) by (nonlinear_arith)
            requires
                mm >= 1,
        ;
    }
    let idp = mm + mm - 1;
    (idp, mm, idp * mm * 5)
}

/// Position of point `(i, j)` of face pair `k` (one-based).
pub fn geodesic_index(i: usize, j: usize, k: usize, jdp: usize) -> (r: usize)
    requires
        1 <= i,
        1 <= j <= jdp,
        1 <= k <= 5,
        i * jdp * 5 <= usize::MAX,
    ensures
        r == ((i - 1) * jdp + (j - 1)) * 5 + (k - 1),
{
    proof {
        lemma_flat_index_bound(i as int, jdp as int, i - 1, j - 1);
        assert(((i - 1) * jdp + (j - 1)) * 5 + (k - 1) < (i * jdp) * 5) by (nonlinear_arith)
            requires
                (i - 1) * jdp + (j - 1) < i * jdp,
                k <= 5,
        ;
        assert((i * jdp) * 5 == i * jdp * 5) by (nonlinear_arith);
    }
    ((i - 1) * jdp + (j - 1)) * 5 + (k - 1)
}

/// Every point of every face pair has its own position inside the
/// coordinate arrays.
pub proof fn lemma_geodesic_index_bijective(
    idp: int,
    jdp: int,
    i: int,
    j: int,
    k: int,
    i2: int,
    j2: int,
    k2: int,
)
    requires
        1 <= i <= idp,
        1 <= j <= jdp,
        1 <= k <= 5,
        1 <= i2 <= idp,
        1 <= j2 <= jdp,
        1 <= k2 <= 5,
    ensures
        0 <= ((i - 1) * jdp + (j - 1)) * 5 + (k - 1) < idp * jdp * 5,
        ((i - 1) * jdp + (j - 1)) * 5 + (k - 1) == ((i2 - 1) * jdp + (j2 - 1)) * 5 + (k2 - 1) ==> i
            == i2 && j == j2 && k == k2,
{
    lemma_flat_index_bound(idp, jdp, i - 1, j - 1);
    lemma_flat_index_bound(idp * jdp, 5, (i - 1) * jdp + (j - 1), k - 1);
    assert((idp * jdp) * 5 == idp * jdp * 5) by (nonlinear_arith);
    if ((i - 1) * jdp + (j - 1)) * 5 + (k - 1) == ((i2 - 1) * jdp + (j2 - 1)) * 5 + (k2 - 1) {
        lemma_flat_index_bound(idp, jdp, i2 - 1, j2 - 1);
        lemma_flat_index_unique(
            5,
            (i - 1) * jdp + (j - 1),
            k - 1,
            (i2 - 1) * jdp + (j2 - 1),
            k2 - 1,
        );
        lemma_flat_index_unique(jdp, i - 1, j - 1, i2 - 1, j2 - 1);
    }
}

} // verus!
