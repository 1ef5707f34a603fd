//! Bookkeeping of the computed Legendre tables on a Gaussian grid.
//!
//! The workspace holds the quadrature weights (`nlat` entries), the zonal
//! and first sectoral functions (`nlat * late` entries each) and the three
//! recurrence-coefficient arrays (`(2 * nlat - l) * (l - 1) / 2` entries
//! each).  The functions of three consecutive orders are kept in three
//! slots of a scratch array; each step computes the next order into one
//! slot and rotates the slot numbers.
use vstd::prelude::*;
use crate::workspace::half_up;

verus! {

/// Offsets of the parts of the computed-table workspace: the zonal
/// functions start at `i1`, the sectoral ones at `i2`, and the three
/// recurrence arrays at `i3`, `i4` and `i5`, each `labc` long.
#[derive(Clone, Copy, Debug, PartialEq, Eq, Structural)]
pub struct LeginLayout {
    pub i1: usize,
    pub i2: usize,
    pub i3: usize,
    pub i4: usize,
    pub i5: usize,
    pub labc: usize,
}

/// Length of each recurrence array, `(2 * nlat - l) * (l - 1) / 2`.
pub open spec fn legin_labc(nlat: int, l: int) -> int {
    (2 * nlat - l) * (l - 1) / 2
}

/// The offsets of the computed-table workspace for `nlat` latitudes and
/// `l` zonal wavenumbers.
pub open spec fn legin_layout_spec(nlat: int, l: int) -> LeginLayout {
    let late = half_up(nlat);
    let labc = legin_labc(nlat, l);
    LeginLayout {
        i1: nlat as usize,
        i2: (nlat + nlat * late) as usize,
        i3: (nlat + 2 * nlat * late) as usize,
        i4: (nlat + 2 * nlat * late + labc) as usize,
        i5: (nlat + 2 * nlat * late + 2 * labc) as usize,
        labc: labc as usize,
    }
}

/// The offsets of the computed-table workspace, which ends at
/// `i5 + labc`.
pub fn legin_layout(nlat: usize, l: usize) -> (r: LeginLayout)
    requires
        1 <= l <= nlat,
        nlat + 2 * nlat * half_up(nlat as int) + 3 * legin_labc(nlat as int, l as int) <= usize::MAX,
    ensures
        r == legin_layout_spec(nlat as int, l as int),
{
    let late = nlat / 2 + nlat % 2;
    proof {
        assert(nlat * late >= 0 && 2 * nlat * late == nlat * late + nlat * late) by (nonlinear_arith)
            requires
                late >= 0,
        ;
        assert(2 * nlat * late >= nlat * nlat) by (nonlinear_arith)
            requires
                2 * late >= nlat,
                nlat >= 0,
        ;
        assert((2 * nlat - l) * (l - 1) >= 0) by (nonlinear_arith)
            requires
                1 <= l <= nlat,
        ;
        assert(nlat <= 0x1_0000_0000) by (nonlinear_arith)
            requires
                nlat * nlat <= 0xffff_ffff_ffff_ffff,
                nlat >= 0,
        ;
        assert((2 * nlat - l) * (l - 1) <= 0x2_0000_0000 * 0x1_0000_0000) by (nonlinear_arith)
            requires
                1 <= l <= nlat,
                nlat <= 0x1_0000_0000,
        ;
    }
    let i1 = nlat;
    let i2 = i1 + nlat * late;
    let i3 = i2 + nlat * late;
    let n = nlat as u128;
    let lw = l as u128;
    let labc = ((2 * n - lw) * (lw - 1) / 2) as usize;
    LeginLayout { i1, i2, i3, i4: i3 + labc, i5: i3 + labc + labc, labc }
}

/// The first degree (one-based, `np1`) and the degree step of one
/// recurrence pass of order `m`: all degrees from `m + 1` for `mode == 0`,
/// every other degree from `m + 2` for `mode == 1` and from `m + 1` for
/// `mode == 2`.
pub fn legin_degrees(mode: usize, m: usize) -> (r: (usize, usize))
    requires
        m + 2 <= usize::MAX,
    ensures
        r == if mode == 1 {
            ((m + 2) as usize, 2usize)
        } else if mode == 2 {
            ((m + 1) as usize, 2usize)
        } else {
            ((m + 1) as usize, 1usize)
        },
{
    if mode == 1 {
        (m + 2, 2)
    } else if mode == 2 {
        (m + 1, 2)
    } else {
        (m + 1, 1)
    }
}

/// Moves the slots on by one order: the slot just written becomes the
/// oldest, and the slot returned is the one the step wrote into.
pub fn rotate_slots(state: &mut (usize, usize, usize)) -> (written: usize)
    ensures
        written == old(state).0,
        *final(state) == (old(state).2, old(state).0, old(state).1),
{
    let (km0, km1, km2) = *state;
    *state = (km2, km0, km1);
    km0
}

/// The slots hold 0, 1 and 2 in some order.
pub open spec fn is_slot_permutation(s: (usize, usize, usize)) -> bool {
    &&& s.0 <= 2 && s.1 <= 2 && s.2 <= 2
    &&& s.0 != s.1 && s.1 != s.2 && s.0 != s.2
}

/// One rotation of the slots.
pub open spec fn rotated(s: (usize, usize, usize)) -> (usize, usize, usize) {
    (s.2, s.0, s.1)
}

/// Rotating keeps the slots a permutation of 0, 1 and 2, and three
/// rotations bring them back: every slot is written once every three
/// orders.
pub proof fn lemma_slot_rotation(s: (usize, usize, usize))
    requires
        is_slot_permutation(s),
    ensures
        is_slot_permutation(rotated(s)),
        rotated(rotated(rotated(s))) == s,
        s.0 != rotated(s).0 && s.0 != rotated(rotated(s)).0 && rotated(s).0 != rotated(
            rotated(s),
        ).0,
{
}

} // verus!
