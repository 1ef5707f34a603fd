//! Operations on stacks of coefficient arrays and grids that only move,
//! keep or clear values: spectral truncation, padding a hemisphere result
//! to the full sphere, and the checks and scratch sizes of the shallow-water
//! driver.
use vstd::prelude::*;
use crate::workspace::{
    fits, half_up, init_work_len, init_work_len_fits, low_level_lwork, low_level_lwork_fits,
    max_usize, scalar_saved_len, scalar_saved_len_fits, spec_init_work_len,
    spec_low_level_lwork, spec_scalar_saved_len, spec_vector_saved_len, vector_saved_len,
    vector_saved_len_fits,
};
use crate::gaussian_stored_scalar::max_int;
use crate::flat::lemma_flat_index_bound;

verus! {

/// The coefficient of order `m = r + 1` and degree `n = c + 1` is cleared
/// by a truncation at `mmode`: the degree exceeds `mmode + 1` and the order
/// does not exceed the degree.
pub open spec fn truncated(mmode: int, r: int, c: int) -> bool {
    c > mmode && r <= c
}

/// `a` after clearing, in an `nlat x nlat` coefficient array, every
/// coefficient of degree above `mmode + 1`.
pub open spec fn is_truncation<T>(nlat: int, mmode: int, old: Seq<T>, new: Seq<T>, zero: T) -> bool {
    &&& new.len() == old.len()
    &&& forall|r: int, c: int|
        0 <= r < nlat && 0 <= c < nlat ==> #[trigger] new[r * nlat + c] == if truncated(
            mmode,
            r,
            c,
        ) {
            zero
        } else {
            old[r * nlat + c]
        }
    &&& forall|x: int| nlat * nlat <= x < old.len() ==> #[trigger] new[x] == old[x]
}

/// Clears one coefficient array above degree `mmode + 1`.
fn truncate_one<T: Copy>(nlat: usize, mmode: usize, a: &mut Vec<T>, zero: T)
    requires
        mmode < nlat,
        old(a)@.len() >= nlat * nlat,
    ensures
        is_truncation(nlat as int, mmode as int, old(a)@, final(a)@, zero),
{
    let ghost orig = a@;
    let len = a.len();
    let mut c: usize = mmode + 1;
    while c < nlat
        invariant
            len == a@.len(),
            mmode < nlat,
            mmode + 1 <= c <= nlat,
            orig.len() >= nlat * nlat,
            a@.len() == orig.len(),
            forall|r2: int, c2: int|
                0 <= r2 < nlat && 0 <= c2 < nlat ==> #[trigger] a@[r2 * nlat + c2] == if c2 < c
                    && truncated(mmode as int, r2, c2) {
                    zero
                } else {
                    orig[r2 * nlat + c2]
                },
            forall|x: int| nlat * nlat <= x < orig.len() ==> #[trigger] a@[x] == orig[x],
        decreases nlat - c,
    {
        let mut r: usize = 0;
        while r <= c
            invariant
                len == a@.len(),
                mmode < nlat,
                mmode + 1 <= c < nlat,
                r <= c + 1,
                orig.len() >= nlat * nlat,
                a@.len() == orig.len(),
                forall|r2: int, c2: int|
                    0 <= r2 < nlat && 0 <= c2 < nlat ==> #[trigger] a@[r2 * nlat + c2] == if (c2
                        < c && truncated(mmode as int, r2, c2)) || (c2 == c && r2 < r) {
                        zero
                    } else {
                        orig[r2 * nlat + c2]
                    },
                forall|x: int| nlat * nlat <= x < orig.len() ==> #[trigger] a@[x] == orig[x],
            decreases c + 1 - r,
        {
            proof {
                lemma_flat_index_bound(nlat as int, nlat as int, r as int, c as int);
            }
            let pos = r * nlat + c;
            let ghost before = a@;
            a.set(pos, zero);
            proof {
                assert forall|r2: int, c2: int|
                    0 <= r2 < nlat && 0 <= c2 < nlat implies #[trigger] a@[r2 * nlat + c2] == if (c2
                    < c && truncated(mmode as int, r2, c2)) || (c2 == c && r2 < r + 1) {
                    zero
                } else {
                    orig[r2 * nlat + c2]
                } by {
                    lemma_flat_index_bound(nlat as int, nlat as int, r2, c2);
                    if r2 * nlat + c2 == pos {
                        crate::flat::lemma_flat_index_unique(
                            nlat as int,
                            r2,
                            c2,
                            r as int,
                            c as int,
                        );
                    } else {
                        assert(a@[r2 * nlat + c2] == before[r2 * nlat + c2]);
                        if c2 == c && r2 == r {
                            assert(false);
                        }
                    }
                }
                assert forall|x: int| nlat * nlat <= x < orig.len() implies #[trigger] a@[x]
                    == orig[x] by {
                    assert(a@[x] == before[x]);
                }
            }
            r = r + 1;
        }
        c = c + 1;
    }
}

/// Clears, in two coefficient arrays of `nlat x nlat` values, every
/// coefficient of degree above `mmode + 1`; nothing is cleared when
/// `mmode + 2 > nlat`.
pub fn truncate_coeffs<T: Copy>(nlat: usize, mmode: usize, a: &mut Vec<T>, b: &mut Vec<T>, zero: T)
    requires
        mmode + 2 <= usize::MAX,
        mmode + 2 <= nlat ==> old(a)@.len() >= nlat * nlat && old(b)@.len() >= nlat * nlat,
    ensures
        is_truncation(nlat as int, mmode as int, old(a)@, final(a)@, zero),
        is_truncation(nlat as int, mmode as int, old(b)@, final(b)@, zero),
{
    if mmode + 2 > nlat {
        proof {
            assert forall|r: int, c: int|
                0 <= r < nlat && 0 <= c < nlat implies !truncated(mmode as int, r, c) by {}
        }
        return;
    }
    truncate_one(nlat, mmode, a, zero);
    truncate_one(nlat, mmode, b, zero);
}

/// The leading `keep` entries of each of the `rows` rows of a row-major
/// array whose rows have `width` entries, in row-major order.
pub fn leading_block<T: Copy>(data: &[T], rows: usize, width: usize, keep: usize) -> (out: Vec<T>)
    requires
        keep <= width,
        data@.len() == rows * width,
    ensures
        out@.len() == rows * keep,
        forall|m: int, j: int|
            0 <= m < rows && 0 <= j < keep ==> #[trigger] out@[m * keep + j] == data@[m * width
                + j],
{
    let total = data.len();
    let mut out: Vec<T> = Vec::new();
    let mut m: usize = 0;
    while m < rows
        invariant
            keep <= width,
            data@.len() == rows * width,
            total == rows * width,
            m <= rows,
            out@.len() == m * keep,
            forall|m2: int, j: int|
                0 <= m2 < m && 0 <= j < keep ==> #[trigger] out@[m2 * keep + j] == data@[m2 * width
                    + j],
        decreases rows - m,
    {
        let mut j: usize = 0;
        while j < keep
            invariant
                keep <= width,
                data@.len() == rows * width,
                total == rows * width,
                m < rows,
                j <= keep,
                out@.len() == m * keep + j,
                forall|m2: int, j2: int|
                    0 <= m2 < m && 0 <= j2 < keep ==> #[trigger] out@[m2 * keep + j2] == data@[m2
                        * width + j2],
                forall|j2: int| 0 <= j2 < j ==> #[trigger] out@[m * keep + j2] == data@[m * width + j2],
            decreases keep - j,
        {
            proof {
                lemma_flat_index_bound(rows as int, width as int, m as int, j as int);
            }
            let ghost before = out@;
            out.push(data[m * width + j]);
            proof {
                assert forall|m2: int, j2: int|
                    0 <= m2 < m && 0 <= j2 < keep implies #[trigger] out@[m2 * keep + j2]
                    == data@[m2 * width + j2] by {
                    lemma_flat_index_bound(m as int, keep as int, m2, j2);
                    assert(out@[m2 * keep + j2] == before[m2 * keep + j2]);
                }
            }
            j = j + 1;
        }
        proof {
            assert((m + 1) * keep == m * keep + keep) by (nonlinear_arith);
        }
        m = m + 1;
    }
    out
}

/// The coefficients of orders and degrees below `shape[0]` of a row-major
/// coefficient array of shape `(d0, d1)` or `(d0, d1, nt)`, in row-major
/// order (the `nt` fields of a stack stay interleaved); nothing for an
/// array of another rank.
pub fn collect_logical<T: Copy>(data: &[T], shape: &[usize]) -> (out: Vec<T>)
    requires
        shape@.len() == 2 ==> shape@[0] <= shape@[1] && data@.len() == shape@[0] * shape@[1],
        shape@.len() == 3 ==> (shape@[2] == 0 || shape@[0] <= shape@[1]) && data@.len() == shape@[0]
            * shape@[1] * shape@[2],
    ensures
        shape@.len() == 2 ==> out@.len() == shape@[0] * shape@[0] && forall|m: int, n: int|
            0 <= m < shape@[0] && 0 <= n < shape@[0] ==> #[trigger] out@[m * shape@[0] + n]
                == data@[m * shape@[1] + n],
        shape@.len() == 3 ==> out@.len() == shape@[0] * shape@[0] * shape@[2] && forall|
            m: int,
            n: int,
            k: int,
        |
            0 <= m < shape@[0] && 0 <= n < shape@[0] && 0 <= k < shape@[2] ==> #[trigger] out@[(m
                * shape@[0] + n) * shape@[2] + k] == data@[(m * shape@[1] + n) * shape@[2] + k],
        shape@.len() != 2 && shape@.len() != 3 ==> out@.len() == 0,
{
    if shape.len() == 2 {
        leading_block(data, shape[0], shape[1], shape[0])
    } else if shape.len() == 3 {
        let d0 = shape[0];
        let d1 = shape[1];
        let nt = shape[2];
        let total = data.len();
        if d0 == 0 || nt == 0 {
            proof {
                assert(d0 * d0 * nt == 0) by (nonlinear_arith)
                    requires
                        d0 == 0 || nt == 0,
                ;
            }
            return Vec::new();
        }
        proof {
            assert(d1 * nt <= d0 * d1 * nt) by (nonlinear_arith)
                requires
                    d0 >= 1,
                    d1 >= 0,
                    nt >= 0,
            ;
            assert(d0 * nt <= d1 * nt) by (nonlinear_arith)
                requires
                    d0 <= d1,
                    nt >= 0,
            ;
            assert(d0 * (d1 * nt) == d0 * d1 * nt) by (nonlinear_arith);
        }
        let width = d1 * nt;
        let keep = d0 * nt;
        let out = leading_block(data, d0, width, keep);
        proof {
            assert(d0 * keep == d0 * d0 * nt) by (nonlinear_arith)
                requires
                    keep == d0 * nt,
            ;
            assert forall|m: int, n: int, k: int|
                0 <= m < d0 && 0 <= n < d0 && 0 <= k < nt implies #[trigger] out@[(m * d0 + n) * nt
                + k] == data@[(m * d1 + n) * nt + k] by {
                lemma_flat_index_bound(d0 as int, nt as int, n, k);
                assert((m * d0 + n) * nt + k == m * keep + (n * nt + k)) by (nonlinear_arith)
                    requires
                        keep == d0 * nt,
                ;
                assert((m * d1 + n) * nt + k == m * width + (n * nt + k)) by (nonlinear_arith)
                    requires
                        width == d1 * nt,
                ;
                assert(out@[m * keep + (n * nt + k)] == data@[m * width + (n * nt + k)]);
            }
        }
        out
    } else {
        Vec::new()
    }
}

/// Number of latitudes that a vector routine computes for the symmetry
/// flag `isym`: all of them for a full-sphere field, the northern half with
/// the equator otherwise.
pub fn output_rows_for_isym(nlat: usize, isym: usize) -> (rows: usize)
    ensures
        rows == if isym == 0 {
            nlat as int
        } else {
            half_up(nlat as int)
        },
{
    if isym == 0 {
        nlat
    } else {
        nlat / 2 + nlat % 2
    }
}

/// Number of latitudes that a vector routine computes for the table
/// selector `ityp`: all of them for `ityp <= 2`, the northern half with the
/// equator otherwise.
pub fn output_rows_for_ityp(nlat: usize, ityp: usize) -> (rows: usize)
    ensures
        rows == if ityp <= 2 {
            nlat as int
        } else {
            half_up(nlat as int)
        },
{
    if ityp <= 2 {
        nlat
    } else {
        nlat / 2 + nlat % 2
    }
}

/// A stack of `nt` grids of which the first `rows` latitudes were computed,
/// padded with `zero` to all `nlat` latitudes; the stack is handed back as
/// it is when all latitudes were computed.
pub fn expand_rows<T: Copy>(data: Vec<T>, zero: T, nlat: usize, nlon: usize, nt: usize, rows: usize) -> (out:
    Vec<T>)
    requires
        rows <= nlat,
        rows != nlat ==> data@.len() >= rows * nlon * nt,
        rows != nlat ==> nlat * nlon * nt <= usize::MAX,
    ensures
        rows == nlat ==> out@ == data@,
        rows != nlat ==> out@.len() == nlat * nlon * nt,
        rows != nlat ==> forall|x: int|
            0 <= x < nlat * nlon * nt ==> #[trigger] out@[x] == if x < rows * nlon * nt {
                data@[x]
            } else {
                zero
            },
{
    if rows == nlat {
        return data;
    }
    if nt == 0 {
        assert(nlat * nlon * nt == 0) by (nonlinear_arith)
            requires
                nt == 0,
        ;
        return Vec::new();
    }
    proof {
        assert(nlat * nlon <= nlat * nlon * nt) by (nonlinear_arith)
            requires
                nt >= 1,
        ;
        assert(rows * nlon <= nlat * nlon) by (nonlinear_arith)
            requires
                rows <= nlat,
        ;
        assert(rows * nlon * nt <= nlat * nlon * nt) by (nonlinear_arith)
            requires
                rows * nlon <= nlat * nlon,
        ;
        assert(rows * nlon * nt >= 0 && rows * nlon >= 0) by (nonlinear_arith);
    }
    let kept = rows * nlon * nt;
    let total = nlat * nlon * nt;
    let mut out: Vec<T> = Vec::new();
    let mut x: usize = 0;
    while x < total
        invariant
            kept <= total,
            kept == rows * nlon * nt,
            total == nlat * nlon * nt,
            data@.len() >= kept,
            x <= total,
            out@.len() == x,
            forall|y: int| 0 <= y < x ==> #[trigger] out@[y] == if y < kept {
                data@[y]
            } else {
                zero
            },
        decreases total - x,
    {
        if x < kept {
            out.push(data[x]);
        } else {
            out.push(zero);
        }
        x = x + 1;
    }
    out
}

// ---------------------------------------------------------------------------
// The shallow-water driver.

/// The argument checks of the shallow-water driver: at least 3 latitudes
/// (code 1), at least 4 longitudes (code 2), a positive time step (code 3)
/// and a truncation mode below `nlat` (code 4).
pub fn check_shallow(nlat: usize, nlon: usize, dt_positive: bool, mmode: usize) -> (r: Result<(), i32>)
    ensures
        r == if nlat < 3 {
            Err::<(), i32>(1)
        } else if nlon < 4 {
            Err(2)
        } else if !dt_positive {
            Err(3)
        } else if mmode + 2 > nlat + 1 {
            Err(4)
        } else {
            Ok(())
        },
{
    if nlat < 3 {
        return Err(1);
    }
    if nlon < 4 {
        return Err(2);
    }
    if !dt_positive {
        return Err(3);
    }
    if mmode >= nlat {
        return Err(4);
    }
    Ok(())
}

/// The table and scratch lengths that the shallow-water driver allocates.
#[derive(Clone, Copy, Debug, PartialEq, Eq, Structural)]
pub struct ShallowSizes {
    pub lscalar: usize,
    pub lvector: usize,
    pub lwork_init: usize,
    pub ldwork_scalar: usize,
    pub ldwork_vector: usize,
    pub lwork: usize,
}

/// The quantities of [`shallow_sizes`] fit a machine word.
pub open spec fn shallow_sizes_fit(nlat: int, nlon: int) -> bool {
    &&& scalar_saved_len_fits(nlat, nlon)
    &&& vector_saved_len_fits(nlat, nlon)
    &&& init_work_len_fits(nlat, nlon)
    &&& low_level_lwork_fits(nlat, nlon)
    &&& fits(3 * nlat * nlon)
    &&& fits(2 * (nlat + 1))
}

/// The table and scratch lengths of the shallow-water driver: the stored
/// scalar and vector tables, the scratch of their initialisation, the
/// double-precision scratch `nlat + 1` and `2 * (nlat + 1)`, and the
/// transform scratch `max(low_level_lwork, 3 * nlat * nlon)`.
pub fn shallow_sizes(nlat: usize, nlon: usize) -> (s: ShallowSizes)
    requires
        shallow_sizes_fit(nlat as int, nlon as int),
    ensures
        s.lscalar == spec_scalar_saved_len(nlat as int, nlon as int),
        s.lvector == spec_vector_saved_len(nlat as int, nlon as int),
        s.lwork_init == spec_init_work_len(nlat as int, nlon as int),
        s.ldwork_scalar == nlat + 1,
        s.ldwork_vector == 2 * (nlat + 1),
        s.lwork == max_int(spec_low_level_lwork(nlat as int, nlon as int), 3 * nlat * nlon),
{
    proof {
        assert(3 * nlat >= 0 && 3 * nlat <= 3 * nlat * nlon || nlon == 0) by (nonlinear_arith);
        assert(3 * nlat * nlon >= 3 * nlat || nlon == 0) by (nonlinear_arith);
    }
    let three_grids = if nlon == 0 {
        assert(3 * nlat * nlon == 0) by (nonlinear_arith)
            requires
                nlon == 0,
        ;
        0
    } else {
        3 * nlat * nlon
    };
    ShallowSizes {
        lscalar: scalar_saved_len(nlat, nlon),
        lvector: vector_saved_len(nlat, nlon),
        lwork_init: init_work_len(nlat, nlon),
        ldwork_scalar: nlat + 1,
        ldwork_vector: 2 * (nlat + 1),
        lwork: max_usize(low_level_lwork(nlat, nlon), three_grids),
    }
}

} // verus!
