//! Conversion between the geophysical and the mathematical layouts of a
//! grid.
//!
//! The geophysical layout stores longitude-major columns,
//! `sg[j * nlat + i]` for longitude `j` and latitude `i`; the mathematical
//! layout stores latitude-major rows, `sm[i * nlon + j]`.  With `ig == 0`
//! the geophysical latitudes run from south to north and the rows are
//! reversed on the way; with `ig == 1` they run from north to south as the
//! rows do.  Any other `ig` is refused.
use vstd::prelude::*;
use crate::flat::{lemma_flat_index_bound, lemma_flat_index_unique};

verus! {

/// Why a layout conversion refused its arguments.
#[derive(Clone, Copy, Debug, PartialEq, Eq, Structural)]
pub enum LayoutError {
    /// The orientation flag is neither 0 nor 1.
    InvalidIg,
    /// The field does not have `nlat * nlon` values.
    SizeMismatch,
}

/// The orientation flag is 0 or 1.
pub fn validate_ig(ig: i32) -> (r: Result<(), LayoutError>)
    ensures
        r == if ig == 0 || ig == 1 {
            Ok::<(), LayoutError>(())
        } else {
            Err(LayoutError::InvalidIg)
        },
{
    if ig == 0 || ig == 1 {
        Ok(())
    } else {
        Err(LayoutError::InvalidIg)
    }
}

/// Position of longitude `j`, latitude `i` in the geophysical layout.
pub fn geo_index(nlat: usize, j: usize, i: usize) -> (r: usize)
    requires
        j * nlat + i <= usize::MAX,
    ensures
        r == j * nlat + i,
{
    proof {
        assert(j * nlat >= 0) by (nonlinear_arith);
    }
    j * nlat + i
}

/// Position of latitude `i`, longitude `j` in the mathematical layout.
pub fn math_index(nlon: usize, i: usize, j: usize) -> (r: usize)
    requires
        i * nlon + j <= usize::MAX,
    ensures
        r == i * nlon + j,
{
    proof {
        assert(i * nlon >= 0) by (nonlinear_arith);
    }
    i * nlon + j
}

/// The geophysical latitude that row `i` holds.
pub open spec fn geo_row(ig: int, nlat: int, i: int) -> int {
    if ig == 0 {
        nlat - 1 - i
    } else {
        i
    }
}

/// `sm` is the mathematical layout of the geophysical field `sg`.
pub open spec fn is_math_layout<T>(ig: int, nlat: int, nlon: int, sg: Seq<T>, sm: Seq<T>) -> bool {
    &&& sm.len() == nlat * nlon
    &&& forall|i: int, j: int|
        0 <= i < nlat && 0 <= j < nlon ==> #[trigger] sm[i * nlon + j] == sg[j * nlat + geo_row(
            ig,
            nlat,
            i,
        )]
}

/// `sg` is the geophysical layout of the mathematical field `sm`.
pub open spec fn is_geo_layout<T>(ig: int, nlat: int, nlon: int, sm: Seq<T>, sg: Seq<T>) -> bool {
    &&& sg.len() == nlat * nlon
    &&& forall|j: int, i: int|
        0 <= j < nlon && 0 <= i < nlat ==> #[trigger] sg[j * nlat + i] == sm[geo_row(ig, nlat, i)
            * nlon + j]
}

/// `a * b` for a product that an array length equals.
fn product_matches(len: usize, a: usize, b: usize) -> (m: bool)
    ensures
        m == (len == a * b),
{
    match a.checked_mul(b) {
        Some(p) => len == p,
        None => false,
    }
}

/// The mathematical layout of a geophysical field of `nlon` columns of
/// `nlat` latitudes.
pub fn geo2maths_impl<T: Copy>(ig: i32, sg: &[T], nlon: usize, nlat: usize) -> (r: Result<
    Vec<T>,
    LayoutError,
>)
    ensures
        !(ig == 0 || ig == 1) ==> r == Err::<Vec<T>, LayoutError>(LayoutError::InvalidIg),
        (ig == 0 || ig == 1) && sg@.len() != nlon * nlat ==> r == Err::<Vec<T>, LayoutError>(
            LayoutError::SizeMismatch,
        ),
        (ig == 0 || ig == 1) && sg@.len() == nlon * nlat ==> (r matches Ok(sm) && is_math_layout(
            ig as int,
            nlat as int,
            nlon as int,
            sg@,
            sm@,
        )),
{
    if validate_ig(ig).is_err() {
        return Err(LayoutError::InvalidIg);
    }
    if !product_matches(sg.len(), nlon, nlat) {
        return Err(LayoutError::SizeMismatch);
    }
    proof {
        assert(nlon * nlat == nlat * nlon) by (nonlinear_arith);
    }
    let total = sg.len();
    let mut sm: Vec<T> = Vec::new();
    let mut i: usize = 0;
    while i < nlat
        invariant
            ig == 0 || ig == 1,
            sg@.len() == nlat * nlon,
            total == nlat * nlon,
            i <= nlat,
            sm@.len() == i * nlon,
            forall|p: int, q: int|
                0 <= p < i && 0 <= q < nlon ==> #[trigger] sm@[p * nlon + q] == sg@[q * nlat
                    + geo_row(ig as int, nlat as int, p)],
        decreases nlat - i,
    {
        let row = if ig == 0 {
            nlat - 1 - i
        } else {
            i
        };
        let mut j: usize = 0;
        while j < nlon
            invariant
                ig == 0 || ig == 1,
                sg@.len() == nlat * nlon,
                total == nlat * nlon,
                i < nlat,
                row == geo_row(ig as int, nlat as int, i as int),
                j <= nlon,
                sm@.len() == i * nlon + j,
                forall|p: int, q: int|
                    0 <= p < i && 0 <= q < nlon ==> #[trigger] sm@[p * nlon + q] == sg@[q * nlat
                        + geo_row(ig as int, nlat as int, p)],
                forall|q: int|
                    0 <= q < j ==> #[trigger] sm@[i * nlon + q] == sg@[q * nlat + row],
            decreases nlon - j,
        {
            proof {
                lemma_flat_index_bound(nlon as int, nlat as int, j as int, row as int);
                assert(nlon * nlat == nlat * nlon) by (nonlinear_arith);
            }
            let v = sg[geo_index(nlat, j, row)];
            let ghost before = sm@;
            sm.push(v);
            proof {
                assert forall|p: int, q: int|
                    0 <= p < i && 0 <= q < nlon implies #[trigger] sm@[p * nlon + q] == sg@[q
                    * nlat + geo_row(ig as int, nlat as int, p)] by {
                    assert(p * nlon + q < i * nlon) by {
                        lemma_flat_index_bound(i as int, nlon as int, p, q);
                    }
                    assert(sm@[p * nlon + q] == before[p * nlon + q]);
                }
            }
            j = j + 1;
        }
        proof {
            assert((i + 1) * nlon == i * nlon + nlon) by (nonlinear_arith);
        }
        i = i + 1;
    }
    Ok(sm)
}

/// The geophysical layout of a mathematical field of `nlat` rows of
/// `nlon` longitudes.
pub fn math2geos_impl<T: Copy>(ig: i32, sm: &[T], nlat: usize, nlon: usize) -> (r: Result<
    Vec<T>,
    LayoutError,
>)
    ensures
        !(ig == 0 || ig == 1) ==> r == Err::<Vec<T>, LayoutError>(LayoutError::InvalidIg),
        (ig == 0 || ig == 1) && sm@.len() != nlat * nlon ==> r == Err::<Vec<T>, LayoutError>(
            LayoutError::SizeMismatch,
        ),
        (ig == 0 || ig == 1) && sm@.len() == nlat * nlon ==> (r matches Ok(sg) && is_geo_layout(
            ig as int,
            nlat as int,
            nlon as int,
            sm@,
            sg@,
        )),
{
    if validate_ig(ig).is_err() {
        return Err(LayoutError::InvalidIg);
    }
    if !product_matches(sm.len(), nlat, nlon) {
        return Err(LayoutError::SizeMismatch);
    }
    proof {
        assert(nlon * nlat == nlat * nlon) by (nonlinear_arith);
    }
    let total = sm.len();
    let mut sg: Vec<T> = Vec::new();
    let mut j: usize = 0;
    while j < nlon
        invariant
            ig == 0 || ig == 1,
            sm@.len() == nlat * nlon,
            total == nlat * nlon,
            j <= nlon,
            sg@.len() == j * nlat,
            forall|q: int, p: int|
                0 <= q < j && 0 <= p < nlat ==> #[trigger] sg@[q * nlat + p] == sm@[geo_row(
                    ig as int,
                    nlat as int,
                    p,
                ) * nlon + q],
        decreases nlon - j,
    {
        let mut i: usize = 0;
        while i < nlat
            invariant
                ig == 0 || ig == 1,
                sm@.len() == nlat * nlon,
                total == nlat * nlon,
                j < nlon,
                i <= nlat,
                sg@.len() == j * nlat + i,
                forall|q: int, p: int|
                    0 <= q < j && 0 <= p < nlat ==> #[trigger] sg@[q * nlat + p] == sm@[geo_row(
                        ig as int,
                        nlat as int,
                        p,
                    ) * nlon + q],
                forall|p: int|
                    0 <= p < i ==> #[trigger] sg@[j * nlat + p] == sm@[geo_row(
                        ig as int,
                        nlat as int,
                        p,
                    ) * nlon + j],
            decreases nlat - i,
        {
            let row = if ig == 0 {
                nlat - 1 - i
            } else {
                i
            };
            proof {
                lemma_flat_index_bound(nlat as int, nlon as int, row as int, j as int);
            }
            let v = sm[math_index(nlon, row, j)];
            let ghost before = sg@;
            sg.push(v);
            proof {
                assert forall|q: int, p: int|
                    0 <= q < j && 0 <= p < nlat implies #[trigger] sg@[q * nlat + p] == sm@[geo_row(
                    ig as int,
                    nlat as int,
                    p,
                ) * nlon + q] by {
                    assert(q * nlat + p < j * nlat) by {
                        lemma_flat_index_bound(j as int, nlat as int, q, p);
                    }
                    assert(sg@[q * nlat + p] == before[q * nlat + p]);
                }
            }
            i = i + 1;
        }
        proof {
            assert((j + 1) * nlat == j * nlat + nlat) by (nonlinear_arith);
        }
        j = j + 1;
    }
    Ok(sg)
}

/// Converting a field to the mathematical layout and back to the
/// geophysical one, with the same orientation, gives the field back.
pub proof fn lemma_geo_math_roundtrip<T>(
    ig: int,
    nlat: int,
    nlon: int,
    sg: Seq<T>,
    sm: Seq<T>,
    back: Seq<T>,
)
    requires
        ig == 0 || ig == 1,
        nlat >= 0,
        nlon >= 0,
        sg.len() == nlat * nlon,
        is_math_layout(ig, nlat, nlon, sg, sm),
        is_geo_layout(ig, nlat, nlon, sm, back),
    ensures
        back == sg,
{
    assert forall|k: int| 0 <= k < nlat * nlon implies #[trigger] back[k] == sg[k] by {
        let j = k / nlat;
        let i = k % nlat;
        assert(nlat > 0) by (nonlinear_arith)
            requires
                0 <= k < nlat * nlon,
                nlon >= 0,
        ;
        assert(k == j * nlat + i && 0 <= i < nlat) by (nonlinear_arith)
            requires
                nlat > 0,
                j == k / nlat,
                i == k % nlat,
        ;
        assert(0 <= j < nlon) by (nonlinear_arith)
            requires
                k == j * nlat + i,
                0 <= k < nlat * nlon,
                0 <= i < nlat,
        ;
        let r = geo_row(ig, nlat, i);
        assert(back[j * nlat + i] == sm[r * nlon + j]);
        assert(sm[r * nlon + j] == sg[j * nlat + geo_row(ig, nlat, r)]);
    }
    assert(back =~= sg);
}

/// Converting a field to the geophysical layout and back to the
/// mathematical one, with the same orientation, gives the field back.
pub proof fn lemma_math_geo_roundtrip<T>(
    ig: int,
    nlat: int,
    nlon: int,
    sm: Seq<T>,
    sg: Seq<T>,
    back: Seq<T>,
)
    requires
        ig == 0 || ig == 1,
        nlat >= 0,
        nlon >= 0,
        sm.len() == nlat * nlon,
        is_geo_layout(ig, nlat, nlon, sm, sg),
        is_math_layout(ig, nlat, nlon, sg, back),
    ensures
        back == sm,
{
    assert forall|k: int| 0 <= k < nlat * nlon implies #[trigger] back[k] == sm[k] by {
        let i = k / nlon;
        let j = k % nlon;
        assert(nlon > 0) by (nonlinear_arith)
            requires
                0 <= k < nlat * nlon,
                nlat >= 0,
        ;
        assert(k == i * nlon + j && 0 <= j < nlon) by (nonlinear_arith)
            requires
                nlon > 0,
                i == k / nlon,
                j == k % nlon,
        ;
        assert(0 <= i < nlat) by (nonlinear_arith)
            requires
                k == i * nlon + j,
                0 <= k < nlat * nlon,
                0 <= j < nlon,
        ;
        let r = geo_row(ig, nlat, i);
        assert(back[i * nlon + j] == sg[j * nlat + r]);
        assert(sg[j * nlat + r] == sm[geo_row(ig, nlat, r) * nlon + j]);
    }
    assert(back =~= sm);
}

} // verus!
