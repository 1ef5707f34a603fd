//! Checks of the shapes of the arrays that the operator object receives.
//!
//! A grid field has shape `(nlat, nlon)` or `(nlat, nlon, nt)`; a stack of
//! packed spectral coefficients has shape `(nmdim,)` or `(nmdim, nt)`.
use vstd::prelude::*;

verus! {

/// Why an array shape was refused.
#[derive(Clone, Copy, Debug, PartialEq, Eq, Structural)]
pub enum ShapeError {
    /// The array has the wrong number of dimensions.
    Rank,
    /// The leading dimensions differ from the grid.
    Dims,
    /// The two components of a vector field differ in shape.
    ComponentsDiffer,
}

/// The outcome of the check of a grid field's shape: its number of values,
/// its number of fields and whether it is a single two-dimensional field.
pub open spec fn scalar_shape_outcome(shape: Seq<usize>, nlat: int, nlon: int) -> Result<
    (usize, usize, bool),
    ShapeError,
> {
    if shape.len() != 2 && shape.len() != 3 {
        Err(ShapeError::Rank)
    } else if shape[0] != nlat || shape[1] != nlon {
        Err(ShapeError::Dims)
    } else {
        let nt: int = if shape.len() == 2 {
            1
        } else {
            shape[2] as int
        };
        Ok(((nlat * nlon * nt) as usize, nt as usize, shape.len() == 2))
    }
}

/// Checks the shape of a grid field.
pub fn validate_scalar_shape(shape: &[usize], nlat: usize, nlon: usize) -> (r: Result<
    (usize, usize, bool),
    ShapeError,
>)
    requires
        (shape@.len() == 2 || shape@.len() == 3) && shape@[0] == nlat && shape@[1] == nlon ==> nlat
            * nlon * (if shape@.len() == 2 {
            1
        } else {
            shape@[2] as int
        }) <= usize::MAX,
    ensures
        r == scalar_shape_outcome(shape@, nlat as int, nlon as int),
{
    if shape.len() != 2 && shape.len() != 3 {
        return Err(ShapeError::Rank);
    }
    if shape[0] != nlat || shape[1] != nlon {
        return Err(ShapeError::Dims);
    }
    let nt = if shape.len() == 2 {
        1
    } else {
        shape[2]
    };
    proof {
        assert(nlat * nlon <= nlat * nlon * nt || nt == 0) by (nonlinear_arith)
            requires
                nt >= 1 || nt == 0,
        ;
        if nt >= 1 {
            assert(nlat * nlon <= nlat * nlon * nt) by (nonlinear_arith)
                requires
                    nt >= 1,
            ;
        }
    }
    if nt == 0 {
        assert(nlat * nlon * nt == 0) by (nonlinear_arith)
            requires
                nt == 0,
        ;
        return Ok((0, 0, shape.len() == 2));
    }
    Ok((nlat * nlon * nt, nt, shape.len() == 2))
}

/// Two shapes are equal.
fn same_shape(a: &[usize], b: &[usize]) -> (r: bool)
    ensures
        r == (a@ == b@),
{
    if a.len() != b.len() {
        return false;
    }
    let mut i: usize = 0;
    while i < a.len()
        invariant
            a@.len() == b@.len(),
            i <= a@.len(),
            forall|k: int| 0 <= k < i ==> a@[k] == b@[k],
        decreases a@.len() - i,
    {
        if a[i] != b[i] {
            return false;
        }
        i = i + 1;
    }
    proof {
        assert(a@ =~= b@);
    }
    true
}

/// Checks the shapes of the two components of a vector field.
pub fn validate_vector_shapes(ushape: &[usize], vshape: &[usize], nlat: usize, nlon: usize) -> (r:
    Result<(usize, usize, bool), ShapeError>)
    requires
        (ushape@.len() == 2 || ushape@.len() == 3) && ushape@[0] == nlat && ushape@[1] == nlon
            ==> nlat * nlon * (if ushape@.len() == 2 {
            1
        } else {
            ushape@[2] as int
        }) <= usize::MAX,
    ensures
        ushape@ != vshape@ ==> r == Err::<(usize, usize, bool), ShapeError>(
            ShapeError::ComponentsDiffer,
        ),
        ushape@ == vshape@ ==> r == scalar_shape_outcome(ushape@, nlat as int, nlon as int),
{
    if !same_shape(ushape, vshape) {
        return Err(ShapeError::ComponentsDiffer);
    }
    validate_scalar_shape(ushape, nlat, nlon)
}

/// Checks the shape of a stack of packed coefficients: its number of
/// coefficients per field, its number of fields and whether it is a single
/// field.
pub fn validate_spec_shape(shape: &[usize]) -> (r: Result<(usize, usize, bool), ShapeError>)
    ensures
        r == if shape@.len() != 1 && shape@.len() != 2 {
            Err::<(usize, usize, bool), ShapeError>(ShapeError::Rank)
        } else {
            Ok(
                (
                    shape@[0],
                    if shape@.len() == 1 {
                        1usize
                    } else {
                        shape@[1]
                    },
                    shape@.len() == 1,
                ),
            )
        },
{
    if shape.len() != 1 && shape.len() != 2 {
        return Err(ShapeError::Rank);
    }
    let nt = if shape.len() == 1 {
        1
    } else {
        shape[1]
    };
    Ok((shape[0], nt, shape.len() == 1))
}

/// Checks that an array has exactly the shape `(dim0, dim1)`.
pub fn validate_rank2_shape(shape: &[usize], dim0: usize, dim1: usize) -> (r: Result<(), ShapeError>)
    ensures
        r == if shape@ == seq![dim0, dim1] {
            Ok::<(), ShapeError>(())
        } else {
            Err(ShapeError::Dims)
        },
{
    if shape.len() == 2 && shape[0] == dim0 && shape[1] == dim1 {
        proof {
            assert(shape@ =~= seq![dim0, dim1]);
        }
        Ok(())
    } else {
        proof {
            if shape@ == seq![dim0, dim1] {
                assert(shape@.len() == 2);
            }
        }
        Err(ShapeError::Dims)
    }
}

/// Passes a routine's error code of 0 and refuses any other.
pub fn check_ierror(ierror: i32) -> (r: Result<(), i32>)
    ensures
        r == if ierror == 0 {
            Ok::<(), i32>(())
        } else {
            Err(ierror)
        },
{
    if ierror == 0 {
        Ok(())
    } else {
        Err(ierror)
    }
}

} // verus!
