//! Facts about row-major positions in flat arrays.
use vstd::prelude::*;

verus! {

/// A row-major position `i * b + j` of an `a x b` array lies inside it.
pub proof fn lemma_flat_index_bound(a: int, b: int, i: int, j: int)
    requires
        0 <= i < a,
        0 <= j < b,
    ensures
        0 <= i * b + j < a * b,
{
    assert(i * b + j < a * b) by (nonlinear_arith)
        requires
            0 <= i < a,
            0 <= j < b,
    ;
    assert(0 <= i * b) by (nonlinear_arith)
        requires
            0 <= i,
            0 <= j < b,
    ;
}

/// A row-major position determines its row and column.
pub proof fn lemma_flat_index_unique(b: int, i: int, j: int, i2: int, j2: int)
    requires
        0 <= j < b,
        0 <= j2 < b,
        i * b + j == i2 * b + j2,
        0 <= i,
        0 <= i2,
    ensures
        i == i2,
        j == j2,
{
    if i < i2 {
        assert(i * b + j < i2 * b + j2) by (nonlinear_arith)
            requires
                i < i2,
                0 <= j < b,
                0 <= j2,
        ;
    } else if i2 < i {
        assert(i2 * b + j2 < i * b + j) by (nonlinear_arith)
            requires
                i2 < i,
                0 <= j2 < b,
                0 <= j,
        ;
    }
}

} // verus!
