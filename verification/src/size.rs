//! Non-negative integers that may exceed a machine word.
//!
//! The argument checks compare array and scratch lengths with sizes that
//! grow with the grid.  A [`Size`] holds such a size as a machine word where
//! it fits one, and as "too large" otherwise, so that the comparisons are
//! exact whatever the grid: a size too large for a word differs from every
//! length and exceeds every length.
use vstd::prelude::*;
use crate::gaussian_stored_scalar::max_int;

verus! {

/// A non-negative integer as a machine word, or `None` where it exceeds
/// every machine word.
pub open spec fn word(x: int) -> Option<usize> {
    if x <= usize::MAX {
        Some(x as usize)
    } else {
        None
    }
}

/// A non-negative integer, held as a machine word where it fits one.
pub(crate) struct Size {
    pub(crate) word: Option<usize>,
    pub(crate) value: Ghost<int>,
}

impl Size {
    /// The word holds the value where it fits.
    pub(crate) open spec fn wf(self) -> bool {
        self.value@ >= 0 && self.word == word(self.value@)
    }

    /// The integer held.
    pub(crate) open spec fn val(self) -> int {
        self.value@
    }

    /// A machine word.
    pub(crate) fn of(x: usize) -> (r: Size)
        ensures
            r.wf(),
            r.val() == x,
    {
        Size { word: Some(x), value: Ghost(x as int) }
    }

    /// A 128-bit word.
    pub(crate) fn of_wide(x: u128) -> (r: Size)
        ensures
            r.wf(),
            r.val() == x,
    {
        if x <= usize::MAX as u128 {
            Size { word: Some(x as usize), value: Ghost(x as int) }
        } else {
            Size { word: None, value: Ghost(x as int) }
        }
    }

    /// An integer known to exceed every machine word.
    pub(crate) fn beyond_words(x: Ghost<int>) -> (r: Size)
        requires
            x@ > usize::MAX,
        ensures
            r.wf(),
            r.val() == x@,
    {
        Size { word: None, value: x }
    }

    /// The sum.
    pub(crate) fn plus(self, other: Size) -> (r: Size)
        requires
            self.wf(),
            other.wf(),
        ensures
            r.wf(),
            r.val() == self.val() + other.val(),
    {
        let value = Ghost(self.value@ + other.value@);
        match (self.word, other.word) {
            (Some(p), Some(q)) => Size { word: p.checked_add(q), value },
            _ => Size { word: None, value },
        }
    }

    /// The product.
    pub(crate) fn times(self, other: Size) -> (r: Size)
        requires
            self.wf(),
            other.wf(),
        ensures
            r.wf(),
            r.val() == self.val() * other.val(),
    {
        let x = self.value;
        let y = other.value;
        let value = Ghost(x@ * y@);
        proof {
            assert(x@ * y@ >= 0) by (nonlinear_arith)
                requires
                    x@ >= 0,
                    y@ >= 0,
            ;
        }
        match (self.word, other.word) {
            (Some(p), Some(q)) => Size { word: p.checked_mul(q), value },
            (Some(p), None) => {
                if p == 0 {
                    assert(x@ * y@ == 0) by (nonlinear_arith)
                        requires
                            x@ == 0,
                    ;
                    Size { word: Some(0), value }
                } else {
                    assert(x@ * y@ >= y@) by (nonlinear_arith)
                        requires
                            x@ >= 1,
                            y@ >= 0,
                    ;
                    Size { word: None, value }
                }
            },
            (None, Some(q)) => {
                if q == 0 {
                    assert(x@ * y@ == 0) by (nonlinear_arith)
                        requires
                            y@ == 0,
                    ;
                    Size { word: Some(0), value }
                } else {
                    assert(x@ * y@ >= x@) by (nonlinear_arith)
                        requires
                            y@ >= 1,
                            x@ >= 0,
                    ;
                    Size { word: None, value }
                }
            },
            (None, None) => {
                assert(x@ * y@ >= x@) by (nonlinear_arith)
                    requires
                        y@ >= 1,
                        x@ >= 0,
                ;
                Size { word: None, value }
            },
        }
    }

    /// The larger of the two.
    pub(crate) fn larger(self, other: Size) -> (r: Size)
        requires
            self.wf(),
            other.wf(),
        ensures
            r.wf(),
            r.val() == max_int(self.val(), other.val()),
    {
        let value = Ghost(max_int(self.value@, other.value@));
        match (self.word, other.word) {
            (Some(p), Some(q)) => Size {
                word: Some(
                    if p >= q {
                        p
                    } else {
                        q
                    },
                ),
                value,
            },
            _ => Size { word: None, value },
        }
    }

    /// `v` is smaller than the integer held.
    pub(crate) fn exceeds(&self, v: usize) -> (b: bool)
        requires
            self.wf(),
        ensures
            b == (v < self.val()),
    {
        match self.word {
            Some(p) => v < p,
            None => true,
        }
    }

    /// `v` is the integer held.
    pub(crate) fn equals(&self, v: usize) -> (b: bool)
        requires
            self.wf(),
        ensures
            b == (v == self.val()),
    {
        match self.word {
            Some(p) => v == p,
            None => false,
        }
    }
}

} // verus!
