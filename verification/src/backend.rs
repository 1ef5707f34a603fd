//! The choice of how the transforms of the operator object run.
use vstd::prelude::*;

verus! {

/// How the transforms of the operator object run.
#[derive(Clone, Copy, Debug, PartialEq, Eq, Structural)]
pub enum TransformBackend {
    /// Fields (or orders) handed to the thread pool.
    Rayon,
    /// Latitudes handed to the thread pool.
    LatPar,
}

/// The name of a backend matched no known one.
#[derive(Clone, Copy, Debug, PartialEq, Eq, Structural)]
pub struct UnknownBackend;

/// The code of `c` with ASCII capitals turned into small letters.
pub open spec fn lower_code(c: char) -> int {
    if 65 <= c as int <= 90 {
        c as int + 32
    } else {
        c as int
    }
}

/// `value` spells the small-letter name `name`, whatever the case of its
/// ASCII letters.
pub open spec fn spells(value: Seq<char>, name: Seq<char>) -> bool {
    value.len() == name.len() && forall|i: int| 0 <= i < value.len() ==> lower_code(value[i])
        == name[i] as int
}

/// The names that select [`TransformBackend::Rayon`].
pub open spec fn names_rayon(value: Seq<char>) -> bool {
    ||| spells(value, "parallel"@)
    ||| spells(value, "rayon"@)
    ||| spells(value, "threaded"@)
    ||| spells(value, "serial"@)
    ||| spells(value, "series"@)
    ||| spells(value, "single"@)
    ||| spells(value, "single_thread"@)
    ||| spells(value, "nogil"@)
    ||| spells(value, "no_gil"@)
    ||| spells(value, "python_free"@)
}

/// The names that select [`TransformBackend::LatPar`].
pub open spec fn names_latpar(value: Seq<char>) -> bool {
    ||| spells(value, "latpar"@)
    ||| spells(value, "lat"@)
    ||| spells(value, "latitude"@)
    ||| spells(value, "latitude_parallel"@)
}

/// Whether `value` spells `name`, ignoring the case of ASCII letters in
/// `value`.
fn spells_name(value: &str, name: &str) -> (r: bool)
    ensures
        r == spells(value@, name@),
{
    let n = value.unicode_len();
    if n != name.unicode_len() {
        return false;
    }
    let mut i: usize = 0;
    while i < n
        invariant
            n == value@.len(),
            n == name@.len(),
            i <= n,
            forall|k: int| 0 <= k < i ==> lower_code(value@[k]) == name@[k] as int,
        decreases n - i,
    {
        let c = value.get_char(i) as u32;
        let lowered = if 65 <= c && c <= 90 {
            c + 32
        } else {
            c
        };
        if lowered != name.get_char(i) as u32 {
            return false;
        }
        i = i + 1;
    }
    true
}

impl TransformBackend {
    /// The backend that a name selects, whatever the case of its ASCII
    /// letters.
    pub fn parse(value: &str) -> (r: Result<TransformBackend, UnknownBackend>)
        ensures
            r == if names_rayon(value@) {
                Ok::<TransformBackend, UnknownBackend>(TransformBackend::Rayon)
            } else if names_latpar(value@) {
                Ok(TransformBackend::LatPar)
            } else {
                Err(UnknownBackend)
            },
    {
        if spells_name(value, "parallel") || spells_name(value, "rayon") || spells_name(
            value,
            "threaded",
        ) || spells_name(value, "serial") || spells_name(value, "series") || spells_name(
            value,
            "single",
        ) || spells_name(value, "single_thread") || spells_name(value, "nogil") || spells_name(
            value,
            "no_gil",
        ) || spells_name(value, "python_free") {
            Ok(TransformBackend::Rayon)
        } else if spells_name(value, "latpar") || spells_name(value, "lat") || spells_name(
            value,
            "latitude",
        ) || spells_name(value, "latitude_parallel") {
            Ok(TransformBackend::LatPar)
        } else {
            Err(UnknownBackend)
        }
    }
}

} // verus!
