use vstd::prelude::*;

verus! {

/// The two kinds of latitude grids the transforms work on.
#[derive(Clone, Copy, Debug, PartialEq, Eq, Structural)]
pub enum GridType {
    Regular,
    Gaussian,
}

impl GridType {
    /// The lower-case name of the grid kind.
    pub fn as_str(self) -> (s: &'static str)
        ensures
            self == GridType::Regular ==> s@ == "regular"@,
            self == GridType::Gaussian ==> s@ == "gaussian"@,
    {
        match self {
            GridType::Regular => "regular",
            GridType::Gaussian => "gaussian",
        }
    }
}

} // verus!
