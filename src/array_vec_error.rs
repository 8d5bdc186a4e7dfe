use vstd::prelude::*;

verus! {

/// The one error of this library: no slot is left for another element.
#[derive(Debug, Clone, Copy, PartialEq, Eq, PartialOrd, Ord)]
pub enum ArrayVecError {
    CapacityOverflow,
}

impl ArrayVecError {
    /// A sentence that describes the error.
    pub fn message(&self) -> (r: &'static str)
        ensures
            r@ == "It is not possible to add more elements"@,
    {
        match self {
            ArrayVecError::CapacityOverflow => "It is not possible to add more elements",
        }
    }
}

} // verus!
