//! The PEC wall marker that may stand first or last in a stack description.
use vstd::prelude::*;

verus! {

/// Boundary marker for a Perfect Electric Conductor wall. Placed first or
/// last in a list of layers it applies a PEC boundary condition on that side.
#[derive(Clone, Copy, Debug, PartialEq, Eq, Structural)]
pub struct PEC;

impl PEC {
    /// Creates a PEC boundary marker.
    pub fn new() -> (p: PEC)
        ensures
            p == PEC,
    {
        PEC
    }
}

} // verus!
