//! The enums that select the solver's back end, polarization, boundary
//! conditions and field normalization.
use vstd::prelude::*;

verus! {

/// Back end of the simulation.
#[derive(Clone, Copy, Debug, PartialEq, Eq, Structural)]
pub enum BackEnd {
    /// Scattering matrix method: index finding only, no field plotting.
    Scattering,
    /// Transfer matrix method: index finding and field plotting.
    Transfer,
}

/// Polarization of the light.
#[derive(Clone, Copy, Debug, PartialEq, Eq, Structural)]
pub enum Polarization {
    /// TE polarization.
    TE,
    /// TM polarization.
    TM,
}

/// Boundary condition at one edge of the multilayer stack.
#[derive(Clone, Copy, Debug, PartialEq, Eq, Structural)]
pub enum BoundaryCondition {
    /// Semi-infinite cladding: the field decays exponentially into it.
    SemiInfinite,
    /// Perfect Electric Conductor: the tangential electric field vanishes at the wall.
    PEC,
    /// Outgoing-wave cladding: radiation leaves the structure (leaky and quasi-normal modes).
    Outgoing,
}

/// Field normalization convention.
#[derive(Clone, Copy, Debug, PartialEq, Eq, Structural)]
pub enum Normalization {
    /// The maximum of the total electric field amplitude is 1 (works for every mode).
    MaxField,
    /// The integrated z-component of the Poynting vector has absolute value 1
    /// (lossless guided modes only).
    Power,
}

impl Default for Normalization {
    /// `MaxField` is the default normalization.
    fn default() -> (n: Normalization)
        ensures
            n == Normalization::MaxField,
    {
        Normalization::MaxField
    }
}

} // verus!
