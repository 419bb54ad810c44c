//! Electromagnetic mode solver for 1D planar multilayer stacks: the
//! configuration, boundary-condition and stack-layout rules that drive the
//! numerical transfer- and scattering-matrix engines.

pub mod assembly;
pub mod enums;
pub mod grid;
pub mod layer;
pub mod multilayer;
pub mod roots;
pub mod solver;
