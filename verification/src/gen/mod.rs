//! Generators: the integer logic of the release 1.2 generator and of the legacy
//! threaded level source.

pub mod r102;
pub mod legacy;
pub mod release102;
pub mod cave;
