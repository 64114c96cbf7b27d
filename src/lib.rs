//! Bridging layer between a hand-placed constraint system and a phased
//! circuit builder: imported cells, single-assignment values, ordered phases,
//! an addition gate and deferred equality constraints, all with proved
//! contracts.

pub mod field;
pub mod error;
pub mod cell;
pub mod region;
pub mod manager;
pub mod synth;
pub mod gate;
pub mod laws;
pub mod script;
pub mod circuit;
