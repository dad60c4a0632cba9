//! Game logic of a twin-stick arena shooter: an id-keyed object store,
//! enemy spawning and scoring rules, controller bit handling and the
//! integer index arithmetic of the background grid.

pub mod simulation;
pub mod sound;
