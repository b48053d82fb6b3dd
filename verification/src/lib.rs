//! A Core War Memory Array Redcode Simulator: the Redcode instruction model,
//! the circular arena and its modular arithmetic, the execution engine, and
//! the game that is played in it.

pub mod address;
pub mod game;
pub mod parse;
pub mod redcode;
pub mod simulation;
pub mod text;
