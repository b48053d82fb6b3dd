//! What a step of the simulator reports, and what a load can refuse.

use vstd::prelude::*;

verus! {

/// What one call of `step` did.
#[derive(Debug, Copy, Clone, PartialEq, Eq, Structural)]
pub enum SimulationEvent {
    /// The cycle budget is used up and processes are left: the match is a
    /// draw. Nothing was executed. A simulator reports its draw once.
    MaxCyclesReached,
    /// The thread started a new thread and went on to the next instruction.
    Split,
    /// The thread terminated: it executed `DAT`, divided by zero, or touched
    /// private storage of size zero.
    Terminated,
    /// The simulator is halted: no process is left to run, or the draw was
    /// reported before. Nothing was executed.
    Halted,
    /// The thread jumped.
    Jumped,
    /// The thread skipped the next instruction.
    Skipped,
    /// The thread went on to the next instruction.
    Stepped,
}

/// Why a program was not loaded. A refused load leaves the simulator as it was.
#[derive(Debug, Copy, Clone, PartialEq, Eq, Structural)]
pub enum LoadError {
    /// The program is longer than `max_length`.
    InvalidLength,
    /// Two programs of a batch are closer than `min_distance`.
    InvalidDistance,
    /// The batch holds no program.
    EmptyLoad,
    /// The pin is already in use.
    PinConflict,
}

} // verus!
