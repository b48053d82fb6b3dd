//! The execution engine: the arena, the address resolver, the instruction
//! executor, the scheduler and the loader.

pub mod arena;
pub mod builder;
pub mod event;
pub mod executor;
pub mod laws;
pub mod mars;
pub mod resolver;
pub mod state;
pub mod warriors;

pub use self::builder::MarsBuilder;
pub use self::event::{LoadError, SimulationEvent};
pub use self::mars::Mars;
pub use self::state::{Limits, Pid, Pin};
