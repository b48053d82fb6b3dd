//! The builder: the configuration of a simulator, knob by knob.

use crate::redcode::Instruction;
use crate::simulation::event::LoadError;
use crate::simulation::mars::Mars;
use crate::simulation::state::{
    after_batch, batch_error, batch_of, initial_state, Limits, Pin,
};
use vstd::prelude::*;

verus! {

/// The size of the arena of a simulator built with no size set.
pub const DEFAULT_SIZE: usize = 8000;

/// The limits of a simulator built with none set.
pub open spec fn default_limits() -> Limits {
    Limits {
        pspace_size: 500,
        max_cycles: 80000,
        max_processes: 8000,
        max_length: 100,
        min_distance: 100,
        version: 80,
    }
}

/// Configures a simulator and builds it.
#[derive(Debug, Clone, Copy)]
pub struct MarsBuilder {
    size: usize,
    limits: Limits,
}

impl MarsBuilder {
    /// The number of cells that the arena will have.
    pub closed spec fn arena_size(&self) -> usize {
        self.size
    }

    /// The limits that the simulator will have.
    pub closed spec fn limits(&self) -> Limits {
        self.limits
    }

    /// Whether a simulator can be built: the arena has a cell, and no more
    /// cells than a cell value can count.
    pub open spec fn buildable(&self) -> bool {
        0 < self.arena_size() <= u32::MAX
    }

    /// Whether a simulator can be built, as `build` and `build_and_load`
    /// need it.
    pub fn can_build(&self) -> (r: bool)
        ensures
            r == self.buildable(),
    {
        0 < self.size && self.size <= 0xffff_ffff
    }

    /// A builder with the default configuration: an arena of 8000 cells,
    /// private storage of 500 cells, 80 000 cycles, 8000 threads a process,
    /// programs of at most 100 instructions at least 100 cells apart, and
    /// version 0.8.
    pub fn new() -> (r: Self)
        ensures
            r.arena_size() == DEFAULT_SIZE,
            r.limits() == default_limits(),
            r.buildable(),
    {
        MarsBuilder {
            size: DEFAULT_SIZE,
            limits: Limits {
                pspace_size: 500,
                max_cycles: 80000,
                max_processes: 8000,
                max_length: 100,
                min_distance: 100,
                version: 80,
            },
        }
    }

    /// Builds the simulator and loads the programs into it, as `load_batch`
    /// does. With no program the simulator is built and nothing is loaded.
    pub fn build_and_load(&self, programs: Vec<(u32, Option<Pin>, &Vec<Instruction>)>) -> (r: Result<
        Mars,
        LoadError,
    >)
        requires
            self.buildable(),
        ensures
            ({
                let built = initial_state(self.arena_size() as nat, self.limits());
                if programs@.len() == 0 {
                    r matches Ok(mars) && mars@ == built
                } else {
                    match batch_error(built, batch_of(programs@)) {
                        Some(e) => r matches Err(err) && err == e,
                        None => r matches Ok(mars) && mars@ == after_batch(
                            built,
                            batch_of(programs@),
                            programs@.len(),
                        ),
                    }
                }
            }),
            r matches Ok(mars) ==> mars@.valid(),
    {
        let mut mars = self.build();
        if programs.len() > 0 {
            match mars.load_batch(programs) {
                Ok(()) => Ok(mars),
                Err(e) => Err(e),
            }
        } else {
            Ok(mars)
        }
    }

    /// Builds the simulator: an arena of `DAT.F #0, #0`, no process, cycle
    /// zero. It is halted until a program is loaded.
    pub fn build(&self) -> (mars: Mars)
        requires
            self.buildable(),
        ensures
            mars@ == initial_state(self.arena_size() as nat, self.limits()),
            mars@.valid(),
            mars@.halted(),
            forall|n: nat| n <= usize::MAX ==> #[trigger] mars@.admits(n),
    {
        Mars::with_limits(self.size as u32, self.limits)
    }

    /// Sets the number of cells of the arena.
    pub fn size(&mut self, size: usize) -> (r: &mut Self)
        ensures
            r.arena_size() == size,
            r.limits() == old(self).limits(),
            *final(self) == *final(r),
    {
        self.size = size;
        self
    }

    /// Sets the number of cells of each process's private storage. Zero
    /// turns `LDP` and `STP` into instructions that end the thread.
    pub fn pspace_size(&mut self, size: usize) -> (r: &mut Self)
        ensures
            r.arena_size() == old(self).arena_size(),
            r.limits() == (Limits { pspace_size: size, ..old(self).limits() }),
            *final(self) == *final(r),
    {
        self.limits.pspace_size = size;
        self
    }

    /// Sets the number of cells of each process's private storage, as
    /// `pspace_size` does.
    pub fn p_space_size(&mut self, size: usize) -> (r: &mut Self)
        ensures
            r.arena_size() == old(self).arena_size(),
            r.limits() == (Limits { pspace_size: size, ..old(self).limits() }),
            *final(self) == *final(r),
    {
        self.pspace_size(size)
    }

    /// Sets the number of cycles after which the match is a draw.
    pub fn max_cycles(&mut self, n: usize) -> (r: &mut Self)
        ensures
            r.arena_size() == old(self).arena_size(),
            r.limits() == (Limits { max_cycles: n, ..old(self).limits() }),
            *final(self) == *final(r),
    {
        self.limits.max_cycles = n;
        self
    }

    /// Sets the most threads that one process can hold.
    pub fn max_processes(&mut self, n: usize) -> (r: &mut Self)
        ensures
            r.arena_size() == old(self).arena_size(),
            r.limits() == (Limits { max_processes: n, ..old(self).limits() }),
            *final(self) == *final(r),
    {
        self.limits.max_processes = n;
        self
    }

    /// Sets the longest program that is loaded.
    pub fn max_length(&mut self, n: usize) -> (r: &mut Self)
        ensures
            r.arena_size() == old(self).arena_size(),
            r.limits() == (Limits { max_length: n, ..old(self).limits() }),
            *final(self) == *final(r),
    {
        self.limits.max_length = n;
        self
    }

    /// Sets the least distance between two programs of a batch.
    pub fn min_distance(&mut self, n: usize) -> (r: &mut Self)
        ensures
            r.arena_size() == old(self).arena_size(),
            r.limits() == (Limits { min_distance: n, ..old(self).limits() }),
            *final(self) == *final(r),
    {
        self.limits.min_distance = n;
        self
    }

    /// Sets the version of the simulator, times 100: 80 for version 0.8.
    pub fn version(&mut self, version: usize) -> (r: &mut Self)
        ensures
            r.arena_size() == old(self).arena_size(),
            r.limits() == (Limits { version, ..old(self).limits() }),
            *final(self) == *final(r),
    {
        self.limits.version = version;
        self
    }
}

impl Default for MarsBuilder {
    /// The builder that `new` gives.
    fn default() -> (r: Self)
        ensures
            r.arena_size() == DEFAULT_SIZE,
            r.limits() == default_limits(),
    {
        MarsBuilder::new()
    }
}

impl Default for Mars {
    /// The simulator that a builder with the default configuration builds.
    fn default() -> (mars: Self)
        ensures
            mars@ == initial_state(DEFAULT_SIZE as nat, default_limits()),
            mars@.valid(),
            forall|n: nat| n <= usize::MAX ==> #[trigger] mars@.admits(n),
    {
        MarsBuilder::new().build()
    }
}

} // verus!
