//! The simulator as a mathematical object: its state, the condition that
//! every reachable state meets, and the functions from a state to the next
//! one that `step` and the loader compute.

use crate::address::wrap_add;
use crate::redcode::Instruction;
use crate::simulation::arena::{arena_valid, cleared, normalized};
use crate::simulation::event::{LoadError, SimulationEvent};
use crate::simulation::executor::{executed, Control, Outcome};
use crate::simulation::resolver::{post_applied, pre_applied, resolved};
use vstd::prelude::*;

verus! {

/// Identifies a process: the loader gives every process a fresh one.
pub type Pid = usize;

/// A key that the caller may give a process when it is loaded. No two
/// processes of a simulator share one.
pub type Pin = usize;

/// The limits a simulator is built with. The size of the arena is not among
/// them: it is the length of the arena itself.
#[derive(Debug, Clone, Copy, PartialEq, Eq, Structural)]
pub struct Limits {
    /// The number of cells of each process's private storage.
    pub pspace_size: usize,
    /// The number of cycles after which the match is a draw.
    pub max_cycles: usize,
    /// The most threads that one process can hold.
    pub max_processes: usize,
    /// The longest program that is loaded.
    pub max_length: usize,
    /// The least distance between two programs of a batch.
    pub min_distance: usize,
    /// The version of the simulator, times 100.
    pub version: usize,
}

impl Limits {
    /// The most threads that one process ever holds: `max_processes`, but
    /// one where that is zero, for a process is loaded with a thread.
    pub open spec fn thread_bound(self) -> int {
        if self.max_processes == 0 {
            1
        } else {
            self.max_processes as int
        }
    }
}

/// A process: a loaded program with its threads. Its private storage is
/// kept by the simulator, under its pid.
pub struct ProcessView {
    pub pid: Pid,
    pub pin: Option<Pin>,
    /// The program counters of the threads; the first is the next to run.
    pub threads: Seq<u32>,
}

impl ProcessView {
    /// What holds of every process of a simulator with an arena of `m`
    /// cells: it has a thread, no more threads than the limit allows, and
    /// every program counter lies in `[0, m)`.
    pub open spec fn valid(self, m: int, limits: Limits) -> bool {
        &&& 0 < self.threads.len() <= limits.thread_bound()
        &&& forall|j: int| 0 <= j < self.threads.len() ==> #[trigger] self.threads[j] < m
    }
}

/// Whether a private storage is that of a simulator with an arena of `m`
/// cells: it has the size that was configured, and every value in it lies in
/// `[0, m)`.
pub open spec fn storage_valid(cells: Seq<u32>, m: int, limits: Limits) -> bool {
    &&& cells.len() == limits.pspace_size
    &&& forall|k: int| 0 <= k < cells.len() ==> #[trigger] cells[k] < m
}

/// The state of a simulator.
pub struct MarsView {
    pub arena: Seq<Instruction>,
    /// The scheduler: the processes that are alive; the first is the next to
    /// run.
    pub processes: Seq<ProcessView>,
    /// The private storage of every process that was loaded since the last
    /// hard reset, by its pid: read and written by the `LDP` and `STP` of
    /// that process alone. It outlives the process, and a reset.
    pub storage: Map<Pid, Seq<u32>>,
    /// The pins that are in use, each with the pid of the process that was
    /// loaded under it. A pin stays in use as long as its storage is kept.
    pub pins: Map<Pin, Pid>,
    /// The number of instructions executed since the last reset.
    pub cycle: usize,
    /// The pid that the next process will get.
    pub next_pid: Pid,
    /// Whether a step has reported the draw since the last reset.
    pub draw_reported: bool,
    pub limits: Limits,
}

/// The number of threads of the first `n` processes.
pub open spec fn threads_among(processes: Seq<ProcessView>, n: nat) -> nat
    decreases n,
{
    if n == 0 {
        0
    } else {
        threads_among(processes, (n - 1) as nat) + processes[n - 1].threads.len()
    }
}

/// The program counters of the threads of the first `n` processes, process
/// after process.
pub open spec fn counters_among(processes: Seq<ProcessView>, n: nat) -> Seq<u32>
    decreases n,
{
    if n == 0 {
        Seq::empty()
    } else {
        counters_among(processes, (n - 1) as nat) + processes[n - 1].threads
    }
}

impl MarsView {
    /// What holds of every state that the library hands out, between any two
    /// steps: the arena has a size, and both displacements of every cell lie
    /// in `[0, M)`; every process of the scheduler has a thread, so that a
    /// process is in the scheduler exactly while it has one; every program
    /// counter lies in `[0, M)`; no process holds more threads than the limit
    /// allows; no two processes share a pid; every process has its private
    /// storage, and the pin that it holds is in use for it; every private
    /// storage has the configured size, holds values of `[0, M)` and belongs
    /// to a pid that was given out; the threads can be counted; and a draw
    /// was reported only if the cycle budget is used up.
    pub open spec fn valid(self) -> bool {
        let m = self.arena.len() as int;
        &&& arena_valid(self.arena)
        &&& forall|i: int|
            0 <= i < self.processes.len() ==> (#[trigger] self.processes[i]).valid(m, self.limits)
        &&& forall|i: int|
            0 <= i < self.processes.len() ==> (#[trigger] self.processes[i]).pid < self.next_pid
        &&& forall|i: int, j: int|
            0 <= i < j < self.processes.len() ==> (#[trigger] self.processes[i]).pid != (
            #[trigger] self.processes[j]).pid
        &&& forall|i: int|
            0 <= i < self.processes.len() ==> self.storage.contains_key(
                (#[trigger] self.processes[i]).pid,
            )
        &&& forall|i: int|
            0 <= i < self.processes.len() && (#[trigger] self.processes[i]).pin is Some
                ==> self.pins.contains_key(self.processes[i].pin->0)
                && self.pins[self.processes[i].pin->0] == self.processes[i].pid
        &&& forall|pid: Pid| #[trigger]
            self.storage.contains_key(pid) ==> pid < self.next_pid && storage_valid(
                self.storage[pid],
                m,
                self.limits,
            )
        &&& self.thread_total() <= usize::MAX
        &&& self.draw_reported ==> self.cycle >= self.limits.max_cycles
    }

    /// Whether nothing is left to step: no process is alive, or the cycle
    /// budget is used up.
    pub open spec fn halted(self) -> bool {
        self.processes.len() == 0 || self.cycle >= self.limits.max_cycles
    }

    /// The number of threads of all processes.
    pub open spec fn thread_total(self) -> nat {
        threads_among(self.processes, self.processes.len())
    }

    /// The pid of the one process left, while the cycle budget lasts.
    pub open spec fn winner(self) -> Option<Pid> {
        if self.processes.len() == 1 && self.cycle < self.limits.max_cycles {
            Some(self.processes[0].pid)
        } else {
            None
        }
    }

    /// The program counter of the thread that runs next.
    pub open spec fn pc(self) -> Option<u32> {
        if self.processes.len() > 0 {
            Some(self.processes[0].threads[0])
        } else {
            None
        }
    }

    /// The pid of the process that runs next.
    pub open spec fn pid(self) -> Option<Pid> {
        if self.processes.len() > 0 {
            Some(self.processes[0].pid)
        } else {
            None
        }
    }

    /// The pin of the process that runs next, if it has one.
    pub open spec fn pin(self) -> Option<Pin> {
        if self.processes.len() > 0 {
            self.processes[0].pin
        } else {
            None
        }
    }

    /// Whether the pin is in use: a program was loaded under it since the
    /// last hard reset.
    pub open spec fn pin_in_use(self, pin: Pin) -> bool {
        self.pins.contains_key(pin)
    }

    /// The private storage of the process `pid`, if the simulator keeps it.
    pub open spec fn pspace(self, pid: Pid) -> Option<Seq<u32>> {
        if self.storage.contains_key(pid) {
            Some(self.storage[pid])
        } else {
            None
        }
    }

    /// Whether `n` more processes can be told apart, and their threads
    /// counted with those that there are: a limit of the machine, not of the
    /// game.
    pub open spec fn admits(self, n: nat) -> bool {
        &&& self.next_pid + n <= usize::MAX
        &&& self.thread_total() + n <= usize::MAX
    }

    /// Whether the process that runs next may take one thread more than it
    /// holds: it holds fewer than `max_processes`, and the machine can count
    /// one thread more than there are.
    pub open spec fn has_room(self) -> bool {
        &&& self.processes[0].threads.len() + 1 <= self.limits.max_processes
        &&& self.thread_total() < usize::MAX
    }
}

/// The state of a simulator as it is built: an arena of `size` cells of
/// `DAT.F #0, #0`, no process, cycle zero.
pub open spec fn initial_state(size: nat, limits: Limits) -> MarsView {
    MarsView {
        arena: cleared(size),
        processes: Seq::empty(),
        storage: Map::empty(),
        pins: Map::empty(),
        cycle: 0,
        next_pid: 0,
        draw_reported: false,
        limits,
    }
}

/// The threads of a process after its first thread ran: the others, then
/// the thread itself where it goes on, then the thread it split off.
pub open spec fn requeued(threads: Seq<u32>, control: Control) -> Seq<u32> {
    let rest = threads.drop_first();
    let cont = match control.next {
        Some(pc) => rest.push(pc),
        None => rest,
    };
    match control.spawn {
        Some(pc) => cont.push(pc),
        None => cont,
    }
}

/// What the instruction that the next step runs leaves behind: both
/// operands are resolved against the arena as the step finds it, the
/// pre-decrements are applied, the A operand's first, the opcode is
/// executed, and the post-increments are applied in the same order.
pub open spec fn ran(s: MarsView) -> Outcome {
    let p = s.processes[0];
    let pc = p.threads[0];
    let instr = s.arena[pc as int];
    let ea = resolved(s.arena, pc, instr.a);
    let eb = resolved(s.arena, pc, instr.b);
    let before = pre_applied(pre_applied(s.arena, pc, instr.a), pc, instr.b);
    let out = executed(before, s.storage[p.pid], instr, pc, ea, eb, s.has_room());
    Outcome {
        arena: post_applied(post_applied(out.arena, pc, instr.a), pc, instr.b),
        pspace: out.pspace,
        control: out.control,
    }
}

/// The state after one call of `step`.
///
/// A halted simulator keeps its arena, its scheduler and its cycle counter.
/// Where processes are left and the cycle budget is used up, the step
/// reports the draw, and the state remembers that it did. Otherwise the
/// first thread of the first process executes one instruction, and the
/// process goes to the back of the scheduler, unless it has no thread left.
/// Its private storage is kept as the instruction left it, also where the
/// process ends.
pub open spec fn after_step(s: MarsView) -> MarsView {
    if s.processes.len() == 0 {
        s
    } else if s.cycle >= s.limits.max_cycles {
        MarsView { draw_reported: true, ..s }
    } else {
        let p = s.processes[0];
        let out = ran(s);
        let threads = requeued(p.threads, out.control);
        let q = ProcessView { pid: p.pid, pin: p.pin, threads };
        let rest = s.processes.drop_first();
        MarsView {
            arena: out.arena,
            processes: if threads.len() > 0 {
                rest.push(q)
            } else {
                rest
            },
            storage: s.storage.insert(p.pid, out.pspace),
            pins: s.pins,
            cycle: (s.cycle + 1) as usize,
            next_pid: s.next_pid,
            draw_reported: s.draw_reported,
            limits: s.limits,
        }
    }
}

/// What one call of `step` reports. On a halted simulator: `Halted` where
/// no process is left; where processes are left and the cycle budget is used
/// up, `MaxCyclesReached` the first time, and `Halted` once the draw was
/// reported. Else what the instruction did.
pub open spec fn step_event(s: MarsView) -> SimulationEvent {
    if s.processes.len() == 0 {
        SimulationEvent::Halted
    } else if s.cycle >= s.limits.max_cycles {
        if s.draw_reported {
            SimulationEvent::Halted
        } else {
            SimulationEvent::MaxCyclesReached
        }
    } else {
        ran(s).control.event
    }
}

/// The state after `n` calls of `step`.
pub open spec fn after_steps(s: MarsView, n: nat) -> MarsView
    decreases n,
{
    if n == 0 {
        s
    } else {
        after_step(after_steps(s, (n - 1) as nat))
    }
}

/// What the first `n` calls of `step` report.
pub open spec fn events_of(s: MarsView, n: nat) -> Seq<SimulationEvent>
    decreases n,
{
    if n == 0 {
        Seq::empty()
    } else {
        events_of(s, (n - 1) as nat).push(step_event(after_steps(s, (n - 1) as nat)))
    }
}

/// Whether none of the first `n` calls of `step` finds the simulator halted.
pub open spec fn runs_for(s: MarsView, n: nat) -> bool
    decreases n,
{
    n == 0 || (runs_for(s, (n - 1) as nat) && !after_steps(s, (n - 1) as nat).halted())
}

/// The arena after the first `n` instructions of `program` were written,
/// one cell after the other from `dest` on and around the end of the arena,
/// their displacements reduced modulo its size.
pub open spec fn stamped(arena: Seq<Instruction>, program: Seq<Instruction>, dest: int, n: nat)
    -> Seq<Instruction>
    decreases n,
{
    if n == 0 {
        arena
    } else {
        stamped(arena, program, dest, (n - 1) as nat).update(
            wrap_add(dest, n - 1, arena.len() as int),
            normalized(program[n - 1], arena.len() as int),
        )
    }
}

/// The process that a load creates: one thread at `dest mod m`.
pub open spec fn fresh_process(s: MarsView, dest: u32, pin: Option<Pin>) -> ProcessView {
    ProcessView {
        pid: s.next_pid,
        pin,
        threads: seq![(dest as int % s.arena.len() as int) as u32],
    }
}

/// The private storage that a load creates: zeros.
pub open spec fn fresh_storage(limits: Limits) -> Seq<u32> {
    Seq::new(limits.pspace_size as nat, |k: int| 0u32)
}

/// The state after `program` was loaded at `dest`: the program is in the
/// arena, a process with a fresh pid is at the back of the scheduler, private
/// storage of zeros is kept for it, and its pin, if it has one, is in use.
pub open spec fn after_load(s: MarsView, dest: u32, pin: Option<Pin>, program: Seq<Instruction>)
    -> MarsView {
    MarsView {
        arena: stamped(s.arena, program, dest as int, program.len()),
        processes: s.processes.push(fresh_process(s, dest, pin)),
        storage: s.storage.insert(s.next_pid, fresh_storage(s.limits)),
        pins: match pin {
            Some(wanted) => s.pins.insert(wanted, s.next_pid),
            None => s.pins,
        },
        cycle: s.cycle,
        next_pid: (s.next_pid + 1) as usize,
        draw_reported: s.draw_reported,
        limits: s.limits,
    }
}

/// Why `program` is not loaded with `pin`, if it is not: its length is
/// judged first, then its pin.
pub open spec fn load_error(s: MarsView, pin: Option<Pin>, program: Seq<Instruction>) -> Option<
    LoadError,
> {
    if program.len() > s.limits.max_length {
        Some(LoadError::InvalidLength)
    } else if pin is Some && s.pin_in_use(pin->0) {
        Some(LoadError::PinConflict)
    } else {
        None
    }
}

/// A program of a batch: where it goes, the pin it asks for, and its
/// instructions.
pub type Placement = (u32, Option<Pin>, Seq<Instruction>);

/// The batch that a vector of programs stands for.
pub open spec fn batch_of(programs: Seq<(u32, Option<Pin>, &Vec<Instruction>)>) -> Seq<Placement> {
    programs.map_values(|t: (u32, Option<Pin>, &Vec<Instruction>)| (t.0, t.1, t.2@))
}

/// The distance between the cells `a` and `b` of an arena of `m` cells, the
/// shorter way round.
pub open spec fn circular_distance(a: int, b: int, m: int) -> int {
    let d = if a >= b {
        a - b
    } else {
        b - a
    };
    if d <= m - d {
        d
    } else {
        m - d
    }
}

/// Whether the first cells of every two programs of the batch are at least
/// `min_distance` apart.
pub open spec fn well_spaced(batch: Seq<Placement>, m: int, min_distance: int) -> bool {
    forall|i: int, j: int|
        0 <= i < j < batch.len() ==> circular_distance(
            (#[trigger] batch[i]).0 as int % m,
            (#[trigger] batch[j]).0 as int % m,
            m,
        ) >= min_distance
}

/// Whether every pin that the batch asks for is held by no process and
/// asked for once.
pub open spec fn pins_free(s: MarsView, batch: Seq<Placement>) -> bool {
    &&& forall|i: int|
        0 <= i < batch.len() && (#[trigger] batch[i]).1 is Some ==> !s.pin_in_use(batch[i].1->0)
    &&& forall|i: int, j: int|
        0 <= i < j < batch.len() && (#[trigger] batch[i]).1 is Some ==> (#[trigger] batch[j]).1
            != batch[i].1
}

/// Why the batch is not loaded, if it is not. An empty batch is refused
/// first, then a program that is too long, then two programs that are too
/// close, then a pin that is taken.
pub open spec fn batch_error(s: MarsView, batch: Seq<Placement>) -> Option<LoadError> {
    if batch.len() == 0 {
        Some(LoadError::EmptyLoad)
    } else if exists|i: int| 0 <= i < batch.len() && (#[trigger] batch[i]).2.len() > s.limits.max_length {
        Some(LoadError::InvalidLength)
    } else if !well_spaced(batch, s.arena.len() as int, s.limits.min_distance as int) {
        Some(LoadError::InvalidDistance)
    } else if !pins_free(s, batch) {
        Some(LoadError::PinConflict)
    } else {
        None
    }
}

/// The state after the first `n` programs of the batch were loaded, in
/// their order.
pub open spec fn after_batch(s: MarsView, batch: Seq<Placement>, n: nat) -> MarsView
    decreases n,
{
    if n == 0 {
        s
    } else {
        after_load(after_batch(s, batch, (n - 1) as nat), batch[n - 1].0, batch[n - 1].1, batch[n - 1].2)
    }
}

/// The state after a reset: an arena of `DAT.F #0, #0`, no process, cycle
/// zero, no draw reported. The limits stay, and so do the pid that comes
/// next, every private storage and every pin in use.
pub open spec fn after_reset(s: MarsView) -> MarsView {
    MarsView {
        arena: cleared(s.arena.len()),
        processes: Seq::empty(),
        storage: s.storage,
        pins: s.pins,
        cycle: 0,
        next_pid: s.next_pid,
        draw_reported: false,
        limits: s.limits,
    }
}

/// The state after a hard reset: that after a reset, without any private
/// storage, and with every pin free.
pub open spec fn after_reset_hard(s: MarsView) -> MarsView {
    MarsView { storage: Map::empty(), pins: Map::empty(), ..after_reset(s) }
}

} // verus!
