//! The simulator: the arena, the scheduler of processes and their threads,
//! and the loader that places programs.

use crate::address::wrap_add;
use crate::redcode::{Instruction, OpCode};
use crate::simulation::arena::Arena;
use crate::simulation::event::{LoadError, SimulationEvent};
use crate::simulation::executor::{execute, executed, Control};
use crate::simulation::laws::{
    lemma_initial_valid, lemma_load_valid, lemma_reset_valid, lemma_side_effects_keep_arena,
    lemma_load_leaves_room, lemma_stamped_keeps_arena, lemma_step_valid, lemma_threads_grow,
    lemma_threads_without_first,
};
use crate::simulation::resolver::{effective_addr, post_increment, pre_applied, pre_decrement};
use crate::simulation::state::{
    after_batch, after_load, after_reset, after_reset_hard, after_step, after_steps, batch_error,
    batch_of,
    circular_distance, counters_among, events_of, fresh_process, initial_state, load_error,
    pins_free, runs_for, stamped, step_event, threads_among, well_spaced, Limits, MarsView, Pid,
    Pin, ProcessView,
};
use std::collections::{HashMap, VecDeque};
use vstd::prelude::*;

verus! {

broadcast use vstd::std_specs::hash::group_hash_axioms;

/// A process of the scheduler.
#[derive(Debug)]
struct Process {
    pid: Pid,
    pin: Option<Pin>,
    threads: VecDeque<u32>,
}

impl View for Process {
    type V = ProcessView;

    closed spec fn view(&self) -> ProcessView {
        ProcessView { pid: self.pid, pin: self.pin, threads: self.threads@ }
    }
}

/// A Memory Array Redcode Simulator.
///
/// Its view is the state that the contracts speak of. Every simulator that
/// the builder makes has a valid state, and every function keeps it valid.
#[derive(Debug)]
pub struct Mars {
    arena: Arena,
    processes: VecDeque<Process>,
    storage: HashMap<Pid, Vec<u32>>,
    pins: HashMap<Pin, Pid>,
    cycle: usize,
    next_pid: Pid,
    draw_reported: bool,
    limits: Limits,
}

impl View for Mars {
    type V = MarsView;

    closed spec fn view(&self) -> MarsView {
        MarsView {
            arena: self.arena@,
            processes: self.processes@.map_values(|p: Process| p@),
            storage: self.storage@.map_values(|cells: Vec<u32>| cells@),
            pins: self.pins@,
            cycle: self.cycle,
            next_pid: self.next_pid,
            draw_reported: self.draw_reported,
            limits: self.limits,
        }
    }
}

impl Clone for Process {
    /// A process in the same state.
    fn clone(&self) -> (r: Self)
        ensures
            r@ == self@,
    {
        let threads = self.threads.clone();
        assert(threads@ =~= self.threads@);
        Process { pid: self.pid, pin: self.pin, threads }
    }
}

impl Clone for Mars {
    /// A simulator in the same state.
    fn clone(&self) -> (r: Self)
        ensures
            r@ == self@,
    {
        let processes = self.processes.clone();
        assert(processes@.map_values(|p: Process| p@) =~= self.processes@.map_values(
            |p: Process| p@,
        ));
        Mars {
            arena: self.arena.clone(),
            processes,
            storage: self.storage.clone(),
            pins: self.pins.clone(),
            cycle: self.cycle,
            next_pid: self.next_pid,
            draw_reported: self.draw_reported,
            limits: self.limits,
        }
    }
}

/// `n` zeros.
fn zeros(n: usize) -> (r: Vec<u32>)
    ensures
        r@ == Seq::new(n as nat, |k: int| 0u32),
{
    let mut r: Vec<u32> = Vec::new();
    let mut i: usize = 0;
    while i < n
        invariant
            i <= n,
            r@ == Seq::new(i as nat, |k: int| 0u32),
        decreases n - i,
    {
        r.push(0);
        i = i + 1;
        assert(r@ =~= Seq::new(i as nat, |k: int| 0u32));
    }
    r
}

/// A copy of the queue, front first.
fn queue_to_vec(queue: &VecDeque<u32>) -> (r: Vec<u32>)
    ensures
        r@ == queue@,
{
    let n: usize = queue.len();
    let mut r: Vec<u32> = Vec::new();
    let mut i: usize = 0;
    while i < n
        invariant
            i <= n,
            n == queue@.len(),
            r@ == queue@.subrange(0, i as int),
        decreases n - i,
    {
        r.push(queue[i]);
        i = i + 1;
        assert(r@ =~= queue@.subrange(0, i as int));
    }
    assert(r@ =~= queue@);
    r
}

/// A copy of the values.
fn copy_values(values: &Vec<u32>) -> (r: Vec<u32>)
    ensures
        r@ == values@,
{
    let n: usize = values.len();
    let mut r: Vec<u32> = Vec::new();
    let mut i: usize = 0;
    while i < n
        invariant
            i <= n,
            n == values@.len(),
            r@ == values@.subrange(0, i as int),
        decreases n - i,
    {
        r.push(values[i]);
        i = i + 1;
        assert(r@ =~= values@.subrange(0, i as int));
    }
    assert(r@ =~= values@);
    r
}

/// The distance between the cells `a` and `b` of an arena of `m` cells, the
/// shorter way round.
pub fn distance(a: u32, b: u32, m: u32) -> (d: u32)
    requires
        a < m,
        b < m,
    ensures
        d == circular_distance(a as int, b as int, m as int),
{
    let one_way: u32 = if a >= b {
        a - b
    } else {
        b - a
    };
    let other_way: u32 = m - one_way;
    if one_way <= other_way {
        one_way
    } else {
        other_way
    }
}

impl Mars {
    /// A simulator with an arena of `size` cells and no process.
    pub(crate) fn with_limits(size: u32, limits: Limits) -> (r: Self)
        requires
            size > 0,
        ensures
            r@ == initial_state(size as nat, limits),
            r@.valid(),
            forall|n: nat| n <= usize::MAX ==> #[trigger] r@.admits(n),
    {
        proof {
            lemma_initial_valid(size as nat, limits);
        }
        let r = Mars {
            arena: Arena::new(size),
            processes: VecDeque::new(),
            storage: HashMap::new(),
            pins: HashMap::new(),
            cycle: 0,
            next_pid: 0,
            draw_reported: false,
            limits,
        };
        assert(r@.processes =~= Seq::empty());
        assert(r@.storage =~= Map::empty());
        r
    }

    /// The program counter of the thread that runs next, if there is one.
    pub fn pc(&self) -> (r: Option<u32>)
        requires
            self@.valid(),
        ensures
            r == self@.pc(),
    {
        if self.processes.len() > 0 {
            assert(self@.processes[0].valid(self@.arena.len() as int, self@.limits));
            Some(self.processes[0].threads[0])
        } else {
            None
        }
    }

    /// The program counters of all threads: those of the process that runs
    /// next first, each process's in the order in which they run.
    pub fn pcs(&self) -> (r: Vec<u32>)
        ensures
            r@ == counters_among(self@.processes, self@.processes.len()),
    {
        let n: usize = self.processes.len();
        let mut r: Vec<u32> = Vec::new();
        let mut i: usize = 0;
        while i < n
            invariant
                i <= n,
                n == self@.processes.len(),
                r@ == counters_among(self@.processes, i as nat),
            decreases n - i,
        {
            let mut threads = queue_to_vec(&self.processes[i].threads);
            assert(threads@ == self@.processes[i as int].threads);
            r.append(&mut threads);
            i = i + 1;
        }
        r
    }

    /// The number of instructions executed since the last reset.
    pub fn cycle(&self) -> (r: usize)
        ensures
            r == self@.cycle,
    {
        self.cycle
    }

    /// The pid of the process that runs next, if there is one.
    pub fn pid(&self) -> (r: Option<Pid>)
        ensures
            r == self@.pid(),
    {
        if self.processes.len() > 0 {
            Some(self.processes[0].pid)
        } else {
            None
        }
    }

    /// The pin of the process that runs next, if there is one and it has a
    /// pin.
    pub fn pin(&self) -> (r: Option<Pin>)
        ensures
            r == self@.pin(),
    {
        if self.processes.len() > 0 {
            self.processes[0].pin
        } else {
            None
        }
    }

    /// The number of processes that are alive.
    pub fn pcount(&self) -> (r: usize)
        ensures
            r == self@.processes.len(),
    {
        self.processes.len()
    }

    /// The pids of the processes that are alive, in the order in which they
    /// run.
    pub fn pids(&self) -> (r: Vec<Pid>)
        ensures
            r@ == self@.processes.map_values(|p: ProcessView| p.pid),
    {
        let n: usize = self.processes.len();
        let mut r: Vec<Pid> = Vec::new();
        let mut i: usize = 0;
        while i < n
            invariant
                i <= n,
                n == self@.processes.len(),
                r@ == self@.processes.map_values(|p: ProcessView| p.pid).subrange(0, i as int),
            decreases n - i,
        {
            r.push(self.processes[i].pid);
            i = i + 1;
            assert(r@ =~= self@.processes.map_values(|p: ProcessView| p.pid).subrange(0, i as int));
        }
        assert(r@ =~= self@.processes.map_values(|p: ProcessView| p.pid));
        r
    }

    /// The number of cells of the arena.
    pub fn size(&self) -> (r: usize)
        ensures
            r == self@.arena.len(),
            r > 0,
    {
        self.arena.size() as usize
    }

    /// The number of cells of each process's private storage.
    pub fn pspace_size(&self) -> (r: usize)
        ensures
            r == self@.limits.pspace_size,
    {
        self.limits.pspace_size
    }

    /// The version of the simulator, times 100.
    pub fn version(&self) -> (r: usize)
        ensures
            r == self@.limits.version,
    {
        self.limits.version
    }

    /// The most threads that one process can hold. (The name is that of
    /// ICWS, which calls a thread a process.)
    pub fn max_processes(&self) -> (r: usize)
        ensures
            r == self@.limits.max_processes,
    {
        self.limits.max_processes
    }

    /// The number of cycles after which the match is a draw.
    pub fn max_cycles(&self) -> (r: usize)
        ensures
            r == self@.limits.max_cycles,
    {
        self.limits.max_cycles
    }

    /// The longest program that `load` and `load_batch` accept.
    pub fn max_length(&self) -> (r: usize)
        ensures
            r == self@.limits.max_length,
    {
        self.limits.max_length
    }

    /// The least distance between two programs of a batch.
    pub fn min_distance(&self) -> (r: usize)
        ensures
            r == self@.limits.min_distance,
    {
        self.limits.min_distance
    }

    /// The cells of the arena.
    pub fn memory(&self) -> (r: &[Instruction])
        ensures
            r@ == self@.arena,
    {
        self.arena.cells()
    }

    /// The private storage of the process `pid`, if the simulator keeps it:
    /// that is, if the process was loaded since the last hard reset. The
    /// storage of a process outlives the process, and a reset.
    pub fn pspace(&self, pid: Pid) -> (r: Option<Vec<u32>>)
        ensures
            match self@.pspace(pid) {
                Some(cells) => r matches Some(values) && values@ == cells,
                None => r is None,
            },
    {
        match self.storage.get(&pid) {
            Some(cells) => Some(copy_values(cells)),
            None => None,
        }
    }

    /// The number of threads of all processes. (The name is that of ICWS,
    /// which calls a thread a process; `pcount` counts the programs that are
    /// alive.)
    pub fn process_count(&self) -> (r: usize)
        requires
            self@.valid(),
        ensures
            r == self@.thread_total(),
    {
        self.thread_sum()
    }

    /// The number of threads of the processes in the scheduler.
    fn thread_sum(&self) -> (r: usize)
        requires
            self@.thread_total() <= usize::MAX,
        ensures
            r == self@.thread_total(),
    {
        let n: usize = self.processes.len();
        let mut total: usize = 0;
        let mut i: usize = 0;
        while i < n
            invariant
                i <= n,
                n == self@.processes.len(),
                self@.thread_total() <= usize::MAX,
                total == threads_among(self@.processes, i as nat),
            decreases n - i,
        {
            proof {
                lemma_threads_grow(self@.processes, (i + 1) as nat, n as nat);
            }
            total = total + self.processes[i].threads.len();
            i = i + 1;
        }
        total
    }

    /// The processes that are alive, in the order in which they run: of
    /// each its pid, its private storage and the program counters of its
    /// threads.
    pub fn processes(&self) -> (r: Vec<(Pid, Vec<u32>, Vec<u32>)>)
        requires
            self@.valid(),
        ensures
            r@.len() == self@.processes.len(),
            forall|i: int|
                0 <= i < r@.len() ==> (#[trigger] r@[i]).0 == self@.processes[i].pid && r@[i].1@
                    == self@.storage[self@.processes[i].pid] && r@[i].2@
                    == self@.processes[i].threads,
    {
        let n: usize = self.processes.len();
        let mut r: Vec<(Pid, Vec<u32>, Vec<u32>)> = Vec::new();
        let mut i: usize = 0;
        while i < n
            invariant
                i <= n,
                n == self@.processes.len(),
                r@.len() == i,
                self@.valid(),
                forall|k: int|
                    0 <= k < i ==> (#[trigger] r@[k]).0 == self@.processes[k].pid && r@[k].1@
                        == self@.storage[self@.processes[k].pid] && r@[k].2@
                        == self@.processes[k].threads,
            decreases n - i,
        {
            let p = &self.processes[i];
            assert(self@.storage.contains_key(self@.processes[i as int].pid));
            r.push((p.pid, self.cells_of(p.pid), queue_to_vec(&p.threads)));
            i = i + 1;
        }
        r
    }

    /// The program counters of the threads of every process, with its pid.
    pub fn process_queues(&self) -> (r: Vec<(Pid, Vec<u32>)>)
        ensures
            r@.len() == self@.processes.len(),
            forall|i: int|
                0 <= i < r@.len() ==> (#[trigger] r@[i]).0 == self@.processes[i].pid && r@[i].1@
                    == self@.processes[i].threads,
    {
        let n: usize = self.processes.len();
        let mut r: Vec<(Pid, Vec<u32>)> = Vec::new();
        let mut i: usize = 0;
        while i < n
            invariant
                i <= n,
                n == self@.processes.len(),
                r@.len() == i,
                forall|k: int|
                    0 <= k < i ==> (#[trigger] r@[k]).0 == self@.processes[k].pid && r@[k].1@
                        == self@.processes[k].threads,
            decreases n - i,
        {
            let p = &self.processes[i];
            r.push((p.pid, queue_to_vec(&p.threads)));
            i = i + 1;
        }
        r
    }

    /// A copy of the private storage that is kept under `pid`.
    fn cells_of(&self, pid: Pid) -> (r: Vec<u32>)
        requires
            self@.storage.contains_key(pid),
        ensures
            r@ == self@.storage[pid],
    {
        match self.storage.get(&pid) {
            Some(cells) => copy_values(cells),
            None => Vec::new(),
        }
    }

    /// The private storage of every process that is alive, with its pid.
    pub fn process_pspaces(&self) -> (r: Vec<(Pid, Vec<u32>)>)
        requires
            self@.valid(),
        ensures
            r@.len() == self@.processes.len(),
            forall|i: int|
                0 <= i < r@.len() ==> (#[trigger] r@[i]).0 == self@.processes[i].pid && r@[i].1@
                    == self@.storage[self@.processes[i].pid],
    {
        let n: usize = self.processes.len();
        let mut r: Vec<(Pid, Vec<u32>)> = Vec::new();
        let mut i: usize = 0;
        while i < n
            invariant
                i <= n,
                n == self@.processes.len(),
                r@.len() == i,
                self@.valid(),
                forall|k: int|
                    0 <= k < i ==> (#[trigger] r@[k]).0 == self@.processes[k].pid && r@[k].1@
                        == self@.storage[self@.processes[k].pid],
            decreases n - i,
        {
            let p = &self.processes[i];
            assert(self@.storage.contains_key(self@.processes[i as int].pid));
            r.push((p.pid, self.cells_of(p.pid)));
            i = i + 1;
        }
        r
    }

    /// The number of threads of every process, with its pid.
    pub fn thread_count(&self) -> (r: Vec<(Pid, usize)>)
        ensures
            r@.len() == self@.processes.len(),
            forall|i: int|
                0 <= i < r@.len() ==> (#[trigger] r@[i]).0 == self@.processes[i].pid && r@[i].1
                    == self@.processes[i].threads.len(),
    {
        let n: usize = self.processes.len();
        let mut r: Vec<(Pid, usize)> = Vec::new();
        let mut i: usize = 0;
        while i < n
            invariant
                i <= n,
                n == self@.processes.len(),
                r@.len() == i,
                forall|k: int|
                    0 <= k < i ==> (#[trigger] r@[k]).0 == self@.processes[k].pid && r@[k].1
                        == self@.processes[k].threads.len(),
            decreases n - i,
        {
            let p = &self.processes[i];
            r.push((p.pid, p.threads.len()));
            i = i + 1;
        }
        r
    }

    /// The pid of the one process left, while the cycle budget lasts. A
    /// match that ran out of cycles, or that more than one process survives,
    /// has no winner.
    pub fn winner(&self) -> (r: Option<Pid>)
        ensures
            r == self@.winner(),
    {
        if self.processes.len() == 1 && self.cycle < self.limits.max_cycles {
            Some(self.processes[0].pid)
        } else {
            None
        }
    }

    /// Whether `n` more processes can be told apart and their threads
    /// counted, as `load`, `load_program` and `load_batch` need it.
    pub fn admits(&self, n: usize) -> (r: bool)
        requires
            self@.valid(),
        ensures
            r == self@.admits(n as nat),
    {
        self.next_pid.checked_add(n).is_some() && self.thread_sum().checked_add(n).is_some()
    }

    /// Whether nothing is left to step: no process is alive, or the cycle
    /// budget is used up.
    pub fn halted(&self) -> (r: bool)
        ensures
            r == self@.halted(),
    {
        self.processes.len() == 0 || self.cycle >= self.limits.max_cycles
    }

    /// Writes `instructions` into the arena, one cell after the other from
    /// `address` on and around the end of the arena, their displacements
    /// reduced modulo its size.
    pub fn set_memory(&mut self, instructions: &[Instruction], address: u32)
        requires
            old(self)@.valid(),
        ensures
            final(self)@ == (MarsView {
                arena: stamped(
                    old(self)@.arena,
                    instructions@,
                    address as int,
                    instructions@.len(),
                ),
                ..old(self)@
            }),
            final(self)@.valid(),
    {
        let ghost s = self@;
        let ghost m = s.arena.len() as int;
        let n: usize = instructions.len();
        let mut at: u32 = self.arena.add(address, 0);
        let mut i: usize = 0;
        while i < n
            invariant
                i <= n,
                n == instructions@.len(),
                m == s.arena.len(),
                0 < m,
                at == wrap_add(address as int, i as int, m),
                self@ == (MarsView {
                    arena: stamped(s.arena, instructions@, address as int, i as nat),
                    ..s
                }),
                self@.arena.len() == m,
            decreases n - i,
        {
            let cell = self.arena.normalize(instructions[i]);
            self.arena.store(at, cell);
            proof {
                vstd::arithmetic::div_mod::lemma_add_mod_noop(address as int + i as int, 1, m);
                vstd::arithmetic::div_mod::lemma_add_mod_noop_right(
                    (address as int + i as int) % m,
                    1,
                    m,
                );
            }
            at = self.arena.add(at, 1);
            i = i + 1;
        }
        proof {
            lemma_stamped_keeps_arena(s.arena, instructions@, address as int, n as nat);
        }
    }

    /// Loads `program` at `address` without judging it: writes it into the
    /// arena and gives it a process with one thread at `address mod M`, no
    /// pin, and private storage of zeros. Returns the pid of the process.
    pub fn load_program(&mut self, program: &[Instruction], address: u32) -> (pid: Pid)
        requires
            old(self)@.valid(),
            old(self)@.admits(1),
        ensures
            final(self)@ == after_load(old(self)@, address, None, program@),
            pid == old(self)@.next_pid,
            final(self)@.valid(),
    {
        self.place(address, None, program)
    }

    /// Writes `program` into the arena and gives it a process that holds
    /// `pin`, with private storage of zeros.
    pub(crate) fn place(&mut self, address: u32, pin: Option<Pin>, program: &[Instruction]) -> (pid: Pid)
        requires
            old(self)@.valid(),
            old(self)@.admits(1),
            pin is Some ==> !old(self)@.pin_in_use(pin->0),
        ensures
            final(self)@ == after_load(old(self)@, address, pin, program@),
            pid == old(self)@.next_pid,
            final(self)@.valid(),
    {
        let ghost s = self@;
        proof {
            lemma_load_valid(s, address, pin, program@);
        }
        self.set_memory(program, address);
        let pid: Pid = self.next_pid;
        let mut threads: VecDeque<u32> = VecDeque::new();
        threads.push_back(address % self.arena.size());
        let process = Process { pid, pin, threads };
        assert(process@.threads =~= fresh_process(s, address, pin).threads);
        assert(process@ == fresh_process(s, address, pin));
        self.processes.push_back(process);
        self.storage.insert(pid, zeros(self.limits.pspace_size));
        match pin {
            Some(wanted) => {
                self.pins.insert(wanted, pid);
            },
            None => {},
        }
        self.next_pid = self.next_pid + 1;
        assert(self@.processes =~= after_load(s, address, pin, program@).processes);
        assert(self@.storage =~= after_load(s, address, pin, program@).storage);
        pid
    }

    /// Whether the pin is in use: a program was loaded under it since the
    /// last hard reset.
    pub fn pin_in_use(&self, pin: Pin) -> (r: bool)
        ensures
            r == self@.pin_in_use(pin),
    {
        self.pins.contains_key(&pin)
    }

    /// Loads `program` at `dest`: writes it into the arena and gives it a
    /// process with one thread at `dest mod M` and private storage of zeros.
    /// Returns the pid of the process.
    ///
    /// A program longer than `max_length` is refused with `InvalidLength`, a
    /// pin that is in use with `PinConflict`; the simulator then stays as it
    /// was. A pin is in use from the load that takes it to the next hard
    /// reset.
    pub fn load(&mut self, dest: u32, pin: Option<Pin>, program: &Vec<Instruction>) -> (r: Result<
        Pid,
        LoadError,
    >)
        requires
            old(self)@.valid(),
            old(self)@.admits(1),
        ensures
            match load_error(old(self)@, pin, program@) {
                Some(e) => r == Err::<Pid, LoadError>(e) && final(self)@ == old(self)@,
                None => r == Ok::<Pid, LoadError>(old(self)@.next_pid) && final(self)@ == after_load(
                    old(self)@,
                    dest,
                    pin,
                    program@,
                ),
            },
            final(self)@.valid(),
    {
        if program.len() > self.limits.max_length {
            return Err(LoadError::InvalidLength);
        }
        match pin {
            Some(wanted) => {
                if self.pin_in_use(wanted) {
                    return Err(LoadError::PinConflict);
                }
            },
            None => {},
        }
        Ok(self.place(dest, pin, program.as_slice()))
    }

    /// Whether no program of the batch is longer than `max_length`.
    fn lengths_fit(&self, programs: &Vec<(u32, Option<Pin>, &Vec<Instruction>)>) -> (r: bool)
        ensures
            r == !(exists|i: int|
                0 <= i < programs@.len() && (#[trigger] batch_of(programs@)[i]).2.len()
                    > self@.limits.max_length),
    {
        let n: usize = programs.len();
        let mut i: usize = 0;
        while i < n
            invariant
                i <= n,
                n == programs@.len(),
                forall|k: int|
                    0 <= k < i ==> (#[trigger] batch_of(programs@)[k]).2.len()
                        <= self@.limits.max_length,
            decreases n - i,
        {
            if programs[i].2.len() > self.limits.max_length {
                assert(batch_of(programs@)[i as int].2.len() > self@.limits.max_length);
                return false;
            }
            i = i + 1;
        }
        true
    }

    /// Whether the first cells of every two programs of the batch are at
    /// least `min_distance` apart.
    fn spaced(&self, programs: &Vec<(u32, Option<Pin>, &Vec<Instruction>)>) -> (r: bool)
        ensures
            r == well_spaced(
                batch_of(programs@),
                self@.arena.len() as int,
                self@.limits.min_distance as int,
            ),
    {
        let ghost batch = batch_of(programs@);
        let m: u32 = self.arena.size();
        let n: usize = programs.len();
        let mut j: usize = 0;
        while j < n
            invariant
                j <= n,
                n == programs@.len(),
                m == self@.arena.len(),
                m > 0,
                batch == batch_of(programs@),
                forall|a: int, b: int|
                    0 <= a < b < j ==> circular_distance(
                        (#[trigger] batch[a]).0 as int % m as int,
                        (#[trigger] batch[b]).0 as int % m as int,
                        m as int,
                    ) >= self@.limits.min_distance,
            decreases n - j,
        {
            let here: u32 = programs[j].0 % m;
            let mut i: usize = 0;
            while i < j
                invariant
                    i <= j,
                    j < n,
                    n == programs@.len(),
                    m == self@.arena.len(),
                    m > 0,
                    here == programs@[j as int].0 % m,
                    batch == batch_of(programs@),
                    forall|a: int|
                        0 <= a < i ==> circular_distance(
                            (#[trigger] batch[a]).0 as int % m as int,
                            batch[j as int].0 as int % m as int,
                            m as int,
                        ) >= self@.limits.min_distance,
                decreases j - i,
            {
                let there: u32 = programs[i].0 % m;
                let d: u32 = distance(there, here, m);
                if (d as usize) < self.limits.min_distance {
                    assert(circular_distance(
                        batch[i as int].0 as int % m as int,
                        batch[j as int].0 as int % m as int,
                        m as int,
                    ) < self@.limits.min_distance);
                    return false;
                }
                i = i + 1;
            }
            j = j + 1;
        }
        true
    }

    /// Whether every pin that the batch asks for is held by no process and
    /// asked for once.
    fn pins_free(&self, programs: &Vec<(u32, Option<Pin>, &Vec<Instruction>)>) -> (r: bool)
        ensures
            r == pins_free(self@, batch_of(programs@)),
    {
        let ghost batch = batch_of(programs@);
        let n: usize = programs.len();
        let mut j: usize = 0;
        while j < n
            invariant
                j <= n,
                n == programs@.len(),
                batch == batch_of(programs@),
                forall|a: int|
                    0 <= a < j && (#[trigger] batch[a]).1 is Some ==> !self@.pin_in_use(batch[a].1->0),
                forall|a: int, b: int|
                    0 <= a < b < j && (#[trigger] batch[a]).1 is Some ==> (#[trigger] batch[b]).1
                        != batch[a].1,
            decreases n - j,
        {
            match programs[j].1 {
                Some(wanted) => {
                    if self.pin_in_use(wanted) {
                        assert(batch[j as int].1 == Some(wanted));
                        return false;
                    }
                },
                None => {},
            }
            let mut i: usize = 0;
            while i < j
                invariant
                    i <= j,
                    j < n,
                    n == programs@.len(),
                    batch == batch_of(programs@),
                    forall|a: int|
                        0 <= a < i && (#[trigger] batch[a]).1 is Some ==> batch[j as int].1
                            != batch[a].1,
                decreases j - i,
            {
                match programs[i].1 {
                    Some(earlier) => {
                        match programs[j].1 {
                            Some(later) => {
                                if earlier == later {
                                    assert(batch[i as int].1 == Some(earlier));
                                    assert(batch[j as int].1 == batch[i as int].1);
                                    return false;
                                }
                            },
                            None => {},
                        }
                    },
                    None => {},
                }
                i = i + 1;
            }
            j = j + 1;
        }
        true
    }

    /// Loads the programs of a batch, in their order, each as `load` does.
    ///
    /// An empty batch is refused with `EmptyLoad`, a program longer than
    /// `max_length` with `InvalidLength`, two programs whose first cells are
    /// closer than `min_distance` on the circular arena with
    /// `InvalidDistance`, and a pin that a process holds or that the batch
    /// asks for twice with `PinConflict`. A refused batch leaves the
    /// simulator as it was: no program of it is loaded.
    pub fn load_batch(&mut self, programs: Vec<(u32, Option<Pin>, &Vec<Instruction>)>) -> (r: Result<
        (),
        LoadError,
    >)
        requires
            old(self)@.valid(),
            old(self)@.admits(programs@.len()),
        ensures
            match batch_error(old(self)@, batch_of(programs@)) {
                Some(e) => r == Err::<(), LoadError>(e) && final(self)@ == old(self)@,
                None => r == Ok::<(), LoadError>(()) && final(self)@ == after_batch(
                    old(self)@,
                    batch_of(programs@),
                    programs@.len(),
                ),
            },
            final(self)@.valid(),
    {
        let ghost s = self@;
        let ghost batch = batch_of(programs@);
        let n: usize = programs.len();
        if n == 0 {
            return Err(LoadError::EmptyLoad);
        }
        if !self.lengths_fit(&programs) {
            return Err(LoadError::InvalidLength);
        }
        if !self.spaced(&programs) {
            return Err(LoadError::InvalidDistance);
        }
        if !self.pins_free(&programs) {
            return Err(LoadError::PinConflict);
        }
        let mut i: usize = 0;
        while i < n
            invariant
                i <= n,
                n == programs@.len(),
                batch == batch_of(programs@),
                pins_free(s, batch),
                self@ == after_batch(s, batch, i as nat),
                self@.valid(),
                self@.admits((n - i) as nat),
                forall|pin: Pin|
                    self@.pin_in_use(pin) ==> s.pin_in_use(pin) || exists|k: int|
                        0 <= k < i && (#[trigger] batch[k]).1 == Some(pin),
            decreases n - i,
        {
            let ghost before = self@;
            let (dest, pin, program) = programs[i];
            assert(batch[i as int] == (dest, pin, program@));
            proof {
                if pin is Some && before.pin_in_use(pin->0) {
                    if !s.pin_in_use(pin->0) {
                        let k = choose|k: int| 0 <= k < i && (#[trigger] batch[k]).1 == pin;
                        assert(batch[i as int].1 != batch[k].1);
                    }
                    assert(false);
                }
                lemma_load_leaves_room(before, dest, pin, program@, (n - i - 1) as nat);
            }
            self.place(dest, pin, program.as_slice());
            proof {
                let now = self@;
                assert forall|wanted: Pin| now.pin_in_use(wanted) implies s.pin_in_use(wanted)
                    || exists|k: int| 0 <= k < i + 1 && (#[trigger] batch[k]).1 == Some(wanted) by {
                    if !before.pin_in_use(wanted) {
                        assert(batch[i as int].1 == Some(wanted));
                    }
                }
            }
            i = i + 1;
        }
        Ok(())
    }

    /// Clears the arena to `DAT.F #0, #0`, empties the scheduler and sets the
    /// cycle counter to zero. Every private storage is kept, with what it
    /// holds, and every pin in use stays in use.
    pub fn reset(&mut self)
        requires
            old(self)@.valid(),
        ensures
            final(self)@ == after_reset(old(self)@),
            final(self)@.storage == old(self)@.storage,
            final(self)@.pins == old(self)@.pins,
            final(self)@.valid(),
    {
        proof {
            lemma_reset_valid(self@);
        }
        self.arena.clear();
        self.processes.clear();
        self.cycle = 0;
        self.draw_reported = false;
        assert(self@.processes =~= Seq::empty());
    }

    /// Resets the simulator, as `reset` does, and clears all private storage
    /// besides: none is kept, and every pin is free.
    pub fn reset_hard(&mut self)
        requires
            old(self)@.valid(),
        ensures
            final(self)@ == after_reset_hard(old(self)@),
            forall|pid: Pid| final(self)@.pspace(pid) is None,
            forall|pin: Pin| !final(self)@.pin_in_use(pin),
            final(self)@.valid(),
    {
        proof {
            lemma_reset_valid(self@);
        }
        self.reset();
        self.storage.clear();
        self.pins.clear();
        assert(self@.storage =~= Map::empty());
    }

    /// Executes one instruction of the first thread of the first process,
    /// and counts one cycle: the thread's new program counter goes to the
    /// back of the process's threads, behind it the thread that a `SPL`
    /// started, and the process goes to the back of the scheduler unless it
    /// has no thread left.
    ///
    /// A halted simulator keeps its arena, its scheduler and its cycle
    /// counter, however often it is stepped. Where no process is left the
    /// step reports `Halted`. Where processes are left and the cycle budget
    /// is used up, the first such step reports the draw,
    /// `MaxCyclesReached`, and every later one `Halted`, until the simulator
    /// is reset.
    #[verifier::rlimit(30)]
    pub fn step(&mut self) -> (event: SimulationEvent)
        requires
            old(self)@.valid(),
        ensures
            final(self)@ == after_step(old(self)@),
            event == step_event(old(self)@),
            final(self)@.valid(),
            old(self)@.halted() ==> final(self)@.arena == old(self)@.arena && final(self)@.processes
                == old(self)@.processes && final(self)@.cycle == old(self)@.cycle,
            !old(self)@.halted() ==> final(self)@.cycle > old(self)@.cycle,
    {
        proof {
            lemma_step_valid(self@);
        }
        if self.processes.len() == 0 {
            return SimulationEvent::Halted;
        }
        if self.cycle >= self.limits.max_cycles {
            if self.draw_reported {
                return SimulationEvent::Halted;
            }
            self.draw_reported = true;
            return SimulationEvent::MaxCyclesReached;
        }
        let ghost s = self@;
        let ghost m = s.arena.len() as int;
        assert(s.processes[0].valid(m, s.limits));
        let mut p = self.processes.pop_front().unwrap();
        assert(p@ == s.processes[0]);
        let pc: u32 = p.threads.pop_front().unwrap();
        let instr = self.arena.fetch(pc);
        let ea: u32 = effective_addr(&self.arena, pc, instr.a);
        let eb: u32 = effective_addr(&self.arena, pc, instr.b);
        proof {
            lemma_side_effects_keep_arena(s.arena, pc, instr.a);
            lemma_side_effects_keep_arena(pre_applied(s.arena, pc, instr.a), pc, instr.b);
        }
        pre_decrement(&mut self.arena, pc, instr.a);
        pre_decrement(&mut self.arena, pc, instr.b);
        proof {
            assert(self@.processes =~= s.processes.drop_first());
            lemma_threads_without_first(s.processes, (s.processes.len() - 1) as nat);
        }
        let room: bool = match instr.op.code {
            OpCode::Spl => self.room_beside(&p),
            _ => false,
        };
        let ghost before = self.arena@;
        let ghost storage = s.storage[p.pid];
        assert(s.storage.contains_key(p.pid));
        assert(executed(before, storage, instr, pc, ea as int, eb as int, room) == executed(
            before,
            storage,
            instr,
            pc,
            ea as int,
            eb as int,
            s.has_room(),
        ));
        let control = match instr.op.code {
            OpCode::Ldp | OpCode::Stp => self.execute_with_storage(p.pid, instr, pc, ea, eb, room),
            _ => {
                let mut none: Vec<u32> = Vec::new();
                assert(executed(before, none@, instr, pc, ea as int, eb as int, room).arena
                    == executed(before, storage, instr, pc, ea as int, eb as int, room).arena);
                assert(executed(before, none@, instr, pc, ea as int, eb as int, room).control
                    == executed(before, storage, instr, pc, ea as int, eb as int, room).control);
                assert(executed(before, storage, instr, pc, ea as int, eb as int, room).pspace
                    == storage);
                assert(s.storage.insert(p.pid, storage) =~= s.storage);
                execute(&mut self.arena, &mut none, instr, pc, ea, eb, room)
            },
        };
        post_increment(&mut self.arena, pc, instr.a);
        post_increment(&mut self.arena, pc, instr.b);
        if let Some(next) = control.next {
            p.threads.push_back(next);
        }
        if let Some(spawn) = control.spawn {
            p.threads.push_back(spawn);
        }
        if p.threads.len() > 0 {
            self.processes.push_back(p);
        }
        self.cycle = self.cycle + 1;
        assert(self@.processes =~= after_step(s).processes);
        control.event
    }

    /// Executes `instr` on the arena and on the private storage that is kept
    /// under `pid`.
    fn execute_with_storage(
        &mut self,
        pid: Pid,
        instr: Instruction,
        pc: u32,
        ea: u32,
        eb: u32,
        room: bool,
    ) -> (control: Control)
        requires
            old(self)@.storage.contains_key(pid),
            ea < old(self)@.arena.len(),
            eb < old(self)@.arena.len(),
        ensures
            ({
                let out = executed(
                    old(self)@.arena,
                    old(self)@.storage[pid],
                    instr,
                    pc,
                    ea as int,
                    eb as int,
                    room,
                );
                &&& control == out.control
                &&& final(self)@ == (MarsView {
                    arena: out.arena,
                    storage: old(self)@.storage.insert(pid, out.pspace),
                    ..old(self)@
                })
            }),
    {
        let ghost s = self@;
        match self.storage.remove(&pid) {
            Some(cells) => {
                let mut cells = cells;
                let control = execute(&mut self.arena, &mut cells, instr, pc, ea, eb, room);
                let ghost kept = cells@;
                self.storage.insert(pid, cells);
                assert(self@.storage =~= s.storage.insert(pid, kept));
                control
            },
            None => {
                let mut none: Vec<u32> = Vec::new();
                execute(&mut self.arena, &mut none, instr, pc, ea, eb, room)
            },
        }
    }

    /// Whether the process `running`, taken from the front of the scheduler
    /// with its first thread taken from it, may take one thread more than it
    /// held: it held fewer than `max_processes`, and the machine can count
    /// one thread more than there were.
    fn room_beside(&self, running: &Process) -> (room: bool)
        requires
            running@.threads.len() < usize::MAX,
            self@.thread_total() + running@.threads.len() + 1 <= usize::MAX,
        ensures
            room == (running@.threads.len() + 2 <= self@.limits.max_processes
                && self@.thread_total() + running@.threads.len() + 1 < usize::MAX),
    {
        let cap: usize = self.limits.max_processes;
        if cap >= 2 && running.threads.len() <= cap - 2 {
            let others: usize = self.thread_sum();
            others < usize::MAX - running.threads.len() - 1
        } else {
            false
        }
    }

    /// Steps until the simulator is halted. Returns what the steps
    /// reported, the last of them the step that found the simulator halted:
    /// `Halted` where no process was left or the draw was reported before,
    /// `MaxCyclesReached` where this step reported the draw.
    pub fn complete(&mut self) -> (events: Vec<SimulationEvent>)
        requires
            old(self)@.valid(),
        ensures
            events@.len() > 0,
            runs_for(old(self)@, (events@.len() - 1) as nat),
            after_steps(old(self)@, (events@.len() - 1) as nat).halted(),
            final(self)@ == after_steps(old(self)@, events@.len()),
            final(self)@.halted(),
            final(self)@.valid(),
            events@ == events_of(old(self)@, events@.len()),
    {
        let ghost s = self@;
        let mut events: Vec<SimulationEvent> = Vec::new();
        loop
            invariant_except_break
                runs_for(s, events@.len()),
            invariant
                self@ == after_steps(s, events@.len()),
                self@.valid(),
                self@.limits == s.limits,
                events@ == events_of(s, events@.len()),
            ensures
                events@.len() > 0,
                runs_for(s, (events@.len() - 1) as nat),
                after_steps(s, (events@.len() - 1) as nat).halted(),
                self@ == after_steps(s, events@.len()),
                self@.halted(),
                self@.valid(),
                events@ == events_of(s, events@.len()),
            decreases s.limits.max_cycles - self@.cycle,
        {
            let was_halted = self.halted();
            let event = self.step();
            events.push(event);
            if was_halted {
                break ;
            }
        }
        events
    }
}

} // verus!
