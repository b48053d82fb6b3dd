//! What holds of every step of the simulator, and of every load.
//!
//! The laws of the step come first, then those of the loader, then the
//! lemmas that both rest on.

use crate::address::{lemma_wrap_bounds, wrap_add};
use crate::redcode::{AddressingMode, Field, Instruction, OpCode};
use crate::simulation::event::SimulationEvent;
use crate::simulation::arena::{arena_valid, cleared, in_range, normalized};
use crate::simulation::executor::{
    arith, computed, decremented, executed, loaded, moved, stored_value,
};
use crate::simulation::resolver::{direct, pointer, post_applied, pre_applied, resolved};
use crate::simulation::state::{
    after_load, after_reset, after_reset_hard, after_step, after_steps, counters_among,
    fresh_process, fresh_storage, storage_valid, Pid,
    initial_state, ran, requeued, stamped, step_event, threads_among, Limits, MarsView, Pin,
    ProcessView,
};
use vstd::prelude::*;

verus! {

/// Every state that `step` reaches from a valid state is valid: every
/// program counter of every thread and every displacement of every cell lies
/// in `[0, M)`, every process of the scheduler has a thread, and the arena
/// and the private storages keep their sizes.
#[verifier::rlimit(30)]
pub proof fn lemma_step_valid(s: MarsView)
    requires
        s.valid(),
    ensures
        after_step(s).valid(),
        after_step(s).arena.len() == s.arena.len(),
        after_step(s).limits == s.limits,
        after_step(s).next_pid == s.next_pid,
{
    if !s.halted() {
        let m = s.arena.len() as int;
        let p = s.processes[0];
        let pc = p.threads[0];
        let instr = s.arena[pc as int];
        assert(p.valid(m, s.limits));
        assert(in_range(instr, m));
        let ea = resolved(s.arena, pc, instr.a);
        let eb = resolved(s.arena, pc, instr.b);
        lemma_resolved_in_arena(s.arena, pc, instr.a);
        lemma_resolved_in_arena(s.arena, pc, instr.b);
        let pre_a = pre_applied(s.arena, pc, instr.a);
        lemma_side_effects_keep_arena(s.arena, pc, instr.a);
        let before = pre_applied(pre_a, pc, instr.b);
        lemma_side_effects_keep_arena(pre_a, pc, instr.b);
        let room = s.has_room();
        let cells = s.storage[p.pid];
        assert(s.storage.contains_key(p.pid));
        assert(storage_valid(cells, m, s.limits));
        let out = executed(before, cells, instr, pc, ea, eb, room);
        lemma_executed_keeps_arena(before, cells, instr, pc, ea, eb, room);
        let post_a = post_applied(out.arena, pc, instr.a);
        lemma_side_effects_keep_arena(out.arena, pc, instr.a);
        let after = post_applied(post_a, pc, instr.b);
        lemma_side_effects_keep_arena(post_a, pc, instr.b);
        let threads = requeued(p.threads, out.control);
        let q = ProcessView { pid: p.pid, pin: p.pin, threads };
        let rest = s.processes.drop_first();
        let t = after_step(s);
        assert(t.arena == after);
        assert(storage_valid(out.pspace, m, s.limits));
        assert forall|pid: Pid| #[trigger] t.storage.contains_key(pid) implies pid < t.next_pid
            && storage_valid(t.storage[pid], m, t.limits) by {
            if pid != p.pid {
                assert(s.storage.contains_key(pid));
            }
        }
        assert(threads.len() > 0 ==> q.valid(m, s.limits)) by {
            if threads.len() > 0 {
                assert forall|j: int| 0 <= j < threads.len() implies #[trigger] threads[j] < m by {
                    if j < p.threads.len() - 1 {
                        assert(threads[j] == p.threads[j + 1]);
                    }
                }
            }
        }
        assert forall|i: int| 0 <= i < t.processes.len() implies (#[trigger] t.processes[i]).valid(
            m,
            t.limits,
        ) && t.processes[i].pid < t.next_pid && t.storage.contains_key(t.processes[i].pid) && (
        t.processes[i].pin is Some ==> t.pins.contains_key(t.processes[i].pin->0)
            && t.pins[t.processes[i].pin->0] == t.processes[i].pid) by {
            if i < rest.len() {
                assert(t.processes[i] == s.processes[i + 1]);
            } else {
                assert(t.processes[i] == q);
            }
        }
        assert forall|i: int, j: int| 0 <= i < j < t.processes.len() implies (
        #[trigger] t.processes[i]).pid != (#[trigger] t.processes[j]).pid by {
            assert(t.processes[i] == s.processes[i + 1]);
            if j < rest.len() {
                assert(t.processes[j] == s.processes[j + 1]);
            } else {
                assert(t.processes[j].pid == s.processes[0].pid);
            }
        }
        lemma_threads_without_first(s.processes, rest.len());
        if threads.len() > 0 {
            lemma_threads_with_last(rest, q);
        }
    }
}

/// After a step, every program counter of every thread lies in `[0, M)`.
pub proof fn lemma_step_keeps_counters_in_arena(s: MarsView)
    requires
        s.valid(),
    ensures
        forall|i: int, j: int|
            0 <= i < after_step(s).processes.len() && 0 <= j < after_step(
                s,
            ).processes[i].threads.len() ==> 0 <= #[trigger] after_step(s).processes[i].threads[j]
                < after_step(s).arena.len(),
{
    lemma_step_valid(s);
    let t = after_step(s);
    assert forall|i: int, j: int|
        0 <= i < t.processes.len() && 0 <= j < t.processes[i].threads.len() implies 0
        <= #[trigger] t.processes[i].threads[j] < t.arena.len() by {
        assert(t.processes[i].valid(t.arena.len() as int, t.limits));
    }
}

/// After a step, both displacements of every cell lie in `[0, M)`.
pub proof fn lemma_step_keeps_displacements_in_arena(s: MarsView)
    requires
        s.valid(),
    ensures
        forall|i: int|
            0 <= i < after_step(s).arena.len() ==> 0 <= (#[trigger] after_step(s).arena[i]).a.value
                < after_step(s).arena.len() && 0 <= after_step(s).arena[i].b.value < after_step(
                s,
            ).arena.len(),
{
    lemma_step_valid(s);
    let t = after_step(s);
    assert forall|i: int| 0 <= i < t.arena.len() implies 0 <= (#[trigger] t.arena[i]).a.value
        < t.arena.len() && 0 <= t.arena[i].b.value < t.arena.len() by {
        assert(in_range(t.arena[i], t.arena.len() as int));
    }
}

/// A process is in the scheduler if and only if it has a thread: after a
/// step every process of the scheduler has one, the processes that did not
/// run are all still there, and the one that ran is there, at the back,
/// exactly if a thread of it is left.
pub proof fn lemma_step_keeps_the_living(s: MarsView)
    requires
        s.valid(),
        !s.halted(),
    ensures
        forall|i: int|
            0 <= i < after_step(s).processes.len() ==> (#[trigger] after_step(
                s,
            ).processes[i]).threads.len() > 0,
        forall|i: int|
            1 <= i < s.processes.len() ==> after_step(s).processes[i - 1] == #[trigger] s.processes[i],
        ({
            let left = requeued(s.processes[0].threads, ran(s).control);
            if left.len() > 0 {
                &&& after_step(s).processes.len() == s.processes.len()
                &&& after_step(s).processes.last().pid == s.processes[0].pid
                &&& after_step(s).processes.last().pin == s.processes[0].pin
                &&& after_step(s).processes.last().threads == left
            } else {
                after_step(s).processes.len() == s.processes.len() - 1
            }
        }),
{
    lemma_step_valid(s);
    let t = after_step(s);
    assert forall|i: int| 0 <= i < t.processes.len() implies (#[trigger] t.processes[i]).threads.len()
        > 0 by {
        assert(t.processes[i].valid(t.arena.len() as int, t.limits));
    }
}

/// A `SPL` never takes a process beyond its limit: where the process that
/// runs has room the step reports `Split`, and the process holds one thread
/// more, the new one behind the one that went on; where it has none the
/// step reports `Stepped`, and the process holds as many threads as before.
pub proof fn lemma_split_is_bounded(s: MarsView)
    requires
        s.valid(),
        !s.halted(),
        s.arena[s.processes[0].threads[0] as int].op.code == OpCode::Spl,
    ensures
        ({
            let m = s.arena.len() as int;
            let p = s.processes[0];
            let pc = p.threads[0];
            let left = after_step(s).processes.last().threads;
            &&& after_step(s).processes.len() == s.processes.len()
            &&& left.len() <= s.limits.thread_bound()
            &&& s.has_room() ==> step_event(s) == SimulationEvent::Split && left.len()
                == p.threads.len() + 1 && left[left.len() - 2] == wrap_add(pc as int, 1, m)
                && left.last() == resolved(s.arena, pc, s.arena[pc as int].a)
            &&& !s.has_room() ==> step_event(s) == SimulationEvent::Stepped && left.len()
                == p.threads.len() && left.last() == wrap_add(pc as int, 1, m)
        }),
{
    let m = s.arena.len() as int;
    let p = s.processes[0];
    let pc = p.threads[0];
    let instr = s.arena[pc as int];
    assert(p.valid(m, s.limits));
    lemma_step_valid(s);
    lemma_resolved_in_arena(s.arena, pc, instr.a);
    lemma_wrap_bounds(pc as int, 1, m);
    let t = after_step(s);
    assert(t.processes.last().valid(m, t.limits));
}

/// Private storage is private: a step leaves the storage of every process
/// but the one that runs as it is, and that of the process that runs too
/// unless it executes `STP` on storage that has a cell; then the one cell
/// that the `STP` names changes, to the value that the process itself
/// stores. What an `LDP` loads is a value of the storage of the process that
/// runs. No step takes a storage away, nor a pin.
pub proof fn lemma_storage_is_private(s: MarsView)
    requires
        s.valid(),
        !s.halted(),
    ensures
        after_step(s).storage.dom() == s.storage.dom(),
        after_step(s).pins == s.pins,
        forall|pid: Pid|
            pid != s.processes[0].pid && s.storage.contains_key(pid) ==> #[trigger] after_step(
                s,
            ).storage[pid] == s.storage[pid],
        ({
            let p = s.processes[0];
            let cells = s.storage[p.pid];
            let instr = s.arena[p.threads[0] as int];
            let stores = instr.op.code == OpCode::Stp && cells.len() > 0;
            &&& after_step(s).storage[p.pid] == ran(s).pspace
            &&& ran(s).pspace.len() == cells.len()
            &&& !stores ==> ran(s).pspace == cells
            &&& stores ==> forall|k: int|
                0 <= k < cells.len() && k != instr.b.value as int % cells.len() as int
                    ==> ran(s).pspace[k] == #[trigger] cells[k]
            &&& instr.op.code == OpCode::Ldp && cells.len() > 0 ==> ran(s).control.event
                == SimulationEvent::Stepped
        }),
{
    let p = s.processes[0];
    let cells = s.storage[p.pid];
    let instr = s.arena[p.threads[0] as int];
    assert(s.storage.contains_key(p.pid));
    if cells.len() > 0 {
        vstd::arithmetic::div_mod::lemma_mod_bound(instr.b.value as int, cells.len() as int);
    }
    assert(after_step(s).storage.dom() =~= s.storage.dom());
}

/// A step of a simulator that is not halted takes the cycle counter up by
/// one: it is greater than before.
pub proof fn lemma_step_advances_cycle(s: MarsView)
    requires
        !s.halted(),
    ensures
        after_step(s).cycle == s.cycle + 1,
        after_step(s).cycle > s.cycle,
{
}

/// A step of a halted simulator leaves the arena, the scheduler and the
/// cycle counter as they are. It changes nothing at all where no process is
/// left, or where the draw was reported before; where processes are left and
/// the cycle budget is used up, it notes that the draw is now reported.
pub proof fn lemma_halted_stays(s: MarsView)
    requires
        s.halted(),
    ensures
        after_step(s).arena == s.arena,
        after_step(s).processes == s.processes,
        after_step(s).cycle == s.cycle,
        after_step(s).next_pid == s.next_pid,
        after_step(s).limits == s.limits,
        after_step(s).halted(),
        s.processes.len() == 0 || s.draw_reported ==> after_step(s) == s,
        s.processes.len() > 0 ==> after_step(s).draw_reported,
{
}

/// A draw is reported once: the step that finds processes left and the
/// cycle budget used up reports `MaxCyclesReached`, and every step after it
/// reports `Halted`, until the simulator is reset.
pub proof fn lemma_draw_is_reported_once(s: MarsView, n: nat)
    requires
        s.processes.len() > 0,
        s.cycle >= s.limits.max_cycles,
        !s.draw_reported,
    ensures
        step_event(s) == SimulationEvent::MaxCyclesReached,
        n >= 1 ==> step_event(after_steps(s, n)) == SimulationEvent::Halted,
        n >= 1 ==> after_steps(s, n) == after_step(s),
    decreases n,
{
    if n > 1 {
        lemma_draw_is_reported_once(s, (n - 1) as nat);
    } else if n == 1 {
        assert(after_steps(s, 0) == s);
    }
}

/// Every state that any number of steps reaches from a valid state is
/// valid, and the cycle counter never goes back.
pub proof fn lemma_steps_valid(s: MarsView, n: nat)
    requires
        s.valid(),
    ensures
        after_steps(s, n).valid(),
        after_steps(s, n).arena.len() == s.arena.len(),
        after_steps(s, n).limits == s.limits,
        after_steps(s, n).cycle >= s.cycle,
    decreases n,
{
    if n > 0 {
        lemma_steps_valid(s, (n - 1) as nat);
        lemma_step_valid(after_steps(s, (n - 1) as nat));
    }
}

/// The scheduler is fair: while the cycle budget lasts, the processes run
/// in the order in which the scheduler holds them, each once before any
/// runs again. After `k` steps the processes that have not run yet stand at
/// the front, as they were: the step that follows runs the first of them.
pub proof fn lemma_round_robin(s: MarsView, k: nat)
    requires
        s.valid(),
        k <= s.processes.len(),
        s.cycle + k <= s.limits.max_cycles,
    ensures
        after_steps(s, k).cycle == s.cycle + k,
        after_steps(s, k).processes.len() >= s.processes.len() - k,
        forall|i: int|
            k <= i < s.processes.len() ==> after_steps(s, k).processes[i - k] == #[trigger] s.processes[i],
    decreases k,
{
    if k > 0 {
        let t = after_steps(s, (k - 1) as nat);
        lemma_round_robin(s, (k - 1) as nat);
        lemma_steps_valid(s, (k - 1) as nat);
        assert(t.processes[0] == s.processes[k - 1]);
        lemma_step_keeps_the_living(t);
        assert forall|i: int| k <= i < s.processes.len() implies after_steps(s, k).processes[i - k]
            == #[trigger] s.processes[i] by {
            assert(t.processes[i - k + 1] == s.processes[i]);
            assert(after_step(t).processes[(i - k + 1) - 1] == t.processes[i - k + 1]);
        }
    }
}

/// The reported number of threads is the number of program counters that
/// the threads of all processes hold.
pub proof fn lemma_counters_are_counted(processes: Seq<ProcessView>, n: nat)
    requires
        n <= processes.len(),
    ensures
        counters_among(processes, n).len() == threads_among(processes, n),
    decreases n,
{
    if n > 0 {
        lemma_counters_are_counted(processes, (n - 1) as nat);
    }
}

/// The threads of all processes are no more than the processes times the
/// most threads that one process holds.
pub proof fn lemma_thread_total_bounded(s: MarsView)
    requires
        s.valid(),
    ensures
        s.thread_total() <= s.processes.len() * s.limits.thread_bound(),
{
    assert forall|i: int| 0 <= i < s.processes.len() implies (#[trigger] s.processes[i]).threads.len()
        <= s.limits.thread_bound() by {
        assert(s.processes[i].valid(s.arena.len() as int, s.limits));
    }
    lemma_threads_bounded(s.processes, s.processes.len(), s.limits.thread_bound());
}

/// A `JMP` lands inside the arena, wherever its operand points: with a
/// direct operand, at `(pc + displacement) mod M`.
pub proof fn lemma_jmp_lands_in_arena(s: MarsView)
    requires
        s.valid(),
        !s.halted(),
        s.arena[s.processes[0].threads[0] as int].op.code == OpCode::Jmp,
    ensures
        ({
            let pc = s.processes[0].threads[0];
            let instr = s.arena[pc as int];
            let landed = after_step(s).processes.last().threads.last();
            &&& after_step(s).processes.len() == s.processes.len()
            &&& landed == resolved(s.arena, pc, instr.a)
            &&& 0 <= landed < s.arena.len()
            &&& instr.a.mode == AddressingMode::Direct ==> landed == (pc + instr.a.value)
                % s.arena.len() as int
        }),
{
    let p = s.processes[0];
    let pc = p.threads[0];
    let instr = s.arena[pc as int];
    assert(p.valid(s.arena.len() as int, s.limits));
    lemma_resolved_in_arena(s.arena, pc, instr.a);
}

/// Loading a program of no more cells than the arena has writes it cell by
/// cell from `dest` on, the tail at the low indices where the program
/// passes the end of the arena; every other cell stays as it was.
pub proof fn lemma_stamped_wraps(arena: Seq<Instruction>, program: Seq<Instruction>, dest: int, n: nat)
    requires
        0 < arena.len(),
        0 <= dest < arena.len(),
        n <= program.len(),
        n <= arena.len(),
    ensures
        stamped(arena, program, dest, n).len() == arena.len(),
        forall|k: int|
            0 <= k < n ==> #[trigger] stamped(arena, program, dest, n)[(dest + k) % arena.len() as int]
                == normalized(program[k], arena.len() as int),
        forall|i: int|
            0 <= i < arena.len() && (if dest + n <= arena.len() {
                i < dest || i >= dest + n
            } else {
                dest + n - arena.len() <= i < dest
            }) ==> stamped(arena, program, dest, n)[i] == #[trigger] arena[i],
    decreases n,
{
    let m = arena.len() as int;
    if n > 0 {
        let prev = stamped(arena, program, dest, (n - 1) as nat);
        let cur = stamped(arena, program, dest, n);
        lemma_stamped_wraps(arena, program, dest, (n - 1) as nat);
        lemma_offset_cell(dest, n - 1, m);
        assert forall|k: int| 0 <= k < n implies #[trigger] cur[(dest + k) % m] == normalized(
            program[k],
            m,
        ) by {
            lemma_offset_cell(dest, k, m);
            if k < n - 1 {
                assert(prev[(dest + k) % m] == normalized(program[k], m));
            }
        }
        assert forall|i: int|
            0 <= i < m && (if dest + n <= m {
                i < dest || i >= dest + n
            } else {
                dest + n - m <= i < dest
            }) implies cur[i] == #[trigger] arena[i] by {
            assert(prev[i] == arena[i]);
        }
    }
}

/// Writing a program into the arena keeps the size of the arena, and keeps
/// every displacement within it, however long the program is.
pub proof fn lemma_stamped_keeps_arena(
    arena: Seq<Instruction>,
    program: Seq<Instruction>,
    dest: int,
    n: nat,
)
    requires
        arena_valid(arena),
        n <= program.len(),
    ensures
        arena_valid(stamped(arena, program, dest, n)),
        stamped(arena, program, dest, n).len() == arena.len(),
    decreases n,
{
    let m = arena.len() as int;
    if n > 0 {
        let prev = stamped(arena, program, dest, (n - 1) as nat);
        let cur = stamped(arena, program, dest, n);
        lemma_stamped_keeps_arena(arena, program, dest, (n - 1) as nat);
        lemma_wrap_bounds(dest, n - 1, m);
        vstd::arithmetic::div_mod::lemma_mod_bound(program[n - 1].a.value as int, m);
        vstd::arithmetic::div_mod::lemma_mod_bound(program[n - 1].b.value as int, m);
        assert forall|i: int| 0 <= i < cur.len() implies in_range(#[trigger] cur[i], m) by {
            assert(in_range(prev[i], m));
        }
    }
}

/// Loading a program into a valid state that admits one more process, with
/// a pin that no process holds, gives a valid state.
pub proof fn lemma_load_valid(s: MarsView, dest: u32, pin: Option<Pin>, program: Seq<Instruction>)
    requires
        s.valid(),
        s.admits(1),
        pin is Some ==> !s.pin_in_use(pin->0),
    ensures
        after_load(s, dest, pin, program).valid(),
        after_load(s, dest, pin, program).arena.len() == s.arena.len(),
        after_load(s, dest, pin, program).thread_total() == s.thread_total() + 1,
{
    let m = s.arena.len() as int;
    let t = after_load(s, dest, pin, program);
    let q = fresh_process(s, dest, pin);
    lemma_threads_with_last(s.processes, q);
    lemma_stamped_keeps_arena(s.arena, program, dest as int, program.len());
    vstd::arithmetic::div_mod::lemma_mod_bound(dest as int, m);
    assert(q.valid(m, s.limits));
    assert(storage_valid(fresh_storage(s.limits), m, s.limits));
    assert forall|pid: Pid| #[trigger] t.storage.contains_key(pid) implies pid < t.next_pid
        && storage_valid(t.storage[pid], m, t.limits) by {
        if pid != s.next_pid {
            assert(s.storage.contains_key(pid));
        }
    }
    assert forall|i: int| 0 <= i < t.processes.len() implies (#[trigger] t.processes[i]).valid(
        m,
        t.limits,
    ) && t.processes[i].pid < t.next_pid && t.storage.contains_key(t.processes[i].pid) && (
    t.processes[i].pin is Some ==> t.pins.contains_key(t.processes[i].pin->0)
        && t.pins[t.processes[i].pin->0] == t.processes[i].pid) by {
        if i < s.processes.len() {
            assert(t.processes[i] == s.processes[i]);
        }
    }
    assert forall|i: int, j: int| 0 <= i < j < t.processes.len() implies (
    #[trigger] t.processes[i]).pid != (#[trigger] t.processes[j]).pid by {
        assert(t.processes[i] == s.processes[i]);
        if j < s.processes.len() {
            assert(t.processes[j] == s.processes[j]);
        }
    }
}

/// A state that admits `n + 1` processes admits `n` more once one was
/// loaded.
pub proof fn lemma_load_leaves_room(
    s: MarsView,
    dest: u32,
    pin: Option<Pin>,
    program: Seq<Instruction>,
    n: nat,
)
    requires
        s.admits(n + 1),
    ensures
        after_load(s, dest, pin, program).admits(n),
{
    lemma_threads_with_last(s.processes, fresh_process(s, dest, pin));
}

/// A simulator is built in a valid state, halted, that admits as many
/// processes as the machine can count.
pub proof fn lemma_initial_valid(size: nat, limits: Limits)
    requires
        0 < size <= u32::MAX,
    ensures
        initial_state(size, limits).valid(),
        initial_state(size, limits).halted(),
        forall|n: nat| n <= usize::MAX ==> #[trigger] initial_state(size, limits).admits(n),
{
}

/// A reset gives a valid state, and so does a hard reset. A reset keeps
/// every private storage and every pin in use; a hard reset keeps none.
pub proof fn lemma_reset_valid(s: MarsView)
    requires
        s.valid(),
    ensures
        after_reset(s).valid(),
        after_reset(s).halted(),
        after_reset(s).storage == s.storage,
        after_reset(s).pins == s.pins,
        after_reset_hard(s).valid(),
        after_reset_hard(s).halted(),
        forall|pid: Pid| after_reset_hard(s).pspace(pid) is None,
        forall|pin: Pin| !after_reset_hard(s).pin_in_use(pin),
{
    let t = after_reset(s);
    assert(t.arena =~= cleared(s.arena.len()));
    assert(after_reset_hard(s).arena =~= cleared(s.arena.len()));
}

/// An effective address is a cell of the arena.
pub proof fn lemma_resolved_in_arena(arena: Seq<Instruction>, pc: u32, f: Field)
    requires
        0 < arena.len(),
        pc < arena.len(),
    ensures
        0 <= resolved(arena, pc, f) < arena.len(),
        0 <= direct(arena, pc, f) < arena.len(),
{
    let m = arena.len() as int;
    lemma_wrap_bounds(pc as int, f.value as int, m);
    lemma_wrap_bounds(direct(arena, pc, f), pointer(arena, pc, f), m);
}

/// The side effects of an operand keep the size of the arena, and keep
/// every displacement within it.
pub proof fn lemma_side_effects_keep_arena(arena: Seq<Instruction>, pc: u32, f: Field)
    requires
        arena_valid(arena),
    ensures
        arena_valid(pre_applied(arena, pc, f)),
        arena_valid(post_applied(arena, pc, f)),
        pre_applied(arena, pc, f).len() == arena.len(),
        post_applied(arena, pc, f).len() == arena.len(),
{
    let m = arena.len() as int;
    let d = direct(arena, pc, f);
    lemma_wrap_bounds(pc as int, f.value as int, m);
    lemma_wrap_bounds(arena[d].a.value as int, 1, m);
    lemma_wrap_bounds(arena[d].b.value as int, 1, m);
    let pre = pre_applied(arena, pc, f);
    let post = post_applied(arena, pc, f);
    assert forall|i: int| 0 <= i < pre.len() implies in_range(#[trigger] pre[i], m) by {
        assert(in_range(arena[i], m));
        assert(in_range(arena[d], m));
    }
    assert forall|i: int| 0 <= i < post.len() implies in_range(#[trigger] post[i], m) by {
        assert(in_range(arena[i], m));
        assert(in_range(arena[d], m));
    }
}

/// An arithmetic opcode takes values of `[0, m)` to a value of `[0, m)`.
pub proof fn lemma_arith_in_range(code: OpCode, d: int, s: int, m: int)
    requires
        0 <= d < m,
        0 <= s < m,
    ensures
        0 <= arith(code, d, s, m) < m,
{
    lemma_wrap_bounds(d, s, m);
    if s != 0 {
        vstd::arithmetic::div_mod::lemma_div_nonincreasing(d, s);
        vstd::arithmetic::div_mod::lemma_div_pos_is_pos(d, s);
        vstd::arithmetic::div_mod::lemma_mod_bound(d, s);
    }
}

/// An instruction keeps the size of the arena and of the private storage,
/// keeps every value within the arena, and sends the thread to cells of the
/// arena.
pub proof fn lemma_executed_keeps_arena(
    arena: Seq<Instruction>,
    pspace: Seq<u32>,
    instr: Instruction,
    pc: u32,
    ea: int,
    eb: int,
    room: bool,
)
    requires
        arena_valid(arena),
        in_range(instr, arena.len() as int),
        pc < arena.len(),
        0 <= ea < arena.len(),
        0 <= eb < arena.len(),
        forall|k: int| 0 <= k < pspace.len() ==> #[trigger] pspace[k] < arena.len(),
    ensures
        ({
            let out = executed(arena, pspace, instr, pc, ea, eb, room);
            &&& arena_valid(out.arena)
            &&& out.arena.len() == arena.len()
            &&& out.pspace.len() == pspace.len()
            &&& forall|k: int| 0 <= k < out.pspace.len() ==> #[trigger] out.pspace[k] < arena.len()
            &&& out.control.next matches Some(pc) ==> pc < arena.len()
            &&& out.control.spawn matches Some(pc) ==> pc < arena.len()
            &&& out.control.spawn is Some ==> room && out.control.next is Some
        }),
{
    let m = arena.len() as int;
    let mode = instr.op.mode;
    let code = instr.op.code;
    let src = arena[ea];
    let dst = arena[eb];
    let out = executed(arena, pspace, instr, pc, ea, eb, room);
    assert(in_range(src, m));
    assert(in_range(dst, m));
    lemma_wrap_bounds(pc as int, 1, m);
    lemma_wrap_bounds(pc as int, 2, m);
    lemma_wrap_bounds(dst.a.value as int, 1, m);
    lemma_wrap_bounds(dst.b.value as int, 1, m);
    lemma_arith_in_range(code, dst.a.value as int, src.a.value as int, m);
    lemma_arith_in_range(code, dst.a.value as int, src.b.value as int, m);
    lemma_arith_in_range(code, dst.b.value as int, src.a.value as int, m);
    lemma_arith_in_range(code, dst.b.value as int, src.b.value as int, m);
    assert(in_range(moved(mode, src, dst), m));
    assert(in_range(computed(code, mode, src, dst, m), m));
    assert(in_range(decremented(mode, dst, m), m));
    if pspace.len() > 0 {
        let n = pspace.len() as int;
        vstd::arithmetic::div_mod::lemma_mod_bound(instr.a.value as int, n);
        vstd::arithmetic::div_mod::lemma_mod_bound(instr.b.value as int, n);
        assert(in_range(loaded(mode, dst, pspace[instr.a.value as int % n]), m));
        assert(stored_value(mode, src) < m);
    }
    assert forall|i: int| 0 <= i < out.arena.len() implies in_range(#[trigger] out.arena[i], m) by {
        assert(in_range(arena[i], m));
    }
}

/// The cell `k` cells after `dest`, for `k` less than a turn of the arena.
pub proof fn lemma_offset_cell(dest: int, k: int, m: int)
    requires
        0 < m,
        0 <= dest < m,
        0 <= k < m,
    ensures
        (dest + k) % m == if dest + k < m {
            dest + k
        } else {
            dest + k - m
        },
{
    if dest + k < m {
        vstd::arithmetic::div_mod::lemma_small_mod((dest + k) as nat, m as nat);
    } else {
        vstd::arithmetic::div_mod::lemma_mod_sub_multiples_vanish(dest + k, m);
        vstd::arithmetic::div_mod::lemma_small_mod((dest + k - m) as nat, m as nat);
    }
}

/// The threads of the first `n` processes are not counted anew when a
/// process joins behind them, and the process that joins adds its own.
pub proof fn lemma_threads_with_last(processes: Seq<ProcessView>, last: ProcessView)
    ensures
        forall|n: nat|
            n <= processes.len() ==> #[trigger] threads_among(processes.push(last), n)
                == threads_among(processes, n),
        threads_among(processes.push(last), processes.len() + 1) == threads_among(
            processes,
            processes.len(),
        ) + last.threads.len(),
{
    assert forall|n: nat| n <= processes.len() implies #[trigger] threads_among(
        processes.push(last),
        n,
    ) == threads_among(processes, n) by {
        lemma_threads_of_prefix(processes, last, n);
    }
    lemma_threads_of_prefix(processes, last, processes.len());
    assert(processes.push(last)[processes.len() as int] == last);
    assert(threads_among(processes.push(last), processes.len() + 1) == threads_among(
        processes.push(last),
        processes.len(),
    ) + processes.push(last)[processes.len() as int].threads.len());
}

/// The threads of the first `n` processes, with a process behind them all.
pub proof fn lemma_threads_of_prefix(processes: Seq<ProcessView>, last: ProcessView, n: nat)
    requires
        n <= processes.len(),
    ensures
        threads_among(processes.push(last), n) == threads_among(processes, n),
    decreases n,
{
    if n > 0 {
        lemma_threads_of_prefix(processes, last, (n - 1) as nat);
        assert(processes.push(last)[n - 1] == processes[n - 1]);
    }
}

/// The threads of the processes behind the first are those of all, less
/// those of the first.
pub proof fn lemma_threads_without_first(processes: Seq<ProcessView>, n: nat)
    requires
        n < processes.len(),
    ensures
        threads_among(processes.drop_first(), n) + processes[0].threads.len() == threads_among(
            processes,
            n + 1,
        ),
    decreases n,
{
    if n > 0 {
        lemma_threads_without_first(processes, (n - 1) as nat);
        assert(processes.drop_first()[n - 1] == processes[n as int]);
    } else {
        assert(threads_among(processes, 0) == 0);
        assert(threads_among(processes, 1) == threads_among(processes, 0)
            + processes[0].threads.len());
    }
}

/// The threads of the first processes are no more than those of all.
pub proof fn lemma_threads_grow(processes: Seq<ProcessView>, n: nat, m: nat)
    requires
        n <= m,
    ensures
        threads_among(processes, n) <= threads_among(processes, m),
    decreases m,
{
    if n < m {
        lemma_threads_grow(processes, n, (m - 1) as nat);
    }
}

/// The number of threads of the first `n` processes is at most `n` times
/// the most that one process holds.
pub proof fn lemma_threads_bounded(processes: Seq<ProcessView>, n: nat, bound: int)
    requires
        n <= processes.len(),
        forall|i: int| 0 <= i < processes.len() ==> (#[trigger] processes[i]).threads.len() <= bound,
    ensures
        threads_among(processes, n) <= n * bound,
    decreases n,
{
    if n > 0 {
        lemma_threads_bounded(processes, (n - 1) as nat, bound);
        assert(processes[n - 1].threads.len() <= bound);
        assert((n - 1) * bound + bound == n * bound) by (nonlinear_arith);
    }
}

} // verus!
