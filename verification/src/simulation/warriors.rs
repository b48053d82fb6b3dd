//! What two well-known warriors do, wherever they run: the imp, one
//! instruction that copies itself to the next cell and follows, and the
//! dwarf, which drops a `DAT` on every fourth cell of the arena.

use crate::address::{lemma_add_after_wrap, lemma_wrap_bounds, wrap_add};
use crate::redcode::{
    AddressingMode, Field, IncrementMode, Instruction, OpCode, OpField, OpMode,
};
use crate::simulation::event::SimulationEvent;
use crate::simulation::executor::{jumped, stepped};
use crate::redcode::default_instruction;
use crate::simulation::laws::{
    lemma_initial_valid, lemma_load_valid, lemma_step_keeps_the_living, lemma_step_valid,
};
use crate::simulation::arena::normalized;
use crate::simulation::state::{
    after_load, after_step, after_steps, initial_state, ran, stamped, step_event, Limits,
    MarsView, Pin,
};
use vstd::prelude::*;

verus! {

/// The imp as a cell of an arena of `m` cells holds it: `MOV.I $0, $1`, the
/// displacement reduced modulo `m`.
pub open spec fn imp(m: int) -> Instruction {
    Instruction {
        op: OpField { code: OpCode::Mov, mode: OpMode::I },
        a: Field { value: 0, mode: AddressingMode::Direct },
        b: Field { value: (1int % m) as u32, mode: AddressingMode::Direct },
    }
}

/// Whether every process is an imp: it has one thread, which stands on a
/// cell that holds the imp.
pub open spec fn all_imps(s: MarsView) -> bool {
    forall|i: int|
        0 <= i < s.processes.len() ==> (#[trigger] s.processes[i]).threads.len() == 1
            && s.arena[s.processes[i].threads[0] as int] == imp(s.arena.len() as int)
}

/// The imp as it is written: `MOV.I $0, $1`.
pub open spec fn written_imp() -> Instruction {
    Instruction {
        op: OpField { code: OpCode::Mov, mode: OpMode::I },
        a: Field { value: 0, mode: AddressingMode::Direct },
        b: Field { value: 1, mode: AddressingMode::Direct },
    }
}

/// Loading the imp among imps leaves imps alone: the new process is an imp,
/// and the others are imps still.
pub proof fn lemma_imp_loads(s: MarsView, dest: u32, pin: Option<Pin>)
    requires
        s.valid(),
        all_imps(s),
    ensures
        all_imps(after_load(s, dest, pin, seq![written_imp()])),
        after_load(s, dest, pin, seq![written_imp()]).processes.len() == s.processes.len() + 1,
{
    let m = s.arena.len() as int;
    let program = seq![written_imp()];
    let t = after_load(s, dest, pin, program);
    let at = wrap_add(dest as int, 0, m);
    lemma_wrap_bounds(dest as int, 0, m);
    vstd::arithmetic::div_mod::lemma_mod_bound(0, m);
    assert(stamped(s.arena, program, dest as int, 0) == s.arena);
    assert(t.arena == s.arena.update(at, normalized(program[0], m)));
    assert(normalized(program[0], m) == imp(m));
    assert forall|i: int| 0 <= i < t.processes.len() implies (#[trigger] t.processes[i]).threads.len()
        == 1 && t.arena[t.processes[i].threads[0] as int] == imp(m) by {
        if i < s.processes.len() {
            assert(t.processes[i] == s.processes[i]);
            assert(s.processes[i].valid(m, s.limits));
        }
    }
}

/// An imp that runs writes the imp to the cell behind it, goes on there, and
/// touches nothing else.
pub proof fn lemma_imp_runs(s: MarsView)
    requires
        s.valid(),
        !s.halted(),
        s.arena[s.processes[0].threads[0] as int] == imp(s.arena.len() as int),
    ensures
        ({
            let m = s.arena.len() as int;
            let pc = s.processes[0].threads[0];
            &&& ran(s).arena == s.arena.update(wrap_add(pc as int, 1, m), imp(m))
            &&& ran(s).pspace == s.storage[s.processes[0].pid]
            &&& ran(s).control == stepped(pc, m)
            &&& 0 <= wrap_add(pc as int, 1, m) < m
        }),
{
    let m = s.arena.len() as int;
    let p = s.processes[0];
    let pc = p.threads[0];
    assert(p.valid(m, s.limits));
    lemma_wrap_bounds(pc as int, 1, m);
    vstd::arithmetic::div_mod::lemma_small_mod(pc as nat, m as nat);
    vstd::arithmetic::div_mod::lemma_add_mod_noop_right(pc as int, 1, m);
    vstd::arithmetic::div_mod::lemma_mod_bound(1, m);
}

/// A step among imps: the imp that runs moves one cell on and goes to the
/// back of the scheduler, the others move up, none ends, and every cell that
/// held the imp holds it still.
pub proof fn lemma_imps_step(s: MarsView)
    requires
        s.valid(),
        !s.halted(),
        all_imps(s),
    ensures
        ({
            let m = s.arena.len() as int;
            let pc = s.processes[0].threads[0];
            let t = after_step(s);
            &&& t.valid()
            &&& all_imps(t)
            &&& step_event(s) == SimulationEvent::Stepped
            &&& t.cycle == s.cycle + 1
            &&& t.arena.len() == s.arena.len()
            &&& t.limits == s.limits
            &&& t.draw_reported == s.draw_reported
            &&& t.processes.len() == s.processes.len()
            &&& forall|i: int|
                1 <= i < s.processes.len() ==> t.processes[i - 1] == #[trigger] s.processes[i]
            &&& t.processes.last().pid == s.processes[0].pid
            &&& t.processes.last().threads == seq![wrap_add(pc as int, 1, m) as u32]
            &&& t.arena[wrap_add(pc as int, 1, m)] == imp(m)
            &&& forall|c: int| 0 <= c < m && s.arena[c] == imp(m) ==> #[trigger] t.arena[c] == imp(m)
        }),
{
    let m = s.arena.len() as int;
    let p = s.processes[0];
    let pc = p.threads[0];
    let t = after_step(s);
    assert(p.threads.len() == 1);
    lemma_imp_runs(s);
    lemma_step_valid(s);
    lemma_step_keeps_the_living(s);
    assert(t.processes.last().threads =~= seq![wrap_add(pc as int, 1, m) as u32]);
    assert forall|i: int| 0 <= i < t.processes.len() implies (#[trigger] t.processes[i]).threads.len()
        == 1 && t.arena[t.processes[i].threads[0] as int] == imp(m) by {
        if i < s.processes.len() - 1 {
            assert(t.processes[i] == s.processes[i + 1]);
            assert(s.processes[i + 1].valid(m, s.limits));
        } else {
            assert(t.processes[i] == t.processes.last());
        }
    }
}

/// Imps run on: as long as the cycle budget lasts every step among imps
/// reports `Stepped`, no process ends, the imps take their turns in the
/// order in which the scheduler held them, and every cell that held the imp
/// holds it still.
#[verifier::rlimit(30)]
pub proof fn lemma_imps_run(s: MarsView, k: nat)
    requires
        s.valid(),
        all_imps(s),
        s.processes.len() > 0,
        s.cycle + k <= s.limits.max_cycles,
    ensures
        ({
            let m = s.arena.len() as int;
            let n = s.processes.len() as int;
            let t = after_steps(s, k);
            &&& t.valid()
            &&& all_imps(t)
            &&& t.cycle == s.cycle + k
            &&& t.arena.len() == s.arena.len()
            &&& t.limits == s.limits
            &&& t.draw_reported == s.draw_reported
            &&& t.processes.len() == n
            &&& forall|i: nat|
                i < k ==> step_event(#[trigger] after_steps(s, i)) == SimulationEvent::Stepped
            &&& forall|i: int|
                0 <= i < n ==> (#[trigger] t.processes[i]).pid == s.processes[(i + k) % n].pid
            &&& forall|c: int| 0 <= c < m && s.arena[c] == imp(m) ==> #[trigger] t.arena[c] == imp(m)
        }),
    decreases k,
{
    let m = s.arena.len() as int;
    let n = s.processes.len() as int;
    if k == 0 {
        assert forall|i: int| 0 <= i < n implies (#[trigger] s.processes[i]).pid == s.processes[(i
            + 0) % n].pid by {
            vstd::arithmetic::div_mod::lemma_small_mod(i as nat, n as nat);
        }
    } else {
        let u = after_steps(s, (k - 1) as nat);
        let t = after_steps(s, k);
        lemma_imps_run(s, (k - 1) as nat);
        lemma_imps_step(u);
        assert forall|i: nat| i < k implies step_event(#[trigger] after_steps(s, i))
            == SimulationEvent::Stepped by {
            if i == k - 1 {
                assert(after_steps(s, i) == u);
            }
        }
        assert forall|i: int| 0 <= i < n implies (#[trigger] t.processes[i]).pid == s.processes[(i
            + k) % n].pid by {
            if i < n - 1 {
                assert(t.processes[i] == u.processes[i + 1]);
                assert(i + 1 + (k - 1) == i + k);
            } else {
                assert(t.processes[i] == t.processes.last());
                assert(u.processes[0].pid == s.processes[(0 + (k - 1)) % n].pid);
                vstd::arithmetic::div_mod::lemma_mod_add_multiples_vanish(k - 1, n);
                assert(n - 1 + k == n + (k - 1));
            }
        }
        assert forall|c: int| 0 <= c < m && s.arena[c] == imp(m) implies #[trigger] t.arena[c]
            == imp(m) by {
            assert(u.arena[c] == imp(m));
        }
    }
}

/// Imps draw: when the cycle budget is used up all of them are alive, the
/// simulator is halted and has no winner, the step that follows reports the
/// draw, and the step after that the halt.
pub proof fn lemma_imps_draw(s: MarsView)
    requires
        s.valid(),
        all_imps(s),
        s.processes.len() > 0,
        s.cycle <= s.limits.max_cycles,
        !s.draw_reported,
    ensures
        ({
            let t = after_steps(s, (s.limits.max_cycles - s.cycle) as nat);
            &&& t.halted()
            &&& t.processes.len() == s.processes.len()
            &&& t.cycle == s.limits.max_cycles
            &&& step_event(t) == SimulationEvent::MaxCyclesReached
            &&& step_event(after_step(t)) == SimulationEvent::Halted
            &&& t.winner() is None
        }),
{
    lemma_imps_run(s, (s.limits.max_cycles - s.cycle) as nat);
}

/// A lone imp walks the arena: after `k` steps its one thread stands `k`
/// cells on, around the end of the arena, and every cell from where it
/// started to where it stands holds the imp.
pub proof fn lemma_imp_walks(s: MarsView, k: nat)
    requires
        s.valid(),
        all_imps(s),
        s.processes.len() == 1,
        s.cycle + k <= s.limits.max_cycles,
    ensures
        ({
            let m = s.arena.len() as int;
            let pc = s.processes[0].threads[0];
            let t = after_steps(s, k);
            &&& t.valid()
            &&& all_imps(t)
            &&& t.cycle == s.cycle + k
            &&& t.limits == s.limits
            &&& t.arena.len() == s.arena.len()
            &&& t.processes.len() == 1
            &&& t.processes[0].threads == seq![wrap_add(pc as int, k as int, m) as u32]
            &&& forall|j: int| 0 <= j <= k ==> t.arena[#[trigger] wrap_add(pc as int, j, m)] == imp(m)
        }),
    decreases k,
{
    let m = s.arena.len() as int;
    let pc = s.processes[0].threads[0];
    assert(s.processes[0].valid(m, s.limits));
    if k == 0 {
        vstd::arithmetic::div_mod::lemma_small_mod(pc as nat, m as nat);
        assert(s.processes[0].threads =~= seq![wrap_add(pc as int, 0, m) as u32]);
    } else {
        let u = after_steps(s, (k - 1) as nat);
        let t = after_steps(s, k);
        let at = wrap_add(pc as int, k - 1, m);
        lemma_imp_walks(s, (k - 1) as nat);
        lemma_imps_step(u);
        lemma_wrap_bounds(pc as int, k - 1, m);
        assert(u.processes[0].threads[0] == at);
        assert(wrap_add(at, 1, m) == wrap_add(pc as int, k as int, m)) by {
            lemma_add_after_wrap(pc as int + (k - 1), 1, m);
        }
        assert(t.processes[0] == t.processes.last());
        assert forall|j: int| 0 <= j <= k implies t.arena[#[trigger] wrap_add(pc as int, j, m)]
            == imp(m) by {
            lemma_wrap_bounds(pc as int, j, m);
            if j < k {
                assert(u.arena[wrap_add(pc as int, j, m)] == imp(m));
            }
        }
    }
}

/// Whether the scheduler holds one process with one thread, at `pc`.
pub open spec fn lone_thread(s: MarsView, pc: int) -> bool {
    s.processes.len() == 1 && s.processes[0].threads == seq![pc as u32]
}

/// A step of a lone thread that goes on leaves a lone thread, where the
/// instruction sent it, in the arena that the instruction left.
pub proof fn lemma_lone_step(s: MarsView, pc: int)
    requires
        s.valid(),
        !s.halted(),
        lone_thread(s, pc),
        ran(s).control.next is Some,
        ran(s).control.spawn is None,
    ensures
        after_step(s).valid(),
        lone_thread(after_step(s), ran(s).control.next->0 as int),
        after_step(s).arena == ran(s).arena,
        after_step(s).arena.len() == s.arena.len(),
        after_step(s).cycle == s.cycle + 1,
        after_step(s).limits == s.limits,
{
    lemma_step_valid(s);
    let t = after_step(s);
    assert(t.processes[0].threads =~= seq![ran(s).control.next->0]);
}

/// The first instruction of the dwarf: `ADD.AB #4, $3`.
pub open spec fn dwarf_add() -> Instruction {
    Instruction {
        op: OpField { code: OpCode::Add, mode: OpMode::AB },
        a: Field { value: 4, mode: AddressingMode::Immediate },
        b: Field { value: 3, mode: AddressingMode::Direct },
    }
}

/// The second instruction of the dwarf: `MOV.I $2, @2`.
pub open spec fn dwarf_mov() -> Instruction {
    Instruction {
        op: OpField { code: OpCode::Mov, mode: OpMode::I },
        a: Field { value: 2, mode: AddressingMode::Direct },
        b: Field { value: 2, mode: AddressingMode::BIndirect(IncrementMode::Unchanged) },
    }
}

/// The third instruction of the dwarf in an arena of `m` cells: `JMP.B $-2,
/// $0`, two cells back.
pub open spec fn dwarf_jmp(m: int) -> Instruction {
    Instruction {
        op: OpField { code: OpCode::Jmp, mode: OpMode::B },
        a: Field { value: (m - 2) as u32, mode: AddressingMode::Direct },
        b: Field { value: 0, mode: AddressingMode::Direct },
    }
}

/// The bomb of the dwarf: `DAT.F #0, #v`. Its B value counts the cells from
/// the bomb to where its copy fell last.
pub open spec fn dwarf_bomb(v: int) -> Instruction {
    Instruction {
        op: OpField { code: OpCode::Dat, mode: OpMode::F },
        a: Field { value: 0, mode: AddressingMode::Immediate },
        b: Field { value: v as u32, mode: AddressingMode::Immediate },
    }
}

/// Whether a dwarf stands at `base`, alone, its one thread `at` cells into
/// the round and its bomb counting `v`: the size of the arena is a multiple
/// of four, and at least eight.
pub open spec fn dwarf_stands(s: MarsView, base: int, v: int, at: int) -> bool {
    let m = s.arena.len() as int;
    &&& m % 4 == 0
    &&& m >= 8
    &&& 0 <= base < m
    &&& 0 <= v < m
    &&& v % 4 == 0
    &&& lone_thread(s, wrap_add(base, at, m))
    &&& s.arena[base] == dwarf_add()
    &&& s.arena[wrap_add(base, 1, m)] == dwarf_mov()
    &&& s.arena[wrap_add(base, 2, m)] == dwarf_jmp(m)
    &&& s.arena[wrap_add(base, 3, m)] == dwarf_bomb(v)
}

/// Whether a dwarf stands at `base`, alone, about to start a round, its bomb
/// counting `v`.
pub open spec fn dwarf_at(s: MarsView, base: int, v: int) -> bool {
    dwarf_stands(s, base, v, 0)
}

/// Whether every cell that holds a `DAT` in `before` holds one in `after`.
pub open spec fn bombs_stay(before: Seq<Instruction>, after: Seq<Instruction>) -> bool {
    forall|c: int|
        0 <= c < before.len() && before[c].op.code == OpCode::Dat ==> (#[trigger] after[c]).op.code
            == OpCode::Dat
}

/// Whether every cell whose index leaves another remainder by four than
/// `class` holds in `after` what it held in `before`.
pub open spec fn others_stay(before: Seq<Instruction>, after: Seq<Instruction>, class: int) -> bool {
    forall|c: int|
        0 <= c < before.len() && c % 4 != class % 4 ==> #[trigger] after[c] == before[c]
}

/// The dwarf as it is written for an arena of `m` cells: `ADD.AB #4, $3`,
/// `MOV.I $2, @2`, `JMP.B $-2, $0`, `DAT.F #0, #0`.
pub open spec fn written_dwarf(m: int) -> Seq<Instruction> {
    seq![dwarf_add(), dwarf_mov(), dwarf_jmp(m), dwarf_bomb(0)]
}

/// Loading the dwarf into a simulator without processes, whose arena has a
/// size that is a multiple of four and at least eight, puts a dwarf there,
/// about to start its first round.
pub proof fn lemma_dwarf_loads(s: MarsView, dest: u32, pin: Option<Pin>)
    requires
        s.valid(),
        s.processes.len() == 0,
        s.arena.len() % 4 == 0,
        s.arena.len() >= 8,
    ensures
        dwarf_at(
            after_load(s, dest, pin, written_dwarf(s.arena.len() as int)),
            dest as int % s.arena.len() as int,
            0,
        ),
{
    let m = s.arena.len() as int;
    let program = written_dwarf(m);
    let t = after_load(s, dest, pin, program);
    let base = dest as int % m;
    lemma_cell_class(dest as int, m);
    lemma_cell_class(dest as int + 1, m);
    lemma_cell_class(dest as int + 2, m);
    lemma_cell_class(dest as int + 3, m);
    lemma_add_after_wrap(dest as int, 1, m);
    lemma_add_after_wrap(dest as int, 2, m);
    lemma_add_after_wrap(dest as int, 3, m);
    vstd::arithmetic::div_mod::lemma_small_mod(0, m as nat);
    vstd::arithmetic::div_mod::lemma_small_mod(2, m as nat);
    vstd::arithmetic::div_mod::lemma_small_mod(3, m as nat);
    vstd::arithmetic::div_mod::lemma_small_mod(4, m as nat);
    vstd::arithmetic::div_mod::lemma_small_mod((m - 2) as nat, m as nat);
    assert(normalized(program[0], m) == dwarf_add());
    assert(normalized(program[1], m) == dwarf_mov());
    assert(normalized(program[2], m) == dwarf_jmp(m));
    assert(normalized(program[3], m) == dwarf_bomb(0));
    let a0 = stamped(s.arena, program, dest as int, 0);
    let a1 = stamped(s.arena, program, dest as int, 1);
    let a2 = stamped(s.arena, program, dest as int, 2);
    let a3 = stamped(s.arena, program, dest as int, 3);
    let a4 = stamped(s.arena, program, dest as int, 4);
    assert(a0 == s.arena);
    assert(a1 == a0.update(wrap_add(dest as int, 0, m), dwarf_add()));
    assert(a2 == a1.update(wrap_add(dest as int, 1, m), dwarf_mov()));
    assert(a3 == a2.update(wrap_add(dest as int, 2, m), dwarf_jmp(m)));
    assert(a4 == a3.update(wrap_add(dest as int, 3, m), dwarf_bomb(0)));
    assert(t.arena == a4);
    vstd::arithmetic::div_mod::lemma_small_mod(base as nat, m as nat);
    assert(wrap_add(base, 0, m) == base);
    assert(t.processes[0].threads =~= seq![base as u32]);
}

/// In an arena whose size is a multiple of four, a cell and the number it
/// is reduced from leave the same remainder by four.
pub proof fn lemma_cell_class(x: int, m: int)
    requires
        m > 0,
        m % 4 == 0,
    ensures
        (x % m) % 4 == x % 4,
        0 <= x % m < m,
{
    let q = m / 4;
    assert(m == 4 * q);
    vstd::arithmetic::div_mod::lemma_mod_mod(x, 4, q);
    vstd::arithmetic::div_mod::lemma_mod_bound(x, m);
}

/// `ADD.AB #4, $3` adds four to the B value of the cell three cells on.
pub proof fn lemma_dwarf_adds(s: MarsView, v: int)
    requires
        s.valid(),
        !s.halted(),
        s.arena.len() >= 8,
        0 <= v < s.arena.len(),
        s.arena[s.processes[0].threads[0] as int] == dwarf_add(),
        s.arena[wrap_add(s.processes[0].threads[0] as int, 3, s.arena.len() as int)] == dwarf_bomb(
            v,
        ),
    ensures
        ({
            let m = s.arena.len() as int;
            let pc = s.processes[0].threads[0];
            &&& ran(s).arena == s.arena.update(
                wrap_add(pc as int, 3, m),
                dwarf_bomb(wrap_add(v, 4, m)),
            )
            &&& ran(s).control == stepped(pc, m)
        }),
{
    let m = s.arena.len() as int;
    let pc = s.processes[0].threads[0];
    assert(s.processes[0].valid(m, s.limits));
    lemma_wrap_bounds(pc as int, 3, m);
    lemma_wrap_bounds(v, 4, m);
}

/// `MOV.I $2, @2` copies the cell two cells on to where that cell's B value
/// points.
pub proof fn lemma_dwarf_moves(s: MarsView, v: int)
    requires
        s.valid(),
        !s.halted(),
        s.arena.len() >= 8,
        0 <= v < s.arena.len(),
        s.arena[s.processes[0].threads[0] as int] == dwarf_mov(),
        s.arena[wrap_add(s.processes[0].threads[0] as int, 2, s.arena.len() as int)] == dwarf_bomb(
            v,
        ),
    ensures
        ({
            let m = s.arena.len() as int;
            let pc = s.processes[0].threads[0];
            &&& ran(s).arena == s.arena.update(
                wrap_add(wrap_add(pc as int, 2, m), v, m),
                dwarf_bomb(v),
            )
            &&& ran(s).control == stepped(pc, m)
        }),
{
    let m = s.arena.len() as int;
    let pc = s.processes[0].threads[0];
    assert(s.processes[0].valid(m, s.limits));
    lemma_wrap_bounds(pc as int, 2, m);
    lemma_wrap_bounds(wrap_add(pc as int, 2, m), v, m);
}

/// `JMP.B $-2, $0` sends the thread two cells back and writes nothing.
pub proof fn lemma_dwarf_jumps(s: MarsView)
    requires
        s.valid(),
        !s.halted(),
        s.arena.len() >= 8,
        s.arena[s.processes[0].threads[0] as int] == dwarf_jmp(s.arena.len() as int),
    ensures
        ({
            let m = s.arena.len() as int;
            let pc = s.processes[0].threads[0];
            &&& ran(s).arena == s.arena
            &&& ran(s).control == jumped(wrap_add(pc as int, m - 2, m))
            &&& 0 <= wrap_add(pc as int, m - 2, m) < m
        }),
{
    let m = s.arena.len() as int;
    let pc = s.processes[0].threads[0];
    assert(s.processes[0].valid(m, s.limits));
    lemma_wrap_bounds(pc as int, m - 2, m);
}

/// The first step of a round: the bomb counts four more.
pub proof fn lemma_dwarf_first(s: MarsView, base: int, v: int)
    requires
        s.valid(),
        dwarf_stands(s, base, v, 0),
        s.cycle < s.limits.max_cycles,
    ensures
        ({
            let m = s.arena.len() as int;
            let t = after_step(s);
            &&& t.valid()
            &&& dwarf_stands(t, base, wrap_add(v, 4, m), 1)
            &&& t.arena.len() == s.arena.len()
            &&& t.limits == s.limits
            &&& t.cycle == s.cycle + 1
            &&& bombs_stay(s.arena, t.arena)
            &&& others_stay(s.arena, t.arena, base + 3)
        }),
{
    let m = s.arena.len() as int;
    lemma_cell_class(base + 1, m);
    lemma_cell_class(base + 2, m);
    lemma_cell_class(base + 3, m);
    lemma_cell_class(v + 4, m);
    vstd::arithmetic::div_mod::lemma_small_mod(base as nat, m as nat);
    assert(s.processes[0].threads[0] == base);
    lemma_dwarf_adds(s, v);
    lemma_lone_step(s, base);
}

/// The second step of a round: a copy of the bomb falls as many cells
/// behind the bomb as the bomb counts.
#[verifier::rlimit(30)]
pub proof fn lemma_dwarf_second(s: MarsView, base: int, v: int)
    requires
        s.valid(),
        dwarf_stands(s, base, v, 1),
        s.cycle < s.limits.max_cycles,
    ensures
        ({
            let m = s.arena.len() as int;
            let t = after_step(s);
            &&& t.valid()
            &&& dwarf_stands(t, base, v, 2)
            &&& t.arena.len() == s.arena.len()
            &&& t.limits == s.limits
            &&& t.cycle == s.cycle + 1
            &&& t.arena[wrap_add(base + 3, v, m)] == dwarf_bomb(v)
            &&& bombs_stay(s.arena, t.arena)
            &&& others_stay(s.arena, t.arena, base + 3)
        }),
{
    let m = s.arena.len() as int;
    let c1 = wrap_add(base, 1, m);
    let c3 = wrap_add(base, 3, m);
    lemma_cell_class(base + 1, m);
    lemma_cell_class(base + 2, m);
    lemma_cell_class(base + 3, m);
    lemma_cell_class(c3 + v, m);
    lemma_add_after_wrap(base + 3, v, m);
    lemma_add_after_wrap(base + 1, 2, m);
    lemma_add_after_wrap(base + 1, 1, m);
    vstd::arithmetic::div_mod::lemma_small_mod(base as nat, m as nat);
    assert(s.processes[0].threads[0] == c1);
    lemma_dwarf_moves(s, v);
    lemma_lone_step(s, c1);
}

/// The third step of a round: the thread goes back to where the round
/// began, and writes nothing.
pub proof fn lemma_dwarf_third(s: MarsView, base: int, v: int)
    requires
        s.valid(),
        dwarf_stands(s, base, v, 2),
        s.cycle < s.limits.max_cycles,
    ensures
        ({
            let t = after_step(s);
            &&& t.valid()
            &&& dwarf_stands(t, base, v, 0)
            &&& t.arena == s.arena
            &&& t.limits == s.limits
            &&& t.cycle == s.cycle + 1
        }),
{
    let m = s.arena.len() as int;
    let c2 = wrap_add(base, 2, m);
    lemma_cell_class(base + 2, m);
    lemma_add_after_wrap(base + 2, m - 2, m);
    vstd::arithmetic::div_mod::lemma_mod_add_multiples_vanish(base, m);
    vstd::arithmetic::div_mod::lemma_small_mod(base as nat, m as nat);
    assert(s.processes[0].threads[0] == c2);
    lemma_dwarf_jumps(s);
    lemma_lone_step(s, c2);
}

/// A round of the dwarf takes three steps: the bomb counts four more, a
/// copy of it falls that many cells behind the bomb, and the dwarf stands
/// as before. No cell that held a `DAT` holds anything else after it.
pub proof fn lemma_dwarf_round(s: MarsView, base: int, v: int)
    requires
        s.valid(),
        dwarf_at(s, base, v),
        s.cycle + 3 <= s.limits.max_cycles,
    ensures
        ({
            let m = s.arena.len() as int;
            let t = after_steps(s, 3);
            let w = wrap_add(v, 4, m);
            &&& t.valid()
            &&& dwarf_at(t, base, w)
            &&& t.arena.len() == s.arena.len()
            &&& t.limits == s.limits
            &&& t.cycle == s.cycle + 3
            &&& t.arena[wrap_add(base + 3, w, m)] == dwarf_bomb(w)
            &&& bombs_stay(s.arena, t.arena)
        }),
{
    let m = s.arena.len() as int;
    let w = wrap_add(v, 4, m);
    let s1 = after_steps(s, 1);
    let s2 = after_steps(s, 2);
    let s3 = after_steps(s, 3);
    assert(after_steps(s, 0) == s);
    assert(s1 == after_step(s));
    assert(s2 == after_step(s1));
    assert(s3 == after_step(s2));
    lemma_dwarf_first(s, base, v);
    lemma_dwarf_second(s1, base, w);
    lemma_dwarf_third(s2, base, w);
    assert forall|c: int| 0 <= c < m && s.arena[c].op.code == OpCode::Dat implies (
    #[trigger] s3.arena[c]).op.code == OpCode::Dat by {
        assert(s1.arena[c].op.code == OpCode::Dat);
        assert(s2.arena[c].op.code == OpCode::Dat);
    }
}

/// The dwarf bombs every fourth cell: after `k` rounds of three steps each
/// a `DAT` lies on the cells four, eight, ... `4k` cells behind its bomb,
/// around the end of the arena, and the dwarf stands as before, its bomb
/// counting `4k`.
pub proof fn lemma_dwarf_bombs(s: MarsView, base: int, k: nat)
    requires
        s.valid(),
        dwarf_at(s, base, 0),
        s.cycle + 3 * k <= s.limits.max_cycles,
    ensures
        ({
            let m = s.arena.len() as int;
            let t = after_steps(s, 3 * k);
            &&& t.valid()
            &&& dwarf_at(t, base, (4 * k as int) % m)
            &&& t.arena.len() == s.arena.len()
            &&& t.limits == s.limits
            &&& t.cycle == s.cycle + 3 * k
            &&& forall|r: int|
                1 <= r <= k ==> t.arena[#[trigger] wrap_add(base + 3, 4 * r, m)].op.code
                    == OpCode::Dat
        }),
    decreases k,
{
    let m = s.arena.len() as int;
    if k == 0 {
        assert(after_steps(s, 0) == s);
        vstd::arithmetic::div_mod::lemma_small_mod(0, m as nat);
    } else {
        let u = after_steps(s, (3 * (k - 1)) as nat);
        let t = after_steps(s, 3 * k);
        let v = (4 * (k - 1)) % m;
        lemma_dwarf_bombs(s, base, (k - 1) as nat);
        lemma_dwarf_round(u, base, v);
        lemma_steps_join(s, (3 * (k - 1)) as nat, 3);
        assert(t == after_steps(u, 3));
        lemma_add_after_wrap(4 * (k - 1), 4, m);
        assert(wrap_add(v, 4, m) == (4 * k as int) % m);
        vstd::arithmetic::div_mod::lemma_add_mod_noop_right(base + 3, 4 * k as int, m);
        assert(wrap_add(base + 3, (4 * k as int) % m, m) == wrap_add(base + 3, 4 * k as int, m));
        assert forall|r: int| 1 <= r <= k implies t.arena[#[trigger] wrap_add(base + 3, 4 * r, m)].op.code
            == OpCode::Dat by {
            lemma_wrap_bounds(base + 3, 4 * r, m);
            if r < k {
                assert(u.arena[wrap_add(base + 3, 4 * r, m)].op.code == OpCode::Dat);
            }
        }
    }
}

/// Steps add up: `b` steps after `a` steps are `a + b` steps.
pub proof fn lemma_steps_join(s: MarsView, a: nat, b: nat)
    ensures
        after_steps(after_steps(s, a), b) == after_steps(s, a + b),
    decreases b,
{
    if b > 0 {
        lemma_steps_join(s, a, (b - 1) as nat);
        assert(after_steps(s, a + b) == after_step(after_steps(s, (a + b - 1) as nat)));
    }
}

/// What the bomb of a dwarf counts after `n` steps: four for every round
/// that it has begun, modulo the size of the arena.
pub open spec fn dwarf_count(n: nat, m: int) -> int {
    (4 * ((n + 2) / 3) as int) % m
}

/// A step of the dwarf, wherever in its round it stands: the first step of
/// a round makes the bomb count four more, and every step takes the dwarf
/// one step on in its round.
pub proof fn lemma_dwarf_next(s: MarsView, base: int, v: int, at: int)
    requires
        s.valid(),
        0 <= at <= 2,
        dwarf_stands(s, base, v, at),
        s.cycle < s.limits.max_cycles,
    ensures
        ({
            let m = s.arena.len() as int;
            let t = after_step(s);
            let w = if at == 0 {
                wrap_add(v, 4, m)
            } else {
                v
            };
            &&& t.valid()
            &&& dwarf_stands(t, base, w, (at + 1) % 3)
            &&& t.arena.len() == s.arena.len()
            &&& t.limits == s.limits
            &&& t.cycle == s.cycle + 1
            &&& bombs_stay(s.arena, t.arena)
            &&& others_stay(s.arena, t.arena, base + 3)
        }),
{
    if at == 0 {
        lemma_dwarf_first(s, base, v);
    } else if at == 1 {
        lemma_dwarf_second(s, base, v);
    } else {
        lemma_dwarf_third(s, base, v);
    }
}

/// What the bomb counts after one step more.
pub proof fn lemma_dwarf_count_next(n: nat, m: int)
    requires
        m > 0,
    ensures
        dwarf_count(n + 1, m) == if n % 3 == 0 {
            wrap_add(dwarf_count(n, m), 4, m)
        } else {
            dwarf_count(n, m)
        },
        (n + 1) % 3 == (n % 3 + 1) % 3,
{
    if n % 3 == 0 {
        assert((n + 3) / 3 == (n + 2) / 3 + 1);
        lemma_add_after_wrap(4 * ((n + 2) / 3) as int, 4, m);
    } else {
        assert((n + 3) / 3 == (n + 2) / 3);
    }
}

/// The dwarf runs on: after any number of steps it stands where it stood,
/// as far into its round as the steps take it, every cell that held a `DAT`
/// holds one still, and no cell has changed but the bomb and the cells that
/// lie a multiple of four cells behind it.
pub proof fn lemma_dwarf_runs(s: MarsView, base: int, n: nat)
    requires
        s.valid(),
        dwarf_at(s, base, 0),
        s.cycle + n <= s.limits.max_cycles,
    ensures
        ({
            let m = s.arena.len() as int;
            let t = after_steps(s, n);
            &&& t.valid()
            &&& dwarf_stands(t, base, dwarf_count(n, m), (n % 3) as int)
            &&& t.arena.len() == s.arena.len()
            &&& t.limits == s.limits
            &&& t.cycle == s.cycle + n
            &&& bombs_stay(s.arena, t.arena)
            &&& others_stay(s.arena, t.arena, base + 3)
        }),
    decreases n,
{
    let m = s.arena.len() as int;
    if n == 0 {
        assert(after_steps(s, 0) == s);
        vstd::arithmetic::div_mod::lemma_small_mod(0, m as nat);
    } else {
        let u = after_steps(s, (n - 1) as nat);
        let t = after_steps(s, n);
        lemma_dwarf_runs(s, base, (n - 1) as nat);
        assert(t == after_step(u));
        lemma_dwarf_next(u, base, dwarf_count((n - 1) as nat, m), ((n - 1) % 3) as int);
        lemma_dwarf_count_next((n - 1) as nat, m);
        lemma_stays_add_up(s.arena, u.arena, t.arena, base + 3);
    }
}

/// What holds of the cells from one arena to a second and from the second
/// to a third holds from the first to the third.
pub proof fn lemma_stays_add_up(
    first: Seq<Instruction>,
    second: Seq<Instruction>,
    third: Seq<Instruction>,
    class: int,
)
    requires
        first.len() == second.len(),
        bombs_stay(first, second),
        bombs_stay(second, third),
        others_stay(first, second, class),
        others_stay(second, third, class),
    ensures
        bombs_stay(first, third),
        others_stay(first, third, class),
{
    assert forall|c: int| 0 <= c < first.len() && first[c].op.code == OpCode::Dat implies (
    #[trigger] third[c]).op.code == OpCode::Dat by {
        assert(second[c].op.code == OpCode::Dat);
    }
    assert forall|c: int| 0 <= c < first.len() && c % 4 != class % 4 implies #[trigger] third[c]
        == first[c] by {
        assert(second[c] == first[c]);
    }
}

/// A dwarf loaded alone into a simulator as it was built, in an arena whose
/// size is a multiple of four and at least eight, leaves a `DAT` on every
/// cell but its own first three, whatever the number of steps it has run:
/// so on the cell `4k + 10` cells behind its first, for every `k` for which
/// that cell is none of the three. A cell that lies no multiple of four
/// cells behind the bomb holds `DAT.F #0, #0`, as it did when the simulator
/// was built.
pub proof fn lemma_dwarf_leaves_dats(
    size: nat,
    limits: Limits,
    dest: u32,
    pin: Option<Pin>,
    k: nat,
    n: nat,
)
    requires
        size % 4 == 0,
        8 <= size <= u32::MAX,
        3 * (k + 1) <= n <= limits.max_cycles,
        ({
            let base = dest as int % size as int;
            let cell = wrap_add(base, 4 * k as int + 10, size as int);
            &&& cell != base
            &&& cell != wrap_add(base, 1, size as int)
            &&& cell != wrap_add(base, 2, size as int)
        }),
    ensures
        ({
            let m = size as int;
            let base = dest as int % m;
            let cell = wrap_add(base, 4 * k as int + 10, m);
            let loaded = after_load(initial_state(size, limits), dest, pin, written_dwarf(m));
            let t = after_steps(loaded, n);
            &&& 0 <= cell < m
            &&& t.arena.len() == m
            &&& t.arena[cell].op.code == OpCode::Dat
            &&& cell % 4 != (base + 3) % 4 ==> t.arena[cell] == default_instruction()
        }),
{
    let m = size as int;
    let base = dest as int % m;
    let cell = wrap_add(base, 4 * k as int + 10, m);
    let built = initial_state(size, limits);
    let program = written_dwarf(m);
    let loaded = after_load(built, dest, pin, program);
    lemma_initial_valid(size, limits);
    assert(built.admits(1));
    lemma_load_valid(built, dest, pin, program);
    lemma_dwarf_loads(built, dest, pin);
    lemma_wrap_bounds(base, 4 * k as int + 10, m);
    lemma_cell_class(dest as int, m);
    lemma_add_after_wrap(dest as int, 1, m);
    lemma_add_after_wrap(dest as int, 2, m);
    lemma_add_after_wrap(dest as int, 3, m);
    // the cell is as the simulator was built, or the dwarf's bomb
    assert(stamped(built.arena, program, dest as int, 0) == built.arena);
    assert(loaded.arena == built.arena.update(wrap_add(dest as int, 0, m), normalized(program[0], m))
        .update(wrap_add(dest as int, 1, m), normalized(program[1], m)).update(
        wrap_add(dest as int, 2, m),
        normalized(program[2], m),
    ).update(wrap_add(dest as int, 3, m), normalized(program[3], m))) by {
        assert(stamped(built.arena, program, dest as int, 1) == stamped(
            built.arena,
            program,
            dest as int,
            0,
        ).update(wrap_add(dest as int, 0, m), normalized(program[0], m)));
        assert(stamped(built.arena, program, dest as int, 2) == stamped(
            built.arena,
            program,
            dest as int,
            1,
        ).update(wrap_add(dest as int, 1, m), normalized(program[1], m)));
        assert(stamped(built.arena, program, dest as int, 3) == stamped(
            built.arena,
            program,
            dest as int,
            2,
        ).update(wrap_add(dest as int, 2, m), normalized(program[2], m)));
    }
    vstd::arithmetic::div_mod::lemma_small_mod(base as nat, m as nat);
    assert(wrap_add(dest as int, 0, m) == base);
    vstd::arithmetic::div_mod::lemma_small_mod(0, m as nat);
    assert(normalized(program[3], m) == dwarf_bomb(0));
    assert(built.arena[cell] == default_instruction());
    assert(loaded.arena[cell].op.code == OpCode::Dat);
    lemma_dwarf_runs(loaded, base, n);
    lemma_cell_class(base + 3, m);
    if cell % 4 != (base + 3) % 4 {
        assert(cell != wrap_add(dest as int, 3, m));
        assert(loaded.arena[cell] == default_instruction());
    }
}

} // verus!
