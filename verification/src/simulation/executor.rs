//! The instruction executor: what each opcode does to the destination cell,
//! to the private storage of the process and to the thread that runs it.
//!
//! The source is the cell at the effective address of the A operand, the
//! destination the cell at that of the B operand. The modifier selects the
//! fields that take part:
//!
//! | modifier | source to destination |
//! |----------|-----------------------|
//! | `A`      | A to A                |
//! | `B`      | B to B                |
//! | `AB`     | A to B                |
//! | `BA`     | B to A                |
//! | `F`      | A to A, B to B        |
//! | `X`      | A to B, B to A        |
//! | `I`      | the whole instruction |
//!
//! Only `MOV`, `SEQ`, `CMP` and `SNE` know a whole instruction; the other
//! opcodes read `I` as `F`.

use crate::address::{wrap_add, wrap_mul, wrap_sub};
use crate::redcode::{Field, Instruction, OpCode, OpMode};
use crate::simulation::arena::Arena;
use crate::simulation::event::SimulationEvent;
use vstd::prelude::*;

verus! {

/// What becomes of the thread that executed an instruction.
#[derive(Debug, Copy, Clone)]
pub struct Control {
    /// What the step reports.
    pub event: SimulationEvent,
    /// Where the thread goes on, unless it terminated.
    pub next: Option<u32>,
    /// Where a new thread starts, if one was split off.
    pub spawn: Option<u32>,
}

/// The state that an instruction leaves behind.
pub struct Outcome {
    pub arena: Seq<Instruction>,
    pub pspace: Seq<u32>,
    pub control: Control,
}

/// Whether the modifier selects the A field of the destination.
pub open spec fn writes_a(mode: OpMode) -> bool {
    mode == OpMode::A || mode == OpMode::BA || mode == OpMode::F || mode == OpMode::X || mode
        == OpMode::I
}

/// Whether the modifier selects the B field of the destination.
pub open spec fn writes_b(mode: OpMode) -> bool {
    mode == OpMode::B || mode == OpMode::AB || mode == OpMode::F || mode == OpMode::X || mode
        == OpMode::I
}

/// The field of the source that goes to the A field of the destination.
pub open spec fn source_for_a(mode: OpMode, src: Instruction) -> Field {
    if mode == OpMode::BA || mode == OpMode::X {
        src.b
    } else {
        src.a
    }
}

/// The field of the source that goes to the B field of the destination.
pub open spec fn source_for_b(mode: OpMode, src: Instruction) -> Field {
    if mode == OpMode::AB || mode == OpMode::X {
        src.a
    } else {
        src.b
    }
}

/// The destination after `MOV`: the selected fields, mode and value, are
/// those of the source.
pub open spec fn moved(mode: OpMode, src: Instruction, dst: Instruction) -> Instruction {
    if mode == OpMode::I {
        src
    } else {
        Instruction {
            op: dst.op,
            a: if writes_a(mode) {
                source_for_a(mode, src)
            } else {
                dst.a
            },
            b: if writes_b(mode) {
                source_for_b(mode, src)
            } else {
                dst.b
            },
        }
    }
}

/// One value of the destination after an arithmetic opcode, from the value
/// `d` it had and the value `s` of the source. A division by zero leaves it.
pub open spec fn arith(code: OpCode, d: int, s: int, m: int) -> int {
    match code {
        OpCode::Add => wrap_add(d, s, m),
        OpCode::Sub => wrap_sub(d, s, m),
        OpCode::Mul => wrap_mul(d, s, m),
        OpCode::Div => if s == 0 {
            d
        } else {
            d / s
        },
        OpCode::Mod => if s == 0 {
            d
        } else {
            d % s
        },
        _ => d,
    }
}

/// The destination after `ADD`, `SUB`, `MUL`, `DIV` or `MOD`.
pub open spec fn computed(code: OpCode, mode: OpMode, src: Instruction, dst: Instruction, m: int)
    -> Instruction {
    Instruction {
        op: dst.op,
        a: Field {
            value: if writes_a(mode) {
                arith(code, dst.a.value as int, source_for_a(mode, src).value as int, m) as u32
            } else {
                dst.a.value
            },
            mode: dst.a.mode,
        },
        b: Field {
            value: if writes_b(mode) {
                arith(code, dst.b.value as int, source_for_b(mode, src).value as int, m) as u32
            } else {
                dst.b.value
            },
            mode: dst.b.mode,
        },
    }
}

/// Whether one of the selected divisors is zero.
pub open spec fn divides_by_zero(mode: OpMode, src: Instruction) -> bool {
    (writes_a(mode) && source_for_a(mode, src).value == 0) || (writes_b(mode) && source_for_b(
        mode,
        src,
    ).value == 0)
}

/// Whether every selected value of the destination is zero.
pub open spec fn all_zero(mode: OpMode, dst: Instruction) -> bool {
    (writes_a(mode) ==> dst.a.value == 0) && (writes_b(mode) ==> dst.b.value == 0)
}

/// Whether every selected value of the destination is other than zero.
pub open spec fn all_nonzero(mode: OpMode, dst: Instruction) -> bool {
    (writes_a(mode) ==> dst.a.value != 0) && (writes_b(mode) ==> dst.b.value != 0)
}

/// The destination after `DJN`: the selected values, less one.
pub open spec fn decremented(mode: OpMode, dst: Instruction, m: int) -> Instruction {
    Instruction {
        op: dst.op,
        a: Field {
            value: if writes_a(mode) {
                wrap_sub(dst.a.value as int, 1, m) as u32
            } else {
                dst.a.value
            },
            mode: dst.a.mode,
        },
        b: Field {
            value: if writes_b(mode) {
                wrap_sub(dst.b.value as int, 1, m) as u32
            } else {
                dst.b.value
            },
            mode: dst.b.mode,
        },
    }
}

/// Whether the selected values of source and destination are equal; under
/// `I`, whether the two instructions are.
pub open spec fn fields_equal(mode: OpMode, src: Instruction, dst: Instruction) -> bool {
    if mode == OpMode::I {
        src == dst
    } else {
        (writes_a(mode) ==> source_for_a(mode, src).value == dst.a.value) && (writes_b(mode)
            ==> source_for_b(mode, src).value == dst.b.value)
    }
}

/// Whether every selected value of the source is less than that of the
/// destination.
pub open spec fn fields_less(mode: OpMode, src: Instruction, dst: Instruction) -> bool {
    (writes_a(mode) ==> source_for_a(mode, src).value < dst.a.value) && (writes_b(mode)
        ==> source_for_b(mode, src).value < dst.b.value)
}

/// The destination after `LDP`: the selected values are `value`.
pub open spec fn loaded(mode: OpMode, dst: Instruction, value: u32) -> Instruction {
    Instruction {
        op: dst.op,
        a: Field { value: if writes_a(mode) { value } else { dst.a.value }, mode: dst.a.mode },
        b: Field { value: if writes_b(mode) { value } else { dst.b.value }, mode: dst.b.mode },
    }
}

/// The value that `STP` stores: the A value of the source under `A` and
/// `AB`, its B value under the other modifiers.
pub open spec fn stored_value(mode: OpMode, src: Instruction) -> u32 {
    if mode == OpMode::A || mode == OpMode::AB {
        src.a.value
    } else {
        src.b.value
    }
}

/// The thread goes on at `pc + 1`.
pub open spec fn stepped(pc: u32, m: int) -> Control {
    Control {
        event: SimulationEvent::Stepped,
        next: Some(wrap_add(pc as int, 1, m) as u32),
        spawn: None,
    }
}

/// The thread goes on at `pc + 2`.
pub open spec fn skipped(pc: u32, m: int) -> Control {
    Control {
        event: SimulationEvent::Skipped,
        next: Some(wrap_add(pc as int, 2, m) as u32),
        spawn: None,
    }
}

/// The thread goes on at `target`.
pub open spec fn jumped(target: int) -> Control {
    Control { event: SimulationEvent::Jumped, next: Some(target as u32), spawn: None }
}

/// The thread ends.
pub open spec fn terminated() -> Control {
    Control { event: SimulationEvent::Terminated, next: None, spawn: None }
}

/// The thread goes on at `pc + 1`, and a new one starts at `target`.
pub open spec fn split(pc: u32, m: int, target: int) -> Control {
    Control {
        event: SimulationEvent::Split,
        next: Some(wrap_add(pc as int, 1, m) as u32),
        spawn: Some(target as u32),
    }
}

/// What the instruction `instr`, fetched at `pc`, does: `ea` and `eb` are
/// the effective addresses of its operands, `pspace` is the private storage
/// of its process, and `room` says whether the process may take one more
/// thread.
pub open spec fn executed(
    arena: Seq<Instruction>,
    pspace: Seq<u32>,
    instr: Instruction,
    pc: u32,
    ea: int,
    eb: int,
    room: bool,
) -> Outcome {
    let m = arena.len() as int;
    let mode = instr.op.mode;
    let code = instr.op.code;
    let src = arena[ea];
    let dst = arena[eb];
    match code {
        OpCode::Dat => Outcome { arena, pspace, control: terminated() },
        OpCode::Mov => Outcome {
            arena: arena.update(eb, moved(mode, src, dst)),
            pspace,
            control: stepped(pc, m),
        },
        OpCode::Add | OpCode::Sub | OpCode::Mul => Outcome {
            arena: arena.update(eb, computed(code, mode, src, dst, m)),
            pspace,
            control: stepped(pc, m),
        },
        OpCode::Div | OpCode::Mod => Outcome {
            arena: arena.update(eb, computed(code, mode, src, dst, m)),
            pspace,
            control: if divides_by_zero(mode, src) {
                terminated()
            } else {
                stepped(pc, m)
            },
        },
        OpCode::Jmp => Outcome { arena, pspace, control: jumped(ea) },
        OpCode::Jmz => Outcome {
            arena,
            pspace,
            control: if all_zero(mode, dst) {
                jumped(ea)
            } else {
                stepped(pc, m)
            },
        },
        OpCode::Jmn => Outcome {
            arena,
            pspace,
            control: if all_nonzero(mode, dst) {
                jumped(ea)
            } else {
                stepped(pc, m)
            },
        },
        OpCode::Djn => Outcome {
            arena: arena.update(eb, decremented(mode, dst, m)),
            pspace,
            control: if !all_zero(mode, decremented(mode, dst, m)) {
                jumped(ea)
            } else {
                stepped(pc, m)
            },
        },
        OpCode::Spl => Outcome {
            arena,
            pspace,
            control: if room {
                split(pc, m, ea)
            } else {
                stepped(pc, m)
            },
        },
        OpCode::Cmp | OpCode::SkipEq => Outcome {
            arena,
            pspace,
            control: if fields_equal(mode, src, dst) {
                skipped(pc, m)
            } else {
                stepped(pc, m)
            },
        },
        OpCode::Sne => Outcome {
            arena,
            pspace,
            control: if !fields_equal(mode, src, dst) {
                skipped(pc, m)
            } else {
                stepped(pc, m)
            },
        },
        OpCode::Slt => Outcome {
            arena,
            pspace,
            control: if fields_less(mode, src, dst) {
                skipped(pc, m)
            } else {
                stepped(pc, m)
            },
        },
        OpCode::Ldp => if pspace.len() == 0 {
            Outcome { arena, pspace, control: terminated() }
        } else {
            Outcome {
                arena: arena.update(
                    eb,
                    loaded(mode, dst, pspace[instr.a.value as int % pspace.len() as int]),
                ),
                pspace,
                control: stepped(pc, m),
            }
        },
        OpCode::Stp => if pspace.len() == 0 {
            Outcome { arena, pspace, control: terminated() }
        } else {
            Outcome {
                arena,
                pspace: pspace.update(
                    instr.b.value as int % pspace.len() as int,
                    stored_value(mode, src),
                ),
                control: stepped(pc, m),
            }
        },
        OpCode::Nop => Outcome { arena, pspace, control: stepped(pc, m) },
    }
}

/// The thread goes on at `pc + 1`.
pub fn step_pc(arena: &Arena, pc: u32) -> (c: Control)
    ensures
        c == stepped(pc, arena@.len() as int),
{
    Control { event: SimulationEvent::Stepped, next: Some(arena.add(pc, 1)), spawn: None }
}

/// The thread goes on at `pc + 2`.
pub fn skip_pc(arena: &Arena, pc: u32) -> (c: Control)
    ensures
        c == skipped(pc, arena@.len() as int),
{
    Control { event: SimulationEvent::Skipped, next: Some(arena.add(pc, 2)), spawn: None }
}

/// The thread goes on at `target`.
pub fn jump_pc(target: u32) -> (c: Control)
    ensures
        c == jumped(target as int),
{
    Control { event: SimulationEvent::Jumped, next: Some(target), spawn: None }
}

/// `DAT`: the thread ends.
pub fn exec_dat() -> (c: Control)
    ensures
        c == terminated(),
{
    Control { event: SimulationEvent::Terminated, next: None, spawn: None }
}

/// `MOV`: copies the selected fields of the source to the destination.
pub fn exec_mov(arena: &mut Arena, mode: OpMode, pc: u32, ea: u32, eb: u32) -> (c: Control)
    requires
        ea < old(arena)@.len(),
        eb < old(arena)@.len(),
    ensures
        final(arena)@ == old(arena)@.update(
            eb as int,
            moved(mode, old(arena)@[ea as int], old(arena)@[eb as int]),
        ),
        c == stepped(pc, old(arena)@.len() as int),
{
    let src = arena.fetch(ea);
    let mut dst = arena.fetch(eb);
    match mode {
        OpMode::A => {
            dst.a = src.a;
        },
        OpMode::B => {
            dst.b = src.b;
        },
        OpMode::AB => {
            dst.b = src.a;
        },
        OpMode::BA => {
            dst.a = src.b;
        },
        OpMode::F => {
            dst.a = src.a;
            dst.b = src.b;
        },
        OpMode::X => {
            dst.b = src.a;
            dst.a = src.b;
        },
        OpMode::I => {
            dst = src;
        },
    }
    arena.store(eb, dst);
    step_pc(arena, pc)
}

/// `ADD`: adds the selected values of the source to those of the
/// destination, modulo the size of the arena.
pub fn exec_add(arena: &mut Arena, mode: OpMode, pc: u32, ea: u32, eb: u32) -> (c: Control)
    requires
        ea < old(arena)@.len(),
        eb < old(arena)@.len(),
    ensures
        final(arena)@ == old(arena)@.update(
            eb as int,
            computed(
                OpCode::Add,
                mode,
                old(arena)@[ea as int],
                old(arena)@[eb as int],
                old(arena)@.len() as int,
            ),
        ),
        c == stepped(pc, old(arena)@.len() as int),
{
    let src = arena.fetch(ea);
    let mut dst = arena.fetch(eb);
    match mode {
        OpMode::A => {
            dst.a.value = arena.add(dst.a.value, src.a.value);
        },
        OpMode::B => {
            dst.b.value = arena.add(dst.b.value, src.b.value);
        },
        OpMode::AB => {
            dst.b.value = arena.add(dst.b.value, src.a.value);
        },
        OpMode::BA => {
            dst.a.value = arena.add(dst.a.value, src.b.value);
        },
        OpMode::F | OpMode::I => {
            dst.a.value = arena.add(dst.a.value, src.a.value);
            dst.b.value = arena.add(dst.b.value, src.b.value);
        },
        OpMode::X => {
            dst.b.value = arena.add(dst.b.value, src.a.value);
            dst.a.value = arena.add(dst.a.value, src.b.value);
        },
    }
    arena.store(eb, dst);
    step_pc(arena, pc)
}

/// `SUB`: subtracts the selected values of the source from those of the
/// destination, modulo the size of the arena.
pub fn exec_sub(arena: &mut Arena, mode: OpMode, pc: u32, ea: u32, eb: u32) -> (c: Control)
    requires
        ea < old(arena)@.len(),
        eb < old(arena)@.len(),
    ensures
        final(arena)@ == old(arena)@.update(
            eb as int,
            computed(
                OpCode::Sub,
                mode,
                old(arena)@[ea as int],
                old(arena)@[eb as int],
                old(arena)@.len() as int,
            ),
        ),
        c == stepped(pc, old(arena)@.len() as int),
{
    let src = arena.fetch(ea);
    let mut dst = arena.fetch(eb);
    match mode {
        OpMode::A => {
            dst.a.value = arena.sub(dst.a.value, src.a.value);
        },
        OpMode::B => {
            dst.b.value = arena.sub(dst.b.value, src.b.value);
        },
        OpMode::AB => {
            dst.b.value = arena.sub(dst.b.value, src.a.value);
        },
        OpMode::BA => {
            dst.a.value = arena.sub(dst.a.value, src.b.value);
        },
        OpMode::F | OpMode::I => {
            dst.a.value = arena.sub(dst.a.value, src.a.value);
            dst.b.value = arena.sub(dst.b.value, src.b.value);
        },
        OpMode::X => {
            dst.b.value = arena.sub(dst.b.value, src.a.value);
            dst.a.value = arena.sub(dst.a.value, src.b.value);
        },
    }
    arena.store(eb, dst);
    step_pc(arena, pc)
}

/// `MUL`: multiplies the selected values of the destination by those of the
/// source, modulo the size of the arena.
pub fn exec_mul(arena: &mut Arena, mode: OpMode, pc: u32, ea: u32, eb: u32) -> (c: Control)
    requires
        ea < old(arena)@.len(),
        eb < old(arena)@.len(),
    ensures
        final(arena)@ == old(arena)@.update(
            eb as int,
            computed(
                OpCode::Mul,
                mode,
                old(arena)@[ea as int],
                old(arena)@[eb as int],
                old(arena)@.len() as int,
            ),
        ),
        c == stepped(pc, old(arena)@.len() as int),
{
    let src = arena.fetch(ea);
    let mut dst = arena.fetch(eb);
    match mode {
        OpMode::A => {
            dst.a.value = arena.mul(dst.a.value, src.a.value);
        },
        OpMode::B => {
            dst.b.value = arena.mul(dst.b.value, src.b.value);
        },
        OpMode::AB => {
            dst.b.value = arena.mul(dst.b.value, src.a.value);
        },
        OpMode::BA => {
            dst.a.value = arena.mul(dst.a.value, src.b.value);
        },
        OpMode::F | OpMode::I => {
            dst.a.value = arena.mul(dst.a.value, src.a.value);
            dst.b.value = arena.mul(dst.b.value, src.b.value);
        },
        OpMode::X => {
            dst.b.value = arena.mul(dst.b.value, src.a.value);
            dst.a.value = arena.mul(dst.a.value, src.b.value);
        },
    }
    arena.store(eb, dst);
    step_pc(arena, pc)
}

/// `DIV`: divides the selected values of the destination by those of the
/// source. A value whose divisor is zero stays, and the thread ends.
pub fn exec_div(arena: &mut Arena, mode: OpMode, pc: u32, ea: u32, eb: u32) -> (c: Control)
    requires
        ea < old(arena)@.len(),
        eb < old(arena)@.len(),
    ensures
        final(arena)@ == old(arena)@.update(
            eb as int,
            computed(
                OpCode::Div,
                mode,
                old(arena)@[ea as int],
                old(arena)@[eb as int],
                old(arena)@.len() as int,
            ),
        ),
        c == if divides_by_zero(mode, old(arena)@[ea as int]) {
            terminated()
        } else {
            stepped(pc, old(arena)@.len() as int)
        },
{
    let src = arena.fetch(ea);
    let mut dst = arena.fetch(eb);
    let (by_a, by_b): (Option<u32>, Option<u32>) = match mode {
        OpMode::A => (Some(src.a.value), None),
        OpMode::B => (None, Some(src.b.value)),
        OpMode::AB => (None, Some(src.a.value)),
        OpMode::BA => (Some(src.b.value), None),
        OpMode::F | OpMode::I => (Some(src.a.value), Some(src.b.value)),
        OpMode::X => (Some(src.b.value), Some(src.a.value)),
    };
    let mut dead = false;
    if let Some(divisor) = by_a {
        if divisor != 0 {
            dst.a.value = dst.a.value / divisor;
        } else {
            dead = true;
        }
    }
    if let Some(divisor) = by_b {
        if divisor != 0 {
            dst.b.value = dst.b.value / divisor;
        } else {
            dead = true;
        }
    }
    arena.store(eb, dst);
    if dead {
        exec_dat()
    } else {
        step_pc(arena, pc)
    }
}

/// `MOD`: replaces the selected values of the destination by their
/// remainders by those of the source. A value whose divisor is zero stays,
/// and the thread ends.
pub fn exec_mod(arena: &mut Arena, mode: OpMode, pc: u32, ea: u32, eb: u32) -> (c: Control)
    requires
        ea < old(arena)@.len(),
        eb < old(arena)@.len(),
    ensures
        final(arena)@ == old(arena)@.update(
            eb as int,
            computed(
                OpCode::Mod,
                mode,
                old(arena)@[ea as int],
                old(arena)@[eb as int],
                old(arena)@.len() as int,
            ),
        ),
        c == if divides_by_zero(mode, old(arena)@[ea as int]) {
            terminated()
        } else {
            stepped(pc, old(arena)@.len() as int)
        },
{
    let src = arena.fetch(ea);
    let mut dst = arena.fetch(eb);
    let (by_a, by_b): (Option<u32>, Option<u32>) = match mode {
        OpMode::A => (Some(src.a.value), None),
        OpMode::B => (None, Some(src.b.value)),
        OpMode::AB => (None, Some(src.a.value)),
        OpMode::BA => (Some(src.b.value), None),
        OpMode::F | OpMode::I => (Some(src.a.value), Some(src.b.value)),
        OpMode::X => (Some(src.b.value), Some(src.a.value)),
    };
    let mut dead = false;
    if let Some(divisor) = by_a {
        if divisor != 0 {
            dst.a.value = dst.a.value % divisor;
        } else {
            dead = true;
        }
    }
    if let Some(divisor) = by_b {
        if divisor != 0 {
            dst.b.value = dst.b.value % divisor;
        } else {
            dead = true;
        }
    }
    arena.store(eb, dst);
    if dead {
        exec_dat()
    } else {
        step_pc(arena, pc)
    }
}

/// `JMP`: the thread goes on at the effective address of the A operand.
pub fn exec_jmp(ea: u32) -> (c: Control)
    ensures
        c == jumped(ea as int),
{
    jump_pc(ea)
}

/// `JMZ`: jumps if every selected value of the destination is zero.
pub fn exec_jmz(arena: &Arena, mode: OpMode, pc: u32, ea: u32, eb: u32) -> (c: Control)
    requires
        eb < arena@.len(),
    ensures
        c == if all_zero(mode, arena@[eb as int]) {
            jumped(ea as int)
        } else {
            stepped(pc, arena@.len() as int)
        },
{
    let dst = arena.fetch(eb);
    let jump = match mode {
        OpMode::A | OpMode::BA => dst.a.value == 0,
        OpMode::B | OpMode::AB => dst.b.value == 0,
        OpMode::F | OpMode::X | OpMode::I => dst.a.value == 0 && dst.b.value == 0,
    };
    if jump {
        jump_pc(ea)
    } else {
        step_pc(arena, pc)
    }
}

/// `JMN`: jumps if every selected value of the destination is other than
/// zero.
pub fn exec_jmn(arena: &Arena, mode: OpMode, pc: u32, ea: u32, eb: u32) -> (c: Control)
    requires
        eb < arena@.len(),
    ensures
        c == if all_nonzero(mode, arena@[eb as int]) {
            jumped(ea as int)
        } else {
            stepped(pc, arena@.len() as int)
        },
{
    let dst = arena.fetch(eb);
    let jump = match mode {
        OpMode::A | OpMode::BA => dst.a.value != 0,
        OpMode::B | OpMode::AB => dst.b.value != 0,
        OpMode::F | OpMode::X | OpMode::I => dst.a.value != 0 && dst.b.value != 0,
    };
    if jump {
        jump_pc(ea)
    } else {
        step_pc(arena, pc)
    }
}

/// `DJN`: takes one from the selected values of the destination, then jumps
/// unless all of them are zero.
pub fn exec_djn(arena: &mut Arena, mode: OpMode, pc: u32, ea: u32, eb: u32) -> (c: Control)
    requires
        eb < old(arena)@.len(),
    ensures
        final(arena)@ == old(arena)@.update(
            eb as int,
            decremented(mode, old(arena)@[eb as int], old(arena)@.len() as int),
        ),
        c == if !all_zero(
            mode,
            decremented(mode, old(arena)@[eb as int], old(arena)@.len() as int),
        ) {
            jumped(ea as int)
        } else {
            stepped(pc, old(arena)@.len() as int)
        },
{
    let mut dst = arena.fetch(eb);
    let jump = match mode {
        OpMode::A | OpMode::BA => {
            dst.a.value = arena.sub(dst.a.value, 1);
            dst.a.value != 0
        },
        OpMode::B | OpMode::AB => {
            dst.b.value = arena.sub(dst.b.value, 1);
            dst.b.value != 0
        },
        OpMode::F | OpMode::X | OpMode::I => {
            dst.a.value = arena.sub(dst.a.value, 1);
            dst.b.value = arena.sub(dst.b.value, 1);
            dst.a.value != 0 || dst.b.value != 0
        },
    };
    arena.store(eb, dst);
    if jump {
        jump_pc(ea)
    } else {
        step_pc(arena, pc)
    }
}

/// `SPL`: the thread goes on at the next instruction; where the process has
/// `room`, a new thread starts at the effective address of the A operand.
pub fn exec_spl(arena: &Arena, pc: u32, ea: u32, room: bool) -> (c: Control)
    ensures
        c == if room {
            split(pc, arena@.len() as int, ea as int)
        } else {
            stepped(pc, arena@.len() as int)
        },
{
    if room {
        Control { event: SimulationEvent::Split, next: Some(arena.add(pc, 1)), spawn: Some(ea) }
    } else {
        step_pc(arena, pc)
    }
}

/// `SEQ` and `CMP`: skips the next instruction if the selected values are
/// equal.
pub fn exec_seq(arena: &Arena, mode: OpMode, pc: u32, ea: u32, eb: u32) -> (c: Control)
    requires
        ea < arena@.len(),
        eb < arena@.len(),
    ensures
        c == if fields_equal(mode, arena@[ea as int], arena@[eb as int]) {
            skipped(pc, arena@.len() as int)
        } else {
            stepped(pc, arena@.len() as int)
        },
{
    let src = arena.fetch(ea);
    let dst = arena.fetch(eb);
    let skip = match mode {
        OpMode::A => src.a.value == dst.a.value,
        OpMode::B => src.b.value == dst.b.value,
        OpMode::AB => src.a.value == dst.b.value,
        OpMode::BA => src.b.value == dst.a.value,
        OpMode::F => src.a.value == dst.a.value && src.b.value == dst.b.value,
        OpMode::X => src.a.value == dst.b.value && src.b.value == dst.a.value,
        OpMode::I => src == dst,
    };
    if skip {
        skip_pc(arena, pc)
    } else {
        step_pc(arena, pc)
    }
}

/// `SNE`: skips the next instruction unless the selected values are equal.
pub fn exec_sne(arena: &Arena, mode: OpMode, pc: u32, ea: u32, eb: u32) -> (c: Control)
    requires
        ea < arena@.len(),
        eb < arena@.len(),
    ensures
        c == if !fields_equal(mode, arena@[ea as int], arena@[eb as int]) {
            skipped(pc, arena@.len() as int)
        } else {
            stepped(pc, arena@.len() as int)
        },
{
    let src = arena.fetch(ea);
    let dst = arena.fetch(eb);
    let skip = match mode {
        OpMode::A => src.a.value != dst.a.value,
        OpMode::B => src.b.value != dst.b.value,
        OpMode::AB => src.a.value != dst.b.value,
        OpMode::BA => src.b.value != dst.a.value,
        OpMode::F => src.a.value != dst.a.value || src.b.value != dst.b.value,
        OpMode::X => src.a.value != dst.b.value || src.b.value != dst.a.value,
        OpMode::I => src != dst,
    };
    if skip {
        skip_pc(arena, pc)
    } else {
        step_pc(arena, pc)
    }
}

/// `SLT`: skips the next instruction if every selected value of the source
/// is less than that of the destination.
pub fn exec_slt(arena: &Arena, mode: OpMode, pc: u32, ea: u32, eb: u32) -> (c: Control)
    requires
        ea < arena@.len(),
        eb < arena@.len(),
    ensures
        c == if fields_less(mode, arena@[ea as int], arena@[eb as int]) {
            skipped(pc, arena@.len() as int)
        } else {
            stepped(pc, arena@.len() as int)
        },
{
    let src = arena.fetch(ea);
    let dst = arena.fetch(eb);
    let skip = match mode {
        OpMode::A => src.a.value < dst.a.value,
        OpMode::B => src.b.value < dst.b.value,
        OpMode::AB => src.a.value < dst.b.value,
        OpMode::BA => src.b.value < dst.a.value,
        OpMode::F | OpMode::I => src.a.value < dst.a.value && src.b.value < dst.b.value,
        OpMode::X => src.a.value < dst.b.value && src.b.value < dst.a.value,
    };
    if skip {
        skip_pc(arena, pc)
    } else {
        step_pc(arena, pc)
    }
}

/// `LDP`: loads the value of private storage at the displacement of the A
/// operand, modulo the size of the storage, into the selected values of the
/// destination. Where the storage is empty the thread ends.
pub fn exec_ldp(arena: &mut Arena, pspace: &Vec<u32>, instr: Instruction, pc: u32, eb: u32) -> (c:
    Control)
    requires
        eb < old(arena)@.len(),
    ensures
        pspace@.len() == 0 ==> final(arena)@ == old(arena)@ && c == terminated(),
        pspace@.len() > 0 ==> final(arena)@ == old(arena)@.update(
            eb as int,
            loaded(
                instr.op.mode,
                old(arena)@[eb as int],
                pspace@[instr.a.value as int % pspace@.len() as int],
            ),
        ) && c == stepped(pc, old(arena)@.len() as int),
{
    if pspace.len() == 0 {
        exec_dat()
    } else {
        let value: u32 = pspace[instr.a.value as usize % pspace.len()];
        let mut dst = arena.fetch(eb);
        match instr.op.mode {
            OpMode::A | OpMode::BA => {
                dst.a.value = value;
            },
            OpMode::B | OpMode::AB => {
                dst.b.value = value;
            },
            OpMode::F | OpMode::X | OpMode::I => {
                dst.a.value = value;
                dst.b.value = value;
            },
        }
        arena.store(eb, dst);
        step_pc(arena, pc)
    }
}

/// `STP`: stores the selected value of the source in private storage, at
/// the displacement of the B operand modulo the size of the storage. Where
/// the storage is empty the thread ends.
pub fn exec_stp(arena: &Arena, pspace: &mut Vec<u32>, instr: Instruction, pc: u32, ea: u32) -> (c:
    Control)
    requires
        ea < arena@.len(),
    ensures
        old(pspace)@.len() == 0 ==> final(pspace)@ == old(pspace)@ && c == terminated(),
        old(pspace)@.len() > 0 ==> final(pspace)@ == old(pspace)@.update(
            instr.b.value as int % old(pspace)@.len() as int,
            stored_value(instr.op.mode, arena@[ea as int]),
        ) && c == stepped(pc, arena@.len() as int),
{
    if pspace.len() == 0 {
        exec_dat()
    } else {
        let src = arena.fetch(ea);
        let value: u32 = match instr.op.mode {
            OpMode::A | OpMode::AB => src.a.value,
            _ => src.b.value,
        };
        let index: usize = instr.b.value as usize % pspace.len();
        pspace.set(index, value);
        step_pc(arena, pc)
    }
}

/// `NOP`: the thread goes on at the next instruction.
pub fn exec_nop(arena: &Arena, pc: u32) -> (c: Control)
    ensures
        c == stepped(pc, arena@.len() as int),
{
    step_pc(arena, pc)
}

/// Executes `instr`, fetched at `pc`, whose operands have the effective
/// addresses `ea` and `eb`.
pub fn execute(
    arena: &mut Arena,
    pspace: &mut Vec<u32>,
    instr: Instruction,
    pc: u32,
    ea: u32,
    eb: u32,
    room: bool,
) -> (c: Control)
    requires
        ea < old(arena)@.len(),
        eb < old(arena)@.len(),
    ensures
        final(arena)@ == executed(
            old(arena)@,
            old(pspace)@,
            instr,
            pc,
            ea as int,
            eb as int,
            room,
        ).arena,
        final(pspace)@ == executed(
            old(arena)@,
            old(pspace)@,
            instr,
            pc,
            ea as int,
            eb as int,
            room,
        ).pspace,
        c == executed(old(arena)@, old(pspace)@, instr, pc, ea as int, eb as int, room).control,
{
    let mode = instr.op.mode;
    match instr.op.code {
        OpCode::Dat => exec_dat(),
        OpCode::Mov => exec_mov(arena, mode, pc, ea, eb),
        OpCode::Add => exec_add(arena, mode, pc, ea, eb),
        OpCode::Sub => exec_sub(arena, mode, pc, ea, eb),
        OpCode::Mul => exec_mul(arena, mode, pc, ea, eb),
        OpCode::Div => exec_div(arena, mode, pc, ea, eb),
        OpCode::Mod => exec_mod(arena, mode, pc, ea, eb),
        OpCode::Jmp => exec_jmp(ea),
        OpCode::Jmz => exec_jmz(arena, mode, pc, ea, eb),
        OpCode::Jmn => exec_jmn(arena, mode, pc, ea, eb),
        OpCode::Djn => exec_djn(arena, mode, pc, ea, eb),
        OpCode::Spl => exec_spl(arena, pc, ea, room),
        OpCode::Cmp | OpCode::SkipEq => exec_seq(arena, mode, pc, ea, eb),
        OpCode::Sne => exec_sne(arena, mode, pc, ea, eb),
        OpCode::Slt => exec_slt(arena, mode, pc, ea, eb),
        OpCode::Ldp => exec_ldp(arena, pspace, instr, pc, eb),
        OpCode::Stp => exec_stp(arena, pspace, instr, pc, ea),
        OpCode::Nop => exec_nop(arena, pc),
    }
}

} // verus!
