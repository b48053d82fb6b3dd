//! The address resolver: from a program counter and an operand to the cell
//! the operand refers to, and the side effects of the operand on the cell it
//! points through.
//!
//! Both operands of an instruction are resolved against the arena as the
//! instruction found it. The pre-decrements are applied after that, the A
//! operand's first; the post-increments follow the execution in the same
//! order.

use crate::address::{wrap_add, wrap_sub};
use crate::redcode::{AddressingMode, Field, IncrementMode, Instruction};
use crate::simulation::arena::Arena;
use vstd::prelude::*;

verus! {

/// The instruction with the value of its A field replaced.
pub open spec fn with_a_value(instr: Instruction, value: int) -> Instruction {
    Instruction { a: Field { value: value as u32, mode: instr.a.mode }, ..instr }
}

/// The instruction with the value of its B field replaced.
pub open spec fn with_b_value(instr: Instruction, value: int) -> Instruction {
    Instruction { b: Field { value: value as u32, mode: instr.b.mode }, ..instr }
}

/// The cell at the operand's displacement from `pc`.
pub open spec fn direct(arena: Seq<Instruction>, pc: u32, f: Field) -> int {
    wrap_add(pc as int, f.value as int, arena.len() as int)
}

/// The pointer that an indirect operand follows: the A or B value of the
/// direct cell, less one where the operand decrements it first.
pub open spec fn pointer(arena: Seq<Instruction>, pc: u32, f: Field) -> int {
    let m = arena.len() as int;
    let cell = arena[direct(arena, pc, f)];
    match f.mode {
        AddressingMode::AIndirect(IncrementMode::PreDecrement) => wrap_sub(
            cell.a.value as int,
            1,
            m,
        ),
        AddressingMode::AIndirect(_) => cell.a.value as int,
        AddressingMode::BIndirect(IncrementMode::PreDecrement) => wrap_sub(
            cell.b.value as int,
            1,
            m,
        ),
        AddressingMode::BIndirect(_) => cell.b.value as int,
        _ => 0,
    }
}

/// The effective address of an operand.
pub open spec fn resolved(arena: Seq<Instruction>, pc: u32, f: Field) -> int {
    match f.mode {
        AddressingMode::Immediate => pc as int,
        AddressingMode::Direct => direct(arena, pc, f),
        _ => wrap_add(direct(arena, pc, f), pointer(arena, pc, f), arena.len() as int),
    }
}

/// The arena after the operand's pre-decrement, if it has one.
pub open spec fn pre_applied(arena: Seq<Instruction>, pc: u32, f: Field) -> Seq<Instruction> {
    let m = arena.len() as int;
    let d = direct(arena, pc, f);
    match f.mode {
        AddressingMode::AIndirect(IncrementMode::PreDecrement) => arena.update(
            d,
            with_a_value(arena[d], wrap_sub(arena[d].a.value as int, 1, m)),
        ),
        AddressingMode::BIndirect(IncrementMode::PreDecrement) => arena.update(
            d,
            with_b_value(arena[d], wrap_sub(arena[d].b.value as int, 1, m)),
        ),
        _ => arena,
    }
}

/// The arena after the operand's post-increment, if it has one.
pub open spec fn post_applied(arena: Seq<Instruction>, pc: u32, f: Field) -> Seq<Instruction> {
    let m = arena.len() as int;
    let d = direct(arena, pc, f);
    match f.mode {
        AddressingMode::AIndirect(IncrementMode::PostIncrement) => arena.update(
            d,
            with_a_value(arena[d], wrap_add(arena[d].a.value as int, 1, m)),
        ),
        AddressingMode::BIndirect(IncrementMode::PostIncrement) => arena.update(
            d,
            with_b_value(arena[d], wrap_add(arena[d].b.value as int, 1, m)),
        ),
        _ => arena,
    }
}

/// The effective address of the operand `f` of the instruction at `pc`.
pub fn effective_addr(arena: &Arena, pc: u32, f: Field) -> (ea: u32)
    requires
        pc < arena@.len(),
    ensures
        ea == resolved(arena@, pc, f),
        ea < arena@.len(),
{
    match f.mode {
        AddressingMode::Immediate => pc,
        AddressingMode::Direct => arena.add(pc, f.value),
        AddressingMode::AIndirect(inc) => {
            let d: u32 = arena.add(pc, f.value);
            let cell = arena.fetch(d);
            let p: u32 = match inc {
                IncrementMode::PreDecrement => arena.sub(cell.a.value, 1),
                _ => cell.a.value,
            };
            arena.add(d, p)
        },
        AddressingMode::BIndirect(inc) => {
            let d: u32 = arena.add(pc, f.value);
            let cell = arena.fetch(d);
            let p: u32 = match inc {
                IncrementMode::PreDecrement => arena.sub(cell.b.value, 1),
                _ => cell.b.value,
            };
            arena.add(d, p)
        },
    }
}

/// Applies the pre-decrement of the operand `f` of the instruction at `pc`.
pub fn pre_decrement(arena: &mut Arena, pc: u32, f: Field)
    ensures
        final(arena)@ == pre_applied(old(arena)@, pc, f),
{
    match f.mode {
        AddressingMode::AIndirect(IncrementMode::PreDecrement) => {
            let d: u32 = arena.add(pc, f.value);
            let mut cell = arena.fetch(d);
            cell.a.value = arena.sub(cell.a.value, 1);
            arena.store(d, cell);
        },
        AddressingMode::BIndirect(IncrementMode::PreDecrement) => {
            let d: u32 = arena.add(pc, f.value);
            let mut cell = arena.fetch(d);
            cell.b.value = arena.sub(cell.b.value, 1);
            arena.store(d, cell);
        },
        _ => {},
    }
}

/// Applies the post-increment of the operand `f` of the instruction at `pc`.
pub fn post_increment(arena: &mut Arena, pc: u32, f: Field)
    ensures
        final(arena)@ == post_applied(old(arena)@, pc, f),
{
    match f.mode {
        AddressingMode::AIndirect(IncrementMode::PostIncrement) => {
            let d: u32 = arena.add(pc, f.value);
            let mut cell = arena.fetch(d);
            cell.a.value = arena.add(cell.a.value, 1);
            arena.store(d, cell);
        },
        AddressingMode::BIndirect(IncrementMode::PostIncrement) => {
            let d: u32 = arena.add(pc, f.value);
            let mut cell = arena.fetch(d);
            cell.b.value = arena.add(cell.b.value, 1);
            arena.store(d, cell);
        },
        _ => {},
    }
}

} // verus!
