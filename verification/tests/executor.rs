use libcw::redcode::AddressingMode::{AIndirect, BIndirect, Direct, Immediate};
use libcw::redcode::IncrementMode::{PostIncrement, PreDecrement, Unchanged};
use libcw::redcode::OpCode::{
    Add, Cmp, Dat, Div, Djn, Jmn, Jmp, Jmz, Mod, Mov, Mul, Nop, SkipEq, Slt, Sne, Sub,
};
use libcw::redcode::OpMode::{A, AB, B, BA, F, I, X};
use libcw::redcode::{Instruction, OpCode, OpMode};
use libcw::simulation::arena::Arena;
use libcw::simulation::executor::{execute, exec_spl};
use libcw::simulation::resolver::{effective_addr, post_increment, pre_decrement};
use libcw::simulation::{Mars, MarsBuilder, SimulationEvent};

const M: u32 = 20;

fn data(a: u32, b: u32) -> Instruction {
    Instruction::new(Dat, F, Immediate, a, Immediate, b)
}

/// An arena of twenty cells: the instruction at 0, a source at 1 and a
/// destination at 2.
fn run(code: OpCode, mode: OpMode, src: (u32, u32), dst: (u32, u32)) -> (Mars, SimulationEvent) {
    let mut mars = MarsBuilder::new().size(M as usize).build();
    let program = [
        Instruction::new(code, mode, Direct, 1, Direct, 2),
        data(src.0, src.1),
        data(dst.0, dst.1),
    ];
    mars.load_program(&program, 0);
    let event = mars.step();
    (mars, event)
}

fn values(mars: &Mars, cell: usize) -> (u32, u32) {
    (mars.memory()[cell].a.value, mars.memory()[cell].b.value)
}

#[test]
fn add_by_modifier() {
    let cases = [
        (A, (18, 7)),
        (B, (15, 19)),
        (AB, (15, 10)),
        (BA, (7, 7)),
        (F, (18, 19)),
        (I, (18, 19)),
        (X, (7, 10)),
    ];
    for (mode, expected) in cases {
        let (mars, event) = run(Add, mode, (3, 12), (15, 7));
        assert_eq!(SimulationEvent::Stepped, event);
        assert_eq!(expected, values(&mars, 2));
        assert_eq!((3, 12), values(&mars, 1));
        assert_eq!(Some(1), mars.pc());
    }
    let (mars, _) = run(Add, F, (19, 19), (19, 1));
    assert_eq!((18, 0), values(&mars, 2));
}

#[test]
fn sub_by_modifier() {
    let cases = [
        (A, (12, 7)),
        (B, (15, 15)),
        (AB, (15, 4)),
        (BA, (3, 7)),
        (F, (12, 15)),
        (I, (12, 15)),
        (X, (3, 4)),
    ];
    for (mode, expected) in cases {
        let (mars, event) = run(Sub, mode, (3, 12), (15, 7));
        assert_eq!(SimulationEvent::Stepped, event);
        assert_eq!(expected, values(&mars, 2));
    }
}

#[test]
fn sub_below_zero_wraps_to_the_top() {
    let (mars, _) = run(Sub, A, (1, 0), (0, 0));
    assert_eq!((M - 1, 0), values(&mars, 2));
    let (mars, _) = run(Sub, F, (19, 5), (0, 4));
    assert_eq!((1, 19), values(&mars, 2));
}

#[test]
fn mul_by_modifier() {
    let cases = [
        (A, (5, 7)),
        (B, (15, 4)),
        (AB, (15, 1)),
        (BA, (0, 7)),
        (F, (5, 4)),
        (I, (5, 4)),
        (X, (0, 1)),
    ];
    for (mode, expected) in cases {
        let (mars, event) = run(Mul, mode, (3, 12), (15, 7));
        assert_eq!(SimulationEvent::Stepped, event);
        assert_eq!(expected, values(&mars, 2));
    }
}

#[test]
fn div_by_modifier() {
    let cases = [
        (A, (5, 7)),
        (B, (15, 3)),
        (AB, (15, 2)),
        (BA, (7, 7)),
        (F, (5, 3)),
        (I, (5, 3)),
        (X, (7, 2)),
    ];
    for (mode, expected) in cases {
        let (mars, event) = run(Div, mode, (3, 2), (15, 7));
        assert_eq!(SimulationEvent::Stepped, event);
        assert_eq!(expected, values(&mars, 2));
    }
}

#[test]
fn mod_by_modifier() {
    let cases = [
        (A, (3, 7)),
        (B, (15, 2)),
        (AB, (15, 3)),
        (BA, (0, 7)),
        (F, (3, 2)),
        (I, (3, 2)),
        (X, (0, 3)),
    ];
    for (mode, expected) in cases {
        let (mars, event) = run(Mod, mode, (4, 5), (15, 7));
        assert_eq!(SimulationEvent::Stepped, event);
        assert_eq!(expected, values(&mars, 2));
    }
}

#[test]
fn division_by_zero_ends_the_thread() {
    for code in [Div, Mod] {
        // the divisor that is zero is not selected
        let (mars, event) = run(code, A, (3, 0), (15, 7));
        assert_eq!(SimulationEvent::Stepped, event);
        assert_eq!(1, mars.process_count());

        let (mars, event) = run(code, B, (3, 0), (15, 7));
        assert_eq!(SimulationEvent::Terminated, event);
        assert_eq!((15, 7), values(&mars, 2));
        assert_eq!(0, mars.process_count());
        assert!(mars.halted());

        let (mars, event) = run(code, AB, (0, 3), (15, 7));
        assert_eq!(SimulationEvent::Terminated, event);
        assert_eq!((15, 7), values(&mars, 2));
        assert_eq!(None, mars.pc());
    }
    // one divisor of two is zero: the other component is still computed
    let (mars, event) = run(Div, F, (3, 0), (15, 7));
    assert_eq!(SimulationEvent::Terminated, event);
    assert_eq!((5, 7), values(&mars, 2));
    let (mars, event) = run(Mod, X, (0, 4), (15, 7));
    assert_eq!(SimulationEvent::Terminated, event);
    assert_eq!((3, 7), values(&mars, 2));
    let (mars, event) = run(Div, I, (0, 0), (15, 7));
    assert_eq!(SimulationEvent::Terminated, event);
    assert_eq!((15, 7), values(&mars, 2));
}

#[test]
fn jumps() {
    let (mars, event) = run(Jmp, B, (0, 0), (0, 0));
    assert_eq!(SimulationEvent::Jumped, event);
    assert_eq!(Some(1), mars.pc());

    for (mode, dst, jumps) in [
        (A, (0, 5), true),
        (A, (5, 0), false),
        (BA, (0, 5), true),
        (B, (5, 0), true),
        (AB, (0, 5), false),
        (F, (0, 0), true),
        (F, (0, 1), false),
        (X, (1, 0), false),
        (I, (0, 0), true),
    ] {
        let (mars, event) = run(Jmz, mode, (9, 9), dst);
        if jumps {
            assert_eq!(SimulationEvent::Jumped, event);
            assert_eq!(Some(1), mars.pc());
        } else {
            assert_eq!(SimulationEvent::Stepped, event);
            assert_eq!(Some(1), mars.pc());
        }
        assert_eq!(dst, values(&mars, 2));
    }
}

#[test]
fn jump_targets() {
    let mut mars = MarsBuilder::new().size(M as usize).build();
    let program = [
        Instruction::new(Jmz, B, Direct, 7, Direct, 1),
        data(3, 0),
    ];
    mars.load_program(&program, 5);
    assert_eq!(SimulationEvent::Jumped, mars.step());
    assert_eq!(Some(12), mars.pc());

    let mut mars = MarsBuilder::new().size(M as usize).build();
    let program = [
        Instruction::new(Jmn, B, Direct, 17, Direct, 1),
        data(0, 3),
    ];
    mars.load_program(&program, 5);
    assert_eq!(SimulationEvent::Jumped, mars.step());
    assert_eq!(Some(2), mars.pc());

    let mut mars = MarsBuilder::new().size(M as usize).build();
    let program = [
        Instruction::new(Jmn, F, Direct, 17, Direct, 1),
        data(0, 3),
    ];
    mars.load_program(&program, 5);
    assert_eq!(SimulationEvent::Stepped, mars.step());
    assert_eq!(Some(6), mars.pc());

    let mut mars = MarsBuilder::new().size(M as usize).build();
    let program = [
        Instruction::new(Jmn, X, Direct, 17, Direct, 1),
        data(1, 3),
    ];
    mars.load_program(&program, 5);
    assert_eq!(SimulationEvent::Jumped, mars.step());
    assert_eq!(Some(2), mars.pc());

    // an indirect jump follows the pointer
    let mut mars = MarsBuilder::new().size(M as usize).build();
    let program = [
        Instruction::new(Jmp, B, BIndirect(Unchanged), 1, Direct, 0),
        data(0, 9),
    ];
    mars.load_program(&program, 15);
    assert_eq!(SimulationEvent::Jumped, mars.step());
    assert_eq!(Some(5), mars.pc());
}

#[test]
fn djn_decrements_then_jumps() {
    for (mode, dst, after, jumps) in [
        (A, (2, 5), (1, 5), true),
        (A, (1, 5), (0, 5), false),
        (A, (0, 5), (M - 1, 5), true),
        (BA, (1, 5), (0, 5), false),
        (B, (5, 1), (5, 0), false),
        (AB, (5, 2), (5, 1), true),
        (F, (1, 1), (0, 0), false),
        (F, (1, 2), (0, 1), true),
        (X, (2, 1), (1, 0), true),
        (I, (0, 0), (M - 1, M - 1), true),
    ] {
        let mut mars = MarsBuilder::new().size(M as usize).build();
        let program = [
            Instruction::new(Djn, mode, Direct, 10, Direct, 2),
            data(9, 9),
            data(dst.0, dst.1),
        ];
        mars.load_program(&program, 0);
        let event = mars.step();
        assert_eq!(after, values(&mars, 2));
        if jumps {
            assert_eq!(SimulationEvent::Jumped, event);
            assert_eq!(Some(10), mars.pc());
        } else {
            assert_eq!(SimulationEvent::Stepped, event);
            assert_eq!(Some(1), mars.pc());
        }
    }
}

#[test]
fn skips() {
    for (code, mode, src, dst, skip) in [
        (SkipEq, A, (3, 4), (3, 9), true),
        (SkipEq, A, (3, 4), (4, 4), false),
        (SkipEq, B, (3, 4), (9, 4), true),
        (SkipEq, AB, (3, 4), (9, 3), true),
        (SkipEq, BA, (3, 4), (4, 9), true),
        (SkipEq, F, (3, 4), (3, 4), true),
        (SkipEq, F, (3, 4), (3, 5), false),
        (SkipEq, X, (3, 4), (4, 3), true),
        (SkipEq, X, (3, 4), (3, 4), false),
        (SkipEq, I, (3, 4), (3, 4), true),
        (Cmp, I, (3, 4), (3, 4), true),
        (Cmp, F, (3, 4), (4, 4), false),
        (Sne, A, (3, 4), (3, 9), false),
        (Sne, A, (3, 4), (4, 4), true),
        (Sne, F, (3, 4), (3, 5), true),
        (Sne, F, (3, 4), (3, 4), false),
        (Sne, X, (3, 4), (4, 3), false),
        (Sne, I, (3, 4), (3, 4), false),
        (Slt, A, (3, 4), (4, 0), true),
        (Slt, A, (3, 4), (3, 9), false),
        (Slt, B, (3, 4), (0, 5), true),
        (Slt, AB, (3, 4), (0, 4), true),
        (Slt, BA, (3, 4), (5, 0), true),
        (Slt, BA, (3, 4), (4, 9), false),
        (Slt, F, (3, 4), (4, 5), true),
        (Slt, F, (3, 4), (4, 4), false),
        (Slt, I, (3, 4), (4, 5), true),
        (Slt, X, (3, 4), (5, 4), true),
        (Slt, X, (3, 4), (4, 4), false),
    ] {
        let (mars, event) = run(code, mode, src, dst);
        if skip {
            assert_eq!(SimulationEvent::Skipped, event);
            assert_eq!(Some(2), mars.pc());
        } else {
            assert_eq!(SimulationEvent::Stepped, event);
            assert_eq!(Some(1), mars.pc());
        }
    }
}

#[test]
fn whole_instructions_compare_modes_and_opcodes_too() {
    let mut mars = MarsBuilder::new().size(M as usize).build();
    let program = [
        Instruction::new(SkipEq, I, Direct, 1, Direct, 2),
        Instruction::new(Nop, F, Immediate, 3, Immediate, 4),
        Instruction::new(Nop, F, Immediate, 3, Direct, 4),
    ];
    mars.load_program(&program, 0);
    assert_eq!(SimulationEvent::Stepped, mars.step());

    let mut mars = MarsBuilder::new().size(M as usize).build();
    let program = [
        Instruction::new(Sne, I, Direct, 1, Direct, 2),
        Instruction::new(Nop, F, Immediate, 3, Immediate, 4),
        Instruction::new(Nop, B, Immediate, 3, Immediate, 4),
    ];
    mars.load_program(&program, 0);
    assert_eq!(SimulationEvent::Skipped, mars.step());
}

#[test]
fn skip_and_step_wrap_around_the_arena() {
    let mut mars = MarsBuilder::new().size(M as usize).build();
    mars.load_program(&[Instruction::new(Nop, F, Direct, 0, Direct, 0)], M - 1);
    assert_eq!(SimulationEvent::Stepped, mars.step());
    assert_eq!(Some(0), mars.pc());

    let mut mars = MarsBuilder::new().size(M as usize).build();
    mars.load_program(&[Instruction::new(SkipEq, A, Direct, 0, Direct, 0)], M - 1);
    assert_eq!(SimulationEvent::Skipped, mars.step());
    assert_eq!(Some(1), mars.pc());
}

#[test]
fn effective_addresses() {
    let mut arena = Arena::new(M);
    arena.store(7, data(4, 11));
    let field = |mode, value| libcw::redcode::Field { mode, value };
    assert_eq!(5, effective_addr(&arena, 5, field(Immediate, 2)));
    assert_eq!(7, effective_addr(&arena, 5, field(Direct, 2)));
    assert_eq!(2, effective_addr(&arena, 5, field(Direct, 17)));
    assert_eq!(11, effective_addr(&arena, 5, field(AIndirect(Unchanged), 2)));
    assert_eq!(18, effective_addr(&arena, 5, field(BIndirect(Unchanged), 2)));
    assert_eq!(10, effective_addr(&arena, 5, field(AIndirect(PreDecrement), 2)));
    assert_eq!(17, effective_addr(&arena, 5, field(BIndirect(PreDecrement), 2)));
    assert_eq!(11, effective_addr(&arena, 5, field(AIndirect(PostIncrement), 2)));
    assert_eq!(18, effective_addr(&arena, 5, field(BIndirect(PostIncrement), 2)));
    // resolving changes nothing
    assert_eq!(data(4, 11), arena.fetch(7));

    // a pointer of zero, decremented first, points a whole turn less one
    arena.store(8, data(0, 0));
    assert_eq!(7, effective_addr(&arena, 5, field(AIndirect(PreDecrement), 3)));

    pre_decrement(&mut arena, 5, field(AIndirect(PreDecrement), 2));
    assert_eq!(data(3, 11), arena.fetch(7));
    pre_decrement(&mut arena, 5, field(BIndirect(PreDecrement), 2));
    assert_eq!(data(3, 10), arena.fetch(7));
    pre_decrement(&mut arena, 5, field(BIndirect(PostIncrement), 2));
    pre_decrement(&mut arena, 5, field(Direct, 2));
    assert_eq!(data(3, 10), arena.fetch(7));
    post_increment(&mut arena, 5, field(AIndirect(PostIncrement), 2));
    assert_eq!(data(4, 10), arena.fetch(7));
    post_increment(&mut arena, 5, field(BIndirect(PostIncrement), 2));
    assert_eq!(data(4, 11), arena.fetch(7));
    post_increment(&mut arena, 5, field(AIndirect(PreDecrement), 2));
    post_increment(&mut arena, 5, field(Immediate, 2));
    assert_eq!(data(4, 11), arena.fetch(7));
    pre_decrement(&mut arena, 5, field(BIndirect(PreDecrement), 3));
    assert_eq!(data(0, M - 1), arena.fetch(8));
    post_increment(&mut arena, 5, field(BIndirect(PostIncrement), 3));
    assert_eq!(data(0, 0), arena.fetch(8));
}

#[test]
fn side_effects_land_in_order() {
    // MOV.I }1, <1 : both operands point through cell 1
    let mut mars = MarsBuilder::new().size(M as usize).build();
    let program = [
        Instruction::new(Mov, I, AIndirect(PostIncrement), 1, BIndirect(PreDecrement), 1),
        data(2, 5),
        data(0, 0),
        Instruction::new(Nop, X, Direct, 3, Direct, 3),
    ];
    mars.load_program(&program, 0);
    assert_eq!(SimulationEvent::Stepped, mars.step());
    // the source is cell 1 + 2, the destination cell 1 + (5 - 1)
    assert_eq!(program[3], mars.memory()[5]);
    // the pointer cell was decremented in B before, incremented in A after
    assert_eq!(data(3, 4), mars.memory()[1]);
}

#[test]
fn source_is_read_after_the_pre_decrements() {
    // ADD.AB #0, <0 : the instruction is its own pointer cell and its own source
    let mut mars = MarsBuilder::new().size(M as usize).build();
    let program = [
        Instruction::new(Add, BA, Immediate, 0, BIndirect(PreDecrement), 0),
        data(1, 1),
    ];
    mars.load_program(&program, 0);
    assert_eq!(SimulationEvent::Stepped, mars.step());
    // B of cell 0 went from 0 to 19, the destination is cell 0 + 19
    assert_eq!(M - 1, mars.memory()[0].b.value);
    // the source was read after the decrement: its B value is 19
    assert_eq!((M - 1, 0), values(&mars, (M - 1) as usize));
}

#[test]
fn execute_runs_on_an_arena() {
    let mut arena = Arena::new(M);
    arena.store(1, data(3, 4));
    arena.store(2, data(5, 6));
    let mut pspace = vec![0u32; 3];
    let instr = Instruction::new(Add, X, Direct, 1, Direct, 2);
    let control = execute(&mut arena, &mut pspace, instr, 0, 1, 2, true);
    assert_eq!(SimulationEvent::Stepped, control.event);
    assert_eq!(Some(1), control.next);
    assert_eq!(None, control.spawn);
    assert_eq!(data(9, 9), arena.fetch(2));

    let control = exec_spl(&arena, M - 1, 7, true);
    assert_eq!(SimulationEvent::Split, control.event);
    assert_eq!(Some(0), control.next);
    assert_eq!(Some(7), control.spawn);
    let control = exec_spl(&arena, M - 1, 7, false);
    assert_eq!(SimulationEvent::Stepped, control.event);
    assert_eq!(None, control.spawn);
}
