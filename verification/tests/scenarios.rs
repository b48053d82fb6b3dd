use libcw::redcode::AddressingMode::{BIndirect, Direct, Immediate};
use libcw::redcode::IncrementMode::Unchanged;
use libcw::redcode::Instruction;
use libcw::redcode::OpCode::{Add, Dat, Jmp, Ldp, Mov, Spl, Stp};
use libcw::redcode::OpMode::{AB, B, F, I};
use libcw::simulation::{MarsBuilder, SimulationEvent};

fn imp() -> Instruction {
    Instruction::new(Mov, I, Direct, 0, Direct, 1)
}

#[test]
fn imp_walks_the_arena() {
    let program = vec![imp()];
    let mut mars = MarsBuilder::new()
        .size(16)
        .max_cycles(16)
        .build_and_load(vec![(0, None, &program)])
        .unwrap();
    for k in 0..16usize {
        assert_eq!(Some(k as u32), mars.pc());
        assert_eq!(SimulationEvent::Stepped, mars.step());
        assert_eq!(k + 1, mars.cycle());
        assert_eq!(imp(), mars.memory()[k % 16]);
        assert_eq!(imp(), mars.memory()[(k + 1) % 16]);
        assert_eq!(Some(((k + 1) % 16) as u32), mars.pc());
    }
    assert!(mars.halted());
    assert_eq!(SimulationEvent::MaxCyclesReached, mars.step());
    assert_eq!(1, mars.pcount());
    assert_eq!(1, mars.process_count());
    assert_eq!(16, mars.cycle());
}

#[test]
fn dwarf_bombs_every_fourth_cell() {
    let size: u32 = 8000;
    let program = vec![
        Instruction::new(Add, AB, Immediate, 4, Direct, 3),
        Instruction::new(Mov, I, Direct, 2, BIndirect(Unchanged), 2),
        Instruction::new(Jmp, B, Direct, size - 2, Direct, 0),
        Instruction::new(Dat, F, Immediate, 0, Immediate, 0),
    ];
    let mut mars = MarsBuilder::new().build_and_load(vec![(0, None, &program)]).unwrap();

    assert_eq!(SimulationEvent::Stepped, mars.step());
    assert_eq!(SimulationEvent::Stepped, mars.step());
    assert_eq!(SimulationEvent::Jumped, mars.step());
    assert_eq!(Some(0), mars.pc());
    // the bomb counts 4, and its copy lies four cells behind the bomb
    assert_eq!(Instruction::new(Dat, F, Immediate, 0, Immediate, 4), mars.memory()[3]);
    assert_eq!(Instruction::new(Dat, F, Immediate, 0, Immediate, 4), mars.memory()[7]);

    while mars.cycle() < 5 {
        mars.step();
    }
    assert_eq!(Instruction::new(Dat, F, Immediate, 0, Immediate, 8), mars.memory()[3]);
    assert_eq!(Instruction::new(Dat, F, Immediate, 0, Immediate, 8), mars.memory()[11]);

    // every fourth cell from the bomb on holds a DAT after three cycles a bomb
    let mut mars = MarsBuilder::new().build_and_load(vec![(0, None, &program)]).unwrap();
    let filler = Instruction::new(Mov, I, Direct, 0, Direct, 0);
    for cell in 4..size {
        mars.set_memory(&[filler], cell);
    }
    for k in 0..1000usize {
        while mars.cycle() < 3 * (k + 1) {
            mars.step();
        }
        let target = (4 * k + 7) % 8000;
        assert_eq!(Dat, mars.memory()[target].op.code);
        assert_eq!(1, mars.process_count());
    }
}

#[test]
fn dat_at_entry() {
    let program = vec![Instruction::new(Dat, F, Immediate, 0, Immediate, 0)];
    let mut mars = MarsBuilder::new().build_and_load(vec![(0, None, &program)]).unwrap();
    assert!(!mars.halted());
    assert_eq!(SimulationEvent::Terminated, mars.step());
    assert_eq!(0, mars.process_count());
    assert_eq!(0, mars.pcount());
    assert!(mars.processes().is_empty());
    assert!(mars.halted());
    assert_eq!(1, mars.cycle());
    assert_eq!(SimulationEvent::Halted, mars.step());
    assert_eq!(SimulationEvent::Halted, mars.step());
    assert_eq!(1, mars.cycle());
    assert_eq!(None, mars.winner());
}

#[test]
fn split_explosion_is_bounded() {
    let size: u32 = 8000;
    // SPL $0 at 0 and a JMP back to it: every pass adds a thread
    let program = vec![
        Instruction::new(Spl, B, Direct, 0, Direct, 0),
        Instruction::new(Jmp, B, Direct, size - 1, Direct, 0),
    ];
    let mut mars = MarsBuilder::new()
        .max_processes(10)
        .build_and_load(vec![(0, None, &program)])
        .unwrap();
    let mut splits = 0;
    let mut most = 1;
    for _ in 0..200 {
        let before = mars.process_count();
        let event = mars.step();
        let after = mars.process_count();
        assert!(after <= 10);
        if event == SimulationEvent::Split {
            splits += 1;
            assert_eq!(before + 1, after);
        } else {
            assert_eq!(before, after);
        }
        if after > most {
            most = after;
        }
    }
    assert_eq!(10, most);
    assert_eq!(9, splits);
    assert_eq!(10, mars.process_count());
    assert_eq!(vec![(0, 10)], mars.thread_count());
}

#[test]
fn lone_split_never_passes_the_cap() {
    let program = vec![Instruction::new(Spl, B, Direct, 0, Direct, 0)];
    let mut mars = MarsBuilder::new()
        .max_processes(10)
        .build_and_load(vec![(0, None, &program)])
        .unwrap();
    assert_eq!(SimulationEvent::Split, mars.step());
    assert_eq!(vec![1, 0], mars.pcs());
    // the thread that went on steps onto the empty cell behind the SPL
    assert_eq!(SimulationEvent::Terminated, mars.step());
    assert_eq!(vec![0], mars.pcs());
    for _ in 0..9 {
        mars.step();
        assert!(mars.process_count() <= 10);
    }
}

#[test]
fn split_without_room_is_a_step() {
    let program = vec![Instruction::new(Spl, B, Direct, 0, Direct, 0)];
    let mut mars = MarsBuilder::new()
        .max_processes(1)
        .build_and_load(vec![(0, None, &program)])
        .unwrap();
    assert_eq!(SimulationEvent::Stepped, mars.step());
    assert_eq!(vec![1], mars.pcs());
}

#[test]
fn private_storage_is_private() {
    let first = vec![
        Instruction::new(Stp, AB, Immediate, 42, Immediate, 0),
        Instruction::new(Ldp, AB, Immediate, 0, Direct, 1),
    ];
    let second = vec![
        Instruction::new(Stp, AB, Immediate, 7, Immediate, 0),
        Instruction::new(Ldp, AB, Immediate, 0, Direct, 1),
    ];
    let mut mars = MarsBuilder::new()
        .pspace_size(1)
        .build_and_load(vec![(0, None, &first), (1000, None, &second)])
        .unwrap();
    for _ in 0..4 {
        assert_eq!(SimulationEvent::Stepped, mars.step());
    }
    assert_eq!(42, mars.memory()[2].b.value);
    assert_eq!(7, mars.memory()[1002].b.value);
    assert_eq!(Some(vec![42]), mars.pspace(0));
    assert_eq!(Some(vec![7]), mars.pspace(1));
    assert_eq!(vec![(0, vec![42]), (1, vec![7])], mars.process_pspaces());
    assert_eq!(None, mars.pspace(2));
}

#[test]
fn private_storage_of_size_zero_ends_the_thread() {
    let store = vec![Instruction::new(Stp, AB, Immediate, 42, Immediate, 0)];
    let load = vec![Instruction::new(Ldp, AB, Immediate, 0, Direct, 1)];
    let mut mars = MarsBuilder::new()
        .pspace_size(0)
        .build_and_load(vec![(0, None, &store), (1000, None, &load)])
        .unwrap();
    assert_eq!(SimulationEvent::Terminated, mars.step());
    assert_eq!(SimulationEvent::Terminated, mars.step());
    assert!(mars.halted());
    assert_eq!(Instruction::default(), mars.memory()[1001]);
}

#[test]
fn draw_by_cycle_exhaustion() {
    let program = vec![imp()];
    let mut mars = MarsBuilder::new()
        .max_cycles(100)
        .build_and_load(vec![(0, None, &program), (4000, None, &program)])
        .unwrap();
    for cycle in 0..100 {
        assert!(!mars.halted());
        assert_eq!(None, mars.winner());
        assert_eq!(cycle, mars.cycle());
        assert_eq!(SimulationEvent::Stepped, mars.step());
        assert_eq!(2, mars.pcount());
    }
    assert!(mars.halted());
    assert_eq!(SimulationEvent::MaxCyclesReached, mars.step());
    assert!(mars.halted());
    assert_eq!(SimulationEvent::Halted, mars.step());
    assert_eq!(SimulationEvent::Halted, mars.step());
    assert_eq!(100, mars.cycle());
    assert_eq!(None, mars.winner());
    assert_eq!(vec![0, 1], mars.pids());
    assert_eq!(vec![(0, vec![50]), (1, vec![4050])], mars.process_queues());
}

#[test]
fn a_draw_is_reported_once() {
    let program = vec![imp()];
    let mut mars = MarsBuilder::new()
        .max_cycles(3)
        .build_and_load(vec![(0, None, &program)])
        .unwrap();
    for _ in 0..3 {
        assert_eq!(SimulationEvent::Stepped, mars.step());
    }
    let arena: Vec<Instruction> = mars.memory().to_vec();
    let queues = mars.process_queues();
    assert_eq!(SimulationEvent::MaxCyclesReached, mars.step());
    for _ in 0..5 {
        assert_eq!(SimulationEvent::Halted, mars.step());
        assert!(mars.halted());
        assert_eq!(3, mars.cycle());
        assert_eq!(arena, mars.memory().to_vec());
        assert_eq!(queues, mars.process_queues());
    }
    // a clone remembers the report, a reset forgets it
    let mut copy = mars.clone();
    assert_eq!(SimulationEvent::Halted, copy.step());
    mars.reset();
    assert_eq!(SimulationEvent::Halted, mars.step());
    mars.load(0, None, &program).unwrap();
    for _ in 0..3 {
        assert_eq!(SimulationEvent::Stepped, mars.step());
    }
    assert_eq!(SimulationEvent::MaxCyclesReached, mars.step());
    assert_eq!(SimulationEvent::Halted, mars.step());
}

#[test]
fn no_budget_is_a_draw_at_once() {
    let program = vec![imp()];
    let mut mars = MarsBuilder::new()
        .max_cycles(0)
        .build_and_load(vec![(0, None, &program)])
        .unwrap();
    assert!(mars.halted());
    assert_eq!(SimulationEvent::MaxCyclesReached, mars.step());
    assert_eq!(SimulationEvent::Halted, mars.step());
    assert_eq!(0, mars.cycle());
    assert_eq!(Some(0), mars.pc());
}

#[test]
fn a_halt_without_processes_reports_no_draw() {
    let mut mars = MarsBuilder::new().max_cycles(0).build();
    assert_eq!(SimulationEvent::Halted, mars.step());
    mars.load(0, None, &vec![imp()]).unwrap();
    assert_eq!(SimulationEvent::MaxCyclesReached, mars.step());
    assert_eq!(SimulationEvent::Halted, mars.step());
}

#[test]
fn dwarf_leaves_a_dat_on_every_cell_but_its_own() {
    let size: u32 = 8000;
    let program = vec![
        Instruction::new(Add, AB, Immediate, 4, Direct, 3),
        Instruction::new(Mov, I, Direct, 2, BIndirect(Unchanged), 2),
        Instruction::new(Jmp, B, Direct, size - 2, Direct, 0),
        Instruction::new(Dat, F, Immediate, 0, Immediate, 0),
    ];
    let mut mars = MarsBuilder::new().build_and_load(vec![(0, None, &program)]).unwrap();
    for _ in 0..6 {
        mars.step();
    }
    assert_eq!(Instruction::new(Dat, F, Immediate, 0, Immediate, 0), mars.memory()[10]);
    for k in 0..2100usize {
        while mars.cycle() < 3 * (k + 1) {
            mars.step();
        }
        let cell = (4 * k + 10) % 8000;
        if k == 1998 {
            // this cell is the dwarf's own third instruction
            assert_eq!(2, cell);
            assert_eq!(program[2], mars.memory()[cell]);
        } else {
            assert_eq!(Dat, mars.memory()[cell].op.code);
            assert_eq!(Instruction::default(), mars.memory()[cell]);
        }
    }
    assert_eq!(1, mars.process_count());
}
