use libcw::redcode::AddressingMode::{Direct, Immediate};
use libcw::redcode::OpCode::{Add, Dat, Jmp, Mov, Nop};
use libcw::redcode::OpMode::{A, AB, B, BA, F, I, X};
use libcw::redcode::{AddressingMode, Field, Instruction, OpCode, OpField, OpMode};
use libcw::simulation::Mars;

fn you_know_what_it_is(program: &[Instruction], addr: u32) -> Mars {
    let mut mars = Mars::default();
    mars.load_program(program, addr);
    mars.step();
    mars
}

/// Imp: copies iteself sequentially
const IMP: &[Instruction] = &[Instruction {
    op: OpField { mode: OpMode::I, code: OpCode::Mov },
    a: Field { value: 0, mode: AddressingMode::Direct },
    b: Field { value: 1, mode: AddressingMode::Direct },
}];

#[test]
fn mov_a() {
    let mut mars = Mars::default();
    let target_addr = mars.size() + 50;
    let expected_addr = target_addr % mars.size();
    let program = &[
        Instruction::new(Mov, A, Direct, 1, Direct, target_addr as u32),
        Instruction::new(Nop, F, Immediate, 100, Immediate, 100),
    ];
    mars.load_program(program, 0);
    mars.step();

    let expected = Instruction { a: program[1].a, ..Instruction::default() };
    assert_eq!(expected, mars.memory()[expected_addr])
}

#[test]
fn mov_b() {
    let mut mars = Mars::default();
    let target_addr = mars.size() + 50;
    let expected_addr = target_addr % mars.size();
    let program = &[
        Instruction::new(Mov, B, Direct, 1, Direct, target_addr as u32),
        Instruction::new(Nop, F, Immediate, 100, Immediate, 100),
    ];
    mars.load_program(program, 0);
    mars.step();

    let expected = Instruction { b: program[1].b, ..Instruction::default() };
    assert_eq!(expected, mars.memory()[expected_addr])
}

#[test]
fn mov_ab() {
    let mut mars = Mars::default();
    let target_addr = mars.size() + 50;
    let expected_addr = target_addr % mars.size();
    let program = &[
        Instruction::new(Mov, AB, Direct, 1, Direct, target_addr as u32),
        Instruction::new(Nop, F, Immediate, 100, Immediate, 100),
    ];
    mars.load_program(program, 0);
    mars.step();

    let expected = Instruction { b: program[1].a, ..Instruction::default() };
    assert_eq!(expected, mars.memory()[expected_addr])
}

#[test]
fn mov_ba() {
    let mut mars = Mars::default();
    let target_addr = mars.size() + 50;
    let expected_addr = target_addr % mars.size();
    let program = &[
        Instruction::new(Mov, BA, Direct, 1, Direct, target_addr as u32),
        Instruction::new(Nop, F, Immediate, 100, Immediate, 100),
    ];
    mars.load_program(program, 0);
    mars.step();

    let expected = Instruction { a: program[1].b, ..Instruction::default() };
    assert_eq!(expected, mars.memory()[expected_addr])
}

#[test]
fn mov_f() {
    let mut mars = Mars::default();
    let target_addr = mars.size() + 50;
    let expected_addr = target_addr % mars.size();
    let program = &[
        Instruction::new(Mov, F, Direct, 1, Direct, target_addr as u32),
        Instruction::new(Nop, F, Immediate, 100, Immediate, 100),
    ];
    mars.load_program(program, 0);
    mars.step();

    let expected = Instruction { a: program[1].a, b: program[1].b, ..Instruction::default() };
    assert_eq!(expected, mars.memory()[expected_addr])
}

#[test]
fn mov_i() {
    let mut mars = Mars::default();
    let target_addr = mars.size() + 50;
    let expected_addr = target_addr % mars.size();
    let program = &[
        Instruction::new(Mov, I, Direct, 1, Direct, target_addr as u32),
        Instruction::new(Nop, F, Immediate, 100, Immediate, 100),
    ];
    mars.load_program(program, 0);
    mars.step();

    let expected = program[1];
    assert_eq!(expected, mars.memory()[expected_addr])
}

#[test]
fn mov_x() {
    let mut mars = Mars::default();
    let target_addr = mars.size() + 50;
    let expected_addr = target_addr % mars.size();
    let program = &[
        Instruction::new(Mov, X, Direct, 1, Direct, target_addr as u32),
        Instruction::new(Nop, F, Immediate, 100, Immediate, 100),
    ];
    mars.load_program(program, 0);
    mars.step();

    let expected = Instruction { a: program[1].b, b: program[1].a, ..Instruction::default() };
    assert_eq!(expected, mars.memory()[expected_addr])
}

#[test]
fn processes_switching() {
    let mut mars = Mars::default();
    mars.load_program(IMP, 1);
    mars.load_program(&[Instruction::default()], 5); // will kill thread
    mars.load_program(IMP, 10);

    assert!(mars.processes().iter().nth(0).unwrap().2.iter().nth(0).unwrap() == &1);
    assert!(mars.processes().iter().nth(1).unwrap().2.iter().nth(0).unwrap() == &5);
    assert!(mars.processes().iter().nth(2).unwrap().2.iter().nth(0).unwrap() == &10);

    mars.step();

    // first inline should move to the back after being incremented
    assert!(mars.processes().iter().nth(0).unwrap().2.iter().nth(0).unwrap() == &5);
    assert!(mars.processes().iter().nth(1).unwrap().2.iter().nth(0).unwrap() == &10);
    assert!(mars.processes().iter().nth(2).unwrap().2.iter().nth(0).unwrap() == &2);

    mars.step();

    // first inline should move. The process that executed a dat should have
    // been killed
    assert!(mars.processes().iter().nth(0).unwrap().2.iter().nth(0).unwrap() == &10);
    assert!(mars.processes().iter().nth(1).unwrap().2.iter().nth(0).unwrap() == &2);
    assert!(mars.processes().iter().nth(2).is_none());
}

#[test]
fn loads_over_boundary() {
    let add = Instruction::new(Add, I, Direct, 100, Direct, 100);
    let program = [add, add, add];
    let mut mars = Mars::default();
    mars.load_program(&program, 7999);
    assert!(mars.memory()[7998] == Instruction::default());
    assert!(mars.memory()[7999] == add);
    assert!(mars.memory()[0] == add);
    assert!(mars.memory()[1] == add);
    assert!(mars.memory()[2] == Instruction::default());
}

#[test]
fn mod_test_dat() {
    let program = [Instruction::new(Dat, I, Direct, 0, Direct, 0)];
    let mars = you_know_what_it_is(&program, 0);
    assert!(mars.process_count() == 0);
}

#[test]
fn test_mov_i() {
    let program = &[Instruction::new(Mov, I, Immediate, 0, Direct, 1)];
    let mars = you_know_what_it_is(program, 0);
    assert_eq!(mars.memory()[1], program[0]);
}

#[test]
fn test_mov_f() {
    let program = &[Instruction::new(Mov, I, Immediate, 0, Direct, 1)];
    let mars = you_know_what_it_is(program, 0);
    assert_eq!(mars.memory()[1], program[0]);
}

#[test]
fn test_add() {
    let program = [Instruction::new(Add, F, Immediate, 2, Direct, 1)];
    let mars = you_know_what_it_is(&program, 0);
    assert_eq!(mars.memory()[1], Instruction::new(Dat, F, Immediate, 2, Immediate, 1))
}

#[test]
fn test_jmp() {
    let program = [Instruction::new(Jmp, B, Direct, 8005, Direct, 0)];
    let mars = you_know_what_it_is(&program, 0);
    assert_eq!(mars.pc(), Some(5));
}

#[test]
fn loading_creates_new_queue() {
    let addr1 = 0;
    let addr2 = 1000;
    let addr3 = 2000;
    let addr4 = 3000;

    let program = [Instruction::default(); 1000];
    let mut mars = Mars::default();
    let pid1 = mars.load_program(&program, addr1);
    let pid2 = mars.load_program(&program, addr2);
    let pid3 = mars.load_program(&program, addr3);
    let pid4 = mars.load_program(&program, addr4);

    let expected_queue = vec![
        (pid1, vec![addr1]),
        (pid2, vec![addr2]),
        (pid3, vec![addr3]),
        (pid4, vec![addr4]),
    ];
    assert_eq!(expected_queue, mars.process_queues());
    assert_eq!(vec![0, 1, 2, 3], mars.pids());
}
