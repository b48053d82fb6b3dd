use libcw::redcode::{AddressingMode, Field, Instruction, OpCode, OpField, OpMode};
use libcw::simulation::{LoadError, MarsBuilder, SimulationEvent};

#[test]
fn test_load_batch_fails_empty_vector() {
    let mut mars = MarsBuilder::new().build();
    assert_eq!(Err(LoadError::EmptyLoad), mars.load_batch(vec![]));
}

#[test]
fn test_load_suceeds() {
    let mut mars = MarsBuilder::new().build();
    let max_length = mars.max_length();
    let prog = vec![Default::default(); max_length - 1];

    assert_eq!(Ok(0), mars.load(0, None, &prog));
}

#[test]
fn test_load_fails_program_too_long() {
    let mut mars = MarsBuilder::new().build();
    let max_length = mars.max_length();
    let prog = vec![Default::default(); max_length + 1];

    assert_eq!(Err(LoadError::InvalidLength), mars.load(0, None, &prog));
}

#[test]
fn test_load_batch_load_fails_invalid_distance() {
    let mut mars = MarsBuilder::new().min_distance(10).build();

    let useless_program = vec![Default::default(); 1];

    // intentionally load the programs with invalid spacings
    let result = mars.load_batch(vec![
        (0, None, &useless_program),
        (1, None, &useless_program),
    ]);

    assert_eq!(Err(LoadError::InvalidDistance), result);
}

#[test]
fn test_load_succeeds_on_boundary() {
    let mut mars = MarsBuilder::new().size(16).build();

    // transform the instruction so we can recognize it in memory
    let mut program: Vec<Instruction> = vec![Default::default(); 4];
    for (i, e) in program.iter_mut().enumerate() {
        e.op.code = OpCode::Mov;
        e.a.value = i as u32;
    }

    let result = mars.load(14, None, &program);

    assert_eq!(Ok(0), result);
    assert_eq!(program[0], mars.memory()[14]);
    assert_eq!(program[1], mars.memory()[15]);
    assert_eq!(program[2], mars.memory()[0]);
    assert_eq!(program[3], mars.memory()[1]);
}

#[test]
fn test_batch_load_succeeds() {
    let mut mars = MarsBuilder::new().min_distance(10).max_length(10).build();

    let useless_program = vec![Default::default(); 9];

    let result = mars.load_batch(vec![
        (0, None, &useless_program),
        (11, None, &useless_program),
    ]);

    assert_eq!(Ok(()), result);
}

#[test]
fn test_step_errors_when_halted() {
    let mut mars = MarsBuilder::new().build();
    let result = mars.step();

    assert_eq!(SimulationEvent::Halted, result);
}

#[test]
fn mars_test_dat() {
    let mut mars = MarsBuilder::new()
        .build_and_load(vec![(0, None, &vec![Default::default(); 1])])
        .unwrap();

    let result = mars.step();
    assert_eq!(SimulationEvent::Terminated, result);
    assert_eq!(true, mars.halted());
}

#[test]
fn test_mov() {
    let prog = vec![Instruction {
        op: OpField { code: OpCode::Mov, mode: OpMode::I },
        a: Field { value: 0, mode: AddressingMode::Direct },
        b: Field { value: 1, mode: AddressingMode::Direct },
    }];

    let mut mars = MarsBuilder::new().build_and_load(vec![(0, None, &prog)]).unwrap();

    let init_pc = mars.pc().unwrap();
    let init_cycle = mars.cycle();

    assert_eq!(SimulationEvent::Stepped, mars.step());
    assert_eq!(init_pc + 1, mars.pc().unwrap());
    assert_eq!(init_cycle + 1, mars.cycle());
}

#[test]
fn test_spl_cant_create_more_than_max_processes() {
    let size = MarsBuilder::new().build().size() as u32;
    // splitter program, infinitely creates imps
    let prog = vec![
        Instruction {
            op: OpField { code: OpCode::Spl, mode: OpMode::I },
            a: Field { value: 2, mode: AddressingMode::Direct },
            b: Field { value: 1, mode: AddressingMode::Direct },
        },
        Instruction {
            op: OpField { code: OpCode::Jmp, mode: OpMode::I },
            a: Field { value: size - 1, mode: AddressingMode::Direct },
            b: Field { value: 1, mode: AddressingMode::Direct },
        },
        Instruction {
            op: OpField { code: OpCode::Mov, mode: OpMode::I },
            a: Field { value: 0, mode: AddressingMode::Direct },
            b: Field { value: 1, mode: AddressingMode::Direct },
        },
    ];

    let mut mars = MarsBuilder::new()
        .max_processes(10)
        .build_and_load(vec![(0, None, &prog)])
        .unwrap();

    assert_eq!(SimulationEvent::Split, mars.step());

    // run the simulation until it halts because cycles have been exhausted
    while !mars.halted() {
        let _ = mars.step();
    }

    assert_eq!(10, mars.process_count());
}
