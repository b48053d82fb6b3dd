use libcw::redcode::AddressingMode::Direct;
use libcw::redcode::Instruction;
use libcw::redcode::OpCode::Mov;
use libcw::redcode::OpMode::I;
use libcw::simulation::{MarsBuilder, SimulationEvent};

#[test]
fn test_build_mars_is_halted() {
    let mars = MarsBuilder::new().build();
    assert_eq!(true, mars.halted());
}

#[test]
fn test_version_set() {
    let mars = MarsBuilder::new().version(890).build();

    assert_eq!(890, mars.version());
}

#[test]
fn test_size_set() {
    let mars = MarsBuilder::new().size(890).build();

    assert_eq!(890, mars.size());
}

#[test]
fn test_pspace_size_set() {
    let mars = MarsBuilder::new().pspace_size(890).build();

    assert_eq!(890, mars.pspace_size());
}

#[test]
fn test_max_cycles_set() {
    let mars = MarsBuilder::new().max_cycles(890).build();

    assert_eq!(890, mars.max_cycles());
}

#[test]
fn test_max_processes_set() {
    let mars = MarsBuilder::new().max_processes(890).build();

    assert_eq!(890, mars.max_processes());
}

#[test]
fn test_max_length_set() {
    let mars = MarsBuilder::new().max_length(890).build();

    assert_eq!(890, mars.max_length());
}

#[test]
fn test_min_distance_set() {
    let mars = MarsBuilder::new().min_distance(890).build();

    assert_eq!(890, mars.min_distance());
}

#[test]
fn builder_defaults() {
    let mars = MarsBuilder::new().build();
    assert_eq!(8000, mars.size());
    assert_eq!(500, mars.pspace_size());
    assert_eq!(80000, mars.max_cycles());
    assert_eq!(8000, mars.max_processes());
    assert_eq!(100, mars.max_length());
    assert_eq!(100, mars.min_distance());
    assert_eq!(80, mars.version());
    assert_eq!(0, mars.cycle());
    assert_eq!(None, mars.pc());
    assert_eq!(None, mars.pid());
    assert_eq!(0, mars.process_count());
}

#[test]
fn p_space_size_is_pspace_size() {
    let mars = MarsBuilder::new().p_space_size(3).build();
    assert_eq!(3, mars.pspace_size());
}

#[test]
fn an_arena_needs_a_cell() {
    assert!(MarsBuilder::new().can_build());
    assert!(MarsBuilder::new().size(1).can_build());
    assert!(!MarsBuilder::new().size(0).can_build());
    assert!(MarsBuilder::new().size(u32::MAX as usize).can_build());
    assert_eq!(usize::MAX > u32::MAX as usize, !MarsBuilder::new().size(usize::MAX).can_build());
}

#[test]
fn build_and_load_without_programs_builds() {
    let mars = MarsBuilder::new().size(10).build_and_load(vec![]).unwrap();
    assert_eq!(10, mars.size());
    assert!(mars.halted());
    assert_eq!(0, mars.pcount());
}

#[test]
fn an_arena_of_one_cell_works() {
    let imp = vec![Instruction::new(Mov, I, Direct, 0, Direct, 1)];
    let mut mars =
        MarsBuilder::new().size(1).max_cycles(3).build_and_load(vec![(5, None, &imp)]).unwrap();
    assert_eq!(Some(0), mars.pc());
    // the displacement 1 is 0 in an arena of one cell
    assert_eq!(Instruction::new(Mov, I, Direct, 0, Direct, 0), mars.memory()[0]);
    for _ in 0..3 {
        assert_eq!(SimulationEvent::Stepped, mars.step());
        assert_eq!(Some(0), mars.pc());
    }
    assert_eq!(SimulationEvent::MaxCyclesReached, mars.step());
}
