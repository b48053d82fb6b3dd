use libcw::game::{Game, GameError};
use libcw::redcode::AddressingMode::Direct;
use libcw::redcode::Instruction;
use libcw::redcode::OpCode::{Dat, Mov};
use libcw::redcode::OpMode::{F, I};
use rand::rngs::StdRng;
use rand::SeedableRng;

#[test]
fn single_process_is_winner() {
    let program = &[Instruction::new(Mov, I, Direct, 0, Direct, 1)];
    let mut game = Game::default();
    let pid = game.add_player(program, 0).unwrap();
    assert_eq!(pid, game.winner().unwrap());

    // verify that there is no winner when another player is added
    game.add_player(program, 0).expect("should not conflict");
    assert_eq!(None, game.winner());
}

#[test]
fn pin_conflict_is_refused() {
    let program = &[Instruction::new(Mov, I, Direct, 0, Direct, 1)];
    let mut game = Game::default();
    assert_eq!(Ok(7), game.add_player_with_pin(program, 0, 7));
    assert_eq!(
        Err(GameError::PinConflict { pin: 7 }),
        game.add_player_with_pin(program, 100, 7)
    );
    assert_eq!(vec![(7, 0)], game.pins_with_pids());
    assert_eq!(1, game.mars().pcount());
}

#[test]
fn next_pin_is_the_least_free_pin() {
    let program = &[Instruction::new(Mov, I, Direct, 0, Direct, 1)];
    let mut game = Game::default();
    assert_eq!(Ok(0), game.add_player(program, 0));
    assert_eq!(Ok(2), game.add_player_with_pin(program, 200, 2));
    assert_eq!(1, game.gen_next_pin());
    assert_eq!(Ok(1), game.add_player(program, 400));
    assert_eq!(Ok(3), game.add_player(program, 600));
    let mut players = game.pins_with_pids();
    players.sort();
    assert_eq!(vec![(0, 0), (1, 2), (2, 1), (3, 3)], players);
}

#[test]
fn step_names_the_eliminated_player() {
    let imp = &[Instruction::new(Mov, I, Direct, 0, Direct, 1)];
    let dat = &[Instruction::new(Dat, F, Direct, 0, Direct, 0)];
    let mut game = Game::default();
    game.add_player_with_pin(imp, 0, 11).unwrap();
    game.add_player_with_pin(dat, 1000, 22).unwrap();
    assert_eq!(None, game.winner());
    assert_eq!(None, game.step());
    assert_eq!(Some(22), game.step());
    assert_eq!(Some(11), game.winner());
    assert_eq!(None, game.step());
}

#[test]
fn random_placement_adds_the_player() {
    let imp = &[Instruction::new(Mov, I, Direct, 0, Direct, 1)];
    let mut rng = StdRng::seed_from_u64(1);
    let mut game = Game::default();
    assert_eq!(Ok(0), game.add_player_rand(imp, &mut rng));
    assert_eq!(Ok(9), game.add_player_with_pin_rand(imp, 9, &mut rng));
    assert_eq!(
        Err(GameError::PinConflict { pin: 9 }),
        game.add_player_with_pin_rand(imp, 9, &mut rng)
    );
    let mars = game.mars();
    assert_eq!(2, mars.pcount());
    let pcs = mars.pcs();
    assert_eq!(2, pcs.len());
    for pc in pcs {
        assert!((pc as usize) < mars.size());
        assert_eq!(imp[0], mars.memory()[pc as usize]);
    }
}

#[test]
fn a_clone_goes_its_own_way() {
    let imp = &[Instruction::new(Mov, I, Direct, 0, Direct, 1)];
    let mut game = Game::default();
    game.add_player(imp, 0).unwrap();
    let mut copy = game.clone();
    copy.add_player(imp, 100).unwrap();
    copy.step();
    assert_eq!(1, game.mars().pcount());
    assert_eq!(0, game.mars().cycle());
    assert_eq!(2, copy.mars().pcount());
    assert_eq!(1, copy.mars().cycle());
    assert_eq!(vec![(0, 0)], game.pins_with_pids());
    assert_eq!(Instruction::default(), game.mars().memory()[1]);
    assert_eq!(imp[0], copy.mars().memory()[1]);
}
