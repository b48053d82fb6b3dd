//! A game: a simulator and the players in it, each known by a pin.

use crate::redcode::Instruction;
use crate::simulation::laws::lemma_step_keeps_the_living;
use crate::simulation::builder::{default_limits, DEFAULT_SIZE};
use crate::simulation::mars::Mars;
use crate::simulation::state::{after_load, after_step, initial_state, MarsView, Pid, Pin};
use rand::rngs::StdRng;
use rand::Rng;
use std::collections::HashMap;
use vstd::prelude::*;
use vstd::std_specs::iter::IteratorSpec;

verus! {

broadcast use vstd::std_specs::hash::group_hash_axioms;

/// Why a player was not added.
#[derive(Debug, Clone, Copy, PartialEq, Eq)]
pub enum GameError {
    /// A player of the game has the pin.
    PinConflict { pin: Pin },
}

/// The state of a game.
pub struct GameView {
    /// The pid of every player that was added, by its pin.
    pub pins: Map<Pin, Pid>,
    pub mars: MarsView,
}

impl GameView {
    /// What holds of every game: its simulator is valid, the pins of its
    /// players are the pins that are in use in the simulator, each for the
    /// same pid, and every process holds a pin.
    pub open spec fn valid(self) -> bool {
        &&& self.mars.valid()
        &&& self.pins == self.mars.pins
        &&& forall|i: int|
            0 <= i < self.mars.processes.len() ==> (#[trigger] self.mars.processes[i]).pin is Some
    }

    /// The least pin that no player has.
    pub open spec fn next_pin(self, pin: Pin) -> bool {
        &&& !self.pins.contains_key(pin)
        &&& forall|k: Pin| k < pin ==> self.pins.contains_key(k)
    }
}

/// The pin of the player that a step eliminates: that of the process that
/// runs, where the step takes its last thread.
pub open spec fn eliminated(s: MarsView) -> Option<Pin> {
    if !s.halted() && after_step(s).processes.len() < s.processes.len() {
        s.processes[0].pin
    } else {
        None
    }
}

/// The pin of the player that has won: that of the one process left, while
/// the cycle budget lasts.
pub open spec fn winning_pin(s: MarsView) -> Option<Pin> {
    if s.processes.len() == 1 && s.cycle < s.limits.max_cycles {
        s.processes[0].pin
    } else {
        None
    }
}

/// A set of pins that holds every pin below `n` has at least `n` pins.
pub proof fn lemma_pins_below(pins: Set<Pin>, n: nat)
    requires
        pins.finite(),
        n <= usize::MAX + 1,
        forall|k: Pin| k < n ==> pins.contains(k),
    ensures
        n <= pins.len(),
    decreases n,
{
    if n > 0 {
        let top = (n - 1) as usize;
        assert(pins.contains(top));
        let rest = pins.remove(top);
        assert forall|k: Pin| k < n - 1 implies rest.contains(k) by {
            assert(pins.contains(k));
        }
        lemma_pins_below(rest, (n - 1) as nat);
    }
}

/// The standard generator of `rand`. What it holds is hidden from the
/// proofs: they know nothing of what it draws.
#[verifier::external_type_specification]
#[verifier::external_body]
pub struct ExStdRng(StdRng);

/// Draws an address from the generator, by `rand::Rng::gen`. Nothing is
/// claimed of the address: any value may come back.
#[verifier::external_body]
fn random_address(rng: &mut StdRng) -> (address: u32) {
    rng.gen()
}

/// A simulator with the players that were added to it.
#[derive(Debug)]
pub struct Game {
    pin_to_pid: HashMap<Pin, Pid>,
    mars: Mars,
}

impl View for Game {
    type V = GameView;

    closed spec fn view(&self) -> GameView {
        GameView { pins: self.pin_to_pid@, mars: self.mars@ }
    }
}

impl Game {
    /// Adds a player under `pin`: loads its program at `address`, as
    /// `Mars::load_program` does, for a process that holds the pin. Returns
    /// the pin; where a player has it already, `PinConflict`, and the game
    /// stays as it was.
    pub fn add_player_with_pin(&mut self, program: &[Instruction], address: u32, pin: Pin) -> (r:
        Result<Pin, GameError>)
        requires
            old(self)@.valid(),
            old(self)@.mars.admits(1),
        ensures
            old(self)@.pins.contains_key(pin) ==> r == Err::<Pin, GameError>(
                GameError::PinConflict { pin },
            ) && final(self)@ == old(self)@,
            !old(self)@.pins.contains_key(pin) ==> r == Ok::<Pin, GameError>(pin) && final(self)@ == (
            GameView {
                pins: old(self)@.pins.insert(pin, old(self)@.mars.next_pid),
                mars: after_load(old(self)@.mars, address, Some(pin), program@),
            }),
            final(self)@.valid(),
    {
        if self.pin_to_pid.contains_key(&pin) {
            Err(GameError::PinConflict { pin })
        } else {
            let ghost before = self@;
            let pid = self.mars.place(address, Some(pin), program);
            self.pin_to_pid.insert(pin, pid);
            proof {
                let now = self@;
                assert forall|i: int| 0 <= i < now.mars.processes.len() implies (
                #[trigger] now.mars.processes[i]).pin is Some by {
                    if i < before.mars.processes.len() {
                        assert(now.mars.processes[i] == before.mars.processes[i]);
                    }
                }
            }
            Ok(pin)
        }
    }

    /// Adds a player under the least pin that no player has, and returns the
    /// pin.
    pub fn add_player(&mut self, program: &[Instruction], address: u32) -> (r: Result<
        Pin,
        GameError,
    >)
        requires
            old(self)@.valid(),
            old(self)@.mars.admits(1),
        ensures
            r matches Ok(pin) && old(self)@.next_pin(pin) && final(self)@ == (GameView {
                pins: old(self)@.pins.insert(pin, old(self)@.mars.next_pid),
                mars: after_load(old(self)@.mars, address, Some(pin), program@),
            }),
            final(self)@.valid(),
    {
        let pin = self.gen_next_pin();
        self.add_player_with_pin(program, address, pin)
    }

    /// Adds a player under `pin`, as `add_player_with_pin` does, at an
    /// address that the generator draws.
    pub fn add_player_with_pin_rand(&mut self, program: &[Instruction], pin: Pin, rng: &mut StdRng)
        -> (r: Result<Pin, GameError>)
        requires
            old(self)@.valid(),
            old(self)@.mars.admits(1),
        ensures
            old(self)@.pins.contains_key(pin) ==> r == Err::<Pin, GameError>(
                GameError::PinConflict { pin },
            ) && final(self)@ == old(self)@,
            !old(self)@.pins.contains_key(pin) ==> r == Ok::<Pin, GameError>(pin) && exists|
                address: u32,
            |
                final(self)@ == (GameView {
                    pins: old(self)@.pins.insert(pin, old(self)@.mars.next_pid),
                    mars: #[trigger] after_load(old(self)@.mars, address, Some(pin), program@),
                }),
            final(self)@.valid(),
    {
        let address = random_address(rng);
        self.add_player_with_pin(program, address, pin)
    }

    /// Adds a player under the least pin that no player has, as `add_player`
    /// does, at an address that the generator draws.
    pub fn add_player_rand(&mut self, program: &[Instruction], rng: &mut StdRng) -> (r: Result<
        Pin,
        GameError,
    >)
        requires
            old(self)@.valid(),
            old(self)@.mars.admits(1),
        ensures
            r matches Ok(pin) && old(self)@.next_pin(pin) && exists|address: u32|
                final(self)@ == (GameView {
                    pins: old(self)@.pins.insert(pin, old(self)@.mars.next_pid),
                    mars: #[trigger] after_load(old(self)@.mars, address, Some(pin), program@),
                }),
            final(self)@.valid(),
    {
        let address = random_address(rng);
        self.add_player(program, address)
    }

    /// Executes one instruction, as `Mars::step` does, and returns the pin
    /// of the player that it eliminated, if it eliminated one.
    pub fn step(&mut self) -> (r: Option<Pin>)
        requires
            old(self)@.valid(),
        ensures
            final(self)@ == (GameView { pins: old(self)@.pins, mars: after_step(old(self)@.mars) }),
            r == eliminated(old(self)@.mars),
            final(self)@.valid(),
    {
        let ghost before = self@;
        let front = self.mars.pin();
        let alive: usize = self.mars.pcount();
        self.mars.step();
        proof {
            let now = self@;
            if !before.mars.halted() {
                lemma_step_keeps_the_living(before.mars);
                assert forall|i: int| 0 <= i < now.mars.processes.len() implies (
                #[trigger] now.mars.processes[i]).pin is Some by {
                    if i < before.mars.processes.len() - 1 {
                        assert(now.mars.processes[i] == before.mars.processes[i + 1]);
                    } else {
                        assert(now.mars.processes[i] == now.mars.processes.last());
                        assert(before.mars.processes[0].pin is Some);
                    }
                }
            }
        }
        if self.mars.pcount() < alive {
            front
        } else {
            None
        }
    }

    /// The players that were added, each pin with its pid, in no order.
    pub fn pins_with_pids(&self) -> (r: Vec<(Pin, Pid)>)
        ensures
            r@.to_set() == self@.pins.kv_pairs(),
            r@.no_duplicates(),
    {
        let ghost walk = vstd::std_specs::hash::spec_hash_map_iter(&self.pin_to_pid).remaining();
        let ghost mut seen: int = 0;
        let mut r: Vec<(Pin, Pid)> = Vec::new();
        for entry in it: self.pin_to_pid.iter()
            invariant
                it.seq() == walk,
                walk.no_duplicates(),
                seen == it.index(),
                r@ == walk.unref().subrange(0, seen),
        {
            let (pin, pid) = entry;
            r.push((*pin, *pid));
            proof {
                seen = seen + 1;
            }
            assert(r@ =~= walk.unref().subrange(0, seen));
        }
        proof {
            assert(seen == walk.len());
            assert(r@ =~= walk.unref());
            assert forall|i: int, j: int| 0 <= i < j < r@.len() implies r@[i] != r@[j] by {
                assert(walk[i] != walk[j]);
            }
        }
        r
    }

    /// The pin of the player that has won: that of the one process left,
    /// while the cycle budget lasts.
    pub fn winner(&self) -> (r: Option<Pin>)
        ensures
            r == winning_pin(self@.mars),
    {
        if self.mars.pcount() == 1 && self.mars.cycle() < self.mars.max_cycles() {
            self.mars.pin()
        } else {
            None
        }
    }

    /// The simulator.
    pub fn mars(&self) -> (r: &Mars)
        ensures
            r@ == self@.mars,
    {
        &self.mars
    }

    /// The least pin that no player has.
    pub fn gen_next_pin(&mut self) -> (pin: Pin)
        ensures
            final(self)@ == old(self)@,
            old(self)@.next_pin(pin),
    {
        let mut pin: Pin = 0;
        while self.pin_to_pid.contains_key(&pin)
            invariant
                self@ == old(self)@,
                forall|k: Pin| k < pin ==> self@.pins.contains_key(k),
            decreases self@.pins.dom().len() - pin,
        {
            proof {
                lemma_pins_below(self@.pins.dom(), (pin + 1) as nat);
                assert(self.pin_to_pid.len() == self@.pins.dom().len());
            }
            pin = pin + 1;
        }
        pin
    }
}

impl Clone for Game {
    /// A game in the same state.
    fn clone(&self) -> (r: Self)
        ensures
            r@ == self@,
    {
        Game { pin_to_pid: self.pin_to_pid.clone(), mars: self.mars.clone() }
    }
}

impl Default for Game {
    /// A game with no player, in a simulator of the default configuration.
    fn default() -> (r: Self)
        ensures
            r@.pins == Map::<Pin, Pid>::empty(),
            r@.mars == initial_state(DEFAULT_SIZE as nat, default_limits()),
            r@.valid(),
            r@.mars.admits(1),
    {
        Game { pin_to_pid: HashMap::new(), mars: Mars::default() }
    }
}

} // verus!
