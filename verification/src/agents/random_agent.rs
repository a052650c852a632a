//! The agent that plays a turn drawn at random.

use crate::agents::agent::Agent;
use crate::neutrino_board::{GameBoard, TurnMove};
use rand::rngs::StdRng;
use rand::seq::IndexedRandom;
use vstd::prelude::*;

verus! {

/// The random number generator of the `rand` crate that the agents draw from.
#[verifier::external_type_specification]
#[verifier::external_body]
pub struct ExStdRng(StdRng);

/// Calls `IndexedRandom::choose` of the `rand` crate on the moves as a slice.
/// It is taken on trust that nothing is returned for an empty list, and for
/// any other list one of its items; which one depends on the generator.
#[verifier::external_body]
fn choose_from_slice(moves: &Vec<TurnMove>, rng: &mut StdRng) -> (r: Option<TurnMove>)
    ensures
        moves@.len() == 0 ==> r is None,
        moves@.len() > 0 ==> r is Some && moves@.contains(r.unwrap()),
{
    moves.choose(rng).copied()
}

/// One of the turns open to the side to move, drawn with `rng`.
pub fn random_move(board: &GameBoard, rng: &mut StdRng) -> (chosen: TurnMove)
    requires
        board.wf(),
        board.spec_actions().len() > 0,
    ensures
        board.spec_actions().contains(chosen),
        board.legal(chosen),
        board.spec_applicable(chosen),
{
    let possible_move = board.actions();
    let random_move = choose_from_slice(&possible_move, rng);
    random_move.unwrap()
}

/// Plays a turn drawn at random from those open to the side to move.
pub struct RandomAgent {
    seed: StdRng,
}

impl RandomAgent {
    /// The generator that the agent draws from.
    pub closed spec fn generator(&self) -> StdRng {
        self.seed
    }

    /// An agent that draws from the given generator.
    pub fn new(seed: StdRng) -> (r: RandomAgent)
        ensures
            r.generator() == seed,
    {
        RandomAgent { seed }
    }
}

impl Agent for RandomAgent {
    /// A random agent can always choose.
    open spec fn ready(&self) -> bool {
        true
    }

    fn get_move(&mut self, board: &GameBoard) -> (chosen: TurnMove) {
        random_move(board, &mut self.seed)
    }
}

} // verus!
