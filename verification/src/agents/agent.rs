//! What every agent can do.

use crate::neutrino_board::{GameBoard, TurnMove};
use vstd::prelude::*;

verus! {

pub trait Agent {
    /// Whether the agent is set up so that it can choose a move.
    spec fn ready(&self) -> bool;

    /// Returns the move that the agent chooses for a given board, on which
    /// the game is not over: one of the turns open to the side to move.
    fn get_move(&mut self, board: &GameBoard) -> (chosen: TurnMove)
        requires
            old(self).ready(),
            board.wf(),
            !board.spec_is_terminal(),
        ensures
            final(self).ready(),
            board.legal(chosen),
    ;
}

} // verus!
