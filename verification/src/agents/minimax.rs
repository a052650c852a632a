//! The agent that looks a fixed number of turns ahead and plays for the
//! best score that it can be sure of.

use crate::agents::agent::Agent;
use crate::move_laws::lemma_legal_moves_contains;
use crate::neutrino_board::{GameBoard, Player, Position, Score, TurnMove};
use crate::rules::{after_turn, is_over, legal_moves, score_for, Grid};
use vstd::prelude::*;

verus! {

/// How many turns are left to look ahead at the given depth of a search
/// that looks `horizon` turns ahead: none at the horizon and beyond it.
pub open spec fn plies_left(horizon: usize, depth: usize) -> nat {
    if depth >= horizon {
        0
    } else {
        (horizon - depth) as nat
    }
}

/// Whether a score improves on the best one so far: it is greater for the
/// side that maximizes, smaller for the side that minimizes.
pub open spec fn spec_better(candidate: Score, best: Score, maximizing: bool) -> bool {
    if maximizing {
        candidate.spec_half_points() > best.spec_half_points()
    } else {
        candidate.spec_half_points() < best.spec_half_points()
    }
}

/// What a position is worth to `player` when both sides look `plies` turns
/// ahead: the score of a finished game; a draw where no turn is left to look
/// ahead; else the best that the side to move can reach, which is the
/// greatest worth for the side that maximizes and the smallest for the other.
pub open spec fn search_value(
    grid: Grid,
    to_move: Player,
    neutrino: Position,
    player: Player,
    plies: nat,
    maximizing: bool,
) -> Score
    decreases plies, 1nat, 0nat,
{
    if is_over(grid, to_move, neutrino) {
        score_for(grid, to_move, neutrino, player).unwrap()
    } else if plies == 0 {
        Score::Draw
    } else {
        match best_in(
            grid,
            to_move,
            neutrino,
            player,
            plies,
            maximizing,
            legal_moves(grid, to_move, neutrino).len(),
        ) {
            Some(found) => found.0,
            None => Score::Draw,
        }
    }
}

/// The best of the first `n` turns open in a position, with what it is
/// worth: of several turns of the same worth the first.
pub open spec fn best_in(
    grid: Grid,
    to_move: Player,
    neutrino: Position,
    player: Player,
    plies: nat,
    maximizing: bool,
    n: nat,
) -> Option<(Score, TurnMove)>
    decreases plies, 0nat, n,
{
    if n == 0 || plies == 0 {
        None
    } else {
        let before = best_in(grid, to_move, neutrino, player, plies, maximizing, (n - 1) as nat);
        let m = legal_moves(grid, to_move, neutrino)[n - 1];
        let value = search_value(
            after_turn(grid, to_move, m),
            to_move.spec_opponent(),
            m.neutrino_move.to_position,
            player,
            (plies - 1) as nat,
            !maximizing,
        );
        match before {
            Some(found) => if spec_better(value, found.0, maximizing) {
                Some((value, m))
            } else {
                before
            },
            None => Some((value, m)),
        }
    }
}

/// The turn to play in a position: the best of all turns open, where the
/// game is not over and a turn is left to look ahead.
pub open spec fn search_choice(
    grid: Grid,
    to_move: Player,
    neutrino: Position,
    player: Player,
    plies: nat,
    maximizing: bool,
) -> Option<TurnMove> {
    if is_over(grid, to_move, neutrino) || plies == 0 {
        None
    } else {
        match best_in(
            grid,
            to_move,
            neutrino,
            player,
            plies,
            maximizing,
            legal_moves(grid, to_move, neutrino).len(),
        ) {
            Some(found) => Some(found.1),
            None => None,
        }
    }
}

/// Among one turn or more there is a best, and it is one of them.
pub proof fn lemma_best_in_is_open(
    grid: Grid,
    to_move: Player,
    neutrino: Position,
    player: Player,
    plies: nat,
    maximizing: bool,
    n: nat,
)
    requires
        0 < n <= legal_moves(grid, to_move, neutrino).len(),
        plies > 0,
    ensures
        best_in(grid, to_move, neutrino, player, plies, maximizing, n) matches Some(found)
            && legal_moves(grid, to_move, neutrino).contains(found.1),
    decreases n,
{
    let m = legal_moves(grid, to_move, neutrino)[n - 1];
    assert(legal_moves(grid, to_move, neutrino).contains(m));
    if n > 1 {
        lemma_best_in_is_open(grid, to_move, neutrino, player, plies, maximizing, (n - 1) as nat);
    }
}

/// Whether a score improves on the best one so far.
#[verifier::when_used_as_spec(spec_better)]
pub fn better(candidate: Score, best: Score, maximizing: bool) -> (r: bool)
    ensures
        r == spec_better(candidate, best, maximizing),
{
    if maximizing {
        candidate.half_points() > best.half_points()
    } else {
        candidate.half_points() < best.half_points()
    }
}

/// Plays for `player`, looking `max_depth` turns ahead.
pub struct MinimaxAgent {
    player: Player,
    max_depth: usize,
}

impl MinimaxAgent {
    /// The side that the agent plays for.
    pub closed spec fn side(&self) -> Player {
        self.player
    }

    /// How many turns the agent looks ahead.
    pub closed spec fn horizon(&self) -> usize {
        self.max_depth
    }

    pub fn new(player: Player, max_depth: usize) -> (r: MinimaxAgent)
        ensures
            r.side() == player,
            r.horizon() == max_depth,
    {
        MinimaxAgent { player, max_depth }
    }

    /// What the board is worth at the given depth of the search, and the
    /// turn to play there, for the side that maximizes or for the other.
    fn search(&self, board: &GameBoard, depth: usize, maximizing: bool) -> (r: (
        Score,
        Option<TurnMove>,
    ))
        requires
            board.wf(),
        ensures
            r.0 == search_value(
                board@.cells,
                board@.to_move,
                board.neutrino(),
                self.side(),
                plies_left(self.horizon(), depth),
                maximizing,
            ),
            r.1 == search_choice(
                board@.cells,
                board@.to_move,
                board.neutrino(),
                self.side(),
                plies_left(self.horizon(), depth),
                maximizing,
            ),
        decreases plies_left(self.horizon(), depth),
    {
        if board.is_terminal() {
            return (board.utility(self.player).unwrap(), None);
        }
        if depth >= self.max_depth {
            return (Score::Draw, None);
        }
        let ghost plies = plies_left(self.horizon(), depth);
        let actions = board.actions();
        let mut best: Option<(Score, TurnMove)> = None;
        let mut n: usize = 0;
        while n < actions.len()
            invariant
                n <= actions@.len(),
                board.wf(),
                depth < self.horizon(),
                plies == plies_left(self.horizon(), depth),
                actions@ == board.spec_actions(),
                forall|m: TurnMove| actions@.contains(m) ==> board.spec_applicable(m),
                best == best_in(
                    board@.cells,
                    board@.to_move,
                    board.neutrino(),
                    self.side(),
                    plies,
                    maximizing,
                    n as nat,
                ),
            decreases actions@.len() - n,
        {
            let action = actions[n];
            assert(actions@.contains(action));
            let next = board.result(action);
            let (subtree_value, _) = self.search(&next, depth + 1, !maximizing);
            match best {
                Some((value, _)) => {
                    if better(subtree_value, value, maximizing) {
                        best = Some((subtree_value, action));
                    }
                },
                None => {
                    best = Some((subtree_value, action));
                },
            }
            n += 1;
        }
        match best {
            Some((value, action)) => (value, Some(action)),
            None => (Score::Draw, None),
        }
    }

    /// The greatest worth that the side to move can reach among the turns
    /// open on the board, and the first turn that reaches it.
    pub fn max_value(&self, board: &GameBoard, depth: usize) -> (r: (Score, Option<TurnMove>))
        requires
            board.wf(),
        ensures
            r.0 == search_value(
                board@.cells,
                board@.to_move,
                board.neutrino(),
                self.side(),
                plies_left(self.horizon(), depth),
                true,
            ),
            r.1 == search_choice(
                board@.cells,
                board@.to_move,
                board.neutrino(),
                self.side(),
                plies_left(self.horizon(), depth),
                true,
            ),
    {
        self.search(board, depth, true)
    }

    /// The smallest worth that the side to move can reach among the turns
    /// open on the board, and the first turn that reaches it.
    pub fn min_value(&self, board: &GameBoard, depth: usize) -> (r: (Score, Option<TurnMove>))
        requires
            board.wf(),
        ensures
            r.0 == search_value(
                board@.cells,
                board@.to_move,
                board.neutrino(),
                self.side(),
                plies_left(self.horizon(), depth),
                false,
            ),
            r.1 == search_choice(
                board@.cells,
                board@.to_move,
                board.neutrino(),
                self.side(),
                plies_left(self.horizon(), depth),
                false,
            ),
    {
        self.search(board, depth, false)
    }

    /// Return a move: the turn to play on the board, if the game is not over
    /// and the agent looks at least one turn ahead.
    pub fn get_move_optional(&mut self, board: &GameBoard) -> (r: Option<TurnMove>)
        requires
            board.wf(),
        ensures
            final(self).side() == old(self).side(),
            final(self).horizon() == old(self).horizon(),
            r == search_choice(
                board@.cells,
                board@.to_move,
                board.neutrino(),
                old(self).side(),
                plies_left(old(self).horizon(), 0),
                true,
            ),
            r is Some <==> !board.spec_is_terminal() && old(self).horizon() > 0,
            r matches Some(m) ==> board.legal(m),
    {
        let (_, action) = self.max_value(board, 0);
        proof {
            if !board.spec_is_terminal() && self.horizon() > 0 {
                lemma_best_in_is_open(
                    board@.cells,
                    board@.to_move,
                    board.neutrino(),
                    self.side(),
                    self.horizon() as nat,
                    true,
                    board.spec_actions().len(),
                );
                lemma_legal_moves_contains(
                    board@.cells,
                    board@.to_move,
                    board.neutrino(),
                    action.unwrap(),
                );
            }
        }
        action
    }
}

impl Agent for MinimaxAgent {
    /// The agent can choose where it looks at least one turn ahead.
    open spec fn ready(&self) -> bool {
        self.horizon() > 0
    }

    fn get_move(&mut self, board: &GameBoard) -> (chosen: TurnMove) {
        let action = self.get_move_optional(board);
        action.unwrap()
    }
}

} // verus!
