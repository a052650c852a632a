//! The rules of the game, stated over the grid as a value: how far a piece
//! slides, which turns are open to a side, what a turn does to the grid, when
//! the game is over and what it is worth.

use crate::neutrino_board::{
    spec_permitted, Cells, Direction, MoveType, Piece, Player, Position, Score, TurnMove,
};
use vstd::prelude::*;

verus! {

/// The 5x5 grid as a value: five rows of five cells.
pub type Grid = Seq<Seq<Option<Piece>>>;

/// The grid that an array of cells holds.
pub open spec fn grid_of(cells: Cells) -> Grid {
    Seq::new(5, |r: int| Seq::new(5, |c: int| cells[r][c]))
}

/// Whether the grid has five rows of five cells.
pub open spec fn well_shaped(grid: Grid) -> bool {
    grid.len() == 5 && forall|r: int| 0 <= r < 5 ==> (#[trigger] grid[r]).len() == 5
}

/// The grid with `what` written at `p`.
pub open spec fn put(grid: Grid, p: Position, what: Option<Piece>) -> Grid {
    grid.update(p.row as int, grid[p.row as int].update(p.column as int, what))
}

/// The grid after `piece` has gone from the slide's source to its destination.
pub open spec fn relocate(grid: Grid, m: MoveType, piece: Piece) -> Grid {
    put(put(grid, m.from_position, None), m.to_position, Some(piece))
}

/// Whether `(row, column)` is a cell of the board with nothing on it.
pub open spec fn vacant(grid: Grid, row: int, column: int) -> bool {
    0 <= row < 5 && 0 <= column < 5 && grid[row][column] is None
}

/// Whether the cell `k` steps from `from` in direction `d` is on the board and empty.
pub open spec fn vacant_at(grid: Grid, from: Position, d: Direction, k: int) -> bool {
    vacant(grid, d.row_after(from.row as int, k), d.column_after(from.column as int, k))
}

/// How far a piece at `from` slides in direction `d`: the number of empty
/// cells that follow `from` in that direction before the edge or another piece.
pub open spec fn slide_length(grid: Grid, from: Position, d: Direction) -> int {
    if !vacant_at(grid, from, d, 1) {
        0
    } else if !vacant_at(grid, from, d, 2) {
        1
    } else if !vacant_at(grid, from, d, 3) {
        2
    } else if !vacant_at(grid, from, d, 4) {
        3
    } else {
        4
    }
}

/// The cell `k` steps from `from` in direction `d`, where that is a cell of the board.
pub open spec fn target(from: Position, d: Direction, k: int) -> Position {
    Position {
        row: d.row_after(from.row as int, k) as usize,
        column: d.column_after(from.column as int, k) as usize,
    }
}

/// The slide of the piece at `from` in direction `d`, if it can move at all that way.
pub open spec fn slide(grid: Grid, from: Position, d: Direction) -> Option<MoveType> {
    let k = slide_length(grid, from, d);
    if k == 0 {
        None
    } else {
        Some(MoveType { from_position: from, to_position: target(from, d, k) })
    }
}

/// Whether `m` is the slide, in some direction, of what stands at its source.
pub open spec fn is_slide(grid: Grid, m: MoveType) -> bool {
    m.from_position.in_bounds() && exists|d: Direction| slide(grid, m.from_position, d) == Some(m)
}

/// The permitted slides from `from` in the first `n` directions, in generation order.
pub open spec fn slides_in(grid: Grid, from: Position, closed_row: Option<usize>, n: nat) -> Seq<
    MoveType,
>
    decreases n,
{
    if n == 0 {
        Seq::empty()
    } else {
        let rest = slides_in(grid, from, closed_row, (n - 1) as nat);
        match slide(grid, from, Direction::spec_nth(n - 1)) {
            Some(m) => if spec_permitted(m, closed_row) {
                rest.push(m)
            } else {
                rest
            },
            None => rest,
        }
    }
}

/// All permitted slides from `from`, in generation order.
pub open spec fn slides(grid: Grid, from: Position, closed_row: Option<usize>) -> Seq<MoveType> {
    slides_in(grid, from, closed_row, 8)
}

/// The cell with the given rank in row-major order.
pub open spec fn position_of(i: int) -> Position {
    Position { row: (i / 5) as usize, column: (i % 5) as usize }
}

/// The positions among the first `n` cells, in row-major order, that hold `piece`.
pub open spec fn pieces_in(grid: Grid, piece: Piece, n: nat) -> Seq<Position>
    decreases n,
{
    if n == 0 {
        Seq::empty()
    } else {
        let rest = pieces_in(grid, piece, (n - 1) as nat);
        if grid[(n - 1) / 5][(n - 1) % 5] == Some(piece) {
            rest.push(position_of(n - 1))
        } else {
            rest
        }
    }
}

/// The positions of a side's pieces, in row-major order.
pub open spec fn pieces_of(grid: Grid, player: Player) -> Seq<Position> {
    pieces_in(grid, player.piece(), 25)
}

/// How many of the first `n` cells of `row` hold `piece`.
pub open spec fn row_count(grid: Grid, row: int, piece: Piece, n: nat) -> nat
    decreases n,
{
    if n == 0 {
        0
    } else {
        row_count(grid, row, piece, (n - 1) as nat) + if grid[row][n - 1] == Some(piece) {
            1nat
        } else {
            0nat
        }
    }
}

/// The row that none of a side's pieces may enter: its starting row, once
/// four or more of its pieces stand there.
pub open spec fn closed_row(grid: Grid, player: Player) -> Option<usize> {
    if row_count(grid, player.spec_start_row(), player.piece(), 5) >= 4 {
        Some(player.spec_start_row() as usize)
    } else {
        None
    }
}

/// The permitted slides of the first `n` of the given pieces, piece by piece.
pub open spec fn piece_slides_in(
    grid: Grid,
    pieces: Seq<Position>,
    closed_row: Option<usize>,
    n: nat,
) -> Seq<MoveType>
    decreases n,
{
    if n == 0 {
        Seq::empty()
    } else {
        piece_slides_in(grid, pieces, closed_row, (n - 1) as nat) + slides(
            grid,
            pieces[n - 1],
            closed_row,
        )
    }
}

/// One turn for each of the given piece slides, all with the same neutrino slide.
pub open spec fn pair_all(neutrino_move: MoveType, piece_moves: Seq<MoveType>) -> Seq<TurnMove> {
    Seq::new(
        piece_moves.len(),
        |i: int| TurnMove { neutrino_move, piece_move: piece_moves[i] },
    )
}

/// The turns that begin with a given neutrino slide: the neutrino goes first, and
/// the mover's pieces slide on the grid as it then stands.
pub open spec fn turns_after(grid: Grid, player: Player, neutrino_move: MoveType) -> Seq<TurnMove> {
    let pieces = pieces_of(grid, player);
    pair_all(
        neutrino_move,
        piece_slides_in(
            relocate(grid, neutrino_move, Piece::Neutrino),
            pieces,
            closed_row(grid, player),
            pieces.len(),
        ),
    )
}

/// The turns that begin with one of the first `n` of the given neutrino slides.
pub open spec fn turns_in(grid: Grid, player: Player, neutrino_moves: Seq<MoveType>, n: nat) -> Seq<
    TurnMove,
>
    decreases n,
{
    if n == 0 {
        Seq::empty()
    } else {
        turns_in(grid, player, neutrino_moves, (n - 1) as nat) + turns_after(
            grid,
            player,
            neutrino_moves[n - 1],
        )
    }
}

/// Every turn open to `player` on `grid` with the neutrino at `neutrino`, in generation order.
pub open spec fn legal_moves(grid: Grid, player: Player, neutrino: Position) -> Seq<TurnMove> {
    let neutrino_moves = slides(grid, neutrino, None);
    turns_in(grid, player, neutrino_moves, neutrino_moves.len())
}

/// How many of the first `n` cells, in row-major order, hold `piece`.
pub open spec fn count_in(grid: Grid, piece: Piece, n: nat) -> nat
    decreases n,
{
    if n == 0 {
        0
    } else {
        count_in(grid, piece, (n - 1) as nat) + if grid[(n - 1) / 5][(n - 1) % 5] == Some(piece) {
            1nat
        } else {
            0nat
        }
    }
}

/// How many cells of the grid hold `piece`.
pub open spec fn piece_count(grid: Grid, piece: Piece) -> nat {
    count_in(grid, piece, 25)
}

/// Whether a turn can be carried out: each slide starts on the piece it
/// moves and ends on an empty cell, the piece's slide on the grid as the
/// neutrino's slide leaves it.
pub open spec fn applicable(grid: Grid, player: Player, m: TurnMove) -> bool {
    let moved = relocate(grid, m.neutrino_move, Piece::Neutrino);
    &&& m.neutrino_move.from_position.in_bounds()
    &&& m.neutrino_move.to_position.in_bounds()
    &&& m.piece_move.from_position.in_bounds()
    &&& m.piece_move.to_position.in_bounds()
    &&& grid[m.neutrino_move.from_position.row as int][m.neutrino_move.from_position.column as int]
        == Some(Piece::Neutrino)
    &&& grid[m.neutrino_move.to_position.row as int][m.neutrino_move.to_position.column as int] is None
    &&& moved[m.piece_move.from_position.row as int][m.piece_move.from_position.column as int]
        == Some(player.piece())
    &&& moved[m.piece_move.to_position.row as int][m.piece_move.to_position.column as int] is None
}

/// The grid after a turn: the neutrino has slid, then the player's piece.
pub open spec fn after_turn(grid: Grid, player: Player, m: TurnMove) -> Grid {
    relocate(relocate(grid, m.neutrino_move, Piece::Neutrino), m.piece_move, player.piece())
}

/// Whether the neutrino stands at `p` and nowhere else.
pub open spec fn sole_neutrino_at(grid: Grid, p: Position) -> bool {
    &&& p.in_bounds()
    &&& forall|r: int, c: int|
        0 <= r < 5 && 0 <= c < 5 ==> ((#[trigger] grid[r][c] == Some(Piece::Neutrino)) <==> (r
            == p.row && c == p.column))
}

/// Whether `m` is a turn that the rules allow `player` on `grid` with the
/// neutrino at `neutrino`: the neutrino slides first, then one of the player's
/// pieces slides on the grid as the neutrino left it, and not into a closed row.
pub open spec fn is_legal(grid: Grid, player: Player, neutrino: Position, m: TurnMove) -> bool {
    &&& m.neutrino_move.from_position == neutrino
    &&& is_slide(grid, m.neutrino_move)
    &&& m.piece_move.from_position.in_bounds()
    &&& grid[m.piece_move.from_position.row as int][m.piece_move.from_position.column as int]
        == Some(player.piece())
    &&& is_slide(relocate(grid, m.neutrino_move, Piece::Neutrino), m.piece_move)
    &&& spec_permitted(m.piece_move, closed_row(grid, player))
}

/// A slide goes over empty cells only, as far as it can, and never leaves the board.
pub proof fn lemma_slide_is_farthest(grid: Grid, from: Position, d: Direction)
    requires
        from.in_bounds(),
    ensures
        0 <= slide_length(grid, from, d) <= 4,
        forall|i: int| 1 <= i <= slide_length(grid, from, d) ==> vacant_at(grid, from, d, i),
        !vacant_at(grid, from, d, slide_length(grid, from, d) + 1),
        slide(grid, from, d) matches Some(m) ==> m.from_position == from && m.to_position
            != from && m.to_position.in_bounds() && grid[m.to_position.row as int][m.to_position.column as int] is None,
{
}

/// Whether the game is over: the neutrino stands on row 0 or row 4, or the
/// side to move has no turn.
pub open spec fn is_over(grid: Grid, to_move: Player, neutrino: Position) -> bool {
    neutrino.row == 0 || neutrino.row == 4 || legal_moves(grid, to_move, neutrino).len() == 0
}

/// The score of a finished game for `player`; none while the game is open.
/// With the neutrino on row 0 the first side scores 0, on row 4 it scores 1;
/// otherwise the side to move is stuck and loses.
pub open spec fn score_for(grid: Grid, to_move: Player, neutrino: Position, player: Player) -> Option<
    Score,
> {
    if !is_over(grid, to_move, neutrino) {
        None
    } else {
        let first = if neutrino.row == 0 {
            Score::Loss
        } else if neutrino.row == 4 {
            Score::Win
        } else if to_move == Player::Player1 {
            Score::Loss
        } else {
            Score::Win
        };
        Some(
            if player == Player::Player2 {
                first.spec_complement()
            } else {
                first
            },
        )
    }
}

/// The character that stands for a cell in the board's rendering.
pub open spec fn symbol(cell: Option<Piece>) -> char {
    match cell {
        Some(Piece::Neutrino) => 'X',
        Some(Piece::Player1) => '1',
        Some(Piece::Player2) => '2',
        None => '_',
    }
}

/// The board's rendering: five rows of five symbols, each row ended by a newline.
pub open spec fn rendering(grid: Grid) -> Seq<char> {
    Seq::new(
        30,
        |i: int|
            if i % 6 == 5 {
                '\n'
            } else {
                symbol(grid[i / 6][i % 6])
            },
    )
}

/// The grid at the start of a game: the first side on row 0, the second on
/// row 4, the neutrino in the middle.
pub open spec fn opening_grid() -> Grid {
    Seq::new(
        5,
        |r: int|
            Seq::new(
                5,
                |c: int|
                    if r == 0 {
                        Some(Piece::Player1)
                    } else if r == 4 {
                        Some(Piece::Player2)
                    } else if r == 2 && c == 2 {
                        Some(Piece::Neutrino)
                    } else {
                        None
                    },
            ),
    )
}

} // verus!
