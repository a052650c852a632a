//! The board and its moves: the pieces, the positions and slides, and the
//! board with its move generation, its transition and its end of game.

use crate::move_laws::{
    lemma_legal_is_applicable, lemma_legal_moves_contains, lemma_legal_moves_distinct,
    lemma_pieces_in_contains,
    lemma_relocate_cells, lemma_relocate_counts, lemma_slides_contains,
};
use crate::rules::{
    after_turn, applicable, closed_row, grid_of, is_legal, is_over, legal_moves, opening_grid,
    pair_all, piece_count, piece_slides_in, pieces_in, pieces_of, relocate, rendering, row_count,
    score_for, slide, slides, slides_in, sole_neutrino_at, symbol, turns_in, vacant_at,
    well_shaped, Grid,
};
use vstd::prelude::*;
use vstd::string::StringExecFns;

verus! {

/// What can occupy a cell of the board.
#[derive(Debug, Clone, Copy, PartialEq, Eq, Hash, Structural)]
pub enum Piece {
    Player1,
    Player2,
    Neutrino,
}

/// One of the two sides.
#[derive(Debug, Clone, Copy, PartialEq, Eq, Hash, Structural)]
pub enum Player {
    Player1,
    Player2,
}

impl Player {
    /// The side that moves after this one.
    pub open spec fn spec_opponent(self) -> Player {
        match self {
            Player::Player1 => Player::Player2,
            Player::Player2 => Player::Player1,
        }
    }

    /// The kind of piece this side owns.
    pub open spec fn spec_piece(self) -> Piece {
        match self {
            Player::Player1 => Piece::Player1,
            Player::Player2 => Piece::Player2,
        }
    }

    /// The row on which this side's pieces start: 0 for the first side, 4 for the second.
    pub open spec fn spec_start_row(self) -> int {
        match self {
            Player::Player1 => 0,
            Player::Player2 => 4,
        }
    }

    #[verifier::when_used_as_spec(spec_opponent)]
    pub fn opponent(self) -> (r: Player)
        ensures
            r == self.spec_opponent(),
    {
        match self {
            Player::Player1 => Player::Player2,
            Player::Player2 => Player::Player1,
        }
    }

    #[verifier::when_used_as_spec(spec_piece)]
    pub fn piece(self) -> (r: Piece)
        ensures
            r == self.spec_piece(),
    {
        match self {
            Player::Player1 => Piece::Player1,
            Player::Player2 => Piece::Player2,
        }
    }

    pub fn start_row(self) -> (r: usize)
        ensures
            r == self.spec_start_row(),
    {
        match self {
            Player::Player1 => 0,
            Player::Player2 => 4,
        }
    }
}

/// A position on the board: `cells[row][column]`.
#[derive(Clone, Copy, Debug, PartialEq, Eq, Hash, Structural)]
pub struct Position {
    pub row: usize,
    pub column: usize,
}

impl Position {
    pub fn new(row: usize, column: usize) -> (r: Position)
        ensures
            r.row == row,
            r.column == column,
    {
        Position { row, column }
    }

    /// The neighbour one row higher, whether or not that is on the board.
    pub fn up(&self) -> (r: Position)
        requires
            self.row < usize::MAX,
        ensures
            r.row == self.row + 1,
            r.column == self.column,
    {
        Position { row: self.row + 1, column: self.column }
    }

    /// The neighbour one row lower; there is none below row 0.
    pub fn down(&self) -> (r: Position)
        requires
            self.row > 0,
        ensures
            r.row == self.row - 1,
            r.column == self.column,
    {
        Position { row: self.row - 1, column: self.column }
    }

    /// The neighbour one column lower; there is none before column 0.
    pub fn left(&self) -> (r: Position)
        requires
            self.column > 0,
        ensures
            r.row == self.row,
            r.column == self.column - 1,
    {
        Position { row: self.row, column: self.column - 1 }
    }

    /// The neighbour one column higher, whether or not that is on the board.
    pub fn right(&self) -> (r: Position)
        requires
            self.column < usize::MAX,
        ensures
            r.row == self.row,
            r.column == self.column + 1,
    {
        Position { row: self.row, column: self.column + 1 }
    }

    pub open spec fn spec_in_bounds(&self) -> bool {
        self.row <= 4 && self.column <= 4
    }

    /// Whether the position lies on the 5x5 board.
    #[verifier::when_used_as_spec(spec_in_bounds)]
    pub fn in_bounds(&self) -> (r: bool)
        ensures
            r == self.spec_in_bounds(),
    {
        if self.row > 4 || self.column > 4 {
            false
        } else {
            true
        }
    }
}

impl From<(usize, usize)> for Position {
    /// The position with the given row and column.
    fn from(value: (usize, usize)) -> (r: Position) {
        Position { row: value.0, column: value.1 }
    }
}

impl vstd::std_specs::convert::FromSpecImpl<(usize, usize)> for Position {
    open spec fn obeys_from_spec() -> bool {
        true
    }

    open spec fn from_spec(value: (usize, usize)) -> Position {
        Position { row: value.0, column: value.1 }
    }
}

/// The eight directions of a slide, in the order in which slides are generated.
#[derive(Clone, Copy, Debug, PartialEq, Eq, Hash, Structural)]
pub enum Direction {
    Up,
    Down,
    Left,
    Right,
    UpLeft,
    UpRight,
    DownLeft,
    DownRight,
}

impl Direction {
    /// The row reached from `row` after `k` steps in this direction.
    pub open spec fn row_after(self, row: int, k: int) -> int {
        match self {
            Direction::Up | Direction::UpLeft | Direction::UpRight => row + k,
            Direction::Down | Direction::DownLeft | Direction::DownRight => row - k,
            _ => row,
        }
    }

    /// The column reached from `column` after `k` steps in this direction.
    pub open spec fn column_after(self, column: int, k: int) -> int {
        match self {
            Direction::Right | Direction::UpRight | Direction::DownRight => column + k,
            Direction::Left | Direction::UpLeft | Direction::DownLeft => column - k,
            _ => column,
        }
    }

    /// The direction with the given rank in generation order (the last one for any larger rank).
    pub open spec fn spec_nth(i: int) -> Direction {
        if i == 0 {
            Direction::Up
        } else if i == 1 {
            Direction::Down
        } else if i == 2 {
            Direction::Left
        } else if i == 3 {
            Direction::Right
        } else if i == 4 {
            Direction::UpLeft
        } else if i == 5 {
            Direction::UpRight
        } else if i == 6 {
            Direction::DownLeft
        } else {
            Direction::DownRight
        }
    }

    /// This direction's rank in generation order.
    pub open spec fn rank(self) -> int {
        match self {
            Direction::Up => 0,
            Direction::Down => 1,
            Direction::Left => 2,
            Direction::Right => 3,
            Direction::UpLeft => 4,
            Direction::UpRight => 5,
            Direction::DownLeft => 6,
            Direction::DownRight => 7,
        }
    }

    pub fn nth(i: usize) -> (r: Direction)
        requires
            i < 8,
        ensures
            r == Direction::spec_nth(i as int),
            r.rank() == i,
    {
        if i == 0 {
            Direction::Up
        } else if i == 1 {
            Direction::Down
        } else if i == 2 {
            Direction::Left
        } else if i == 3 {
            Direction::Right
        } else if i == 4 {
            Direction::UpLeft
        } else if i == 5 {
            Direction::UpRight
        } else if i == 6 {
            Direction::DownLeft
        } else {
            Direction::DownRight
        }
    }

    pub open spec fn spec_moves_down(self) -> bool {
        self == Direction::Down || self == Direction::DownLeft || self == Direction::DownRight
    }

    pub open spec fn spec_moves_left(self) -> bool {
        self == Direction::Left || self == Direction::UpLeft || self == Direction::DownLeft
    }

    /// Whether a step in this direction lowers the row.
    #[verifier::when_used_as_spec(spec_moves_down)]
    pub fn moves_down(self) -> (r: bool)
        ensures
            r == self.spec_moves_down(),
    {
        match self {
            Direction::Down | Direction::DownLeft | Direction::DownRight => true,
            _ => false,
        }
    }

    /// Whether a step in this direction lowers the column.
    #[verifier::when_used_as_spec(spec_moves_left)]
    pub fn moves_left(self) -> (r: bool)
        ensures
            r == self.spec_moves_left(),
    {
        match self {
            Direction::Left | Direction::UpLeft | Direction::DownLeft => true,
            _ => false,
        }
    }

    /// The neighbour of `p` in this direction. A step that would lower a
    /// coordinate below 0 must be ruled out by the caller beforehand.
    pub fn step(self, p: Position) -> (r: Position)
        requires
            !(p.row == 0 && self.moves_down()),
            !(p.column == 0 && self.moves_left()),
            p.row < usize::MAX,
            p.column < usize::MAX,
        ensures
            r.row == self.row_after(p.row as int, 1),
            r.column == self.column_after(p.column as int, 1),
    {
        match self {
            Direction::Up => p.up(),
            Direction::Down => p.down(),
            Direction::Left => p.left(),
            Direction::Right => p.right(),
            Direction::UpLeft => p.up().left(),
            Direction::UpRight => p.up().right(),
            Direction::DownLeft => p.down().left(),
            Direction::DownRight => p.down().right(),
        }
    }
}

/// One piece's slide from a cell to another.
#[derive(Debug, Clone, Copy, PartialEq, Eq, Hash, Structural)]
pub struct MoveType {
    pub from_position: Position,
    pub to_position: Position,
}

impl MoveType {
    pub fn new(from_position: Position, to_position: Position) -> (r: MoveType)
        ensures
            r.from_position == from_position,
            r.to_position == to_position,
    {
        MoveType { from_position, to_position }
    }
}

/// One full turn: a slide of the neutrino, then a slide of one of the mover's pieces.
#[derive(Debug, Clone, Copy, PartialEq, Eq, Hash, Structural)]
pub struct TurnMove {
    pub neutrino_move: MoveType,
    pub piece_move: MoveType,
}

impl TurnMove {
    pub fn new(neutrino_move: MoveType, piece_move: MoveType) -> (r: TurnMove)
        ensures
            r.neutrino_move == neutrino_move,
            r.piece_move == piece_move,
    {
        TurnMove { neutrino_move, piece_move }
    }
}

/// The 5x5 grid as it is stored: `cells[row][column]` is what stands there, if anything.
pub type Cells = [[Option<Piece>; 5]; 5];

/// The slide in direction `d` of whatever stands at `start`.
pub fn move_in_direction(cells: &Cells, start: Position, d: Direction) -> (r: Option<MoveType>)
    requires
        start.in_bounds(),
    ensures
        r == slide(grid_of(*cells), start, d),
{
    if start.row == 0 && d.moves_down() {
        return None;
    }
    if start.column == 0 && d.moves_left() {
        return None;
    }
    let first = d.step(start);
    if !(first.in_bounds() && cells[first.row][first.column].is_none()) {
        return None;
    }
    let mut end_position = first;
    let ghost mut k: int = 1;
    loop
        invariant
            start.in_bounds(),
            1 <= k <= 4,
            end_position.row == d.row_after(start.row as int, k),
            end_position.column == d.column_after(start.column as int, k),
            end_position.in_bounds(),
            forall|i: int| 1 <= i <= k ==> vacant_at(grid_of(*cells), start, d, i),
        ensures
            !vacant_at(grid_of(*cells), start, d, k + 1),
        decreases 4 - k,
    {
        if (end_position.row == 0 && d.moves_down()) || (end_position.column == 0
            && d.moves_left()) {
            break ;
        }
        let next = d.step(end_position);
        if !(next.in_bounds() && cells[next.row][next.column].is_none()) {
            break ;
        }
        end_position = next;
        proof {
            k = k + 1;
        }
    }
    Some(MoveType::new(start, end_position))
}

/// Whether a slide respects a closed row: it may start there, but not enter it from outside.
pub open spec fn spec_permitted(m: MoveType, closed_row: Option<usize>) -> bool {
    match closed_row {
        None => true,
        Some(row) => !(m.from_position.row != row && m.to_position.row == row),
    }
}

/// Whether a slide respects a closed row.
#[verifier::when_used_as_spec(spec_permitted)]
pub fn permitted(m: MoveType, closed_row: Option<usize>) -> (r: bool)
    ensures
        r == spec_permitted(m, closed_row),
{
    match closed_row {
        None => true,
        Some(row) => !(m.from_position.row != row && m.to_position.row == row),
    }
}

/// The permitted slides of whatever stands at `from`, in the eight directions in order.
pub fn slides_from(cells: &Cells, from: Position, closed_row: Option<usize>) -> (r: Vec<MoveType>)
    requires
        from.in_bounds(),
    ensures
        r@ == slides(grid_of(*cells), from, closed_row),
{
    let mut found: Vec<MoveType> = Vec::new();
    let mut i: usize = 0;
    while i < 8
        invariant
            i <= 8,
            from.in_bounds(),
            found@ == slides_in(grid_of(*cells), from, closed_row, i as nat),
        decreases 8 - i,
    {
        let d = Direction::nth(i);
        match move_in_direction(cells, from, d) {
            Some(m) => {
                if permitted(m, closed_row) {
                    found.push(m);
                }
            },
            None => {},
        }
        i += 1;
    }
    found
}

/// The row that none of the player's pieces may enter, if there is one.
pub fn closed_row_of(cells: &Cells, player: Player) -> (r: Option<usize>)
    ensures
        r == closed_row(grid_of(*cells), player),
{
    let start_row = player.start_row();
    let player_piece = player.piece();
    let mut at_home: usize = 0;
    let mut column: usize = 0;
    while column < 5
        invariant
            column <= 5,
            start_row == player.spec_start_row(),
            player_piece == player.spec_piece(),
            at_home == row_count(grid_of(*cells), start_row as int, player_piece, column as nat),
            at_home <= column,
        decreases 5 - column,
    {
        if cells[start_row][column] == Some(player_piece) {
            at_home += 1;
        }
        column += 1;
    }
    if at_home < 4 {
        None
    } else {
        Some(start_row)
    }
}

/// The permitted slides of the given pieces, piece by piece.
pub fn piece_slides(cells: &Cells, pieces: &Vec<Position>, closed_row: Option<usize>) -> (r: Vec<
    MoveType,
>)
    requires
        forall|j: int| 0 <= j < pieces@.len() ==> (#[trigger] pieces@[j]).in_bounds(),
    ensures
        r@ == piece_slides_in(grid_of(*cells), pieces@, closed_row, pieces@.len()),
{
    let mut found: Vec<MoveType> = Vec::new();
    let mut j: usize = 0;
    while j < pieces.len()
        invariant
            j <= pieces@.len(),
            forall|j: int| 0 <= j < pieces@.len() ==> (#[trigger] pieces@[j]).in_bounds(),
            found@ == piece_slides_in(grid_of(*cells), pieces@, closed_row, j as nat),
        decreases pieces@.len() - j,
    {
        let mut more = slides_from(cells, pieces[j], closed_row);
        found.append(&mut more);
        j += 1;
    }
    found
}

/// Adds to `moves` one turn for each of the piece slides, all with the same neutrino slide.
pub fn append_turns(moves: &mut Vec<TurnMove>, neutrino_move: MoveType, piece_moves: &Vec<MoveType>)
    ensures
        final(moves)@ == old(moves)@ + pair_all(neutrino_move, piece_moves@),
{
    let ghost before = moves@;
    let mut j: usize = 0;
    while j < piece_moves.len()
        invariant
            j <= piece_moves@.len(),
            moves@ == before + pair_all(neutrino_move, piece_moves@.take(j as int)),
        decreases piece_moves@.len() - j,
    {
        moves.push(TurnMove::new(neutrino_move, piece_moves[j]));
        assert(moves@ =~= before + pair_all(neutrino_move, piece_moves@.take(j + 1)));
        j += 1;
    }
    assert(piece_moves@.take(piece_moves@.len() as int) =~= piece_moves@);
}

/// The outcome of a finished game for one side: 0, one half or 1.
#[derive(Debug, Clone, Copy, PartialEq, Eq, Hash, Structural)]
pub enum Score {
    Loss,
    Draw,
    Win,
}

impl Score {
    /// The score in half points: 0 for a loss, 1 for a draw, 2 for a win.
    pub open spec fn spec_half_points(self) -> int {
        match self {
            Score::Loss => 0,
            Score::Draw => 1,
            Score::Win => 2,
        }
    }

    /// The same outcome seen from the other side: one minus the score.
    pub open spec fn spec_complement(self) -> Score {
        match self {
            Score::Loss => Score::Win,
            Score::Draw => Score::Draw,
            Score::Win => Score::Loss,
        }
    }

    pub fn half_points(self) -> (r: u8)
        ensures
            r == self.spec_half_points(),
    {
        match self {
            Score::Loss => 0,
            Score::Draw => 1,
            Score::Win => 2,
        }
    }

    #[verifier::when_used_as_spec(spec_complement)]
    pub fn complement(self) -> (r: Score)
        ensures
            r == self.spec_complement(),
            r.spec_half_points() == 2 - self.spec_half_points(),
    {
        match self {
            Score::Loss => Score::Win,
            Score::Draw => Score::Draw,
            Score::Win => Score::Loss,
        }
    }
}

/// The one-character string that stands for a cell.
pub fn symbol_str(cell: Option<Piece>) -> (r: &'static str)
    ensures
        r@ == seq![symbol(cell)],
{
    proof {
        reveal_strlit("X");
        reveal_strlit("1");
        reveal_strlit("2");
        reveal_strlit("_");
    }
    let text = match cell {
        Some(Piece::Neutrino) => "X",
        Some(Piece::Player1) => "1",
        Some(Piece::Player2) => "2",
        None => "_",
    };
    assert(text@ =~= seq![symbol(cell)]);
    text
}

/// What a board is, apart from its cached neutrino position: the grid and the side to move.
pub struct BoardView {
    pub cells: Grid,
    pub to_move: Player,
}

/// A position of the game: the grid, the side to move, and where the neutrino stands.
#[derive(Debug, Clone, Copy)]
pub struct GameBoard {
    board: Cells,
    to_move: Player,
    neutrino_position: Position,
}

impl View for GameBoard {
    type V = BoardView;

    closed spec fn view(&self) -> BoardView {
        BoardView { cells: grid_of(self.board), to_move: self.to_move }
    }
}

impl GameBoard {
    /// Where the neutrino is recorded to stand.
    pub closed spec fn neutrino(&self) -> Position {
        self.neutrino_position
    }

    /// The board's invariant: the recorded neutrino position is the one cell that holds the neutrino.
    pub open spec fn wf(&self) -> bool {
        &&& well_shaped(self@.cells)
        &&& sole_neutrino_at(self@.cells, self.neutrino())
    }

    /// Every turn open to the side to move, in generation order.
    pub open spec fn spec_actions(&self) -> Seq<TurnMove> {
        legal_moves(self@.cells, self@.to_move, self.neutrino())
    }

    /// A board with the given cells and side to move.
    pub fn new(board: Cells, to_move: Player) -> (r: GameBoard)
        requires
            exists|p: Position| sole_neutrino_at(grid_of(board), p),
        ensures
            r.wf(),
            r@ == (BoardView { cells: grid_of(board), to_move }),
    {
        let mut neutrino_position: Option<Position> = None;
        let mut i: usize = 0;
        while i < 25
            invariant
                i <= 25,
                match neutrino_position {
                    Some(p) => p.in_bounds() && board[p.row as int][p.column as int] == Some(
                        Piece::Neutrino,
                    ),
                    None => forall|j: int|
                        0 <= j < i ==> #[trigger] board[j / 5][j % 5] != Some(Piece::Neutrino),
                },
            decreases 25 - i,
        {
            let row = i / 5;
            let column = i % 5;
            if board[row][column] == Some(Piece::Neutrino) {
                neutrino_position = Some(Position::new(row, column));
            }
            i += 1;
        }
        proof {
            let p = choose|p: Position| sole_neutrino_at(grid_of(board), p);
            let j = p.row * 5 + p.column;
            assert(grid_of(board)[p.row as int][p.column as int] == Some(Piece::Neutrino));
            assert(board[j / 5][j % 5] == Some(Piece::Neutrino));
            let q = neutrino_position.unwrap();
            assert(grid_of(board)[q.row as int][q.column as int] == Some(Piece::Neutrino));
        }
        GameBoard { board, to_move, neutrino_position: neutrino_position.unwrap() }
    }

    /// The positions of the player's pieces, in row-major order.
    pub fn pieces(&self, player: Player) -> (r: Vec<Position>)
        ensures
            r@ == pieces_of(self@.cells, player),
    {
        let mut positions: Vec<Position> = Vec::new();
        let player_piece = player.piece();
        let mut i: usize = 0;
        while i < 25
            invariant
                i <= 25,
                player_piece == player.spec_piece(),
                positions@ == pieces_in(self@.cells, player_piece, i as nat),
            decreases 25 - i,
        {
            let row = i / 5;
            let column = i % 5;
            if self.board[row][column] == Some(player_piece) {
                positions.push(Position::new(row, column));
            }
            i += 1;
        }
        positions
    }

    /// What player's turn it is.
    pub fn to_move(&self) -> (r: Player)
        ensures
            r == self@.to_move,
    {
        self.to_move
    }

    /// What stands at a position of the board.
    pub fn at_position(&self, position: Position) -> (r: Option<Piece>)
        requires
            position.in_bounds(),
        ensures
            r == self@.cells[position.row as int][position.column as int],
    {
        self.board[position.row][position.column]
    }

    /// Whether the rules allow the side to move the turn `m`.
    pub open spec fn legal(&self, m: TurnMove) -> bool {
        is_legal(self@.cells, self@.to_move, self.neutrino(), m)
    }

    /// Whether the turn `m` can be carried out on this board.
    pub open spec fn spec_applicable(&self, m: TurnMove) -> bool {
        applicable(self@.cells, self@.to_move, m)
    }

    /// Whether the game is over on this board.
    pub open spec fn spec_is_terminal(&self) -> bool {
        is_over(self@.cells, self@.to_move, self.neutrino())
    }

    /// The score of a finished game for `player`; none while the game is open.
    pub open spec fn spec_utility(&self, player: Player) -> Option<Score> {
        score_for(self@.cells, self@.to_move, self.neutrino(), player)
    }

    /// Whether `next` is the board that the turn `m` leads to from this one.
    pub open spec fn leads_to(&self, m: TurnMove, next: GameBoard) -> bool {
        &&& next@ == (BoardView {
            cells: after_turn(self@.cells, self@.to_move, m),
            to_move: self@.to_move.spec_opponent(),
        })
        &&& next.neutrino() == m.neutrino_move.to_position
    }

    /// A list of all possible moves, in generation order: neutrino slides in
    /// the order of the directions, then pieces in row-major order, then each
    /// piece's slides in the order of the directions.
    pub fn actions(&self) -> (r: Vec<TurnMove>)
        requires
            self.wf(),
        ensures
            r@ == self.spec_actions(),
            r@.no_duplicates(),
            forall|m: TurnMove| r@.contains(m) <==> self.legal(m),
            forall|m: TurnMove| r@.contains(m) ==> self.spec_applicable(m),
    {
        let neutrino_moves = slides_from(&self.board, self.neutrino_position, None);
        let player_pieces = self.pieces(self.to_move);
        let closed = closed_row_of(&self.board, self.to_move);
        let ghost grid = self@.cells;
        proof {
            assert forall|j: int| 0 <= j < player_pieces@.len() implies (
            #[trigger] player_pieces@[j]).in_bounds() by {
                assert(player_pieces@.contains(player_pieces@[j]));
                lemma_pieces_in_contains(grid, self.to_move.piece(), 25, player_pieces@[j]);
            }
        }
        let mut moves: Vec<TurnMove> = Vec::new();
        let mut i: usize = 0;
        while i < neutrino_moves.len()
            invariant
                i <= neutrino_moves@.len(),
                self.wf(),
                grid == self@.cells,
                neutrino_moves@ == slides(grid, self.neutrino(), None),
                player_pieces@ == pieces_of(grid, self@.to_move),
                closed == closed_row(grid, self@.to_move),
                forall|j: int| 0 <= j < player_pieces@.len() ==> (#[trigger] player_pieces@[j]).in_bounds(),
                moves@ == turns_in(grid, self@.to_move, neutrino_moves@, i as nat),
            decreases neutrino_moves@.len() - i,
        {
            let neutrino_move = neutrino_moves[i];
            proof {
                assert(neutrino_moves@.contains(neutrino_move));
                lemma_slides_contains(grid, self.neutrino(), None, neutrino_move);
            }
            let mut moved = self.board;
            moved[neutrino_move.from_position.row][neutrino_move.from_position.column] = None;
            moved[neutrino_move.to_position.row][neutrino_move.to_position.column] = Some(
                Piece::Neutrino,
            );
            assert(grid_of(moved) =~~= relocate(grid, neutrino_move, Piece::Neutrino));
            let piece_moves = piece_slides(&moved, &player_pieces, closed);
            append_turns(&mut moves, neutrino_move, &piece_moves);
            i += 1;
        }
        proof {
            lemma_legal_moves_distinct(grid, self@.to_move, self.neutrino());
            assert forall|m: TurnMove| moves@.contains(m) <==> self.legal(m) by {
                lemma_legal_moves_contains(grid, self@.to_move, self.neutrino(), m);
            }
            assert forall|m: TurnMove| moves@.contains(m) implies self.spec_applicable(m) by {
                lemma_legal_moves_contains(grid, self@.to_move, self.neutrino(), m);
                lemma_legal_is_applicable(grid, self@.to_move, self.neutrino(), m);
            }
        }
        moves
    }

    /// The GameBoard resulting from a move: both pieces moved, the other side to move.
    pub fn result(&self, turn_move: TurnMove) -> (r: GameBoard)
        requires
            self.wf(),
            self.spec_applicable(turn_move),
        ensures
            r.wf(),
            self.leads_to(turn_move, r),
            forall|piece: Piece| piece_count(r@.cells, piece) == piece_count(self@.cells, piece),
    {
        let new_player = match self.to_move() {
            Player::Player1 => Player::Player2,
            Player::Player2 => Player::Player1,
        };
        let ghost grid = self@.cells;
        let ghost moved = relocate(grid, turn_move.neutrino_move, Piece::Neutrino);
        let mut new_board = self.board;
        let new_neutrino_position = Position::new(
            turn_move.neutrino_move.to_position.row,
            turn_move.neutrino_move.to_position.column,
        );
        new_board[turn_move.neutrino_move.from_position.row][turn_move.neutrino_move.from_position.column] =
            None;
        new_board[new_neutrino_position.row][new_neutrino_position.column] = Some(
            Piece::Neutrino,
        );
        assert(grid_of(new_board) =~~= moved);
        let piece = match self.to_move() {
            Player::Player1 => Piece::Player1,
            Player::Player2 => Piece::Player2,
        };
        new_board[turn_move.piece_move.from_position.row][turn_move.piece_move.from_position.column] =
            None;
        new_board[turn_move.piece_move.to_position.row][turn_move.piece_move.to_position.column] =
            Some(piece);
        assert(grid_of(new_board) =~~= after_turn(grid, self@.to_move, turn_move));
        proof {
            lemma_relocate_cells(grid, turn_move.neutrino_move, Piece::Neutrino);
            lemma_relocate_cells(moved, turn_move.piece_move, piece);
            assert forall|what: Piece|
                piece_count(grid_of(new_board), what) == piece_count(grid, what) by {
                lemma_relocate_counts(grid, turn_move.neutrino_move, Piece::Neutrino, what, 25);
                lemma_relocate_counts(moved, turn_move.piece_move, piece, what, 25);
            }
        }
        GameBoard { board: new_board, neutrino_position: new_neutrino_position, to_move: new_player }
    }

    /// Whether the GameBoard is terminal (has a winner).
    pub fn is_terminal(&self) -> (r: bool)
        requires
            self.wf(),
        ensures
            r == self.spec_is_terminal(),
    {
        if self.neutrino_position.row == 0 || self.neutrino_position.row == 4 {
            return true;
        }
        if self.actions().len() == 0 {
            return true;
        }
        false
    }

    /// The utility (i.e. score) of the GameBoard from a given player's
    /// perspective; none unless the game is over.
    pub fn utility(&self, player: Player) -> (r: Option<Score>)
        requires
            self.wf(),
        ensures
            r == self.spec_utility(player),
            r matches Some(score) ==> score != Score::Draw,
    {
        if !self.is_terminal() {
            return None;
        }
        let neutrino_loss_player1 = self.neutrino_position.row == 0;
        let neutrino_loss_player2 = self.neutrino_position.row == 4;
        let captured_neutrino = self.actions().len() == 0;
        let mut result = Score::Draw;
        if neutrino_loss_player1 {
            result = Score::Loss;
        } else if neutrino_loss_player2 {
            result = Score::Win;
        } else if captured_neutrino && self.to_move() == Player::Player1 {
            result = Score::Loss;
        } else if captured_neutrino && self.to_move() == Player::Player2 {
            result = Score::Win;
        }
        if player == Player::Player2 {
            result = result.complement();
        }
        Some(result)
    }

    /// The board as text: five rows of five characters, each row ended by a
    /// newline; `X` for the neutrino, `1` and `2` for the sides' pieces, `_`
    /// for an empty cell.
    pub fn render(&self) -> (r: String)
        ensures
            r@ == rendering(self@.cells),
    {
        let mut board_string = String::new();
        let mut row: usize = 0;
        while row < 5
            invariant
                row <= 5,
                board_string@ == rendering(self@.cells).take(6 * row),
            decreases 5 - row,
        {
            let mut column: usize = 0;
            while column < 5
                invariant
                    row < 5,
                    column <= 5,
                    board_string@ == rendering(self@.cells).take(6 * row + column),
                decreases 5 - column,
            {
                board_string.append(symbol_str(self.board[row][column]));
                assert(board_string@ =~= rendering(self@.cells).take(6 * row + column + 1));
                column += 1;
            }
            proof {
                reveal_strlit("\n");
            }
            board_string.append("\n");
            assert(board_string@ =~= rendering(self@.cells).take(6 * (row + 1)));
            row += 1;
        }
        assert(rendering(self@.cells).take(30) =~= rendering(self@.cells));
        board_string
    }
}

impl Default for GameBoard {
    /// The board at the start of a game, the first side to move.
    fn default() -> (r: GameBoard)
        ensures
            r.wf(),
            r@ == (BoardView { cells: opening_grid(), to_move: Player::Player1 }),
            r.neutrino() == (Position { row: 2, column: 2 }),
    {
        let mut board: Cells = [[None;5];5];
        board[2][2] = Some(Piece::Neutrino);
        let mut column: usize = 0;
        while column < 5
            invariant
                column <= 5,
                forall|r: int, c: int|
                    0 <= r < 5 && 0 <= c < 5 ==> #[trigger] board[r][c] == (if (r == 0 || r == 4)
                        && c < column {
                        opening_grid()[r][c]
                    } else if r == 2 && c == 2 {
                        Some(Piece::Neutrino)
                    } else {
                        None
                    }),
            decreases 5 - column,
        {
            board[0][column] = Some(Piece::Player1);
            board[4][column] = Some(Piece::Player2);
            column += 1;
        }
        assert(grid_of(board) =~~= opening_grid());
        GameBoard {
            board,
            neutrino_position: Position::new(2, 2),
            to_move: Player::Player1,
        }
    }
}

} // verus!
