//! What holds of the generated moves: which slides and turns the generated
//! sequences contain.

use crate::neutrino_board::{
    spec_permitted, Direction, GameBoard, MoveType, Piece, Player, Position, TurnMove,
};
use crate::rules::{
    after_turn, applicable, closed_row, count_in, is_legal, is_slide, legal_moves,
    lemma_slide_is_farthest, pair_all, piece_count, piece_slides_in, pieces_in, pieces_of,
    position_of, put, relocate, row_count, slide, slide_length, slides, slides_in,
    opening_grid, sole_neutrino_at, target, turns_after, turns_in, well_shaped, Grid,
};
use crate::seq_laws::lemma_push_keeps_distinct;
use vstd::prelude::*;

verus! {

/// The slides generated in the first `n` directions are the permitted slides in those directions.
pub proof fn lemma_slides_in_contains(
    grid: Grid,
    from: Position,
    closed: Option<usize>,
    n: nat,
    m: MoveType,
)
    requires
        n <= 8,
    ensures
        slides_in(grid, from, closed, n).contains(m) <==> (spec_permitted(m, closed) && exists|
            d: Direction,
        |
            d.rank() < n && #[trigger] slide(grid, from, d) == Some(m)),
    decreases n,
{
    broadcast use vstd::seq_lib::lemma_seq_contains_after_push;
    broadcast use vstd::seq_lib::lemma_seq_empty_contains_nothing;

    if n > 0 {
        let last = Direction::spec_nth(n - 1);
        lemma_slides_in_contains(grid, from, closed, (n - 1) as nat, m);
        let rest = slides_in(grid, from, closed, (n - 1) as nat);
        if slides_in(grid, from, closed, n).contains(m) {
            if rest.contains(m) {
                let d = choose|d: Direction|
                    d.rank() < n - 1 && #[trigger] slide(grid, from, d) == Some(m);
                assert(d.rank() < n && slide(grid, from, d) == Some(m));
            } else {
                assert(last.rank() < n && slide(grid, from, last) == Some(m));
            }
        }
        if spec_permitted(m, closed) && exists|d: Direction|
            d.rank() < n && #[trigger] slide(grid, from, d) == Some(m) {
            let d = choose|d: Direction| d.rank() < n && #[trigger] slide(grid, from, d) == Some(m);
            if d.rank() < n - 1 {
                assert(rest.contains(m));
            } else {
                assert(d == last);
            }
        }
    }
}

/// The slides generated from a cell of the board are the permitted slides that start there.
pub proof fn lemma_slides_contains(grid: Grid, from: Position, closed: Option<usize>, m: MoveType)
    requires
        from.in_bounds(),
    ensures
        slides(grid, from, closed).contains(m) <==> (m.from_position == from && is_slide(grid, m)
            && spec_permitted(m, closed)),
        slides(grid, from, closed).contains(m) ==> m.to_position.in_bounds() && m.to_position
            != from && grid[m.to_position.row as int][m.to_position.column as int] is None,
{
    lemma_slides_in_contains(grid, from, closed, 8, m);
    if slides(grid, from, closed).contains(m) {
        let d = choose|d: Direction| d.rank() < 8 && #[trigger] slide(grid, from, d) == Some(m);
        lemma_slide_is_farthest(grid, from, d);
    }
    if m.from_position == from && is_slide(grid, m) && spec_permitted(m, closed) {
        let d = choose|d: Direction| slide(grid, m.from_position, d) == Some(m);
        assert(d.rank() < 8 && slide(grid, from, d) == Some(m));
    }
}

/// The positions generated among the first `n` cells are those that hold the piece.
pub proof fn lemma_pieces_in_contains(grid: Grid, piece: Piece, n: nat, p: Position)
    requires
        n <= 25,
    ensures
        pieces_in(grid, piece, n).contains(p) <==> (p.in_bounds() && p.row * 5 + p.column < n
            && grid[p.row as int][p.column as int] == Some(piece)),
    decreases n,
{
    broadcast use vstd::seq_lib::lemma_seq_contains_after_push;
    broadcast use vstd::seq_lib::lemma_seq_empty_contains_nothing;

    if n > 0 {
        lemma_pieces_in_contains(grid, piece, (n - 1) as nat, p);
        let q = position_of(n - 1);
        assert(q.in_bounds() && q.row * 5 + q.column == n - 1);
    }
}

/// The slides generated for the first `n` pieces are the slides generated for each of them.
pub proof fn lemma_piece_slides_in_contains(
    grid: Grid,
    pieces: Seq<Position>,
    closed: Option<usize>,
    n: nat,
    m: MoveType,
)
    requires
        n <= pieces.len(),
    ensures
        piece_slides_in(grid, pieces, closed, n).contains(m) <==> exists|j: int|
            0 <= j < n && #[trigger] slides(grid, pieces[j], closed).contains(m),
    decreases n,
{
    broadcast use vstd::seq_lib::lemma_seq_concat_contains_all_elements;
    broadcast use vstd::seq_lib::lemma_seq_empty_contains_nothing;

    if n > 0 {
        lemma_piece_slides_in_contains(grid, pieces, closed, (n - 1) as nat, m);
        let rest = piece_slides_in(grid, pieces, closed, (n - 1) as nat);
        if piece_slides_in(grid, pieces, closed, n).contains(m) {
            if rest.contains(m) {
                let j = choose|j: int|
                    0 <= j < n - 1 && #[trigger] slides(grid, pieces[j], closed).contains(m);
                assert(0 <= j < n && slides(grid, pieces[j], closed).contains(m));
            } else {
                assert(slides(grid, pieces[n - 1], closed).contains(m));
            }
        }
        if exists|j: int| 0 <= j < n && #[trigger] slides(grid, pieces[j], closed).contains(m) {
            let j = choose|j: int|
                0 <= j < n && #[trigger] slides(grid, pieces[j], closed).contains(m);
            if j < n - 1 {
                assert(rest.contains(m));
            }
        }
    }
}

/// Pairing a neutrino slide with piece slides gives the turns with that
/// neutrino slide and one of those piece slides.
pub proof fn lemma_pair_all_contains(neutrino_move: MoveType, piece_moves: Seq<MoveType>, t: TurnMove)
    ensures
        pair_all(neutrino_move, piece_moves).contains(t) <==> (t.neutrino_move == neutrino_move
            && piece_moves.contains(t.piece_move)),
{
    let all = pair_all(neutrino_move, piece_moves);
    if all.contains(t) {
        let i = choose|i: int| 0 <= i < all.len() && all[i] == t;
        assert(piece_moves[i] == t.piece_move);
    }
    if t.neutrino_move == neutrino_move && piece_moves.contains(t.piece_move) {
        let i = choose|i: int| 0 <= i < piece_moves.len() && piece_moves[i] == t.piece_move;
        assert(all[i] == t);
    }
}

/// The turns generated for the first `n` neutrino slides are the turns generated after each of them.
pub proof fn lemma_turns_in_contains(
    grid: Grid,
    player: Player,
    neutrino_moves: Seq<MoveType>,
    n: nat,
    t: TurnMove,
)
    requires
        n <= neutrino_moves.len(),
    ensures
        turns_in(grid, player, neutrino_moves, n).contains(t) <==> exists|i: int|
            0 <= i < n && #[trigger] turns_after(grid, player, neutrino_moves[i]).contains(t),
    decreases n,
{
    broadcast use vstd::seq_lib::lemma_seq_concat_contains_all_elements;
    broadcast use vstd::seq_lib::lemma_seq_empty_contains_nothing;

    if n > 0 {
        lemma_turns_in_contains(grid, player, neutrino_moves, (n - 1) as nat, t);
        let rest = turns_in(grid, player, neutrino_moves, (n - 1) as nat);
        if turns_in(grid, player, neutrino_moves, n).contains(t) {
            if rest.contains(t) {
                let i = choose|i: int|
                    0 <= i < n - 1 && #[trigger] turns_after(
                        grid,
                        player,
                        neutrino_moves[i],
                    ).contains(t);
                assert(0 <= i < n && turns_after(grid, player, neutrino_moves[i]).contains(t));
            } else {
                assert(turns_after(grid, player, neutrino_moves[n - 1]).contains(t));
            }
        }
        if exists|i: int|
            0 <= i < n && #[trigger] turns_after(grid, player, neutrino_moves[i]).contains(t) {
            let i = choose|i: int|
                0 <= i < n && #[trigger] turns_after(grid, player, neutrino_moves[i]).contains(t);
            if i < n - 1 {
                assert(rest.contains(t));
            }
        }
    }
}

/// The turns generated after a neutrino slide pair it with the permitted
/// slides of the player's pieces on the grid as the neutrino left it.
pub proof fn lemma_turns_after_contains(grid: Grid, player: Player, neutrino_move: MoveType, t: TurnMove)
    requires
        well_shaped(grid),
    ensures
        turns_after(grid, player, neutrino_move).contains(t) <==> {
            &&& t.neutrino_move == neutrino_move
            &&& t.piece_move.from_position.in_bounds()
            &&& grid[t.piece_move.from_position.row as int][t.piece_move.from_position.column as int]
                == Some(player.piece())
            &&& is_slide(relocate(grid, neutrino_move, Piece::Neutrino), t.piece_move)
            &&& spec_permitted(t.piece_move, closed_row(grid, player))
        },
{
    let pieces = pieces_of(grid, player);
    let moved = relocate(grid, neutrino_move, Piece::Neutrino);
    let closed = closed_row(grid, player);
    let piece_moves = piece_slides_in(moved, pieces, closed, pieces.len());
    let pm = t.piece_move;
    lemma_pair_all_contains(neutrino_move, piece_moves, t);
    lemma_piece_slides_in_contains(moved, pieces, closed, pieces.len(), pm);
    if piece_moves.contains(pm) {
        let j = choose|j: int|
            0 <= j < pieces.len() && #[trigger] slides(moved, pieces[j], closed).contains(pm);
        assert(pieces.contains(pieces[j]));
        lemma_pieces_in_contains(grid, player.piece(), 25, pieces[j]);
        lemma_slides_contains(moved, pieces[j], closed, pm);
    }
    if pm.from_position.in_bounds() && grid[pm.from_position.row as int][pm.from_position.column as int]
        == Some(player.piece()) && is_slide(moved, pm) && spec_permitted(pm, closed) {
        lemma_pieces_in_contains(grid, player.piece(), 25, pm.from_position);
        let j = choose|j: int| 0 <= j < pieces.len() && pieces[j] == pm.from_position;
        lemma_slides_contains(moved, pieces[j], closed, pm);
        assert(slides(moved, pieces[j], closed).contains(pm));
    }
}

/// The generated turns are exactly the turns that the rules allow.
pub proof fn lemma_legal_moves_contains(grid: Grid, player: Player, neutrino: Position, t: TurnMove)
    requires
        well_shaped(grid),
        neutrino.in_bounds(),
    ensures
        legal_moves(grid, player, neutrino).contains(t) <==> is_legal(grid, player, neutrino, t),
{
    let neutrino_moves = slides(grid, neutrino, None);
    lemma_turns_in_contains(grid, player, neutrino_moves, neutrino_moves.len(), t);
    lemma_turns_after_contains(grid, player, t.neutrino_move, t);
    lemma_slides_contains(grid, neutrino, None, t.neutrino_move);
    if legal_moves(grid, player, neutrino).contains(t) {
        let i = choose|i: int|
            0 <= i < neutrino_moves.len() && #[trigger] turns_after(
                grid,
                player,
                neutrino_moves[i],
            ).contains(t);
        lemma_turns_after_contains(grid, player, neutrino_moves[i], t);
        assert(neutrino_moves.contains(neutrino_moves[i]));
    }
    if is_legal(grid, player, neutrino, t) {
        let i = choose|i: int| 0 <= i < neutrino_moves.len() && neutrino_moves[i] == t.neutrino_move;
        assert(turns_after(grid, player, neutrino_moves[i]).contains(t));
    }
}

/// After a relocation the destination holds the piece, the source is
/// empty, and every other cell is as it was.
pub proof fn lemma_relocate_cells(grid: Grid, m: MoveType, piece: Piece)
    requires
        well_shaped(grid),
        m.from_position.in_bounds(),
        m.to_position.in_bounds(),
    ensures
        well_shaped(relocate(grid, m, piece)),
        forall|r: int, c: int|
            0 <= r < 5 && 0 <= c < 5 ==> #[trigger] relocate(grid, m, piece)[r][c] == (if r
                == m.to_position.row && c == m.to_position.column {
                Some(piece)
            } else if r == m.from_position.row && c == m.from_position.column {
                None
            } else {
                grid[r][c]
            }),
{
    let cleared = put(grid, m.from_position, None);
    assert(well_shaped(cleared));
}

/// A relocation to an empty cell changes the number of pieces of no kind:
/// among the first `n` cells it takes one away once the source is among
/// them, and adds one once the destination is.
pub proof fn lemma_relocate_counts(grid: Grid, m: MoveType, piece: Piece, what: Piece, n: nat)
    requires
        well_shaped(grid),
        m.from_position.in_bounds(),
        m.to_position.in_bounds(),
        grid[m.from_position.row as int][m.from_position.column as int] == Some(piece),
        grid[m.to_position.row as int][m.to_position.column as int] is None,
        n <= 25,
    ensures
        count_in(relocate(grid, m, piece), what, n) == count_in(grid, what, n) - (if what == piece
            && m.from_position.row * 5 + m.from_position.column < n {
            1int
        } else {
            0int
        }) + (if what == piece && m.to_position.row * 5 + m.to_position.column < n {
            1int
        } else {
            0int
        }),
    decreases n,
{
    if n > 0 {
        lemma_relocate_counts(grid, m, piece, what, (n - 1) as nat);
        lemma_relocate_cells(grid, m, piece);
        let r = (n - 1) / 5;
        let c = (n - 1) % 5;
        assert(relocate(grid, m, piece)[r][c] == (if r == m.to_position.row && c
            == m.to_position.column {
            Some(piece)
        } else if r == m.from_position.row && c == m.from_position.column {
            None
        } else {
            grid[r][c]
        }));
    }
}

/// A turn that the rules allow can be carried out.
pub proof fn lemma_legal_is_applicable(grid: Grid, player: Player, neutrino: Position, m: TurnMove)
    requires
        well_shaped(grid),
        sole_neutrino_at(grid, neutrino),
        is_legal(grid, player, neutrino, m),
    ensures
        applicable(grid, player, m),
        m.neutrino_move.from_position != m.neutrino_move.to_position,
        m.piece_move.from_position != m.piece_move.to_position,
{
    let moved = relocate(grid, m.neutrino_move, Piece::Neutrino);
    let d = choose|d: Direction| slide(grid, m.neutrino_move.from_position, d) == Some(m.neutrino_move);
    lemma_slide_is_farthest(grid, neutrino, d);
    lemma_relocate_cells(grid, m.neutrino_move, Piece::Neutrino);
    let e = choose|e: Direction| slide(moved, m.piece_move.from_position, e) == Some(m.piece_move);
    lemma_slide_is_farthest(moved, m.piece_move.from_position, e);
}

/// From one cell, slides in different directions end on different cells.
pub proof fn lemma_slide_directions_differ(grid: Grid, from: Position, d: Direction, e: Direction)
    requires
        from.in_bounds(),
        slide(grid, from, d) is Some,
        slide(grid, from, d) == slide(grid, from, e),
    ensures
        d == e,
{
    lemma_slide_is_farthest(grid, from, d);
    lemma_slide_is_farthest(grid, from, e);
    let k = slide_length(grid, from, d);
    let l = slide_length(grid, from, e);
    assert(target(from, d, k) == target(from, e, l));
    assert(d.row_after(from.row as int, k) == e.row_after(from.row as int, l));
    assert(d.column_after(from.column as int, k) == e.column_after(from.column as int, l));
}

/// No slide is generated twice from one cell.
pub proof fn lemma_slides_in_distinct(grid: Grid, from: Position, closed: Option<usize>, n: nat)
    requires
        from.in_bounds(),
        n <= 8,
    ensures
        slides_in(grid, from, closed, n).no_duplicates(),
    decreases n,
{
    if n > 0 {
        lemma_slides_in_distinct(grid, from, closed, (n - 1) as nat);
        let rest = slides_in(grid, from, closed, (n - 1) as nat);
        let last = Direction::spec_nth(n - 1);
        match slide(grid, from, last) {
            Some(m) => {
                lemma_slides_in_contains(grid, from, closed, (n - 1) as nat, m);
                if rest.contains(m) {
                    let d = choose|d: Direction|
                        d.rank() < n - 1 && #[trigger] slide(grid, from, d) == Some(m);
                    lemma_slide_directions_differ(grid, from, d, last);
                }
                lemma_push_keeps_distinct(rest, m);
            },
            None => {},
        }
    }
}

/// No position is generated twice for one kind of piece.
pub proof fn lemma_pieces_in_distinct(grid: Grid, piece: Piece, n: nat)
    requires
        n <= 25,
    ensures
        pieces_in(grid, piece, n).no_duplicates(),
    decreases n,
{
    if n > 0 {
        lemma_pieces_in_distinct(grid, piece, (n - 1) as nat);
        let rest = pieces_in(grid, piece, (n - 1) as nat);
        let q = position_of(n - 1);
        lemma_pieces_in_contains(grid, piece, (n - 1) as nat, q);
        assert(q.row * 5 + q.column == n - 1);
        lemma_push_keeps_distinct(rest, q);
    }
}

/// No slide is generated twice for pieces that stand on different cells.
pub proof fn lemma_piece_slides_in_distinct(
    grid: Grid,
    pieces: Seq<Position>,
    closed: Option<usize>,
    n: nat,
)
    requires
        n <= pieces.len(),
        pieces.no_duplicates(),
        forall|j: int| 0 <= j < pieces.len() ==> (#[trigger] pieces[j]).in_bounds(),
    ensures
        piece_slides_in(grid, pieces, closed, n).no_duplicates(),
    decreases n,
{
    if n > 0 {
        lemma_piece_slides_in_distinct(grid, pieces, closed, (n - 1) as nat);
        let rest = piece_slides_in(grid, pieces, closed, (n - 1) as nat);
        let more = slides(grid, pieces[n - 1], closed);
        lemma_slides_in_distinct(grid, pieces[n - 1], closed, 8);
        assert forall|i: int, j: int| 0 <= i < rest.len() && 0 <= j < more.len() implies rest[i]
            != more[j] by {
            assert(rest.contains(rest[i]));
            assert(more.contains(more[j]));
            lemma_piece_slides_in_contains(grid, pieces, closed, (n - 1) as nat, rest[i]);
            let k = choose|k: int|
                0 <= k < n - 1 && #[trigger] slides(grid, pieces[k], closed).contains(rest[i]);
            lemma_slides_contains(grid, pieces[k], closed, rest[i]);
            lemma_slides_contains(grid, pieces[n - 1], closed, more[j]);
        }
        vstd::seq_lib::lemma_no_dup_in_concat(rest, more);
    }
}

/// No turn is generated twice after one neutrino slide.
pub proof fn lemma_turns_after_distinct(grid: Grid, player: Player, neutrino_move: MoveType)
    requires
        well_shaped(grid),
    ensures
        turns_after(grid, player, neutrino_move).no_duplicates(),
{
    let pieces = pieces_of(grid, player);
    let moved = relocate(grid, neutrino_move, Piece::Neutrino);
    let closed = closed_row(grid, player);
    lemma_pieces_in_distinct(grid, player.piece(), 25);
    assert forall|j: int| 0 <= j < pieces.len() implies (#[trigger] pieces[j]).in_bounds() by {
        assert(pieces.contains(pieces[j]));
        lemma_pieces_in_contains(grid, player.piece(), 25, pieces[j]);
    }
    lemma_piece_slides_in_distinct(moved, pieces, closed, pieces.len());
}

/// No turn is generated twice for neutrino slides that differ.
pub proof fn lemma_turns_in_distinct(
    grid: Grid,
    player: Player,
    neutrino_moves: Seq<MoveType>,
    n: nat,
)
    requires
        well_shaped(grid),
        n <= neutrino_moves.len(),
        neutrino_moves.no_duplicates(),
    ensures
        turns_in(grid, player, neutrino_moves, n).no_duplicates(),
    decreases n,
{
    if n > 0 {
        lemma_turns_in_distinct(grid, player, neutrino_moves, (n - 1) as nat);
        let rest = turns_in(grid, player, neutrino_moves, (n - 1) as nat);
        let more = turns_after(grid, player, neutrino_moves[n - 1]);
        lemma_turns_after_distinct(grid, player, neutrino_moves[n - 1]);
        assert forall|i: int, j: int| 0 <= i < rest.len() && 0 <= j < more.len() implies rest[i]
            != more[j] by {
            assert(rest.contains(rest[i]));
            assert(more.contains(more[j]));
            lemma_turns_in_contains(grid, player, neutrino_moves, (n - 1) as nat, rest[i]);
            let k = choose|k: int|
                0 <= k < n - 1 && #[trigger] turns_after(grid, player, neutrino_moves[k]).contains(
                    rest[i],
                );
            lemma_turns_after_contains(grid, player, neutrino_moves[k], rest[i]);
            lemma_turns_after_contains(grid, player, neutrino_moves[n - 1], more[j]);
        }
        vstd::seq_lib::lemma_no_dup_in_concat(rest, more);
    }
}

/// No turn is generated twice.
pub proof fn lemma_legal_moves_distinct(grid: Grid, player: Player, neutrino: Position)
    requires
        well_shaped(grid),
        neutrino.in_bounds(),
    ensures
        legal_moves(grid, player, neutrino).no_duplicates(),
{
    let neutrino_moves = slides(grid, neutrino, None);
    lemma_slides_in_distinct(grid, neutrino, None, 8);
    lemma_turns_in_distinct(grid, player, neutrino_moves, neutrino_moves.len());
}

/// No generated turn stands still: in every turn open to the side to move
/// the neutrino changes its cell, and so does the piece.
pub proof fn lemma_generated_slides_have_length(b: GameBoard, m: TurnMove)
    requires
        b.wf(),
        b.spec_actions().contains(m),
    ensures
        m.neutrino_move.from_position != m.neutrino_move.to_position,
        m.piece_move.from_position != m.piece_move.to_position,
{
    lemma_legal_moves_contains(b@.cells, b@.to_move, b.neutrino(), m);
    lemma_legal_is_applicable(b@.cells, b@.to_move, b.neutrino(), m);
}

/// Every generated turn can be carried out, and carrying it out keeps the
/// number of pieces of each kind.
pub proof fn lemma_generated_turn_conserves_pieces(b: GameBoard, m: TurnMove)
    requires
        b.wf(),
        b.spec_actions().contains(m),
    ensures
        b.spec_applicable(m),
        forall|piece: Piece|
            piece_count(after_turn(b@.cells, b@.to_move, m), piece) == piece_count(
                b@.cells,
                piece,
            ),
{
    let grid = b@.cells;
    let moved = relocate(grid, m.neutrino_move, Piece::Neutrino);
    lemma_legal_moves_contains(grid, b@.to_move, b.neutrino(), m);
    lemma_legal_is_applicable(grid, b@.to_move, b.neutrino(), m);
    lemma_relocate_cells(grid, m.neutrino_move, Piece::Neutrino);
    assert forall|piece: Piece|
        piece_count(after_turn(grid, b@.to_move, m), piece) == piece_count(grid, piece) by {
        lemma_relocate_counts(grid, m.neutrino_move, Piece::Neutrino, piece, 25);
        lemma_relocate_counts(moved, m.piece_move, b@.to_move.piece(), piece, 25);
    }
}

/// A board with the neutrino on row 0 or on row 4 is terminal.
pub proof fn lemma_neutrino_on_edge_row_is_terminal(b: GameBoard)
    requires
        b.wf(),
        b.neutrino().row == 0 || b.neutrino().row == 4,
    ensures
        b.spec_is_terminal(),
{
}

/// On a terminal board the two sides' scores add up to one: to two half points.
pub proof fn lemma_utilities_sum_to_one(b: GameBoard)
    requires
        b.wf(),
        b.spec_is_terminal(),
    ensures
        b.spec_utility(Player::Player1) is Some,
        b.spec_utility(Player::Player2) is Some,
        b.spec_utility(Player::Player1).unwrap().spec_half_points() + b.spec_utility(
            Player::Player2,
        ).unwrap().spec_half_points() == 2,
{
}

/// The turns open on a board depend on its grid and its side to move alone:
/// generating them again, on this board or on an equal one, gives the same turns.
pub proof fn lemma_generation_repeats(a: GameBoard, b: GameBoard)
    requires
        a.wf(),
        b.wf(),
        a@ == b@,
    ensures
        a.spec_actions() == b.spec_actions(),
        a.spec_actions().to_set() == b.spec_actions().to_set(),
{
    let p = a.neutrino();
    assert(a@.cells[p.row as int][p.column as int] == Some(Piece::Neutrino));
}

/// Once four or more of the mover's pieces stand on its starting row, no
/// generated turn brings a piece onto that row from another row.
pub proof fn lemma_full_home_row_is_closed(b: GameBoard, m: TurnMove)
    requires
        b.wf(),
        b.spec_actions().contains(m),
        row_count(b@.cells, b@.to_move.spec_start_row(), b@.to_move.piece(), 5) >= 4,
    ensures
        !(m.piece_move.from_position.row != b@.to_move.spec_start_row()
            && m.piece_move.to_position.row == b@.to_move.spec_start_row()),
{
    lemma_legal_moves_contains(b@.cells, b@.to_move, b.neutrino(), m);
}

/// A game starts with five pieces of each side and one neutrino.
pub proof fn lemma_opening_counts()
    ensures
        piece_count(opening_grid(), Piece::Player1) == 5,
        piece_count(opening_grid(), Piece::Player2) == 5,
        piece_count(opening_grid(), Piece::Neutrino) == 1,
{
    reveal_with_fuel(count_in, 26);
}

} // verus!
