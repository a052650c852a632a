use neutrino::agents::agent::Agent;
use neutrino::agents::human::Human;
use neutrino::agents::minimax::MinimaxAgent;
use neutrino::agents::random_agent::{random_move, RandomAgent};
use neutrino::neutrino_board::{
    Cells, GameBoard, MoveType, Piece, Player, Position, Score, TurnMove,
};
use rand::rngs::StdRng;
use rand::SeedableRng;

fn agents_board(rows: [&str; 5], to_move: Player) -> GameBoard {
    let mut grid: Cells = [[None; 5]; 5];
    for (r, row) in rows.iter().enumerate() {
        for (c, ch) in row.chars().enumerate() {
            grid[r][c] = match ch {
                '1' => Some(Piece::Player1),
                '2' => Some(Piece::Player2),
                'X' => Some(Piece::Neutrino),
                _ => None,
            };
        }
    }
    GameBoard::new(grid, to_move)
}

fn agents_slide(from: (usize, usize), to: (usize, usize)) -> MoveType {
    MoveType::new(Position::new(from.0, from.1), Position::new(to.0, to.1))
}

fn agents_turn(
    n: ((usize, usize), (usize, usize)),
    p: ((usize, usize), (usize, usize)),
) -> TurnMove {
    TurnMove::new(agents_slide(n.0, n.1), agents_slide(p.0, p.1))
}

const WIN_IN_ONE: [&str; 5] = ["1111_", "____1", "__X__", "____2", "2222_"];
const BOXED: [&str; 5] = ["_____", "_121_", "_2X2_", "_121_", "_____"];

#[test]
fn random_move_is_one_of_the_moves() {
    let mut rng = StdRng::seed_from_u64(11);
    let b = GameBoard::default();
    let moves = b.actions();
    let mut seen = Vec::new();
    for _ in 0..200 {
        let m = random_move(&b, &mut rng);
        assert!(moves.contains(&m));
        if !seen.contains(&m) {
            seen.push(m);
        }
    }
    assert!(seen.len() > 1);
}

#[test]
fn random_agent_plays_a_legal_move() {
    let mut agent = RandomAgent::new(StdRng::seed_from_u64(5));
    let mut b = GameBoard::default();
    let mut turns = 0;
    while !b.is_terminal() && turns < 10_000 {
        let m = agent.get_move(&b);
        assert!(b.actions().contains(&m));
        b = b.result(m);
        turns += 1;
    }
    assert!(b.is_terminal());
    assert!(b.utility(Player::Player1).is_some());
}

#[test]
fn random_agents_with_one_seed_play_the_same_game() {
    let mut one = RandomAgent::new(StdRng::seed_from_u64(99));
    let mut two = RandomAgent::new(StdRng::seed_from_u64(99));
    let mut b = GameBoard::default();
    for _ in 0..5 {
        if b.is_terminal() {
            break;
        }
        let m = one.get_move(&b);
        assert_eq!(two.get_move(&b), m);
        b = b.result(m);
    }
}

#[test]
fn minimax_takes_the_win_in_one() {
    let b = agents_board(WIN_IN_ONE, Player::Player1);
    let mut agent = MinimaxAgent::new(Player::Player1, 1);
    let best = agents_turn(((2, 2), (4, 4)), ((0, 0), (3, 0)));
    assert_eq!(agent.max_value(&b, 0), (Score::Win, Some(best)));
    assert_eq!(agent.get_move_optional(&b), Some(best));
    assert_eq!(agent.get_move(&b), best);
}

#[test]
fn minimax_for_the_second_player_sends_the_neutrino_to_row_0() {
    let b = agents_board(WIN_IN_ONE, Player::Player2);
    let mut agent = MinimaxAgent::new(Player::Player2, 1);
    let best = agents_turn(((2, 2), (0, 4)), ((3, 4), (2, 4)));
    assert_eq!(agent.max_value(&b, 0), (Score::Win, Some(best)));
    assert_eq!(agent.get_move(&b), best);
}

#[test]
fn min_value_takes_the_smallest_worth() {
    let b = agents_board(WIN_IN_ONE, Player::Player1);
    let agent = MinimaxAgent::new(Player::Player1, 1);
    let worst = agents_turn(((2, 2), (0, 4)), ((0, 0), (3, 0)));
    assert_eq!(agent.min_value(&b, 0), (Score::Loss, Some(worst)));
}

#[test]
fn minimax_values_an_open_position_at_the_horizon_as_a_draw() {
    let b = GameBoard::default();
    let agent = MinimaxAgent::new(Player::Player1, 1);
    let first = agents_turn(((2, 2), (3, 2)), ((0, 0), (3, 0)));
    assert_eq!(agent.max_value(&b, 0), (Score::Draw, Some(first)));
    assert_eq!(agent.max_value(&b, 1), (Score::Draw, None));
}

#[test]
fn minimax_without_horizon_finds_no_move() {
    let b = GameBoard::default();
    let mut agent = MinimaxAgent::new(Player::Player1, 0);
    assert_eq!(agent.get_move_optional(&b), None);
    assert_eq!(agent.max_value(&b, 0), (Score::Draw, None));
}

#[test]
fn minimax_on_a_terminal_board_gives_its_score() {
    let b = agents_board(BOXED, Player::Player1);
    let mut agent = MinimaxAgent::new(Player::Player1, 3);
    assert_eq!(agent.max_value(&b, 0), (Score::Loss, None));
    assert_eq!(agent.min_value(&b, 0), (Score::Loss, None));
    assert_eq!(agent.get_move_optional(&b), None);
    let other = MinimaxAgent::new(Player::Player2, 3);
    assert_eq!(other.max_value(&b, 0), (Score::Win, None));
}

#[test]
fn move_map_groups_by_neutrino_slide() {
    let b = GameBoard::default();
    let groups = Human::get_move_map(&b);
    let expected = [
        (agents_slide((2, 2), (3, 2)), 13),
        (agents_slide((2, 2), (1, 2)), 10),
        (agents_slide((2, 2), (2, 0)), 13),
        (agents_slide((2, 2), (2, 4)), 13),
        (agents_slide((2, 2), (3, 1)), 13),
        (agents_slide((2, 2), (3, 3)), 13),
        (agents_slide((2, 2), (1, 1)), 10),
        (agents_slide((2, 2), (1, 3)), 10),
    ];
    assert_eq!(groups.len(), 8);
    let all = b.actions();
    for (group, (key, size)) in groups.iter().zip(expected.iter()) {
        assert_eq!(group.neutrino_move, *key);
        assert_eq!(group.turns.len(), *size);
        let same: Vec<TurnMove> =
            all.iter().filter(|m| m.neutrino_move == *key).copied().collect();
        assert_eq!(group.turns, same);
    }
}

#[test]
fn move_map_of_a_board_without_moves_is_empty() {
    let b = agents_board(BOXED, Player::Player1);
    assert_eq!(Human::get_move_map(&b).len(), 0);
}

#[test]
fn pick_names_a_move_by_two_indices() {
    let b = GameBoard::default();
    let groups = Human::get_move_map(&b);
    assert_eq!(
        Human::pick(&groups, 1, 3),
        Some(agents_turn(((2, 2), (1, 2)), ((0, 1), (1, 0))))
    );
    assert_eq!(
        Human::pick(&groups, 0, 0),
        Some(agents_turn(((2, 2), (3, 2)), ((0, 0), (3, 0))))
    );
    assert_eq!(Human::pick(&groups, 8, 0), None);
    assert_eq!(Human::pick(&groups, 0, 13), None);
    assert_eq!(Human::pick(&groups, 1, 10), None);
}

#[test]
fn minimax_on_a_terminal_board_answers_at_any_depth() {
    let b = agents_board(BOXED, Player::Player1);
    let agent = MinimaxAgent::new(Player::Player1, 3);
    for depth in [0, 1, 3, 4, 7, usize::MAX] {
        assert_eq!(agent.max_value(&b, depth), (Score::Loss, None));
        assert_eq!(agent.min_value(&b, depth), (Score::Loss, None));
    }
    let edge = agents_board(["1111X", "____1", "_____", "_____", "22222"], Player::Player2);
    let other = MinimaxAgent::new(Player::Player2, 0);
    assert_eq!(other.max_value(&edge, 9), (Score::Win, None));
    assert_eq!(MinimaxAgent::new(Player::Player1, 2).min_value(&edge, 5), (Score::Loss, None));
}

#[test]
fn minimax_beyond_its_horizon_looks_no_further() {
    let b = GameBoard::default();
    let agent = MinimaxAgent::new(Player::Player1, 1);
    assert_eq!(agent.max_value(&b, 2), (Score::Draw, None));
    assert_eq!(agent.min_value(&b, usize::MAX), (Score::Draw, None));
}
