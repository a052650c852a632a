use neutrino::agents::monte_carlo_tree_search::{
    first_terminal_move, random_playout, MonteCarloTreeSearch, Node, SelectionResult,
};
use neutrino::neutrino_board::{
    Cells, GameBoard, MoveType, Piece, Player, Position, Score, TurnMove,
};
use rand::rngs::StdRng;
use rand::SeedableRng;

fn search_board(rows: [&str; 5], to_move: Player) -> GameBoard {
    let mut grid: Cells = [[None; 5]; 5];
    for (r, row) in rows.iter().enumerate() {
        for (c, ch) in row.chars().enumerate() {
            grid[r][c] = match ch {
                '1' => Some(Piece::Player1),
                '2' => Some(Piece::Player2),
                'X' => Some(Piece::Neutrino),
                _ => None,
            };
        }
    }
    GameBoard::new(grid, to_move)
}

fn search_turn(
    n: ((usize, usize), (usize, usize)),
    p: ((usize, usize), (usize, usize)),
) -> TurnMove {
    TurnMove::new(
        MoveType::new(Position::new((n.0).0, (n.0).1), Position::new((n.1).0, (n.1).1)),
        MoveType::new(Position::new((p.0).0, (p.0).1), Position::new((p.1).0, (p.1).1)),
    )
}

/// A key that orders as the number does.
fn key_of(x: f64) -> u64 {
    let bits = x.to_bits();
    if bits >> 63 == 1 {
        !bits
    } else {
        bits | (1 << 63)
    }
}

fn ucb1_ranks(tree: &MonteCarloTreeSearch) -> Vec<u64> {
    let mut ranks = Vec::new();
    for i in 0..tree.len() {
        let node = tree.node(i);
        let rank = match node.parent {
            Some(p) if node.number_of_playouts > 0 => {
                let visits = node.number_of_playouts as f64;
                let parent_visits = tree.node(p).number_of_playouts as f64;
                key_of(
                    node.utility as f64 / visits
                        + std::f64::consts::SQRT_2 * f64::sqrt(f64::ln(parent_visits) / visits),
                )
            }
            _ => 0,
        };
        ranks.push(rank);
    }
    ranks
}

fn check_tree(tree: &MonteCarloTreeSearch) {
    assert!(tree.node(0).parent.is_none());
    for i in 0..tree.len() {
        let node = tree.node(i);
        assert!(node.utility <= node.number_of_playouts);
        let moves = node.board.actions();
        assert!(node.children.len() <= moves.len());
        for (k, (m, c)) in node.children.iter().enumerate() {
            assert!(moves.contains(m));
            assert!(i < *c && *c < tree.len());
            assert_eq!(tree.node(*c).parent, Some(i));
            assert_eq!(tree.node(*c).board.render(), node.board.result(*m).render());
            assert_eq!(tree.node(*c).board.to_move(), node.board.to_move().opponent());
            assert!(tree.node(*c).number_of_playouts <= node.number_of_playouts);
            for (j, (other, _)) in node.children.iter().enumerate() {
                if j != k {
                    assert_ne!(m, other);
                }
            }
        }
        if i > 0 {
            assert!(node.number_of_playouts >= 1);
            assert!(node.parent.unwrap() < i);
        }
    }
}

const WIN_IN_ONE: [&str; 5] = ["1111_", "____1", "__X__", "____2", "2222_"];
const BOXED: [&str; 5] = ["_____", "_121_", "_2X2_", "_121_", "_____"];
const ON_ROW_0: [&str; 5] = ["11X11", "_____", "__1__", "_____", "22222"];

#[test]
fn a_new_node_has_no_playouts_and_no_children() {
    let b = GameBoard::default();
    let node = Node::new(b, Some(3));
    assert_eq!(node.utility, 0);
    assert_eq!(node.number_of_playouts, 0);
    assert_eq!(node.children.len(), 0);
    assert_eq!(node.parent, Some(3));
    assert_eq!(node.board.render(), b.render());
    assert!(!node.is_leaf());
    assert_eq!(node.unexplored(), b.actions());
    assert_eq!(node.child(b.actions()[0]), None);
    assert!(Node::new(search_board(BOXED, Player::Player1), None).is_leaf());
}

#[test]
fn a_new_tree_holds_the_root_alone() {
    let b = GameBoard::default();
    let tree = MonteCarloTreeSearch::new(&b);
    assert_eq!(tree.len(), 1);
    assert_eq!(tree.root_player(), Player::Player1);
    assert_eq!(tree.node(0).number_of_playouts, 0);
    assert_eq!(tree.node(0).board.render(), b.render());
    assert_eq!(tree.get_move(), None);
    assert_eq!(tree.select(&vec![0]), SelectionResult::NonTerminal(0));
    assert_eq!(tree.unexplored(0).len(), 95);
}

#[test]
fn expand_with_adds_the_child_that_the_move_leads_to() {
    let b = search_board(WIN_IN_ONE, Player::Player1);
    let mut tree = MonteCarloTreeSearch::new(&b);
    let m = search_turn(((2, 2), (3, 2)), ((0, 0), (3, 0)));
    let child = tree.expand_with(0, m);
    assert_eq!(child, 1);
    assert_eq!(tree.len(), 2);
    assert_eq!(tree.node(0).children, vec![(m, 1)]);
    assert_eq!(tree.node(0).child(m), Some(1));
    assert_eq!(tree.node(1).parent, Some(0));
    assert_eq!(tree.node(1).number_of_playouts, 0);
    assert_eq!(tree.node(1).board.render(), "_111_\n____1\n_____\n1_X_2\n2222_\n");
    assert_eq!(tree.node(1).board.to_move(), Player::Player2);
    let left = tree.unexplored(0);
    assert_eq!(left.len(), 103);
    assert!(!left.contains(&m));
    assert_eq!(left[0], b.actions()[1]);
}

#[test]
fn expand_adds_a_child_for_a_move_without_one() {
    let b = search_board(WIN_IN_ONE, Player::Player1);
    let mut tree = MonteCarloTreeSearch::new(&b);
    let mut rng = StdRng::seed_from_u64(3);
    let moves = b.actions();
    for round in 1..=104 {
        let child = tree.expand(0, &mut rng);
        assert_eq!(child, round);
        assert_eq!(tree.len(), round + 1);
        assert_eq!(tree.node(0).children.len(), round);
        let (m, c) = tree.node(0).children[round - 1];
        assert_eq!(c, child);
        assert!(moves.contains(&m));
        assert_eq!(tree.node(child).board.render(), b.result(m).render());
    }
    assert!(tree.node(0).is_leaf());
    assert_eq!(tree.unexplored(0).len(), 0);
    for m in moves.iter() {
        assert!(tree.node(0).child(*m).is_some());
    }
    let order: Vec<TurnMove> = tree.node(0).children.iter().map(|e| e.0).collect();
    assert_ne!(order, moves);
}

#[test]
fn back_propagation_counts_along_the_way_to_the_root() {
    let b = search_board(WIN_IN_ONE, Player::Player1);
    let mut tree = MonteCarloTreeSearch::new(&b);
    let first = tree.expand_with(0, b.actions()[0]);
    let reply = tree.node(first).board.actions()[0];
    let second = tree.expand_with(first, reply);
    let aside = tree.expand_with(0, b.actions()[1]);
    assert_eq!((first, second, aside), (1, 2, 3));

    tree.back_propagate(second, Score::Win);
    let stats = |t: &MonteCarloTreeSearch, i: usize| (t.node(i).number_of_playouts, t.node(i).utility);
    assert_eq!(stats(&tree, 0), (1, 1));
    assert_eq!(stats(&tree, 1), (1, 0));
    assert_eq!(stats(&tree, 2), (1, 1));
    assert_eq!(stats(&tree, 3), (0, 0));

    tree.back_propagate(second, Score::Loss);
    assert_eq!(stats(&tree, 0), (2, 1));
    assert_eq!(stats(&tree, 1), (2, 1));
    assert_eq!(stats(&tree, 2), (2, 1));
    assert_eq!(stats(&tree, 3), (0, 0));

    tree.back_propagate(aside, Score::Draw);
    assert_eq!(stats(&tree, 0), (3, 1));
    assert_eq!(stats(&tree, 1), (2, 1));
    assert_eq!(stats(&tree, 2), (2, 1));
    assert_eq!(stats(&tree, 3), (1, 1));

    tree.back_propagate(first, Score::Win);
    assert_eq!(stats(&tree, 0), (4, 2));
    assert_eq!(stats(&tree, 1), (3, 1));
    assert_eq!(stats(&tree, 2), (2, 1));
    check_tree(&tree);
}

#[test]
fn selection_prefers_the_greatest_rank_and_of_equals_the_last_move() {
    let b = search_board(WIN_IN_ONE, Player::Player1);
    let mut tree = MonteCarloTreeSearch::new(&b);
    for m in b.actions() {
        let child = tree.expand_with(0, m);
        tree.back_propagate(child, Score::Loss);
    }
    assert_eq!(tree.len(), 105);
    assert!(tree.node(0).is_leaf());
    let mut ranks = vec![0u64; 105];
    assert_eq!(tree.select(&ranks), SelectionResult::NonTerminal(104));
    ranks[5] = 10;
    assert_eq!(tree.select(&ranks), SelectionResult::NonTerminal(5));
    ranks[9] = 10;
    assert_eq!(tree.select(&ranks), SelectionResult::NonTerminal(9));
    ranks[9] = 9;
    assert_eq!(tree.select(&ranks), SelectionResult::NonTerminal(5));
    ranks[0] = 1000;
    assert_eq!(tree.select(&ranks), SelectionResult::NonTerminal(5));
}

#[test]
fn selection_stops_at_a_node_that_lacks_a_child() {
    let b = search_board(WIN_IN_ONE, Player::Player1);
    let mut tree = MonteCarloTreeSearch::new(&b);
    let child = tree.expand_with(0, b.actions()[0]);
    tree.back_propagate(child, Score::Win);
    assert_eq!(tree.select(&vec![0, 7]), SelectionResult::NonTerminal(0));
}

#[test]
fn selection_short_circuits_at_a_terminal_node() {
    let b = search_board(BOXED, Player::Player1);
    let mut tree = MonteCarloTreeSearch::new(&b);
    assert_eq!(tree.select(&vec![0]), SelectionResult::NonTerminal(0));
    tree.back_propagate(0, Score::Loss);
    assert_eq!(tree.select(&vec![0]), SelectionResult::Terminal(0, Score::Loss));
    let other = search_board(BOXED, Player::Player2);
    let mut tree = MonteCarloTreeSearch::new(&other);
    tree.back_propagate(0, Score::Win);
    assert_eq!(tree.select(&vec![0]), SelectionResult::Terminal(0, Score::Loss));
}

#[test]
fn first_terminal_move_is_the_first_that_ends_the_game() {
    let b = search_board(WIN_IN_ONE, Player::Player1);
    assert_eq!(
        first_terminal_move(&b),
        Some(search_turn(((2, 2), (4, 4)), ((0, 0), (3, 0))))
    );
    let other = search_board(WIN_IN_ONE, Player::Player2);
    assert_eq!(
        first_terminal_move(&other),
        Some(search_turn(((2, 2), (4, 4)), ((3, 4), (2, 4))))
    );
    assert_eq!(first_terminal_move(&GameBoard::default()), None);
    assert_eq!(first_terminal_move(&search_board(BOXED, Player::Player1)), None);
}

#[test]
fn simulation_takes_a_move_that_ends_the_game_at_once() {
    let mut rng = StdRng::seed_from_u64(1);
    let b = search_board(WIN_IN_ONE, Player::Player1);
    let tree = MonteCarloTreeSearch::new(&b);
    assert_eq!(tree.simulate(0, &mut rng), Score::Win);
    let other = search_board(WIN_IN_ONE, Player::Player2);
    let tree = MonteCarloTreeSearch::new(&other);
    assert_eq!(tree.simulate(0, &mut rng), Score::Loss);
}

#[test]
fn simulation_scores_for_the_side_to_move_at_the_root() {
    let mut rng = StdRng::seed_from_u64(1);
    let b = GameBoard::default();
    let mut tree = MonteCarloTreeSearch::new(&b);
    let set_up = search_turn(((2, 2), (3, 2)), ((0, 0), (3, 0)));
    let child = tree.expand_with(0, set_up);
    let next = tree.node(child).board;
    let ending = first_terminal_move(&next);
    if let Some(m) = ending {
        let expected = next.result(m).utility(Player::Player1).unwrap();
        assert_eq!(tree.simulate(child, &mut rng), expected);
    } else {
        assert_ne!(tree.simulate(child, &mut rng), Score::Draw);
    }
}

#[test]
fn a_playout_from_a_terminal_board_gives_its_score() {
    let mut rng = StdRng::seed_from_u64(2);
    let b = search_board(ON_ROW_0, Player::Player2);
    assert_eq!(random_playout(b, Player::Player1, &mut rng), Score::Loss);
    assert_eq!(random_playout(b, Player::Player2, &mut rng), Score::Win);
    let stuck = search_board(BOXED, Player::Player2);
    assert_eq!(random_playout(stuck, Player::Player1, &mut rng), Score::Win);
}

#[test]
fn a_playout_ends_with_a_winner() {
    let mut rng = StdRng::seed_from_u64(8);
    let mut wins = 0;
    let mut losses = 0;
    for _ in 0..40 {
        match random_playout(GameBoard::default(), Player::Player1, &mut rng) {
            Score::Win => wins += 1,
            Score::Loss => losses += 1,
            Score::Draw => panic!("a playout was cut off"),
        }
    }
    assert_eq!(wins + losses, 40);
}

#[test]
fn each_round_counts_one_playout_at_the_root() {
    let mut rng = StdRng::seed_from_u64(42);
    let b = GameBoard::default();
    let mut tree = MonteCarloTreeSearch::new(&b);
    for round in 1..=120 {
        let ranks = ucb1_ranks(&tree);
        let before = tree.len();
        assert!(tree.iterate(&ranks, &mut rng));
        assert_eq!(tree.node(0).number_of_playouts, round);
        assert!(tree.len() == before || tree.len() == before + 1);
    }
    check_tree(&tree);
    assert!(tree.node(0).is_leaf());
    assert_eq!(tree.node(0).children.len(), 95);
}

#[test]
fn the_chosen_move_leads_to_the_most_visited_child() {
    let mut rng = StdRng::seed_from_u64(7);
    let b = search_board(WIN_IN_ONE, Player::Player1);
    let mut tree = MonteCarloTreeSearch::new(&b);
    for _ in 0..150 {
        let ranks = ucb1_ranks(&tree);
        assert!(tree.iterate(&ranks, &mut rng));
    }
    check_tree(&tree);
    let chosen = tree.get_move().unwrap();
    assert!(b.actions().contains(&chosen));
    let children = &tree.node(0).children;
    let most = children.iter().map(|e| tree.node(e.1).number_of_playouts).max().unwrap();
    let last_of_most =
        children.iter().rev().find(|e| tree.node(e.1).number_of_playouts == most).unwrap();
    assert_eq!(chosen, last_of_most.0);
    assert_eq!(tree.node(tree.node(0).child(chosen).unwrap()).number_of_playouts, most);
}

#[test]
fn one_seed_gives_one_search() {
    let b = search_board(WIN_IN_ONE, Player::Player2);
    let mut chosen = Vec::new();
    for _ in 0..2 {
        let mut rng = StdRng::seed_from_u64(1234);
        let mut tree = MonteCarloTreeSearch::new(&b);
        for _ in 0..60 {
            let ranks = ucb1_ranks(&tree);
            tree.iterate(&ranks, &mut rng);
        }
        chosen.push((tree.get_move(), tree.len(), tree.node(0).utility));
    }
    assert_eq!(chosen[0], chosen[1]);
}

#[test]
fn get_move_takes_the_last_of_the_most_visited() {
    let b = search_board(WIN_IN_ONE, Player::Player1);
    let moves = b.actions();
    let mut tree = MonteCarloTreeSearch::new(&b);
    let one = tree.expand_with(0, moves[10]);
    let two = tree.expand_with(0, moves[20]);
    let three = tree.expand_with(0, moves[30]);
    tree.back_propagate(one, Score::Win);
    tree.back_propagate(two, Score::Loss);
    tree.back_propagate(three, Score::Loss);
    assert_eq!(tree.get_move(), Some(moves[30]));
    tree.back_propagate(one, Score::Loss);
    assert_eq!(tree.get_move(), Some(moves[10]));
    tree.back_propagate(two, Score::Win);
    assert_eq!(tree.get_move(), Some(moves[20]));
}

#[test]
fn a_round_on_a_board_without_moves_does_nothing() {
    let mut rng = StdRng::seed_from_u64(42);
    let b = search_board(BOXED, Player::Player1);
    let mut tree = MonteCarloTreeSearch::new(&b);
    assert!(!tree.iterate(&vec![0], &mut rng));
    assert_eq!(tree.len(), 1);
    assert_eq!(tree.node(0).number_of_playouts, 0);
    assert_eq!(tree.get_move(), None);
}

#[test]
fn rounds_at_a_terminal_node_back_propagate_its_score() {
    let mut rng = StdRng::seed_from_u64(42);
    let b = search_board(BOXED, Player::Player2);
    let mut tree = MonteCarloTreeSearch::new(&b);
    tree.back_propagate(0, Score::Loss);
    for round in 2..=5 {
        assert!(tree.iterate(&vec![0], &mut rng));
        assert_eq!(tree.len(), 1);
        assert_eq!(tree.node(0).number_of_playouts, round);
    }
    assert_eq!(tree.node(0).utility, 0);
    assert_eq!(tree.get_move(), None);
}

#[test]
fn a_terminal_root_is_not_expanded() {
    let mut rng = StdRng::seed_from_u64(42);
    let b = search_board(["1111X", "____1", "_____", "_____", "22222"], Player::Player2);
    assert!(b.is_terminal());
    assert!(!b.actions().is_empty());
    let mut tree = MonteCarloTreeSearch::new(&b);
    for _ in 0..10 {
        let ranks = ucb1_ranks(&tree);
        assert!(!tree.iterate(&ranks, &mut rng));
        assert_eq!(tree.len(), 1);
        assert_eq!(tree.node(0).number_of_playouts, 0);
        assert_eq!(tree.node(0).children.len(), 0);
    }
    assert_eq!(tree.get_move(), None);
    let other = search_board(ON_ROW_0, Player::Player1);
    let mut tree = MonteCarloTreeSearch::new(&other);
    assert!(!tree.iterate(&vec![0], &mut rng));
    assert_eq!(tree.get_move(), None);
}

#[test]
fn rounds_add_one_node_where_they_expand() {
    let mut rng = StdRng::seed_from_u64(21);
    let b = search_board(WIN_IN_ONE, Player::Player1);
    let mut tree = MonteCarloTreeSearch::new(&b);
    let mut expanded = 0;
    for round in 1..=80 {
        let ranks = ucb1_ranks(&tree);
        let expands = matches!(tree.select(&ranks), SelectionResult::NonTerminal(_));
        assert!(tree.iterate(&ranks, &mut rng));
        if expands {
            expanded += 1;
        }
        assert_eq!(tree.node(0).number_of_playouts, round);
        assert_eq!(tree.len(), 1 + expanded);
    }
    let chosen = tree.get_move().unwrap();
    assert!(b.actions().contains(&chosen));
}
