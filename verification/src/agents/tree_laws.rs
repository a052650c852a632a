//! What holds of the search tree: what its edges and its paths say, and
//! that expansion and back-propagation keep it sound.

use crate::agents::monte_carlo_tree_search::{
    bumped, edge_ok, ends_game, expanded, expansions, favourite_in, first_ending_in, grown,
    is_round, keys,
    lookup, lookup_in, node_ok, on_path, propagated, unexplored_in, well_linked, Edges, Node,
};
use crate::move_laws::{lemma_legal_moves_contains, lemma_legal_moves_distinct};
use crate::neutrino_board::{GameBoard, Player, Score, TurnMove};
use crate::seq_laws::{lemma_distinct_within, lemma_push_keeps_distinct};
use vstd::prelude::*;

verus! {

/// What an edge found among the first `n` says: the child it gives is that of
/// an edge with the move, and nothing is given only where no edge has the move.
pub proof fn lemma_lookup_in(children: Edges, m: TurnMove, n: nat)
    requires
        n <= children.len(),
    ensures
        match lookup_in(children, m, n) {
            Some(c) => exists|k: int| 0 <= k < n && #[trigger] children[k] == (m, c),
            None => forall|k: int| 0 <= k < n ==> (#[trigger] children[k]).0 != m,
        },
    decreases n,
{
    if n > 0 {
        lemma_lookup_in(children, m, (n - 1) as nat);
        match lookup_in(children, m, (n - 1) as nat) {
            Some(c) => {
                let k = choose|k: int| 0 <= k < n - 1 && #[trigger] children[k] == (m, c);
                assert(0 <= k < n && children[k] == (m, c));
            },
            None => {
                if children[n - 1].0 == m {
                    assert(children[n - 1] == (m, children[n - 1].1));
                }
            },
        }
    }
}

/// A move has a child exactly where it is among the edges' moves.
pub proof fn lemma_lookup_keys(children: Edges, m: TurnMove)
    ensures
        lookup(children, m) is Some <==> keys(children).contains(m),
{
    lemma_lookup_in(children, m, children.len());
    if lookup(children, m) is Some {
        let c = lookup(children, m).unwrap();
        let k = choose|k: int| 0 <= k < children.len() && #[trigger] children[k] == (m, c);
        assert(keys(children)[k] == m);
    }
    if keys(children).contains(m) {
        let k = choose|k: int| 0 <= k < keys(children).len() && keys(children)[k] == m;
        assert(children[k].0 == m);
    }
}

/// The preferred child is the child of one of the edges.
pub proof fn lemma_favourite_in(children: Edges, actions: Seq<TurnMove>, ranks: Seq<u64>, n: nat)
    requires
        n <= actions.len(),
    ensures
        match favourite_in(children, actions, ranks, n) {
            Some(c) => exists|k: int| 0 <= k < children.len() && (#[trigger] children[k]).1 == c,
            None => forall|i: int| 0 <= i < n ==> lookup(children, #[trigger] actions[i]) is None,
        },
    decreases n,
{
    if n > 0 {
        lemma_favourite_in(children, actions, ranks, (n - 1) as nat);
        lemma_lookup_in(children, actions[n - 1], children.len());
        match lookup(children, actions[n - 1]) {
            Some(c) => {
                let k = choose|k: int|
                    0 <= k < children.len() && #[trigger] children[k] == (actions[n - 1], c);
                assert(children[k].1 == c);
            },
            None => {},
        }
    }
}

/// The moves without a child are the given moves that no edge has.
pub proof fn lemma_unexplored_in_contains(children: Edges, actions: Seq<TurnMove>, n: nat, m: TurnMove)
    requires
        n <= actions.len(),
    ensures
        unexplored_in(children, actions, n).contains(m) <==> (lookup(children, m) is None
            && exists|i: int| 0 <= i < n && #[trigger] actions[i] == m),
    decreases n,
{
    broadcast use vstd::seq_lib::lemma_seq_contains_after_push;
    broadcast use vstd::seq_lib::lemma_seq_empty_contains_nothing;

    if n > 0 {
        lemma_unexplored_in_contains(children, actions, (n - 1) as nat, m);
        let rest = unexplored_in(children, actions, (n - 1) as nat);
        if unexplored_in(children, actions, n).contains(m) {
            if rest.contains(m) {
                let i = choose|i: int| 0 <= i < n - 1 && #[trigger] actions[i] == m;
                assert(0 <= i < n && actions[i] == m);
            } else {
                assert(actions[n - 1] == m);
            }
        }
        if lookup(children, m) is None && exists|i: int| 0 <= i < n && #[trigger] actions[i] == m {
            let i = choose|i: int| 0 <= i < n && #[trigger] actions[i] == m;
            if i < n - 1 {
                assert(rest.contains(m));
            }
        }
    }
}

/// In a sound tree the edges of a node that has them all cover the turns
/// open on its board, and a node that lacks some has a turn without a child.
pub proof fn lemma_children_cover(nodes: Seq<Node>, i: int)
    requires
        well_linked(nodes),
        0 <= i < nodes.len(),
    ensures
        nodes[i].children@.len() <= nodes[i].board.spec_actions().len(),
        nodes[i].spec_is_leaf() ==> forall|m: TurnMove|
            nodes[i].board.spec_actions().contains(m) ==> lookup(nodes[i].children@, m) is Some,
        !nodes[i].spec_is_leaf() ==> nodes[i].spec_unexplored().len() > 0,
{
    let node = nodes[i];
    let actions = node.board.spec_actions();
    let children = node.children@;
    assert(node_ok(nodes, i));
    lemma_legal_moves_distinct(node.board@.cells, node.board@.to_move, node.board.neutrino());
    assert forall|m: TurnMove| keys(children).contains(m) implies actions.contains(m) by {
        let k = choose|k: int| 0 <= k < keys(children).len() && keys(children)[k] == m;
        assert(edge_ok(nodes, i, k));
        lemma_legal_moves_contains(node.board@.cells, node.board@.to_move, node.board.neutrino(), m);
    }
    lemma_distinct_within(keys(children), actions);
    if node.spec_is_leaf() {
        assert forall|m: TurnMove| actions.contains(m) implies lookup(children, m) is Some by {
            lemma_lookup_keys(children, m);
        }
    } else {
        if forall|m: TurnMove| actions.contains(m) ==> keys(children).contains(m) {
            lemma_distinct_within(actions, keys(children));
        }
        let m = choose|m: TurnMove| actions.contains(m) && !keys(children).contains(m);
        lemma_lookup_keys(children, m);
        lemma_unexplored_in_contains(children, actions, actions.len(), m);
        let j = choose|j: int| 0 <= j < actions.len() && actions[j] == m;
        assert(node.spec_unexplored().contains(m));
    }
}

/// A turn found among the first `n` is still the first among more, and it
/// is one of the turns open on the board and ends the game.
pub proof fn lemma_first_ending_in(board: GameBoard, n: nat, more: nat)
    requires
        n <= more <= board.spec_actions().len(),
    ensures
        first_ending_in(board, n) is Some ==> first_ending_in(board, more) == first_ending_in(
            board,
            n,
        ),
        first_ending_in(board, n) matches Some(m) ==> board.spec_actions().contains(m)
            && ends_game(board, m),
    decreases more,
{
    if n < more {
        lemma_first_ending_in(board, n, (more - 1) as nat);
    } else if n > 0 {
        lemma_first_ending_in(board, (n - 1) as nat, (n - 1) as nat);
    }
}

/// A node on the way up from `from` does not come after it in the arena.
pub proof fn lemma_path_goes_back(nodes: Seq<Node>, from: int, i: int)
    requires
        0 <= from,
        on_path(nodes, from, i),
    ensures
        0 <= i <= from,
    decreases from,
{
    if from != i {
        lemma_path_goes_back(nodes, nodes[from].parent.unwrap() as int, i);
    }
}

/// With a node its parent lies on the way up.
pub proof fn lemma_path_holds_parent(nodes: Seq<Node>, from: int, i: int)
    requires
        well_linked(nodes),
        0 <= from < nodes.len(),
        0 <= i < nodes.len(),
        on_path(nodes, from, i),
        nodes[i].parent is Some,
    ensures
        on_path(nodes, from, nodes[i].parent.unwrap() as int),
    decreases from,
{
    let p = nodes[i].parent.unwrap() as int;
    assert(node_ok(nodes, i));
    if from == i {
        assert(on_path(nodes, p, p));
    } else {
        lemma_path_holds_parent(nodes, nodes[from].parent.unwrap() as int, i);
    }
}

/// The root lies on the way up from every node.
pub proof fn lemma_path_reaches_root(nodes: Seq<Node>, from: int)
    requires
        well_linked(nodes),
        0 <= from < nodes.len(),
    ensures
        on_path(nodes, from, 0),
    decreases from,
{
    assert(node_ok(nodes, from));
    if from != 0 {
        lemma_path_reaches_root(nodes, nodes[from].parent.unwrap() as int);
    }
}

/// No more playouts went through a node than through the root.
pub proof fn lemma_root_has_most_playouts(nodes: Seq<Node>, i: int)
    requires
        well_linked(nodes),
        0 <= i < nodes.len(),
    ensures
        nodes[i].number_of_playouts <= nodes[0].number_of_playouts,
    decreases i,
{
    assert(node_ok(nodes, i));
    if i != 0 {
        lemma_root_has_most_playouts(nodes, nodes[i].parent.unwrap() as int);
    }
}

/// Back-propagation keeps the tree sound.
pub proof fn lemma_back_propagation_keeps_links(
    before: Seq<Node>,
    after: Seq<Node>,
    from: int,
    root_player: Player,
    result: Score,
)
    requires
        well_linked(before),
        0 <= from < before.len(),
        before[0].number_of_playouts < usize::MAX,
        propagated(before, after, from, root_player, result),
    ensures
        well_linked(after),
        grown(before, after),
        after[0].number_of_playouts == before[0].number_of_playouts + 1,
{
    lemma_path_reaches_root(before, from);
    assert forall|i: int| 0 <= i < after.len() implies #[trigger] node_ok(after, i) by {
        assert(node_ok(before, i));
        lemma_root_has_most_playouts(before, i);
        match before[i].parent {
            Some(p) => {
                lemma_root_has_most_playouts(before, p as int);
                if on_path(before, from, i) {
                    lemma_path_holds_parent(before, from, i);
                }
            },
            None => {},
        }
        assert forall|k: int| 0 <= k < after[i].children@.len() implies #[trigger] edge_ok(
            after,
            i,
            k,
        ) by {
            assert(edge_ok(before, i, k));
        }
    }
    assert forall|i: int| 0 <= i < before.len() implies {
        &&& (#[trigger] after[i]).board == before[i].board
        &&& after[i].parent == before[i].parent
        &&& before[i].number_of_playouts <= after[i].number_of_playouts
        &&& before[i].utility <= after[i].utility
        &&& before[i].children@.is_prefix_of(after[i].children@)
    } by {
        assert(node_ok(before, i));
        lemma_root_has_most_playouts(before, i);
    }
}

/// Expansion keeps the tree sound.
pub proof fn lemma_expansion_keeps_links(
    before: Seq<Node>,
    after: Seq<Node>,
    node: int,
    action: TurnMove,
)
    requires
        well_linked(before),
        0 <= node < before.len() <= usize::MAX,
        before[node].board.legal(action),
        lookup(before[node].children@, action) is None,
        expanded(before, after, node, action),
    ensures
        well_linked(after),
        grown(before, after),
{
    let fresh = before.len() as int;
    assert forall|i: int| 0 <= i < after.len() implies #[trigger] node_ok(after, i) by {
        if i == fresh {
            assert(keys(after[i].children@) =~= Seq::<TurnMove>::empty());
        } else {
            assert(node_ok(before, i));
            if i == node {
                lemma_lookup_keys(before[node].children@, action);
                assert(keys(after[i].children@) =~= keys(before[i].children@).push(action));
                lemma_push_keeps_distinct(keys(before[i].children@), action);
            }
            assert forall|k: int| 0 <= k < after[i].children@.len() implies #[trigger] edge_ok(
                after,
                i,
                k,
            ) by {
                if k < before[i].children@.len() {
                    assert(edge_ok(before, i, k));
                }
            }
        }
    }
}

/// A tree has grown out of itself.
pub proof fn lemma_growth_of_nothing(nodes: Seq<Node>)
    ensures
        grown(nodes, nodes),
{
    assert forall|i: int| 0 <= i < nodes.len() implies (#[trigger] nodes[i]).children@.is_prefix_of(
        nodes[i].children@,
    ) by {}
}

/// A tree that has grown out of one that has grown out of a third has grown out of the third.
pub proof fn lemma_growth_adds_up(first: Seq<Node>, second: Seq<Node>, third: Seq<Node>)
    requires
        grown(first, second),
        grown(second, third),
    ensures
        grown(first, third),
{
    assert forall|i: int| 0 <= i < first.len() implies {
        &&& (#[trigger] third[i]).board == first[i].board
        &&& third[i].parent == first[i].parent
        &&& first[i].number_of_playouts <= third[i].number_of_playouts
        &&& first[i].utility <= third[i].utility
        &&& first[i].children@.is_prefix_of(third[i].children@)
    } by {
        assert(second[i].board == first[i].board);
        assert(third[i].board == second[i].board);
    }
}

/// A back-propagation alone is a round that adds no node.
pub proof fn lemma_propagation_is_round(
    before: Seq<Node>,
    after: Seq<Node>,
    from: int,
    root_player: Player,
    result: Score,
)
    requires
        well_linked(before),
        0 <= from < before.len(),
        before[0].number_of_playouts < usize::MAX,
        propagated(before, after, from, root_player, result),
    ensures
        is_round(before, after),
        after.len() == before.len(),
{
    lemma_back_propagation_keeps_links(before, after, from, root_player, result);
}

/// An expansion followed by a back-propagation from the new node is a round
/// that adds one node.
pub proof fn lemma_expansion_and_propagation_is_round(
    before: Seq<Node>,
    middle: Seq<Node>,
    after: Seq<Node>,
    node: int,
    action: TurnMove,
    root_player: Player,
    result: Score,
)
    requires
        well_linked(before),
        0 <= node < before.len() <= usize::MAX,
        before[0].number_of_playouts < usize::MAX,
        before[node].board.legal(action),
        lookup(before[node].children@, action) is None,
        expanded(before, middle, node, action),
        propagated(middle, after, before.len() as int, root_player, result),
    ensures
        is_round(before, after),
        after.len() == before.len() + 1,
{
    lemma_expansion_keeps_links(before, middle, node, action);
    lemma_back_propagation_keeps_links(middle, after, before.len() as int, root_player, result);
    lemma_growth_adds_up(before, middle, after);
}

/// Round after round, one more playout goes through the root: after any
/// number of rounds the root has as many playouts more as rounds were played,
/// and the tree as many nodes more as rounds added one. On a fresh tree that
/// is the number of rounds, and one node more than the rounds that expanded.
pub proof fn lemma_rounds_count_at_root(trees: Seq<Seq<Node>>)
    requires
        trees.len() >= 1,
        forall|i: int| 0 <= i < trees.len() - 1 ==> is_round(#[trigger] trees[i], trees[i + 1]),
    ensures
        trees.last()[0].number_of_playouts == trees[0][0].number_of_playouts + trees.len() - 1,
        trees.last().len() == trees[0].len() + expansions(trees),
        expansions(trees) <= trees.len() - 1,
    decreases trees.len(),
{
    if trees.len() > 1 {
        let earlier = trees.drop_last();
        assert forall|i: int| 0 <= i < earlier.len() - 1 implies is_round(
            #[trigger] earlier[i],
            earlier[i + 1],
        ) by {
            assert(is_round(trees[i], trees[i + 1]));
        }
        lemma_rounds_count_at_root(earlier);
        assert(is_round(trees[trees.len() - 2], trees[trees.len() - 1]));
        assert(earlier.last() == trees[trees.len() - 2]);
    }
}

} // verus!
