//! Monte Carlo tree search: a tree of boards that grows by one node per
//! round of selection, expansion, simulation and back-propagation.

use crate::agents::random_agent::random_move;
use crate::agents::tree_laws::{
    lemma_back_propagation_keeps_links, lemma_children_cover, lemma_expansion_keeps_links,
    lemma_favourite_in, lemma_first_ending_in, lemma_growth_adds_up, lemma_growth_of_nothing,
    lemma_lookup_in, lemma_path_goes_back,
    lemma_path_holds_parent, lemma_root_has_most_playouts, lemma_unexplored_in_contains,
};
use crate::move_laws::{lemma_legal_is_applicable, lemma_legal_moves_contains};
use crate::neutrino_board::{GameBoard, Player, Score, TurnMove};
use crate::rules::{after_turn, is_over, score_for};
use rand::rngs::StdRng;
use rand::seq::IteratorRandom;
use vstd::prelude::*;

verus! {

/// The handle of a node: its place in the tree's arena.
pub type NodeIndex = usize;

/// The edges that leave a node, in the order in which they were added: the
/// move, and the node that it leads to.
pub type Edges = Seq<(TurnMove, NodeIndex)>;

/// A node of the search tree: a board, what the playouts through it have
/// given, and its links to its parent and its children.
#[derive(Clone)]
pub struct Node {
    pub utility: usize,
    pub number_of_playouts: usize,
    pub board: GameBoard,
    pub children: Vec<(TurnMove, NodeIndex)>,
    pub parent: Option<NodeIndex>,
}

/// The moves of the edges, in order.
pub open spec fn keys(children: Edges) -> Seq<TurnMove> {
    Seq::new(children.len(), |k: int| children[k].0)
}

/// The node that the first edge with move `m` among the first `n` edges leads to.
pub open spec fn lookup_in(children: Edges, m: TurnMove, n: nat) -> Option<NodeIndex>
    decreases n,
{
    if n == 0 {
        None
    } else {
        match lookup_in(children, m, (n - 1) as nat) {
            Some(c) => Some(c),
            None => if children[n - 1].0 == m {
                Some(children[n - 1].1)
            } else {
                None
            },
        }
    }
}

/// The child that the move `m` leads to, if it has been added.
pub open spec fn lookup(children: Edges, m: TurnMove) -> Option<NodeIndex> {
    lookup_in(children, m, children.len())
}

/// The child preferred among those that the first `n` of the moves lead to:
/// the one with the greatest rank, and of several such the one whose move
/// comes last.
pub open spec fn favourite_in(children: Edges, actions: Seq<TurnMove>, ranks: Seq<u64>, n: nat) -> Option<
    NodeIndex,
>
    decreases n,
{
    if n == 0 {
        None
    } else {
        let before = favourite_in(children, actions, ranks, (n - 1) as nat);
        match lookup(children, actions[n - 1]) {
            Some(c) => match before {
                Some(b) => if ranks[c as int] >= ranks[b as int] {
                    Some(c)
                } else {
                    Some(b)
                },
                None => Some(c),
            },
            None => before,
        }
    }
}

/// The first `n` of the moves that no edge has yet, in order.
pub open spec fn unexplored_in(children: Edges, actions: Seq<TurnMove>, n: nat) -> Seq<TurnMove>
    decreases n,
{
    if n == 0 {
        Seq::empty()
    } else {
        let rest = unexplored_in(children, actions, (n - 1) as nat);
        if lookup(children, actions[n - 1]) is None {
            rest.push(actions[n - 1])
        } else {
            rest
        }
    }
}

impl Node {
    /// Whether every turn open on the node's board has its child.
    pub open spec fn spec_is_leaf(&self) -> bool {
        self.board.spec_actions().len() == self.children@.len()
    }

    /// The child preferred under the given ranks.
    pub open spec fn favourite(&self, ranks: Seq<u64>) -> Option<NodeIndex> {
        favourite_in(
            self.children@,
            self.board.spec_actions(),
            ranks,
            self.board.spec_actions().len(),
        )
    }

    /// The turns open on the node's board that have no child yet, in generation order.
    pub open spec fn spec_unexplored(&self) -> Seq<TurnMove> {
        unexplored_in(self.children@, self.board.spec_actions(), self.board.spec_actions().len())
    }

    /// A node without playouts and without children.
    pub fn new(board: GameBoard, parent: Option<NodeIndex>) -> (r: Node)
        ensures
            r.utility == 0,
            r.number_of_playouts == 0,
            r.board == board,
            r.children@ == Seq::<(TurnMove, NodeIndex)>::empty(),
            r.parent == parent,
    {
        Node { utility: 0, number_of_playouts: 0, board, children: Vec::new(), parent }
    }

    /// Whether the node has as many children as its board has turns.
    pub fn is_leaf(&self) -> (r: bool)
        requires
            self.board.wf(),
        ensures
            r == self.spec_is_leaf(),
    {
        self.board.actions().len() == self.children.len()
    }

    /// The child that the move leads to, if it has been added.
    pub fn child(&self, m: TurnMove) -> (r: Option<NodeIndex>)
        ensures
            r == lookup(self.children@, m),
    {
        let mut found: Option<NodeIndex> = None;
        let mut k: usize = 0;
        while k < self.children.len()
            invariant
                k <= self.children@.len(),
                found == lookup_in(self.children@, m, k as nat),
            decreases self.children@.len() - k,
        {
            if found.is_none() && self.children[k].0 == m {
                found = Some(self.children[k].1);
            }
            k += 1;
        }
        found
    }

    /// The child preferred among those that the given moves lead to.
    pub fn favourite_child(&self, actions: &Vec<TurnMove>, ranks: &Vec<u64>) -> (r: Option<NodeIndex>)
        requires
            forall|k: int| 0 <= k < self.children@.len() ==> (#[trigger] self.children@[k]).1 < ranks@.len(),
        ensures
            r == favourite_in(self.children@, actions@, ranks@, actions@.len()),
    {
        let mut best: Option<NodeIndex> = None;
        let mut n: usize = 0;
        while n < actions.len()
            invariant
                n <= actions@.len(),
                forall|k: int| 0 <= k < self.children@.len() ==> (#[trigger] self.children@[k]).1 < ranks@.len(),
                best == favourite_in(self.children@, actions@, ranks@, n as nat),
                best matches Some(b) ==> b < ranks@.len(),
            decreases actions@.len() - n,
        {
            match self.child(actions[n]) {
                Some(c) => {
                    proof {
                        lemma_lookup_in(self.children@, actions@[n as int], self.children@.len());
                    }
                    match best {
                        Some(b) => {
                            if ranks[c] >= ranks[b] {
                                best = Some(c);
                            }
                        },
                        None => {
                            best = Some(c);
                        },
                    }
                },
                None => {},
            }
            n += 1;
        }
        best
    }

    /// The turns open on the node's board that have no child yet, in generation order.
    pub fn unexplored(&self) -> (r: Vec<TurnMove>)
        requires
            self.board.wf(),
        ensures
            r@ == self.spec_unexplored(),
    {
        let actions = self.board.actions();
        let mut open: Vec<TurnMove> = Vec::new();
        let mut n: usize = 0;
        while n < actions.len()
            invariant
                n <= actions@.len(),
                actions@ == self.board.spec_actions(),
                open@ == unexplored_in(self.children@, actions@, n as nat),
            decreases actions@.len() - n,
        {
            if self.child(actions[n]).is_none() {
                open.push(actions[n]);
            }
            n += 1;
        }
        open
    }
}

/// Whether the `k`-th edge of node `i` is sound: it leads to a later node of
/// the arena, whose parent is `i` and whose board is the one that the edge's
/// move, a turn open on the board of `i`, leads to.
pub open spec fn edge_ok(nodes: Seq<Node>, i: int, k: int) -> bool {
    let node = nodes[i];
    let m = node.children@[k].0;
    let c = node.children@[k].1;
    &&& i < c < nodes.len()
    &&& nodes[c as int].parent == Some(i as usize)
    &&& node.board.legal(m)
    &&& node.board.leads_to(m, nodes[c as int].board)
}

/// Whether node `i` is sound: its board is well formed, it has won no more
/// playouts than went through it, no two of its edges have the same move, all
/// its edges are sound, and it has a parent unless it is the root; the parent
/// is an earlier node, through which at least as many playouts went.
pub open spec fn node_ok(nodes: Seq<Node>, i: int) -> bool {
    let node = nodes[i];
    &&& node.board.wf()
    &&& node.utility <= node.number_of_playouts
    &&& keys(node.children@).no_duplicates()
    &&& match node.parent {
        None => i == 0,
        Some(p) => p < i && node.number_of_playouts <= nodes[p as int].number_of_playouts,
    }
    &&& forall|k: int| 0 <= k < node.children@.len() ==> #[trigger] edge_ok(nodes, i, k)
}

/// Whether the arena holds a sound tree with its root first.
pub open spec fn well_linked(nodes: Seq<Node>) -> bool {
    &&& nodes.len() >= 1
    &&& forall|i: int| 0 <= i < nodes.len() ==> #[trigger] node_ok(nodes, i)
}

/// What a round of selection ends on.
#[derive(Debug, Clone, Copy, PartialEq, Eq, Structural)]
pub enum SelectionResult {
    /// A node to expand.
    NonTerminal(NodeIndex),
    /// A node that has all its children and whose board is terminal, with
    /// the board's score for the side to move at the root.
    Terminal(NodeIndex, Score),
}

/// Where the descent from node `i` ends: on the first node met that lacks a
/// child, or that has them all and a terminal board; from any other node the
/// descent goes on to its preferred child.
pub open spec fn descent(nodes: Seq<Node>, ranks: Seq<u64>, root_player: Player, i: int) -> SelectionResult
    decreases nodes.len() - i,
{
    let node = nodes[i];
    if !node.spec_is_leaf() {
        SelectionResult::NonTerminal(i as usize)
    } else if node.board.spec_is_terminal() {
        SelectionResult::Terminal(i as usize, node.board.spec_utility(root_player).unwrap())
    } else {
        match node.favourite(ranks) {
            Some(c) => if i < c < nodes.len() {
                descent(nodes, ranks, root_player, c as int)
            } else {
                SelectionResult::NonTerminal(i as usize)
            },
            None => SelectionResult::NonTerminal(i as usize),
        }
    }
}

/// Where selection ends: on the root while no playout went through it,
/// after that where the descent from the root ends.
pub open spec fn selection(nodes: Seq<Node>, ranks: Seq<u64>) -> SelectionResult {
    if nodes[0].number_of_playouts == 0 {
        SelectionResult::NonTerminal(0)
    } else {
        descent(nodes, ranks, nodes[0].board@.to_move, 0)
    }
}

/// Whether the turn `m` ends the game on `board`: the board it leads to is terminal.
pub open spec fn ends_game(board: GameBoard, m: TurnMove) -> bool {
    is_over(
        after_turn(board@.cells, board@.to_move, m),
        board@.to_move.spec_opponent(),
        m.neutrino_move.to_position,
    )
}

/// The score for `player` of the board that the turn `m` leads to from `board`.
pub open spec fn score_after(board: GameBoard, m: TurnMove, player: Player) -> Option<Score> {
    score_for(
        after_turn(board@.cells, board@.to_move, m),
        board@.to_move.spec_opponent(),
        m.neutrino_move.to_position,
        player,
    )
}

/// The first of the first `n` turns open on `board` that ends the game.
pub open spec fn first_ending_in(board: GameBoard, n: nat) -> Option<TurnMove>
    decreases n,
{
    if n == 0 {
        None
    } else {
        match first_ending_in(board, (n - 1) as nat) {
            Some(m) => Some(m),
            None => if ends_game(board, board.spec_actions()[n - 1]) {
                Some(board.spec_actions()[n - 1])
            } else {
                None
            },
        }
    }
}

/// The first turn open on `board`, in generation order, that ends the game.
pub open spec fn first_ending(board: GameBoard) -> Option<TurnMove> {
    first_ending_in(board, board.spec_actions().len())
}

/// The first turn open on the board, in generation order, that leads to a terminal board.
pub fn first_terminal_move(board: &GameBoard) -> (r: Option<TurnMove>)
    requires
        board.wf(),
    ensures
        r == first_ending(*board),
{
    let actions = board.actions();
    let mut n: usize = 0;
    while n < actions.len()
        invariant
            n <= actions@.len(),
            board.wf(),
            actions@ == board.spec_actions(),
            forall|m: TurnMove| actions@.contains(m) ==> board.spec_applicable(m),
            first_ending_in(*board, n as nat) is None,
        decreases actions@.len() - n,
    {
        let action = actions[n];
        assert(actions@.contains(action));
        if board.result(action).is_terminal() {
            proof {
                lemma_first_ending_in(*board, (n + 1) as nat, actions@.len());
            }
            return Some(action);
        }
        n += 1;
    }
    None
}

/// Calls `IteratorRandom::choose` of the `rand` crate on the moves as an
/// iterator. It is taken on trust that nothing is returned for an empty
/// list, and for any other list one of its items; which one depends on the
/// generator.
#[verifier::external_body]
fn choose_from_iter(moves: Vec<TurnMove>, rng: &mut StdRng) -> (r: Option<TurnMove>)
    ensures
        moves@.len() == 0 ==> r is None,
        moves@.len() > 0 ==> r is Some && moves@.contains(r.unwrap()),
{
    moves.into_iter().choose(rng)
}

/// Whether some turn open on `a` leads from it to `b`.
pub open spec fn follows(a: GameBoard, b: GameBoard) -> bool {
    exists|m: TurnMove| a.legal(m) && #[trigger] a.leads_to(m, b)
}

/// Whether the boards are those of a game played on: each but the last is
/// not terminal, and a turn open on it leads to the next.
pub open spec fn is_playout(trail: Seq<GameBoard>) -> bool {
    &&& trail.len() >= 1
    &&& forall|i: int|
        0 <= i < trail.len() - 1 ==> !(#[trigger] trail[i]).spec_is_terminal() && follows(
            trail[i],
            trail[i + 1],
        )
}

/// Whether `score` is what some playout from `start` gives `player`: the
/// score of a terminal board that the playout ends on, or a draw for one
/// cut off after `usize::MAX` turns.
pub open spec fn playout_gives(start: GameBoard, player: Player, score: Score) -> bool {
    exists|trail: Seq<GameBoard>|
        {
            &&& #[trigger] is_playout(trail)
            &&& trail[0] == start
            &&& match trail.last().spec_utility(player) {
                Some(last) => score == last,
                None => score == Score::Draw && trail.len() > usize::MAX,
            }
        }
}

/// Plays turns drawn at random until the game is over, and gives the score
/// of the board reached for `root_player`. A playout of `usize::MAX` turns is
/// cut off there and counts as a draw.
pub fn random_playout(game_board: GameBoard, root_player: Player, rng: &mut StdRng) -> (r: Score)
    requires
        game_board.wf(),
    ensures
        playout_gives(game_board, root_player, r),
        game_board.spec_is_terminal() ==> Some(r) == game_board.spec_utility(root_player),
{
    let mut board = game_board;
    let mut plies: usize = 0;
    let ghost mut trail: Seq<GameBoard> = seq![game_board];
    while !board.is_terminal() && plies < usize::MAX
        invariant
            board.wf(),
            game_board.spec_is_terminal() ==> board == game_board,
            is_playout(trail),
            trail[0] == game_board,
            trail.last() == board,
            trail.len() == plies + 1,
        decreases usize::MAX - plies,
    {
        let random_move = random_move(&board, rng);
        let ghost earlier = board;
        board = board.result(random_move);
        plies += 1;
        proof {
            let longer = trail.push(board);
            assert(earlier.legal(random_move) && earlier.leads_to(random_move, board));
            assert forall|i: int| 0 <= i < longer.len() - 1 implies !(
            #[trigger] longer[i]).spec_is_terminal() && follows(longer[i], longer[i + 1]) by {
                if i < trail.len() - 1 {
                    assert(!trail[i].spec_is_terminal() && follows(trail[i], trail[i + 1]));
                }
            }
            trail = longer;
        }
    }
    match board.utility(root_player) {
        Some(score) => score,
        None => Score::Draw,
    }
}

/// Whether node `i` lies on the way from node `from` up to the root, both ends included.
pub open spec fn on_path(nodes: Seq<Node>, from: int, i: int) -> bool
    decreases from,
{
    from == i || (0 < from < nodes.len() && (match nodes[from].parent {
        Some(p) => p < from && on_path(nodes, p as int, i),
        None => false,
    }))
}

/// Whether a playout with the given result for the side to move at the root
/// counts as won at `node`: a win of the root's side counts where that side is
/// to move, any other result where the other side is.
pub open spec fn credited(node: Node, root_player: Player, result: Score) -> bool {
    (result == Score::Win) == (node.board@.to_move == root_player)
}

/// The node after one more playout went through it.
pub open spec fn bumped(node: Node, root_player: Player, result: Score) -> Node {
    Node {
        utility: if credited(node, root_player, result) {
            (node.utility + 1) as usize
        } else {
            node.utility
        },
        number_of_playouts: (node.number_of_playouts + 1) as usize,
        board: node.board,
        children: node.children,
        parent: node.parent,
    }
}

/// Whether `after` is the tree a round after `before`: one more playout
/// went through the root, at most one node was added, and the tree has grown
/// and is sound.
pub open spec fn is_round(before: Seq<Node>, after: Seq<Node>) -> bool {
    &&& after[0].number_of_playouts == before[0].number_of_playouts + 1
    &&& before.len() <= after.len() <= before.len() + 1
    &&& grown(before, after)
    &&& well_linked(after)
}

/// How many of the rounds that led from each tree to the next added a node.
pub open spec fn expansions(trees: Seq<Seq<Node>>) -> nat
    decreases trees.len(),
{
    if trees.len() <= 1 {
        0
    } else {
        expansions(trees.drop_last()) + if trees.last().len() == trees[trees.len() - 2].len()
            + 1 {
            1nat
        } else {
            0nat
        }
    }
}

/// Whether `after` is `before` with one more playout, of the given result
/// for the side to move at the root, counted at each node on the way from
/// `from` up to the root, and nothing else changed.
pub open spec fn propagated(
    before: Seq<Node>,
    after: Seq<Node>,
    from: int,
    root_player: Player,
    result: Score,
) -> bool {
    &&& after.len() == before.len()
    &&& forall|i: int|
        0 <= i < before.len() ==> #[trigger] after[i] == (if on_path(before, from, i) {
            bumped(before[i], root_player, result)
        } else {
            before[i]
        })
}

/// Whether `result` is what a simulation from `board` can give `player`:
/// the score after the first turn that ends the game at once, where there is
/// one, and else what some playout gives.
pub open spec fn simulated(board: GameBoard, player: Player, result: Score) -> bool {
    match first_ending(board) {
        Some(m) => Some(result) == score_after(board, m, player),
        None => playout_gives(board, player, result),
    }
}

/// Whether `after` is `before` with one more child under `node`: a fresh
/// node at the arena's end, reached by `action`, and nothing else changed.
pub open spec fn expanded(before: Seq<Node>, after: Seq<Node>, node: int, action: TurnMove) -> bool {
    let fresh = after[before.len() as int];
    &&& after.len() == before.len() + 1
    &&& forall|i: int| 0 <= i < before.len() && i != node ==> #[trigger] after[i] == before[i]
    &&& after[node].utility == before[node].utility
    &&& after[node].number_of_playouts == before[node].number_of_playouts
    &&& after[node].board == before[node].board
    &&& after[node].parent == before[node].parent
    &&& after[node].children@ == before[node].children@.push((action, before.len() as usize))
    &&& fresh.utility == 0
    &&& fresh.number_of_playouts == 0
    &&& fresh.children@.len() == 0
    &&& fresh.parent == Some(node as usize)
    &&& fresh.board.wf()
    &&& before[node].board.leads_to(action, fresh.board)
}

/// Whether `after` has grown out of `before`: every node is still there with
/// its board and its parent, has lost no edge, no playout and no win.
pub open spec fn grown(before: Seq<Node>, after: Seq<Node>) -> bool {
    &&& before.len() <= after.len()
    &&& forall|i: int|
        0 <= i < before.len() ==> {
            &&& (#[trigger] after[i]).board == before[i].board
            &&& after[i].parent == before[i].parent
            &&& before[i].number_of_playouts <= after[i].number_of_playouts
            &&& before[i].utility <= after[i].utility
            &&& before[i].children@.is_prefix_of(after[i].children@)
        }
}

/// The search tree: an arena of nodes, the root first.
pub struct MonteCarloTreeSearch {
    nodes: Vec<Node>,
    root: NodeIndex,
}

impl View for MonteCarloTreeSearch {
    type V = Seq<Node>;

    closed spec fn view(&self) -> Seq<Node> {
        self.nodes@
    }
}

impl MonteCarloTreeSearch {
    /// The handle of the root.
    pub closed spec fn root_index(&self) -> NodeIndex {
        self.root
    }

    /// The tree's invariant: the root is the first node, and the arena holds a sound tree.
    pub open spec fn wf(&self) -> bool {
        self.root_index() == 0 && well_linked(self@)
    }

    /// Whether a playout went through every node but, perhaps, the root.
    pub open spec fn scored(&self) -> bool {
        forall|i: int| 0 < i < self@.len() ==> (#[trigger] self@[i]).number_of_playouts >= 1
    }

    /// A tree that holds the root alone, with the given board.
    pub fn new(board: &GameBoard) -> (r: MonteCarloTreeSearch)
        requires
            board.wf(),
        ensures
            r.wf(),
            r.scored(),
            r@.len() == 1,
            r@[0].board == *board,
            r@[0].number_of_playouts == 0,
            r@[0].utility == 0,
            r@[0].children@.len() == 0,
    {
        let root = Node::new(*board, None);
        let mut nodes: Vec<Node> = Vec::new();
        nodes.push(root);
        let tree = MonteCarloTreeSearch { nodes, root: 0 };
        assert(keys(tree@[0].children@) =~= Seq::<TurnMove>::empty());
        assert(node_ok(tree@, 0));
        tree
    }

    /// How many nodes the tree holds.
    pub fn len(&self) -> (r: usize)
        ensures
            r == self@.len(),
    {
        self.nodes.len()
    }

    /// The node with the given handle.
    pub fn node(&self, index: NodeIndex) -> (r: &Node)
        requires
            index < self@.len(),
        ensures
            *r == self@[index as int],
    {
        &self.nodes[index]
    }

    /// The side to move at the root.
    pub fn root_player(&self) -> (r: Player)
        requires
            self.wf(),
        ensures
            r == self@[0].board@.to_move,
    {
        self.nodes[self.root].board.to_move()
    }

    /// Select a node to expand. `ranks` holds one rank for each node; among
    /// the children of a node the descent prefers the one with the greatest rank.
    pub fn select(&self, ranks: &Vec<u64>) -> (r: SelectionResult)
        requires
            self.wf(),
            ranks@.len() == self@.len(),
        ensures
            r == selection(self@, ranks@),
            match r {
                SelectionResult::NonTerminal(i) => i < self@.len() && (!self@[i as int].spec_is_leaf()
                    || (i == 0 && self@[0].number_of_playouts == 0)),
                SelectionResult::Terminal(i, score) => i < self@.len() && self@[i as int].spec_is_leaf()
                    && self@[i as int].board.spec_is_terminal() && Some(score)
                    == self@[i as int].board.spec_utility(self@[0].board@.to_move),
            },
    {
        let mut node_index = self.root;
        if self.nodes[node_index].number_of_playouts == 0 {
            return SelectionResult::NonTerminal(node_index);
        }
        let root_player = self.root_player();
        assert(node_ok(self@, 0));
        while self.nodes[node_index].is_leaf()
            invariant
                self.wf(),
                ranks@.len() == self@.len(),
                node_index < self@.len(),
                root_player == self@[0].board@.to_move,
                self@[node_index as int].board.wf(),
                selection(self@, ranks@) == descent(self@, ranks@, root_player, node_index as int),
            decreases self@.len() - node_index,
        {
            let node = &self.nodes[node_index];
            if node.board.is_terminal() {
                let result = node.board.utility(root_player).unwrap();
                return SelectionResult::Terminal(node_index, result);
            }
            let actions = node.board.actions();
            proof {
                assert(node_ok(self@, node_index as int));
                assert forall|k: int| 0 <= k < node.children@.len() implies (
                #[trigger] node.children@[k]).1 < ranks@.len() by {
                    assert(edge_ok(self@, node_index as int, k));
                }
            }
            let choosen = node.favourite_child(&actions, ranks);
            proof {
                lemma_children_cover(self@, node_index as int);
                lemma_favourite_in(node.children@, actions@, ranks@, actions@.len());
                if choosen is None {
                    assert(actions@.contains(actions@[0]));
                }
                let c = choosen.unwrap();
                let k = choose|k: int|
                    0 <= k < node.children@.len() && (#[trigger] node.children@[k]).1 == c;
                assert(edge_ok(self@, node_index as int, k));
                assert(node_ok(self@, c as int));
            }
            node_index = choosen.unwrap();
        }
        SelectionResult::NonTerminal(node_index)
    }

    /// The turns open at the node that have no child yet, in generation order.
    pub fn unexplored(&self, node: NodeIndex) -> (r: Vec<TurnMove>)
        requires
            self.wf(),
            node < self@.len(),
        ensures
            r@ == self@[node as int].spec_unexplored(),
            self@[node as int].spec_is_leaf() <==> r@.len() == 0,
    {
        proof {
            assert(node_ok(self@, node as int));
            lemma_children_cover(self@, node as int);
            let n = self@[node as int];
            if n.spec_is_leaf() && n.spec_unexplored().len() > 0 {
                let m = n.spec_unexplored()[0];
                assert(n.spec_unexplored().contains(m));
                lemma_unexplored_in_contains(
                    n.children@,
                    n.board.spec_actions(),
                    n.board.spec_actions().len(),
                    m,
                );
                let i = choose|i: int|
                    0 <= i < n.board.spec_actions().len() && #[trigger] n.board.spec_actions()[i]
                        == m;
                assert(n.board.spec_actions().contains(m));
            }
        }
        self.nodes[node].unexplored()
    }

    /// Adds under `node` the child that the turn `action` leads to, and
    /// gives the child's handle.
    pub fn expand_with(&mut self, node: NodeIndex, action: TurnMove) -> (child: NodeIndex)
        requires
            old(self).wf(),
            node < old(self)@.len(),
            old(self)@[node as int].board.legal(action),
            lookup(old(self)@[node as int].children@, action) is None,
        ensures
            final(self).wf(),
            child == old(self)@.len(),
            expanded(old(self)@, final(self)@, node as int, action),
            grown(old(self)@, final(self)@),
    {
        let ghost before = self@;
        proof {
            assert(node_ok(before, node as int));
            let board = before[node as int].board;
            lemma_legal_is_applicable(board@.cells, board@.to_move, board.neutrino(), action);
        }
        let new_board = self.nodes[node].board.result(action);
        let child = Node::new(new_board, Some(node));
        let node_index = self.nodes.len();
        self.nodes.push(child);
        self.nodes[node].children.push((action, node_index));
        proof {
            assert(expanded(before, self@, node as int, action));
            lemma_expansion_keeps_links(before, self@, node as int, action);
        }
        node_index
    }

    /// Expands the node: adds the child that one of the turns without a
    /// child leads to, the turn drawn with `rng`.
    pub fn expand(&mut self, node: NodeIndex, rng: &mut StdRng) -> (child: NodeIndex)
        requires
            old(self).wf(),
            node < old(self)@.len(),
            !old(self)@[node as int].spec_is_leaf(),
        ensures
            final(self).wf(),
            child == old(self)@.len(),
            exists|action: TurnMove|
                #[trigger] old(self)@[node as int].spec_unexplored().contains(action) && expanded(
                    old(self)@,
                    final(self)@,
                    node as int,
                    action,
                ),
            grown(old(self)@, final(self)@),
    {
        let candidates = self.unexplored(node);
        let selected_action = choose_from_iter(candidates, rng).unwrap();
        proof {
            let n = self@[node as int];
            lemma_unexplored_in_contains(
                n.children@,
                n.board.spec_actions(),
                n.board.spec_actions().len(),
                selected_action,
            );
            let i = choose|i: int|
                0 <= i < n.board.spec_actions().len() && #[trigger] n.board.spec_actions()[i]
                    == selected_action;
            assert(n.board.spec_actions().contains(selected_action));
            assert(node_ok(self@, node as int));
            lemma_legal_moves_contains(
                n.board@.cells,
                n.board@.to_move,
                n.board.neutrino(),
                selected_action,
            );
        }
        self.expand_with(node, selected_action)
    }

    /// Simulates moves until a winner is found, and returns the score for
    /// the side to move at the root: that of the first turn that ends the
    /// game at once, where there is one, and else that of a random playout.
    pub fn simulate(&self, node_index: NodeIndex, rng: &mut StdRng) -> (r: Score)
        requires
            self.wf(),
            node_index < self@.len(),
        ensures
            simulated(self@[node_index as int].board, self@[0].board@.to_move, r),
    {
        let root_player = self.root_player();
        assert(node_ok(self@, node_index as int));
        let game_board = self.nodes[node_index].board;
        let terminal_state = first_terminal_move(&game_board);
        match terminal_state {
            Some(action) => {
                proof {
                    lemma_first_ending_in(
                        game_board,
                        game_board.spec_actions().len(),
                        game_board.spec_actions().len(),
                    );
                    lemma_legal_moves_contains(
                        game_board@.cells,
                        game_board@.to_move,
                        game_board.neutrino(),
                        action,
                    );
                    lemma_legal_is_applicable(
                        game_board@.cells,
                        game_board@.to_move,
                        game_board.neutrino(),
                        action,
                    );
                }
                let terminal_game_board = game_board.result(action);
                terminal_game_board.utility(root_player).unwrap()
            },
            None => random_playout(game_board, root_player, rng),
        }
    }

    /// Counts one more playout, with the given result for the side to move
    /// at the root, at each node on the way from `from_node` up to the root.
    pub fn back_propagate(&mut self, from_node: NodeIndex, result: Score)
        requires
            old(self).wf(),
            from_node < old(self)@.len(),
            old(self)@[0].number_of_playouts < usize::MAX,
        ensures
            final(self).wf(),
            propagated(
                old(self)@,
                final(self)@,
                from_node as int,
                old(self)@[0].board@.to_move,
                result,
            ),
            final(self)@[0].number_of_playouts == old(self)@[0].number_of_playouts + 1,
            grown(old(self)@, final(self)@),
    {
        let root_player = self.root_player();
        let winner_is_root = result == Score::Win;
        let ghost before = self@;
        let mut cursor: Option<NodeIndex> = Some(from_node);
        assert(on_path(before, from_node as int, from_node as int));
        while cursor.is_some()
            invariant
                self.root_index() == 0,
                well_linked(before),
                from_node < before.len(),
                before[0].number_of_playouts < usize::MAX,
                root_player == before[0].board@.to_move,
                winner_is_root == (result == Score::Win),
                self@.len() == before.len(),
                cursor matches Some(c) ==> c < before.len() && on_path(
                    before,
                    from_node as int,
                    c as int,
                ),
                forall|i: int|
                    0 <= i < before.len() ==> #[trigger] self@[i] == (if on_path(
                        before,
                        from_node as int,
                        i,
                    ) && !(cursor matches Some(c) && on_path(before, c as int, i)) {
                        bumped(before[i], root_player, result)
                    } else {
                        before[i]
                    }),
            decreases
                    (match cursor {
                        Some(c) => c + 1,
                        None => 0,
                    }),
        {
            let node_index = cursor.unwrap();
            let ghost earlier = self@;
            proof {
                assert(node_ok(before, node_index as int));
                lemma_root_has_most_playouts(before, node_index as int);
                assert(on_path(before, node_index as int, node_index as int));
                assert(earlier[node_index as int] == before[node_index as int]);
            }
            let to_move = self.nodes[node_index].board.to_move();
            self.nodes[node_index].number_of_playouts += 1;
            if winner_is_root && to_move == root_player {
                self.nodes[node_index].utility += 1;
            } else if !winner_is_root && to_move != root_player {
                self.nodes[node_index].utility += 1;
            }
            cursor = self.nodes[node_index].parent;
            proof {
                assert(self@[node_index as int] == bumped(
                    before[node_index as int],
                    root_player,
                    result,
                ));
                assert forall|i: int| 0 <= i < before.len() implies #[trigger] self@[i] == (
                if on_path(before, from_node as int, i) && !(cursor matches Some(c) && on_path(
                    before,
                    c as int,
                    i,
                )) {
                    bumped(before[i], root_player, result)
                } else {
                    before[i]
                }) by {
                    if i != node_index {
                        assert(self@[i] == earlier[i]);
                    }
                    match cursor {
                        Some(c) => {
                            if on_path(before, c as int, node_index as int) {
                                lemma_path_goes_back(before, c as int, node_index as int);
                            }
                        },
                        None => {},
                    }
                }
                match cursor {
                    Some(c) => {
                        lemma_path_holds_parent(before, from_node as int, node_index as int);
                    },
                    None => {},
                }
            }
        }
        proof {
            lemma_back_propagation_keeps_links(
                before,
                self@,
                from_node as int,
                root_player,
                result,
            );
        }
    }

    /// One round of the search: selects a node; expands it, simulates from
    /// the new child and back-propagates the result from there, or, at a
    /// terminal node that needs no simulation, back-propagates its score.
    /// Nothing is done, and `false` returned, on a fresh tree whose root
    /// board is terminal: below such a root nothing is expanded.
    pub fn iterate(&mut self, ranks: &Vec<u64>, rng: &mut StdRng) -> (progress: bool)
        requires
            old(self).wf(),
            old(self).scored(),
            ranks@.len() == old(self)@.len(),
            old(self)@[0].number_of_playouts < usize::MAX,
        ensures
            final(self).wf(),
            final(self).scored(),
            progress == (old(self)@[0].number_of_playouts > 0
                || !old(self)@[0].board.spec_is_terminal()),
            !progress ==> final(self)@ == old(self)@,
            progress ==> is_round(old(self)@, final(self)@),
            progress ==> match selection(old(self)@, ranks@) {
                SelectionResult::Terminal(node, score) => propagated(
                    old(self)@,
                    final(self)@,
                    node as int,
                    old(self)@[0].board@.to_move,
                    score,
                ),
                SelectionResult::NonTerminal(node) => exists|
                    action: TurnMove,
                    middle: Seq<Node>,
                    result: Score,
                |
                    {
                        &&& old(self)@[node as int].spec_unexplored().contains(action)
                        &&& #[trigger] expanded(old(self)@, middle, node as int, action)
                        &&& simulated(
                            middle[old(self)@.len() as int].board,
                            old(self)@[0].board@.to_move,
                            result,
                        )
                        &&& #[trigger] propagated(
                            middle,
                            final(self)@,
                            old(self)@.len() as int,
                            old(self)@[0].board@.to_move,
                            result,
                        )
                    },
            },
            grown(old(self)@, final(self)@),
    {
        let ghost before = self@;
        proof {
            assert(node_ok(before, 0));
            if before[0].children@.len() > 0 {
                assert(edge_ok(before, 0, 0));
                let c = before[0].children@[0].1;
                assert(node_ok(before, c as int));
                assert(before[c as int].number_of_playouts >= 1);
            }
            lemma_growth_of_nothing(before);
        }
        if self.nodes[self.root].number_of_playouts == 0 && self.nodes[self.root].board.is_terminal() {
            return false;
        }
        match self.select(ranks) {
            SelectionResult::NonTerminal(selected_node) => {
                proof {
                    assert(node_ok(before, selected_node as int));
                    lemma_children_cover(before, selected_node as int);
                }
                let expanded_node = self.expand(selected_node, rng);
                let ghost middle = self@;
                let ghost action = choose|action: TurnMove|
                    #[trigger] before[selected_node as int].spec_unexplored().contains(action)
                        && expanded(before, middle, selected_node as int, action);
                let result = self.simulate(expanded_node, rng);
                self.back_propagate(expanded_node, result);
                proof {
                    assert(expanded(before, middle, selected_node as int, action) && propagated(
                        middle,
                        self@,
                        before.len() as int,
                        before[0].board@.to_move,
                        result,
                    ));
                    assert(on_path(middle, expanded_node as int, expanded_node as int));
                    assert forall|i: int| 0 < i < self@.len() implies (
                    #[trigger] self@[i]).number_of_playouts >= 1 by {
                        if i < before.len() {
                            assert(before[i].number_of_playouts >= 1);
                        }
                    }
                    lemma_growth_adds_up(before, middle, self@);
                }
            },
            SelectionResult::Terminal(expanded_node, result) => {
                self.back_propagate(expanded_node, result);
                proof {
                    assert forall|i: int| 0 < i < self@.len() implies (
                    #[trigger] self@[i]).number_of_playouts >= 1 by {
                        assert(before[i].number_of_playouts >= 1);
                    }
                }
            },
        }
        true
    }

    /// The move that the search chooses after the rounds played so far: the
    /// one that leads to the child of the root through which most playouts
    /// went, and of several such children to the one added last. There is
    /// none where the root has no child: where no round was played, or the
    /// game is over on the root's board.
    pub fn get_move(&self) -> (r: Option<TurnMove>)
        requires
            self.wf(),
        ensures
            r is None <==> self@[0].children@.len() == 0,
            r matches Some(m) ==> self@[0].board.legal(m) && self@[0].board.spec_actions().contains(m),
            r matches Some(m) ==> exists|k: int|
                {
                    &&& 0 <= k < self@[0].children@.len()
                    &&& (#[trigger] self@[0].children@[k]).0 == m
                    &&& forall|j: int|
                        0 <= j < self@[0].children@.len() ==> self@[(
                        #[trigger] self@[0].children@[j]).1 as int].number_of_playouts
                            <= self@[self@[0].children@[k].1 as int].number_of_playouts
                    &&& forall|j: int|
                        k < j < self@[0].children@.len() ==> self@[(
                        #[trigger] self@[0].children@[j]).1 as int].number_of_playouts
                            < self@[self@[0].children@[k].1 as int].number_of_playouts
                },
    {
        let root = &self.nodes[self.root];
        let mut best: Option<usize> = None;
        let mut n: usize = 0;
        assert(node_ok(self@, 0));
        while n < root.children.len()
            invariant
                self.wf(),
                *root == self@[0],
                n <= root.children@.len(),
                best is None <==> n == 0,
                best matches Some(k) ==> {
                    &&& k < n
                    &&& forall|j: int|
                        0 <= j < n ==> self@[(#[trigger] root.children@[j]).1 as int].number_of_playouts
                            <= self@[root.children@[k as int].1 as int].number_of_playouts
                    &&& forall|j: int|
                        k < j < n ==> self@[(#[trigger] root.children@[j]).1 as int].number_of_playouts
                            < self@[root.children@[k as int].1 as int].number_of_playouts
                },
            decreases root.children@.len() - n,
        {
            assert(node_ok(self@, 0));
            assert(edge_ok(self@, 0, n as int));
            match best {
                Some(k) => {
                    assert(edge_ok(self@, 0, k as int));
                    if self.nodes[root.children[n].1].number_of_playouts
                        >= self.nodes[root.children[k].1].number_of_playouts {
                        best = Some(n);
                    }
                },
                None => {
                    best = Some(n);
                },
            }
            n += 1;
        }
        match best {
            Some(k) => {
                proof {
                    assert(node_ok(self@, 0));
                    assert(edge_ok(self@, 0, k as int));
                    lemma_legal_moves_contains(
                        root.board@.cells,
                        root.board@.to_move,
                        root.board.neutrino(),
                        root.children@[k as int].0,
                    );
                }
                Some(root.children[k].0)
            },
            None => None,
        }
    }
}

} // verus!
