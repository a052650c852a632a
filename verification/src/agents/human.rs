//! What the console player needs from the rules: the turns open on a board,
//! grouped by their neutrino slide, and the turn that two indices name.

use crate::neutrino_board::{GameBoard, MoveType, TurnMove};
use vstd::prelude::*;

verus! {

/// The turns that share one neutrino slide.
#[derive(Debug, Clone)]
pub struct MoveGroup {
    pub neutrino_move: MoveType,
    pub turns: Vec<TurnMove>,
}

/// Those of the first `n` turns that have the neutrino slide `key`, in order.
pub open spec fn turns_with(actions: Seq<TurnMove>, key: MoveType, n: nat) -> Seq<TurnMove>
    decreases n,
{
    if n == 0 {
        Seq::empty()
    } else {
        let rest = turns_with(actions, key, (n - 1) as nat);
        if actions[n - 1].neutrino_move == key {
            rest.push(actions[n - 1])
        } else {
            rest
        }
    }
}

/// The neutrino slides of the first `n` turns, each once, in the order in
/// which they first occur.
pub open spec fn slides_seen(actions: Seq<TurnMove>, n: nat) -> Seq<MoveType>
    decreases n,
{
    if n == 0 {
        Seq::empty()
    } else {
        let rest = slides_seen(actions, (n - 1) as nat);
        if rest.contains(actions[n - 1].neutrino_move) {
            rest
        } else {
            rest.push(actions[n - 1].neutrino_move)
        }
    }
}

/// The neutrino slides of the groups, in order.
pub open spec fn group_slides(groups: Seq<MoveGroup>) -> Seq<MoveType> {
    Seq::new(groups.len(), |g: int| groups[g].neutrino_move)
}

/// Whether the groups sort the first `n` turns by their neutrino slide: the
/// groups stand in the order in which their slides first occur; each group
/// holds all the turns with its slide, in their order, and at least one; no
/// two groups have the same slide; and every turn's slide has its group.
pub open spec fn groups_sort(groups: Seq<MoveGroup>, actions: Seq<TurnMove>, n: nat) -> bool {
    &&& group_slides(groups) == slides_seen(actions, n)
    &&& forall|g: int|
        0 <= g < groups.len() ==> (#[trigger] groups[g]).turns@ == turns_with(
            actions,
            groups[g].neutrino_move,
            n,
        ) && groups[g].turns@.len() > 0
    &&& forall|g: int, h: int|
        0 <= g < h < groups.len() ==> (#[trigger] groups[g]).neutrino_move != (
        #[trigger] groups[h]).neutrino_move
    &&& forall|i: int|
        0 <= i < n ==> exists|g: int|
            0 <= g < groups.len() && (#[trigger] groups[g]).neutrino_move == (
            #[trigger] actions[i]).neutrino_move
}

/// The console player.
pub struct Human {}

impl Human {
    pub fn new() -> Human {
        Human {  }
    }

    /// The place of the group with the given neutrino slide, if there is one.
    fn group_of(groups: &Vec<MoveGroup>, key: MoveType) -> (r: Option<usize>)
        ensures
            match r {
                Some(g) => g < groups@.len() && groups@[g as int].neutrino_move == key,
                None => forall|g: int|
                    0 <= g < groups@.len() ==> (#[trigger] groups@[g]).neutrino_move != key,
            },
    {
        let mut g: usize = 0;
        while g < groups.len()
            invariant
                g <= groups@.len(),
                forall|h: int| 0 <= h < g ==> (#[trigger] groups@[h]).neutrino_move != key,
            decreases groups@.len() - g,
        {
            if groups[g].neutrino_move == key {
                return Some(g);
            }
            g += 1;
        }
        None
    }

    /// The turns open on the board, grouped by their neutrino slide; the
    /// groups in the order in which their slides first occur.
    pub fn get_move_map(board: &GameBoard) -> (r: Vec<MoveGroup>)
        requires
            board.wf(),
        ensures
            groups_sort(r@, board.spec_actions(), board.spec_actions().len()),
    {
        let actions = board.actions();
        let mut map: Vec<MoveGroup> = Vec::new();
        let mut n: usize = 0;
        assert(group_slides(map@) =~= Seq::<MoveType>::empty());
        while n < actions.len()
            invariant
                n <= actions@.len(),
                actions@ == board.spec_actions(),
                groups_sort(map@, actions@, n as nat),
            decreases actions@.len() - n,
        {
            let action = actions[n];
            let ghost earlier = map@;
            match Self::group_of(&map, action.neutrino_move) {
                Some(g) => {
                    map[g].turns.push(action);
                    proof {
                        assert(group_slides(earlier)[g as int] == action.neutrino_move);
                        assert(group_slides(map@) =~= group_slides(earlier));
                        assert forall|h: int| 0 <= h < map@.len() implies (
                        #[trigger] map@[h]).turns@ == turns_with(
                            actions@,
                            map@[h].neutrino_move,
                            (n + 1) as nat,
                        ) && map@[h].turns@.len() > 0 by {
                            if h != g {
                                assert(map@[h] == earlier[h]);
                                if h < g {
                                    assert(earlier[h].neutrino_move != earlier[g as int].neutrino_move);
                                } else {
                                    assert(earlier[g as int].neutrino_move != earlier[h].neutrino_move);
                                }
                            }
                        }
                        assert forall|a: int, b: int| 0 <= a < b < map@.len() implies (
                        #[trigger] map@[a]).neutrino_move != (#[trigger] map@[b]).neutrino_move by {
                            assert(earlier[a].neutrino_move != earlier[b].neutrino_move);
                        }
                        assert forall|i: int| 0 <= i < n + 1 implies exists|h: int|
                            0 <= h < map@.len() && (#[trigger] map@[h]).neutrino_move == (
                            #[trigger] actions@[i]).neutrino_move by {
                            if i < n {
                                let h = choose|h: int|
                                    0 <= h < earlier.len() && (#[trigger] earlier[h]).neutrino_move
                                        == actions@[i].neutrino_move;
                                assert(map@[h].neutrino_move == actions@[i].neutrino_move);
                            } else {
                                assert(map@[g as int].neutrino_move == actions@[i].neutrino_move);
                            }
                        }
                    }
                },
                None => {
                    let mut turns: Vec<TurnMove> = Vec::new();
                    turns.push(action);
                    map.push(MoveGroup { neutrino_move: action.neutrino_move, turns });
                    proof {
                        lemma_turns_with_none(actions@, action.neutrino_move, n as nat);
                        let last = map@.len() - 1;
                        if group_slides(earlier).contains(action.neutrino_move) {
                            let g = choose|g: int|
                                0 <= g < group_slides(earlier).len() && group_slides(earlier)[g]
                                    == action.neutrino_move;
                            assert(earlier[g].neutrino_move == action.neutrino_move);
                        }
                        assert(group_slides(map@) =~= group_slides(earlier).push(
                            action.neutrino_move,
                        ));
                        assert forall|h: int| 0 <= h < map@.len() implies (
                        #[trigger] map@[h]).turns@ == turns_with(
                            actions@,
                            map@[h].neutrino_move,
                            (n + 1) as nat,
                        ) && map@[h].turns@.len() > 0 by {
                            if h != last {
                                assert(map@[h] == earlier[h]);
                            } else {
                                assert(map@[h].turns@ =~= Seq::<TurnMove>::empty().push(action));
                            }
                        }
                        assert forall|a: int, b: int| 0 <= a < b < map@.len() implies (
                        #[trigger] map@[a]).neutrino_move != (#[trigger] map@[b]).neutrino_move by {
                            assert(map@[a] == earlier[a]);
                            if b != last {
                                assert(map@[b] == earlier[b]);
                            }
                        }
                        assert forall|i: int| 0 <= i < n + 1 implies exists|h: int|
                            0 <= h < map@.len() && (#[trigger] map@[h]).neutrino_move == (
                            #[trigger] actions@[i]).neutrino_move by {
                            if i < n {
                                let h = choose|h: int|
                                    0 <= h < earlier.len() && (#[trigger] earlier[h]).neutrino_move
                                        == actions@[i].neutrino_move;
                                assert(map@[h] == earlier[h]);
                            } else {
                                assert(map@[last].neutrino_move == actions@[i].neutrino_move);
                            }
                        }
                    }
                },
            }
            n += 1;
        }
        map
    }

    /// The turn that the two indices name: the group, then the turn in it;
    /// none where an index is out of range.
    pub fn pick(groups: &Vec<MoveGroup>, neutrino_index: usize, piece_index: usize) -> (r: Option<
        TurnMove,
    >)
        ensures
            r is Some <==> neutrino_index < groups@.len() && piece_index
                < groups@[neutrino_index as int].turns@.len(),
            r matches Some(m) ==> m == groups@[neutrino_index as int].turns@[piece_index as int],
    {
        if neutrino_index < groups.len() && piece_index < groups[neutrino_index].turns.len() {
            Some(groups[neutrino_index].turns[piece_index])
        } else {
            None
        }
    }
}

impl Default for Human {
    fn default() -> Human {
        Human {  }
    }
}

/// Where none of the first `n` turns has the slide `key`, no turn is found with it.
pub proof fn lemma_turns_with_none(actions: Seq<TurnMove>, key: MoveType, n: nat)
    requires
        n <= actions.len(),
        forall|i: int| 0 <= i < n ==> (#[trigger] actions[i]).neutrino_move != key,
    ensures
        turns_with(actions, key, n) == Seq::<TurnMove>::empty(),
    decreases n,
{
    if n > 0 {
        lemma_turns_with_none(actions, key, (n - 1) as nat);
    }
}

} // verus!
