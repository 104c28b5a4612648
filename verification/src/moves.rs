//! Sets of moves, and what the board reports in sets.

use crate::collections::{FillSet, PairSet, TypeSet};
use crate::position::{BoardMove, Position};
use vstd::prelude::*;

verus! {

/// A set of moves. A move and the same move with its two cells exchanged are one
/// member: only the canonical order of the two cells is kept.
pub struct MoveSet {
    pairs: PairSet,
}

impl View for MoveSet {
    type V = Set<(Position, Position)>;

    /// The members, each as its two cells in canonical order.
    closed spec fn view(&self) -> Set<(Position, Position)> {
        self.pairs@
    }
}

impl MoveSet {
    /// The set without members.
    pub fn new() -> (set: MoveSet)
        ensures
            set@ == Set::<(Position, Position)>::empty(),
    {
        MoveSet { pairs: PairSet::new() }
    }

    /// Makes the move a member of the set.
    pub fn insert(&mut self, mv: BoardMove)
        ensures
            final(self)@ == old(self)@.insert(mv.spec_canonical()),
    {
        let (first, second) = mv.canonical();
        self.pairs.insert(first, second);
    }

    /// Whether the move is a member, in either order of its two cells.
    pub fn contains(&self, mv: &BoardMove) -> (found: bool)
        ensures
            found == self@.contains(mv.spec_canonical()),
    {
        let (first, second) = mv.canonical();
        self.pairs.contains(&first, &second)
    }

    /// The members, each once, in no particular order.
    pub fn to_vec(&self) -> (moves: Vec<BoardMove>)
        ensures
            forall|m: (Position, Position)|
                self@.contains(m) <==> exists|k: int|
                    0 <= k < moves.len() && (#[trigger] moves[k]).0 == m.0 && moves[k].1 == m.1,
            forall|j: int, k: int|
                0 <= j < k < moves.len() ==> !((#[trigger] moves[j]).0 == (#[trigger] moves[k]).0
                    && moves[j].1 == moves[k].1),
    {
        let members = self.pairs.items();
        let mut moves: Vec<BoardMove> = Vec::new();
        let mut i: usize = 0;
        while i < members.len()
            invariant
                i <= members.len(),
                moves.len() == i,
                forall|k: int|
                    0 <= k < i ==> (#[trigger] moves[k]).0 == members[k].0 && moves[k].1
                        == members[k].1,
            decreases members.len() - i,
        {
            moves.push(BoardMove(members[i].0, members[i].1));
            i += 1;
        }
        proof {
            assert forall|m: (Position, Position)|
                self@.contains(m) <==> exists|k: int|
                    0 <= k < moves.len() && (#[trigger] moves[k]).0 == m.0 && moves[k].1
                        == m.1 by {
                if self@.contains(m) {
                    assert(members@.contains(m));
                    let k = choose|k: int| 0 <= k < members.len() && members@[k] == m;
                    assert(moves[k].0 == m.0 && moves[k].1 == m.1);
                }
                if exists|k: int|
                    0 <= k < moves.len() && (#[trigger] moves[k]).0 == m.0 && moves[k].1 == m.1 {
                    let k = choose|k: int|
                        0 <= k < moves.len() && (#[trigger] moves[k]).0 == m.0 && moves[k].1 == m.1;
                    assert(members@[k] == m);
                    assert(members@.contains(m));
                }
            }
            assert forall|j: int, k: int| 0 <= j < k < moves.len() implies !((#[trigger] moves[j]).0
                == (#[trigger] moves[k]).0 && moves[j].1 == moves[k].1) by {
                assert(members@[j] != members@[k]);
            }
        }
        moves
    }
}

impl PairSet {
    /// The pairs of the set, each once, in no particular order.
    pub fn to_vec(&self) -> (pairs: Vec<(Position, Position)>)
        ensures
            pairs@.no_duplicates(),
            forall|m: (Position, Position)| pairs@.contains(m) <==> self@.contains(m),
    {
        self.items()
    }
}

impl TypeSet {
    /// The gem types of the set, each once, in no particular order.
    pub fn to_vec(&self) -> (types: Vec<u32>)
        ensures
            types@.no_duplicates(),
            forall|t: u32| types@.contains(t) <==> self@.contains(t),
    {
        self.items()
    }
}

impl FillSet {
    /// The cells of the set with the gem type of each, each once, in no particular
    /// order.
    pub fn to_vec(&self) -> (fills: Vec<(Position, u32)>)
        ensures
            fills@.no_duplicates(),
            forall|f: (Position, u32)| fills@.contains(f) <==> self@.contains(f),
    {
        self.items()
    }
}

} // verus!
