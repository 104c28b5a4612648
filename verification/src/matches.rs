//! Matches and collections of matches.

use crate::collections::PositionSet;
use crate::position::Position;
use vstd::prelude::*;

verus! {

/// The direction of the lines that are searched for matches.
#[derive(Clone, Copy, Debug, PartialEq, Eq, Structural)]
pub enum MatchDirection {
    /// Along the rows.
    Horizontal,
    /// Along the columns.
    Vertical,
}

/// A match on the board.
pub enum Match {
    /// Three or more neighbouring cells of one row or one column that hold the same
    /// gem type.
    Straight(PositionSet),
}

impl View for Match {
    type V = Set<Position>;

    /// The cells of the match.
    open spec fn view(&self) -> Set<Position> {
        match self {
            Match::Straight(cells) => cells@,
        }
    }
}

impl Clone for Match {
    fn clone(&self) -> (copy: Self)
        ensures
            copy@ == self@,
    {
        match self {
            Match::Straight(cells) => Match::Straight(cells.duplicate()),
        }
    }
}

impl Match {
    /// The cells of the match, each once, in no particular order.
    pub fn positions(&self) -> (cells: Vec<Position>)
        ensures
            cells@.no_duplicates(),
            forall|p: Position| cells@.contains(p) <==> self@.contains(p),
    {
        match self {
            Match::Straight(cells) => cells.items(),
        }
    }
}

/// The matches found by one search of the board.
pub struct Matches {
    pub(crate) matches: Vec<Match>,
}

impl View for Matches {
    type V = Seq<Set<Position>>;

    /// The cells of each match, in the order in which the matches were added.
    closed spec fn view(&self) -> Seq<Set<Position>> {
        self.matches@.map_values(|m: Match| m@)
    }
}

impl Default for Matches {
    fn default() -> (empty: Self)
        ensures
            empty@ == Seq::<Set<Position>>::empty(),
    {
        Matches { matches: Vec::new() }
    }
}

impl Clone for Matches {
    fn clone(&self) -> (copy: Self)
        ensures
            copy@ == self@,
    {
        let mut matches: Vec<Match> = Vec::new();
        let mut i: usize = 0;
        while i < self.matches.len()
            invariant
                i <= self.matches.len(),
                matches.len() == i,
                forall|k: int| 0 <= k < i ==> (#[trigger] matches[k])@ == self.matches[k]@,
            decreases self.matches.len() - i,
        {
            matches.push(self.matches[i].clone());
            i += 1;
        }
        let copy = Matches { matches };
        assert(copy@ =~= self@);
        copy
    }
}

impl Matches {
    /// Adds one match at the end.
    pub fn add(&mut self, mat: Match)
        ensures
            final(self)@ == old(self)@.push(mat@),
    {
        self.matches.push(mat);
        assert(self@ =~= old(self)@.push(mat@));
    }

    /// Moves every match of `other` to the end of `self`, and leaves `other` empty.
    pub fn append(&mut self, other: &mut Matches)
        ensures
            final(self)@ == old(self)@ + old(other)@,
            final(other)@ == Seq::<Set<Position>>::empty(),
    {
        self.matches.append(&mut other.matches);
        assert(self@ =~= old(self)@ + old(other)@);
        assert(other@ =~= Seq::<Set<Position>>::empty());
    }

    /// The cells that belong to any of the matches, each once.
    pub fn without_duplicates(&self) -> (cells: PositionSet)
        ensures
            forall|p: Position|
                #![trigger cells@.contains(p)]
                cells@.contains(p) <==> exists|k: int|
                    0 <= k < self@.len() && #[trigger] self@[k].contains(p),
    {
        let mut cells = PositionSet::new();
        let mut i: usize = 0;
        while i < self.matches.len()
            invariant
                i <= self.matches.len(),
                forall|p: Position|
                    #![trigger cells@.contains(p)]
                    cells@.contains(p) <==> exists|k: int|
                        0 <= k < i && #[trigger] self@[k].contains(p),
            decreases self.matches.len() - i,
        {
            let members = self.matches[i].positions();
            let ghost done = cells@;
            let mut j: usize = 0;
            while j < members.len()
                invariant
                    j <= members.len(),
                    forall|p: Position|
                        #![trigger cells@.contains(p)]
                        cells@.contains(p) <==> (done.contains(p) || exists|k: int|
                            0 <= k < j && #[trigger] members[k] == p),
                decreases members.len() - j,
            {
                let ghost earlier = cells@;
                cells.insert(members[j]);
                proof {
                    assert forall|p: Position|
                        #![trigger cells@.contains(p)]
                        cells@.contains(p) <==> (done.contains(p) || exists|k: int|
                            0 <= k < j + 1 && #[trigger] members[k] == p) by {
                        if p == members[j as int] {
                            assert(members[j as int] == p);
                        }
                        if earlier.contains(p) && !done.contains(p) {
                            let k = choose|k: int| 0 <= k < j && #[trigger] members[k] == p;
                            assert(members[k] == p);
                        }
                        if exists|k: int| 0 <= k < j + 1 && #[trigger] members[k] == p {
                            let k = choose|k: int| 0 <= k < j + 1 && #[trigger] members[k] == p;
                            if k < j {
                                assert(members[k] == p);
                                assert(earlier.contains(p));
                            }
                        }
                    }
                }
                j += 1;
            }
            proof {
                assert(self@[i as int] == self.matches[i as int]@);
                assert forall|p: Position|
                    #![trigger cells@.contains(p)]
                    cells@.contains(p) <==> exists|k: int|
                        0 <= k < i + 1 && #[trigger] self@[k].contains(p) by {
                    if cells@.contains(p) {
                        if done.contains(p) {
                            let k = choose|k: int| 0 <= k < i && #[trigger] self@[k].contains(p);
                            assert(self@[k].contains(p));
                        } else {
                            let k = choose|k: int| 0 <= k < j && #[trigger] members[k] == p;
                            assert(members@[k] == p);
                            assert(members@.contains(p));
                            assert(self@[i as int].contains(p));
                        }
                    }
                    if exists|k: int| 0 <= k < i + 1 && #[trigger] self@[k].contains(p) {
                        let k = choose|k: int| 0 <= k < i + 1 && #[trigger] self@[k].contains(p);
                        if k < i {
                            assert(self@[k].contains(p));
                            assert(done.contains(p));
                        } else {
                            assert(members@.contains(p));
                            let m = choose|m: int| 0 <= m < members.len() && members@[m] == p;
                            assert(members[m] == p);
                        }
                    }
                }
            }
            i += 1;
        }
        cells
    }

    /// Whether there is no match.
    pub fn is_empty(&self) -> (r: bool)
        ensures
            r == (self@.len() == 0),
    {
        self.matches.len() == 0
    }

    /// The number of matches.
    pub fn len(&self) -> (n: usize)
        ensures
            n == self@.len(),
    {
        self.matches.len()
    }

    /// The cells of the match at `index`, each once, in no particular order.
    pub fn positions(&self, index: usize) -> (cells: Option<Vec<Position>>)
        ensures
            cells is Some <==> index < self@.len(),
            cells matches Some(v) ==> v@.no_duplicates() && forall|p: Position|
                v@.contains(p) <==> self@[index as int].contains(p),
    {
        if index < self.matches.len() {
            Some(self.matches[index].positions())
        } else {
            None
        }
    }
}

impl PositionSet {
    /// The set of the given cells.
    pub fn from_cells(cells: &Vec<Position>) -> (set: PositionSet)
        ensures
            forall|p: Position| set@.contains(p) <==> cells@.contains(p),
    {
        let mut set = PositionSet::new();
        let mut i: usize = 0;
        while i < cells.len()
            invariant
                i <= cells.len(),
                forall|p: Position|
                    #![trigger set@.contains(p)]
                    set@.contains(p) <==> exists|k: int| 0 <= k < i && #[trigger] cells[k] == p,
            decreases cells.len() - i,
        {
            let ghost earlier = set@;
            set.insert(cells[i]);
            proof {
                assert forall|p: Position|
                    #![trigger set@.contains(p)]
                    set@.contains(p) <==> exists|k: int|
                        0 <= k < i + 1 && #[trigger] cells[k] == p by {
                    if p == cells[i as int] {
                        assert(cells[i as int] == p);
                    }
                    if earlier.contains(p) {
                        let k = choose|k: int| 0 <= k < i && #[trigger] cells[k] == p;
                        assert(cells[k] == p);
                    }
                    if exists|k: int| 0 <= k < i + 1 && #[trigger] cells[k] == p {
                        let k = choose|k: int| 0 <= k < i + 1 && #[trigger] cells[k] == p;
                        if k < i {
                            assert(cells[k] == p);
                            assert(earlier.contains(p));
                        }
                    }
                }
            }
            i += 1;
        }
        proof {
            assert forall|p: Position| set@.contains(p) <==> cells@.contains(p) by {
                if set@.contains(p) {
                    let k = choose|k: int| 0 <= k < i && #[trigger] cells[k] == p;
                    assert(cells@[k] == p);
                }
                if cells@.contains(p) {
                    let k = choose|k: int| 0 <= k < cells@.len() && cells@[k] == p;
                    assert(cells[k] == p);
                }
            }
        }
        set
    }

    /// The cells of the set, each once, in no particular order.
    pub fn to_vec(&self) -> (cells: Vec<Position>)
        ensures
            cells@.no_duplicates(),
            forall|p: Position| cells@.contains(p) <==> self@.contains(p),
    {
        self.items()
    }
}

} // verus!
