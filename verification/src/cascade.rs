//! The clearing of matches, round by round.

use crate::board::Board;
use crate::laws::lemma_match_listed;
use crate::collections::{FillSet, PairSet, PositionSet};
use crate::matches::Matches;
use crate::model::BoardView;
use crate::position::Position;
use vstd::prelude::*;

verus! {

/// The most rounds of clearing, falling and refilling that `Board::clear_matches` goes
/// through before it gives up.
pub const MAX_CASCADE_ROUNDS: u32 = 100_000;

/// What one round of clearing did to the board.
pub struct CascadeStep {
    /// The cells whose gems were taken off because they belonged to a match.
    pub popped: PositionSet,
    /// The gems that fell, each as the cell it left and the cell it landed in.
    pub dropped: PairSet,
    /// The cells that were refilled, each with the gem type it was given.
    pub filled: FillSet,
}

/// A round after some rounds makes one round more.
proof fn lemma_one_more_round(
    first: BoardView,
    before: BoardView,
    after: BoardView,
    rounds: nat,
    popped: Set<Position>,
    dropped: Set<(Position, Position)>,
    filled: Set<(Position, u32)>,
)
    requires
        first.cascades_in(before, rounds),
        before.has_match(),
        before.cascades_to(after, popped, dropped, filled),
    ensures
        first.cascades_in(after, rounds + 1),
    decreases rounds,
{
    if rounds == 0 {
        assert(after.cascades_in(after, 0));
        assert(first.cascades_to(after, popped, dropped, filled));
    } else {
        let (next, p, d, f) = choose|
            next: BoardView,
            p: Set<Position>,
            d: Set<(Position, Position)>,
            f: Set<(Position, u32)>,
        |
            {
                &&& first.has_match()
                &&& #[trigger] first.cascades_to(next, p, d, f)
                &&& next.cascades_in(before, (rounds - 1) as nat)
            };
        lemma_one_more_round(next, before, after, (rounds - 1) as nat, popped, dropped, filled);
        assert(first.cascades_to(next, p, d, f));
    }
}

/// Boards that agree outside the board one after the other agree from first to last.
proof fn lemma_same_outside_chain(first: BoardView, second: BoardView, third: BoardView)
    requires
        first.same_outside(second),
        second.same_outside(third),
        first.width == second.width,
        first.height == second.height,
    ensures
        first.same_outside(third),
{
    assert forall|p: Position|
        #![trigger third.gems.contains_key(p)]
        !first.in_bounds(p) implies (third.gems.contains_key(p) <==> first.gems.contains_key(p)) by {
        assert(second.gems.contains_key(p) <==> first.gems.contains_key(p));
    }
    assert forall|p: Position|
        #![trigger third.gems[p]]
        !first.in_bounds(p) && first.gems.contains_key(p) implies third.gems[p]
        == first.gems[p] by {
        assert(second.gems.contains_key(p));
        assert(second.gems[p] == first.gems[p]);
    }
}

impl Board {
    /// Takes the gems of every match off a full board, and returns the cells that
    /// were emptied. A cell that belongs to several matches is emptied once.
    pub fn pop_matches(&mut self) -> (popped: PositionSet)
        requires
            old(self)@.full(),
        ensures
            popped@ == old(self)@.matched_cells(),
            final(self)@ == old(self)@.cleared(),
            old(self)@.same_outside(final(self)@),
            old(self)@.spawnable() ==> final(self)@.spawnable(),
    {
        let matches = match self.get_matches() {
            Ok(matches) => matches,
            Err(_) => Matches::default(),
        };
        let popped = matches.without_duplicates();
        proof {
            assert forall|p: Position| popped@.contains(p) <==> self@.matched(p) by {
                if popped@.contains(p) {
                    let k = choose|k: int| 0 <= k < matches@.len() && #[trigger] matches@[k].contains(p);
                    assert(self@.is_match(matches@[k]));
                }
                if self@.matched(p) {
                    let cells = choose|cells: Set<Position>| #[trigger]
                        self@.is_match(cells) && cells.contains(p);
                    let k = choose|k: int| 0 <= k < matches@.len() && #[trigger] matches@[k] == cells;
                    assert(matches@[k].contains(p));
                }
            }
            assert(popped@ =~= self@.matched_cells());
        }
        let cells = popped.to_vec();
        let mut j: usize = 0;
        while j < cells.len()
            invariant
                j <= cells.len(),
                self.dimensions == old(self).dimensions,
                self@.types == old(self)@.types,
                forall|p: Position| cells@.contains(p) <==> popped@.contains(p),
                forall|q: Position|
                    #![trigger self@.gems.contains_key(q)]
                    self@.gems.contains_key(q) <==> (old(self)@.gems.contains_key(q) && !exists|
                        k: int,
                    | 0 <= k < j && #[trigger] cells[k] == q),
                forall|q: Position|
                    #![trigger self@.gems[q]]
                    self@.gems.contains_key(q) ==> self@.gems[q] == old(self)@.gems[q],
            decreases cells.len() - j,
        {
            let ghost before = self@.gems;
            self.gems.remove(&cells[j]);
            proof {
                assert forall|q: Position|
                    #![trigger self@.gems.contains_key(q)]
                    self@.gems.contains_key(q) <==> (old(self)@.gems.contains_key(q) && !exists|
                        k: int,
                    | 0 <= k < j + 1 && #[trigger] cells[k] == q) by {
                    if q == cells[j as int] {
                        assert(cells[j as int] == q);
                    }
                    if before.contains_key(q) && q != cells[j as int] {
                        if exists|k: int| 0 <= k < j + 1 && #[trigger] cells[k] == q {
                            let k = choose|k: int| 0 <= k < j + 1 && #[trigger] cells[k] == q;
                            assert(cells[k] == q);
                        }
                    }
                    if !before.contains_key(q) && old(self)@.gems.contains_key(q) {
                        let k = choose|k: int| 0 <= k < j && #[trigger] cells[k] == q;
                        assert(cells[k] == q);
                    }
                }
                assert forall|q: Position|
                    #![trigger self@.gems[q]]
                    self@.gems.contains_key(q) implies self@.gems[q] == old(self)@.gems[q] by {
                    assert(before.contains_key(q));
                    assert(before[q] == old(self)@.gems[q]);
                }
            }
            j += 1;
        }
        proof {
            let o = old(self)@;
            assert forall|q: Position|
                self@.gems.contains_key(q) <==> o.cleared().gems.contains_key(q) by {
                if popped@.contains(q) {
                    assert(cells@.contains(q));
                    let k = choose|k: int| 0 <= k < cells@.len() && cells@[k] == q;
                    assert(cells[k] == q);
                }
                if exists|k: int| 0 <= k < j && #[trigger] cells[k] == q {
                    let k = choose|k: int| 0 <= k < j && #[trigger] cells[k] == q;
                    assert(cells@[k] == q);
                    assert(cells@.contains(q));
                }
            }
            assert(self@.gems =~= o.cleared().gems);
            assert(self@ =~= o.cleared());
            assert forall|q: Position|
                #![trigger self@.gems.contains_key(q)]
                !o.in_bounds(q) implies (self@.gems.contains_key(q) <==> o.gems.contains_key(q)) by {
                if o.matched(q) {
                    let cells = choose|cells: Set<Position>| #[trigger]
                        o.is_match(cells) && cells.contains(q);
                    old(self).lemma_match_in_bounds(cells, q);
                }
            }
            if o.spawnable() {
                assert forall|q: Position|
                    #![trigger self@.gems[q]]
                    self@.gems.contains_key(q) implies self@.types.contains(self@.gems[q]) by {
                    assert(self@.gems[q] == o.gems[q]);
                    assert(o.types.contains(o.gems[q]));
                }
            }
        }
        popped
    }

    /// One round of clearing on a full board: takes the gems of every match off, lets
    /// the gems above fall, and refills the empty cells at random.
    ///
    /// Returns what the three steps report, or `None` if the board has no match; the
    /// board is then left as it is. A board with a match must have a type to spawn.
    pub fn cascade_step(&mut self) -> (step: Option<CascadeStep>)
        requires
            old(self)@.full(),
            old(self)@.has_match() ==> exists|t: u32| old(self)@.types.contains(t),
        ensures
            step is None <==> !old(self)@.has_match(),
            step is None ==> final(self)@ == old(self)@,
            step matches Some(s) ==> old(self)@.cascades_to(
                final(self)@,
                s.popped@,
                s.dropped@,
                s.filled@,
            ),
            final(self)@.full(),
            final(self)@.width == old(self)@.width,
            final(self)@.height == old(self)@.height,
            final(self)@.types == old(self)@.types,
            old(self)@.same_outside(final(self)@),
            old(self)@.spawnable() ==> final(self)@.spawnable(),
    {
        let stable = match self.get_matches() {
            Ok(matches) => {
                proof {
                    lemma_match_listed(*self, matches@);
                }
                matches.is_empty()
            },
            Err(_) => true,
        };
        if stable {
            return None;
        }
        let popped = self.pop_matches();
        let ghost cleared = self@;
        let dropped = self.drop();
        let ghost fallen = self@;
        let filled = self.fill();
        proof {
            assert(cleared.dropped_to(fallen));
        }
        Some(CascadeStep { popped, dropped, filled })
    }

    /// Clears the matches of a full board until none is left.
    ///
    /// Goes through rounds of `cascade_step` until the board has no match, or
    /// `MAX_CASCADE_ROUNDS` of them are done. Returns whether the board has no match
    /// now; a board without matches is left as it is.
    ///
    /// A board with a match must have a type to spawn.
    pub fn clear_matches(&mut self) -> (stable: bool)
        requires
            old(self)@.full(),
            old(self)@.has_match() ==> exists|t: u32| old(self)@.types.contains(t),
        ensures
            stable <==> !final(self)@.has_match(),
            !stable ==> old(self)@.cascades_in(final(self)@, MAX_CASCADE_ROUNDS as nat),
            exists|rounds: nat|
                rounds <= MAX_CASCADE_ROUNDS && #[trigger] old(self)@.cascades_in(
                    final(self)@,
                    rounds,
                ),
            !old(self)@.has_match() ==> final(self)@ == old(self)@,
            final(self)@.full(),
            final(self)@.width == old(self)@.width,
            final(self)@.height == old(self)@.height,
            final(self)@.types == old(self)@.types,
            old(self)@.same_outside(final(self)@),
            old(self)@.spawnable() ==> final(self)@.spawnable(),
    {
        let mut rounds: u32 = 0;
        while rounds < MAX_CASCADE_ROUNDS
            invariant
                rounds <= MAX_CASCADE_ROUNDS,
                old(self)@.cascades_in(self@, rounds as nat),
                rounds == 0 ==> self@ == old(self)@,
                rounds > 0 ==> old(self)@.has_match(),
                rounds > 0 ==> exists|t: u32| self@.types.contains(t),
                old(self)@.has_match() ==> exists|t: u32| old(self)@.types.contains(t),
                self@.full(),
                self.dimensions == old(self).dimensions,
                self@.types == old(self)@.types,
                old(self)@.same_outside(self@),
                old(self)@.spawnable() ==> self@.spawnable(),
            decreases MAX_CASCADE_ROUNDS - rounds,
        {
            let ghost before = self@;
            let step = self.cascade_step();
            if step.is_none() {
                return true;
            }
            proof {
                lemma_same_outside_chain(old(self)@, before, self@);
                let s = step->Some_0;
                lemma_one_more_round(
                    old(self)@,
                    before,
                    self@,
                    rounds as nat,
                    s.popped@,
                    s.dropped@,
                    s.filled@,
                );
            }
            rounds += 1;
        }
        match self.get_matches() {
            Ok(matches) => {
                proof {
                    lemma_match_listed(*self, matches@);
                }
                matches.is_empty()
            },
            Err(_) => false,
        }
    }
}

} // verus!
