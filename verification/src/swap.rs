//! Swaps of two gems.

use crate::board::Board;
use crate::laws::lemma_match_listed;
use crate::model::{BoardView, SwapError};
use crate::position::Position;
use vstd::prelude::*;

verus! {

/// Exchanging the gems of two cells gives one board, whichever cell is named first.
pub proof fn lemma_swapped_either_way(board: BoardView, a: Position, b: Position)
    ensures
        board.swapped(a, b) == board.swapped(b, a),
{
    assert(board.swapped(a, b).gems =~= board.swapped(b, a).gems);
}

impl Board {
    /// Exchanges the gems of two cells if that makes a match.
    ///
    /// The request is refused with `NoGem` for the first of the two cells that holds no
    /// gem, and with `NoMatches` if the board with the two gems exchanged has no match.
    /// A refused request leaves the board as it was. An accepted one leaves the two
    /// gems exchanged; the matches are not cleared.
    ///
    /// Where both cells hold a gem, every cell of the board must hold one.
    pub fn swap(&mut self, pos1: &Position, pos2: &Position) -> (r: Result<(), SwapError>)
        requires
            old(self)@.gems.contains_key(*pos1) && old(self)@.gems.contains_key(*pos2) ==> old(
                self,
            )@.full(),
        ensures
            r == old(self)@.swap_outcome(*pos1, *pos2),
            r is Ok ==> final(self)@ == old(self)@.swapped(*pos1, *pos2),
            r is Err ==> final(self)@ == old(self)@,
            old(self)@.full() ==> final(self)@.full(),
            old(self)@.spawnable() ==> final(self)@.spawnable(),
    {
        let gem1 = match self.get(pos1) {
            Some(gem) => *gem,
            None => {
                return Err(SwapError::NoGem(*pos1));
            },
        };
        let gem2 = match self.get(pos2) {
            Some(gem) => *gem,
            None => {
                return Err(SwapError::NoGem(*pos2));
            },
        };
        self.gems.insert(*pos1, gem2);
        self.gems.insert(*pos2, gem1);
        proof {
            old(self).lemma_swapped_full(*pos1, *pos2);
            assert(self@ =~= old(self)@.swapped(*pos1, *pos2));
        }
        let found = match self.get_matches() {
            Ok(matches) => {
                proof {
                    lemma_match_listed(*self, matches@);
                }
                !matches.is_empty()
            },
            Err(_) => false,
        };
        if found {
            proof {
                if old(self)@.spawnable() {
                    assert forall|q: Position|
                        #![trigger self@.gems[q]]
                        self@.gems.contains_key(q) implies self@.types.contains(self@.gems[q]) by {
                        assert(old(self)@.types.contains(old(self)@.gems[*pos1]));
                        assert(old(self)@.types.contains(old(self)@.gems[*pos2]));
                        if q != *pos1 && q != *pos2 {
                            assert(self@.gems[q] == old(self)@.gems[q]);
                            assert(old(self)@.types.contains(old(self)@.gems[q]));
                        }
                    }
                }
            }
            Ok(())
        } else {
            self.gems.insert(*pos1, gem1);
            self.gems.insert(*pos2, gem2);
            assert(self@.gems =~= old(self)@.gems);
            assert(self@ =~= old(self)@);
            Err(SwapError::NoMatches)
        }
    }

    /// Tells what `swap` would answer, and leaves the board as it was either way.
    ///
    /// Where both cells hold a gem, every cell of the board must hold one.
    pub fn try_swap(&mut self, pos1: &Position, pos2: &Position) -> (r: Result<(), SwapError>)
        requires
            old(self)@.gems.contains_key(*pos1) && old(self)@.gems.contains_key(*pos2) ==> old(
                self,
            )@.full(),
        ensures
            r == old(self)@.swap_outcome(*pos1, *pos2),
            final(self)@ == old(self)@,
    {
        let gem1 = match self.get(pos1) {
            Some(gem) => *gem,
            None => {
                return Err(SwapError::NoGem(*pos1));
            },
        };
        let gem2 = match self.get(pos2) {
            Some(gem) => *gem,
            None => {
                return Err(SwapError::NoGem(*pos2));
            },
        };
        self.gems.insert(*pos1, gem2);
        self.gems.insert(*pos2, gem1);
        proof {
            old(self).lemma_swapped_full(*pos1, *pos2);
            assert(self@ =~= old(self)@.swapped(*pos1, *pos2));
        }
        let found = match self.get_matches() {
            Ok(matches) => {
                proof {
                    lemma_match_listed(*self, matches@);
                }
                !matches.is_empty()
            },
            Err(_) => false,
        };
        self.gems.insert(*pos1, gem1);
        self.gems.insert(*pos2, gem2);
        assert(self@.gems =~= old(self)@.gems);
        assert(self@ =~= old(self)@);
        if found {
            Ok(())
        } else {
            Err(SwapError::NoMatches)
        }
    }

    /// Exchanging two gems of a full board leaves it full.
    proof fn lemma_swapped_full(&self, a: Position, b: Position)
        requires
            self@.full(),
        ensures
            self@.swapped(a, b).full(),
    {
        assert forall|p: Position| self@.swapped(a, b).in_bounds(p) implies #[trigger] self@.swapped(
            a,
            b,
        ).gems.contains_key(p) by {
            assert(self@.gems.contains_key(p));
        }
    }
}

} // verus!
