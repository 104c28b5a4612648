//! What a generated board is made from.

use crate::board::Board;
use crate::cascade::MAX_CASCADE_ROUNDS;
use crate::laws::lemma_small_board_has_no_match;
use crate::model::BoardView;
use crate::collections::{random_below, GemMap, TypeSet};
use crate::position::Position;
use vstd::prelude::*;

verus! {

/// The size of a generated board and the number of its gem types.
#[derive(Clone, Copy, Debug)]
pub struct Match3Config {
    /// The number of different gem types the board can spawn.
    pub gem_types: u32,
    /// The rectangular dimensions of the board.
    pub board_dimensions: Position,
}

impl Default for Match3Config {
    /// Five gem types on ten columns and ten rows.
    fn default() -> (config: Self)
        ensures
            config.gem_types == 5,
            config.board_dimensions == (Position { x: 10, y: 10 }),
    {
        Match3Config { gem_types: 5, board_dimensions: Position { x: 10, y: 10 } }
    }
}

/// Why no board was generated.
#[derive(Clone, Copy, Debug, PartialEq, Eq, Structural)]
pub enum GenerateError {
    /// Fewer than three gem types were asked for.
    TooFewGemTypes,
    /// The generated board still had matches when the clearing of matches gave up.
    Unsettled,
}

impl Match3Config {
    /// Whether `board` is a board that this configuration allows: of the configured
    /// size, with the numbers below `gem_types` as its types, full, with gems of these
    /// types only, and with no gem outside the board.
    pub open spec fn allows(self, board: BoardView) -> bool {
        &&& board.width == self.board_dimensions.x
        &&& board.height == self.board_dimensions.y
        &&& board.types == Set::new(|t: u32| t < self.gem_types)
        &&& board.full()
        &&& board.spawnable()
        &&& forall|p: Position| #[trigger] board.gems.contains_key(p) ==> board.in_bounds(p)
    }

    /// Whether a board of the configured size is too small to hold a match: it has
    /// no line of three cells.
    pub open spec fn too_small_to_match(self) -> bool {
        let size = self.board_dimensions;
        !(size.x >= 3 && size.y >= 1) && !(size.y >= 3 && size.x >= 1)
    }
}

impl Board {
    /// A board of the configured size, filled at random with gems of the configured
    /// number of types. Its matches are not cleared.
    ///
    /// The types are the numbers below `gem_types`. Fewer than three are refused.
    pub fn random(config: &Match3Config) -> (r: Result<Board, GenerateError>)
        ensures
            r is Ok <==> config.gem_types >= 3,
            r matches Err(e) ==> e == GenerateError::TooFewGemTypes,
            r matches Ok(board) ==> board.dimensions == config.board_dimensions && config.allows(
                board@,
            ),
    {
        if config.gem_types < 3 {
            return Err(GenerateError::TooFewGemTypes);
        }
        let gem_types = config.gem_types;
        let dimensions = config.board_dimensions;
        let mut types = TypeSet::new();
        let mut t: u32 = 0;
        while t < gem_types
            invariant
                t <= gem_types,
                types@ =~= Set::new(|n: u32| n < t),
            decreases gem_types - t,
        {
            types.insert(t);
            t += 1;
        }
        let mut gems = GemMap::new();
        let mut x: u32 = 0;
        while x < dimensions.x
            invariant
                x <= dimensions.x,
                gem_types >= 3,
                forall|p: Position|
                    #![trigger gems@.contains_key(p)]
                    gems@.contains_key(p) <==> (p.x < x && p.y < dimensions.y),
                forall|p: Position|
                    #![trigger gems@[p]]
                    gems@.contains_key(p) ==> gems@[p] < gem_types,
            decreases dimensions.x - x,
        {
            let mut y: u32 = 0;
            while y < dimensions.y
                invariant
                    x < dimensions.x,
                    y <= dimensions.y,
                    gem_types >= 3,
                    forall|p: Position|
                        #![trigger gems@.contains_key(p)]
                        gems@.contains_key(p) <==> ((p.x < x && p.y < dimensions.y) || (p.x == x
                            && p.y < y)),
                    forall|p: Position|
                        #![trigger gems@[p]]
                        gems@.contains_key(p) ==> gems@[p] < gem_types,
                decreases dimensions.y - y,
            {
                let ghost placed = gems@;
                let typ = random_below(gem_types);
                gems.insert(Position { x, y }, typ);
                proof {
                    assert forall|p: Position|
                        #![trigger gems@.contains_key(p)]
                        gems@.contains_key(p) <==> ((p.x < x && p.y < dimensions.y) || (p.x == x
                            && p.y < y + 1)) by {
                        assert(placed.contains_key(p) <==> ((p.x < x && p.y < dimensions.y) || (
                        p.x == x && p.y < y)));
                    }
                    assert forall|p: Position|
                        #![trigger gems@[p]]
                        gems@.contains_key(p) implies gems@[p] < gem_types by {
                        if p != (Position { x, y }) {
                            assert(placed.contains_key(p));
                            assert(placed[p] < gem_types);
                        }
                    }
                }
                y += 1;
            }
            x += 1;
        }
        let board = Board { dimensions, gems, types };
        proof {
            assert forall|p: Position| board@.in_bounds(p) implies #[trigger] board@.gems.contains_key(
                p,
            ) by {}
        }
        Ok(board)
    }

    /// A board of the configured size, filled at random with gems of the configured
    /// number of types, and cleared of matches.
    ///
    /// The types are the numbers below `gem_types`. Fewer than three are refused. The
    /// board is filled once and then cleared with `clear_matches`; if it still has a
    /// match after `MAX_CASCADE_ROUNDS` rounds, the answer is `Unsettled`. A board
    /// that is too small to hold a match is never unsettled.
    pub fn generate(config: &Match3Config) -> (r: Result<Board, GenerateError>)
        ensures
            config.gem_types < 3 <==> r matches Err(GenerateError::TooFewGemTypes),
            config.gem_types >= 3 && config.too_small_to_match() ==> r is Ok,
            r matches Ok(board) ==> {
                &&& board.dimensions == config.board_dimensions
                &&& config.allows(board@)
                &&& !board@.has_match()
                &&& exists|fresh: BoardView, rounds: nat|
                    config.allows(fresh) && rounds <= MAX_CASCADE_ROUNDS
                        && #[trigger] fresh.cascades_in(board@, rounds)
            },
            r matches Err(GenerateError::Unsettled) ==> exists|fresh: BoardView, last: BoardView|
                config.allows(fresh) && #[trigger] fresh.cascades_in(
                    last,
                    MAX_CASCADE_ROUNDS as nat,
                ) && last.has_match(),
    {
        let mut board = match Board::random(config) {
            Ok(board) => board,
            Err(e) => {
                return Err(e);
            },
        };
        let ghost fresh = board@;
        proof {
            assert(fresh.types.contains(0));
            if config.too_small_to_match() {
                lemma_small_board_has_no_match(board);
            }
        }
        let stable = board.clear_matches();
        proof {
            assert forall|p: Position| #[trigger]
                board@.gems.contains_key(p) implies board@.in_bounds(p) by {
                if !fresh.in_bounds(p) {
                    assert(!fresh.gems.contains_key(p));
                }
            }
        }
        if stable {
            proof {
                let rounds = choose|rounds: nat|
                    rounds <= MAX_CASCADE_ROUNDS && #[trigger] fresh.cascades_in(board@, rounds);
                assert(config.allows(fresh) && fresh.cascades_in(board@, rounds));
            }
            Ok(board)
        } else {
            proof {
                assert(config.allows(fresh) && fresh.cascades_in(
                    board@,
                    MAX_CASCADE_ROUNDS as nat,
                ) && board@.has_match());
            }
            Err(GenerateError::Unsettled)
        }
    }
}

} // verus!
