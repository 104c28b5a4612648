//! The refill of the empty cells.

use crate::board::Board;
use crate::collections::FillSet;
use crate::model::BoardView;
use crate::position::Position;
use vstd::prelude::*;

verus! {

/// Whether the refill has come to cell `p` of the board, when it has dealt with the
/// columns before `x` and, in column `x`, with the rows above `y`.
pub open spec fn reached(board: BoardView, p: Position, x: int, y: int) -> bool {
    board.in_bounds(p) && (p.x < x || (p.x == x && p.y < y))
}

/// Whether `now` holds the gems of `board` part-way through a refill.
spec fn filling(board: BoardView, now: Map<Position, u32>, x: int, y: int) -> bool {
    &&& forall|p: Position|
        #![trigger now.contains_key(p)]
        now.contains_key(p) <==> (board.gems.contains_key(p) || reached(board, p, x, y))
    &&& forall|p: Position|
        #![trigger now[p]]
        board.gems.contains_key(p) ==> now[p] == board.gems[p]
    &&& forall|p: Position|
        #![trigger now[p]]
        reached(board, p, x, y) && !board.gems.contains_key(p) ==> board.types.contains(now[p])
}

/// The cells that the refill has given a gem so far, each with the type of that gem.
spec fn filled(board: BoardView, now: Map<Position, u32>, x: int, y: int) -> Set<
    (Position, u32),
> {
    Set::new(
        |f: (Position, u32)|
            reached(board, f.0, x, y) && !board.gems.contains_key(f.0) && now[f.0] == f.1,
    )
}

impl Board {
    /// Gives every empty cell of the board a gem of a type drawn at random from the
    /// types that the board may spawn.
    ///
    /// Returns the cells that were filled, each with the type it was given. Unless the
    /// board is full already, it must have a type to spawn.
    pub fn fill(&mut self) -> (fills: FillSet)
        requires
            !old(self)@.full() ==> exists|t: u32| old(self)@.types.contains(t),
        ensures
            old(self)@.filled_to(final(self)@),
            final(self)@.full(),
            fills@ == old(self)@.fills(final(self)@),
            old(self)@.spawnable() ==> final(self)@.spawnable(),
    {
        let mut fills = FillSet::new();
        let width = self.dimensions.x;
        let height = self.dimensions.y;
        let mut x: u32 = 0;
        while x < width
            invariant
                x <= width,
                width == old(self)@.width,
                height == old(self)@.height,
                self.dimensions == old(self).dimensions,
                self@.types == old(self)@.types,
                !old(self)@.full() ==> exists|t: u32| old(self)@.types.contains(t),
                filling(old(self)@, self@.gems, x as int, 0),
                fills@ =~= filled(old(self)@, self@.gems, x as int, 0),
            decreases width - x,
        {
            let mut y: u32 = 0;
            while y < height
                invariant
                    x < width,
                    y <= height,
                    width == old(self)@.width,
                    height == old(self)@.height,
                    self.dimensions == old(self).dimensions,
                    self@.types == old(self)@.types,
                    !old(self)@.full() ==> exists|t: u32| old(self)@.types.contains(t),
                    filling(old(self)@, self@.gems, x as int, y as int),
                    fills@ =~= filled(old(self)@, self@.gems, x as int, y as int),
                decreases height - y,
            {
                let pos = Position { x, y };
                let ghost before = self@.gems;
                let ghost listed = fills@;
                assert(!reached(old(self)@, pos, x as int, y as int));
                assert(before.contains_key(pos) <==> old(self)@.gems.contains_key(pos));
                if self.gems.get(&pos).is_none() {
                    assert(old(self)@.in_bounds(pos));
                    match self.types.draw() {
                        Some(typ) => {
                            self.gems.insert(pos, typ);
                            fills.insert(pos, typ);
                        },
                        None => {
                            assert(false);
                        },
                    }
                }
                proof {
                    let o = old(self)@;
                    assert forall|p: Position|
                        #![trigger self@.gems[p]]
                        o.gems.contains_key(p) implies self@.gems[p] == o.gems[p] by {
                        assert(before[p] == o.gems[p]);
                    }
                    assert forall|p: Position|
                        #![trigger self@.gems[p]]
                        reached(o, p, x as int, y + 1) && !o.gems.contains_key(
                            p,
                        ) implies o.types.contains(self@.gems[p]) by {
                        if p != pos {
                            assert(reached(o, p, x as int, y as int));
                            assert(o.types.contains(before[p]));
                        }
                    }
                    assert forall|f: (Position, u32)|
                        fills@.contains(f) <==> filled(o, self@.gems, x as int, y + 1).contains(
                            f,
                        ) by {
                        if f.0 != pos {
                            assert(listed.contains(f) <==> filled(
                                o,
                                before,
                                x as int,
                                y as int,
                            ).contains(f));
                        }
                    }
                }
                y += 1;
            }
            proof {
                let o = old(self)@;
                assert forall|p: Position|
                    reached(o, p, x as int, height as int) <==> reached(o, p, x + 1, 0) by {}
                assert(filled(o, self@.gems, x as int, height as int) =~= filled(
                    o,
                    self@.gems,
                    x + 1,
                    0,
                ));
            }
            x += 1;
        }
        proof {
            let o = old(self)@;
            assert forall|p: Position| o.in_bounds(p) <==> reached(o, p, width as int, 0) by {}
            assert(filled(o, self@.gems, width as int, 0) =~= o.fills(self@));
            if o.spawnable() {
                assert forall|q: Position|
                    #![trigger self@.gems[q]]
                    self@.gems.contains_key(q) implies self@.types.contains(self@.gems[q]) by {
                    if o.gems.contains_key(q) {
                        assert(self@.gems[q] == o.gems[q]);
                        assert(o.types.contains(o.gems[q]));
                    } else {
                        assert(reached(o, q, width as int, 0));
                    }
                }
            }
        }
        fills
    }
}

} // verus!
