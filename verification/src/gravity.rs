//! The fall of the gems to the bottom of their columns.

use crate::board::Board;
use crate::collections::PairSet;
use crate::model::BoardView;
use crate::position::Position;
use vstd::prelude::*;

verus! {

/// Whether the fall of the gems has not come to cell `p` yet, when it has dealt with
/// the columns before `x` and, in column `x`, with the rows from `y` down.
spec fn untouched(board: BoardView, p: Position, x: int, y: int) -> bool {
    !board.in_bounds(p) || p.x > x || (p.x == x && p.y < y)
}

/// Whether the fall of the gems has dealt with cell `p` of the board.
spec fn settled(board: BoardView, p: Position, x: int, y: int) -> bool {
    board.in_bounds(p) && (p.x < x || (p.x == x && p.y >= y))
}

/// Whether `now` holds the gems of `board` part-way through their fall: the columns
/// before `x` are done, and in column `x` the gems of the rows from `y` down fill the
/// rows from `write` down.
spec fn settling(
    board: BoardView,
    now: Map<Position, u32>,
    x: int,
    y: int,
    write: int,
) -> bool {
    &&& forall|p: Position|
        #![trigger now.contains_key(p)]
        untouched(board, p, x, y) ==> (now.contains_key(p) <==> board.gems.contains_key(p))
    &&& forall|p: Position|
        #![trigger now[p]]
        untouched(board, p, x, y) && board.gems.contains_key(p) ==> now[p] == board.gems[p]
    &&& forall|p: Position|
        #![trigger now.contains_key(p)]
        board.in_bounds(p) && p.x < x ==> (now.contains_key(p) <==> p.y >= board.height
            - board.gems_from(p.x as int, 0))
    &&& forall|p: Position|
        #![trigger now.contains_key(p)]
        board.in_bounds(p) && p.x == x && p.y >= y ==> (now.contains_key(p) <==> p.y >= write)
    &&& forall|p: Position|
        #![trigger board.landing(p)]
        settled(board, p, x, y) && board.gems.contains_key(p) ==> now.contains_key(
            board.landing(p),
        ) && now[board.landing(p)] == board.gems[p]
    &&& forall|q: Position|
        #![trigger now.contains_key(q)]
        settled(board, q, x, y) && now.contains_key(q) ==> exists|p: Position|
            #![trigger board.landing(p)]
            settled(board, p, x, y) && board.gems.contains_key(p) && board.landing(p) == q
}

/// The moves of the gems that the fall has dealt with.
spec fn moved(board: BoardView, x: int, y: int) -> Set<(Position, Position)> {
    Set::new(
        |m: (Position, Position)|
            settled(board, m.0, x, y) && board.gems.contains_key(m.0) && m.1 == board.landing(
                m.0,
            ) && m.1 != m.0,
    )
}

/// A column holds at most one gem per row, and the fewer the fewer rows are counted.
pub proof fn lemma_gems_from_bounds(board: BoardView, x: int, upper: int, lower: int)
    requires
        0 <= upper <= lower <= board.height,
    ensures
        board.gems_from(x, lower) <= board.gems_from(x, upper) <= board.gems_from(x, lower) + (
        lower - upper),
    decreases lower - upper,
{
    if upper < lower {
        lemma_gems_from_bounds(board, x, upper + 1, lower);
    }
}

/// Where a column holds a gem in every row from `from` down, all those rows count.
pub proof fn lemma_column_without_gaps(board: BoardView, x: int, from: int)
    requires
        0 <= x < board.width <= u32::MAX,
        0 <= from <= board.height <= u32::MAX,
        forall|p: Position|
            p.x == x && from <= p.y < board.height ==> #[trigger] board.gems.contains_key(p),
    ensures
        board.gems_from(x, from) == board.height - from,
    decreases board.height - from,
{
    if from < board.height {
        let p = Position { x: x as u32, y: from as u32 };
        assert(board.gems.contains_key(p));
        lemma_column_without_gaps(board, x, from + 1);
    }
}

/// One step of the fall: the gem of row `y - 1`, if there is one, moves to the row
/// above the gems that have fallen already.
proof fn lemma_settling_step(board: BoardView, now: Map<Position, u32>, x: int, y: int, write: int)
    requires
        0 <= x < board.width <= u32::MAX,
        0 < y <= board.height <= u32::MAX,
        write == board.height - board.gems_from(x, y),
        settling(board, now, x, y, write),
    ensures
        ({
            let pos = Position { x: x as u32, y: (y - 1) as u32 };
            let target = Position { x: x as u32, y: (write - 1) as u32 };
            &&& y <= write <= board.height
            &&& now.contains_key(pos) <==> board.gems.contains_key(pos)
            &&& now.contains_key(pos) ==> now[pos] == board.gems[pos]
            &&& board.gems.contains_key(pos) ==> {
                &&& write - 1 == board.height - board.gems_from(x, y - 1)
                &&& board.landing(pos) == target
                &&& write - 1 == y - 1 ==> settling(board, now, x, y - 1, write - 1)
                &&& write - 1 != y - 1 ==> settling(
                    board,
                    now.remove(pos).insert(target, board.gems[pos]),
                    x,
                    y - 1,
                    write - 1,
                )
            }
            &&& !board.gems.contains_key(pos) ==> {
                &&& write == board.height - board.gems_from(x, y - 1)
                &&& settling(board, now, x, y - 1, write)
            }
        }),
{
    let pos = Position { x: x as u32, y: (y - 1) as u32 };
    let target = Position { x: x as u32, y: (write - 1) as u32 };
    lemma_gems_from_bounds(board, x, y, board.height as int);
    assert(untouched(board, pos, x, y));
    assert(now.contains_key(pos) <==> board.gems.contains_key(pos));
    if board.gems.contains_key(pos) {
        assert(now[pos] == board.gems[pos]);
        let next = if write - 1 == y - 1 {
            now
        } else {
            now.remove(pos).insert(target, board.gems[pos])
        };
        assert forall|p: Position|
            #![trigger board.landing(p)]
            settled(board, p, x, y - 1) && board.gems.contains_key(p) implies next.contains_key(
            board.landing(p),
        ) && next[board.landing(p)] == board.gems[p] by {
            if p == pos {
                if write - 1 == y - 1 {
                    assert(now.contains_key(pos));
                }
            } else {
                assert(settled(board, p, x, y));
                if p.x == x {
                    lemma_gems_from_bounds(board, x, y, p.y as int);
                    lemma_gems_from_bounds(board, x, p.y as int, board.height as int);
                }
                assert(board.landing(p) != pos);
                assert(board.landing(p) != target);
            }
        }
        assert forall|p: Position|
            #![trigger next.contains_key(p)]
            board.in_bounds(p) && p.x == x && p.y >= y - 1 implies (next.contains_key(p) <==> p.y
            >= write - 1) by {
            if p.y >= y {
                assert(now.contains_key(p) <==> p.y >= write);
            }
        }
        assert forall|p: Position|
            #![trigger next.contains_key(p)]
            untouched(board, p, x, y - 1) implies (next.contains_key(p) <==> board.gems.contains_key(
            p,
        )) by {
            assert(untouched(board, p, x, y));
            assert(now.contains_key(p) <==> board.gems.contains_key(p));
        }
        assert forall|p: Position|
            #![trigger next[p]]
            untouched(board, p, x, y - 1) && board.gems.contains_key(p) implies next[p]
            == board.gems[p] by {
            assert(untouched(board, p, x, y));
            assert(now[p] == board.gems[p]);
        }
        assert forall|p: Position|
            #![trigger next.contains_key(p)]
            board.in_bounds(p) && p.x < x implies (next.contains_key(p) <==> p.y >= board.height
            - board.gems_from(p.x as int, 0)) by {
            assert(now.contains_key(p) <==> p.y >= board.height - board.gems_from(p.x as int, 0));
        }
        assert(board.landing(pos) == target);
        assert forall|q: Position|
            #![trigger next.contains_key(q)]
            settled(board, q, x, y - 1) && next.contains_key(q) implies exists|p: Position|
            #![trigger board.landing(p)]
            settled(board, p, x, y - 1) && board.gems.contains_key(p) && board.landing(p) == q by {
            if q == target {
                assert(settled(board, pos, x, y - 1) && board.landing(pos) == q);
            } else {
                assert(now.contains_key(q));
                assert(settled(board, q, x, y));
                let p = choose|p: Position|
                    #![trigger board.landing(p)]
                    settled(board, p, x, y) && board.gems.contains_key(p) && board.landing(p) == q;
                assert(settled(board, p, x, y - 1) && board.landing(p) == q);
            }
        }
    } else {
        assert forall|q: Position|
            #![trigger now.contains_key(q)]
            settled(board, q, x, y - 1) && now.contains_key(q) implies exists|p: Position|
            #![trigger board.landing(p)]
            settled(board, p, x, y - 1) && board.gems.contains_key(p) && board.landing(p) == q by {
            assert(settled(board, q, x, y));
            let p = choose|p: Position|
                #![trigger board.landing(p)]
                settled(board, p, x, y) && board.gems.contains_key(p) && board.landing(p) == q;
            assert(settled(board, p, x, y - 1) && board.landing(p) == q);
        }
        assert forall|p: Position|
            #![trigger now.contains_key(p)]
            board.in_bounds(p) && p.x == x && p.y >= y - 1 implies (now.contains_key(p) <==> p.y
            >= write) by {
            if p.y < y {
                assert(p == pos);
            }
        }
        assert forall|p: Position|
            #![trigger board.landing(p)]
            settled(board, p, x, y - 1) && board.gems.contains_key(p) implies now.contains_key(
            board.landing(p),
        ) && now[board.landing(p)] == board.gems[p] by {
            assert(settled(board, p, x, y));
        }
    }
}

/// A column that the fall has gone through is done, and the next one is untouched.
proof fn lemma_settling_next(board: BoardView, now: Map<Position, u32>, x: int, write: int)
    requires
        0 <= x < board.width,
        write == board.height - board.gems_from(x, 0),
        settling(board, now, x, 0, write),
    ensures
        settling(board, now, x + 1, board.height as int, board.height as int),
{
    assert forall|p: Position|
        #![trigger board.landing(p)]
        settled(board, p, x + 1, board.height as int) && board.gems.contains_key(
            p,
        ) implies now.contains_key(board.landing(p)) && now[board.landing(p)] == board.gems[p] by {
        assert(settled(board, p, x, 0));
    }
    assert forall|p: Position|
        #![trigger now.contains_key(p)]
        untouched(board, p, x + 1, board.height as int) implies (now.contains_key(p)
        <==> board.gems.contains_key(p)) by {
        assert(untouched(board, p, x, 0));
    }
    assert forall|p: Position|
        #![trigger now[p]]
        untouched(board, p, x + 1, board.height as int) && board.gems.contains_key(p) implies now[p]
        == board.gems[p] by {
        assert(untouched(board, p, x, 0));
    }
    assert forall|q: Position|
        #![trigger now.contains_key(q)]
        settled(board, q, x + 1, board.height as int) && now.contains_key(q) implies exists|
        p: Position,
    |
        #![trigger board.landing(p)]
        settled(board, p, x + 1, board.height as int) && board.gems.contains_key(p)
            && board.landing(p) == q by {
        assert(settled(board, q, x, 0));
        let p = choose|p: Position|
            #![trigger board.landing(p)]
            settled(board, p, x, 0) && board.gems.contains_key(p) && board.landing(p) == q;
        assert(settled(board, p, x + 1, board.height as int) && board.landing(p) == q);
    }
}

impl Board {
    /// Lets the gems of every column fall to the bottom of the board.
    ///
    /// The gems of a column keep their order, and the emptied cells are at its top.
    /// Returns, for every gem that changed its cell, the cell it left and the cell it
    /// landed in.
    pub fn drop(&mut self) -> (moves: PairSet)
        ensures
            old(self)@.dropped_to(final(self)@),
            moves@ == old(self)@.drop_moves(),
            old(self)@.full() ==> final(self)@.full(),
            old(self)@.spawnable() ==> final(self)@.spawnable(),
    {
        let mut moves = PairSet::new();
        let width = self.dimensions.x;
        let height = self.dimensions.y;
        let mut x: u32 = 0;
        while x < width
            invariant
                x <= width,
                width == old(self)@.width,
                height == old(self)@.height,
                self.dimensions == old(self).dimensions,
                self@.types == old(self)@.types,
                settling(old(self)@, self@.gems, x as int, height as int, height as int),
                moves@ =~= moved(old(self)@, x as int, height as int),
            decreases width - x,
        {
            let mut y: u32 = height;
            let mut write: u32 = height;
            while y > 0
                invariant
                    x < width,
                    width == old(self)@.width,
                    height == old(self)@.height,
                    self.dimensions == old(self).dimensions,
                    self@.types == old(self)@.types,
                    y <= write <= height,
                    write == height - old(self)@.gems_from(x as int, y as int),
                    settling(old(self)@, self@.gems, x as int, y as int, write as int),
                    moves@ =~= moved(old(self)@, x as int, y as int),
                decreases y,
            {
                proof {
                    lemma_settling_step(old(self)@, self@.gems, x as int, y as int, write as int);
                }
                y -= 1;
                let pos = Position { x, y };
                let gem = match self.gems.get(&pos) {
                    Some(typ) => Some(*typ),
                    None => None,
                };
                let ghost before = moves@;
                if let Some(typ) = gem {
                    write -= 1;
                    if write != y {
                        let target = Position { x, y: write };
                        self.gems.remove(&pos);
                        self.gems.insert(target, typ);
                        moves.insert(pos, target);
                    }
                }
                proof {
                    let o = old(self)@;
                    assert(o.gems.contains_key(pos) ==> o.landing(pos) == Position {
                        x,
                        y: write,
                    });
                    assert forall|m: (Position, Position)|
                        moves@.contains(m) <==> moved(o, x as int, y as int).contains(m) by {
                        if m.0 != pos {
                            assert(before.contains(m) <==> moved(
                                o,
                                x as int,
                                y + 1,
                            ).contains(m));
                        }
                    }
                }
            }
            proof {
                lemma_settling_next(old(self)@, self@.gems, x as int, write as int);
                assert(moved(old(self)@, x as int, 0) =~= moved(
                    old(self)@,
                    x + 1,
                    height as int,
                ));
            }
            x += 1;
        }
        proof {
            let o = old(self)@;
            assert(moved(o, width as int, height as int) =~= o.drop_moves());
            assert forall|q: Position|
                #![trigger self@.gems.contains_key(q)]
                o.in_bounds(q) && self@.gems.contains_key(q) implies exists|p: Position|
                #![trigger o.landing(p)]
                o.in_bounds(p) && o.gems.contains_key(p) && o.landing(p) == q by {
                assert(settled(o, q, width as int, height as int));
                let p = choose|p: Position|
                    #![trigger o.landing(p)]
                    settled(o, p, width as int, height as int) && o.gems.contains_key(p)
                        && o.landing(p) == q;
                assert(o.in_bounds(p) && o.landing(p) == q);
            }
            if o.spawnable() {
                assert forall|q: Position|
                    #![trigger self@.gems[q]]
                    self@.gems.contains_key(q) implies self@.types.contains(self@.gems[q]) by {
                    if o.in_bounds(q) {
                        let p = choose|p: Position|
                            #![trigger o.landing(p)]
                            o.in_bounds(p) && o.gems.contains_key(p) && o.landing(p) == q;
                        assert(self@.gems[o.landing(p)] == o.gems[p]);
                        assert(o.types.contains(o.gems[p]));
                    } else {
                        assert(o.gems.contains_key(q));
                        assert(self@.gems[q] == o.gems[q]);
                        assert(o.types.contains(o.gems[q]));
                    }
                }
            }
            if o.full() {
                assert forall|p: Position| self@.in_bounds(p) implies #[trigger] self@.gems.contains_key(
                    p,
                ) by {
                    lemma_column_without_gaps(o, p.x as int, 0);
                }
            }
        }
        moves
    }
}

} // verus!
