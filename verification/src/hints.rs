//! The moves that make a match.

use crate::board::Board;
use crate::model::BoardView;
use crate::moves::MoveSet;
use crate::position::{BoardMove, Position};
use crate::refill::reached;
use crate::swap::lemma_swapped_either_way;
use vstd::prelude::*;

verus! {

/// The matching moves between `p` and one of the cells in `others`.
spec fn hints_among(board: BoardView, p: Position, others: Seq<Position>) -> Set<
    (Position, Position),
> {
    Set::new(
        |m: (Position, Position)|
            board.is_hint(m.0, m.1) && ((m.0 == p && others.contains(m.1)) || (m.1 == p
                && others.contains(m.0))),
    )
}

/// The matching moves that a cell has a part in which the search has come to.
spec fn hints_so_far(board: BoardView, x: int, y: int) -> Set<(Position, Position)> {
    Set::new(
        |m: (Position, Position)|
            board.is_hint(m.0, m.1) && (reached(board, m.0, x, y) || reached(board, m.1, x, y)),
    )
}

/// The neighbours of a cell are the cells of the board one step to its left, to its
/// right, above it and below it.
pub(crate) proof fn lemma_neighbours(board: BoardView, p: Position, q: Position)
    ensures
        board.neighbours(p).contains(q) <==> (q != p && board.in_bounds(q) && (q == p.spec_left()
            || q == p.spec_right() || q == p.spec_up() || q == p.spec_down())),
{
    let a = board.neighbour(p, p.spec_left());
    let b = board.neighbour(p, p.spec_right());
    let c = board.neighbour(p, p.spec_up());
    let d = board.neighbour(p, p.spec_down());
    let all = board.neighbours(p);
    if all.contains(q) {
        let i = choose|i: int| 0 <= i < all.len() && all[i] == q;
        if i < a.len() {
            assert(all[i] == a[i]);
        } else if i < a.len() + b.len() {
            assert(all[i] == b[i - a.len()]);
        } else if i < a.len() + b.len() + c.len() {
            assert(all[i] == c[i - a.len() - b.len()]);
        } else {
            assert(all[i] == d[i - a.len() - b.len() - c.len()]);
        }
    }
    if q != p && board.in_bounds(q) {
        if q == p.spec_left() {
            assert(all[0] == q);
        } else if q == p.spec_right() {
            assert(all[a.len() as int] == q);
        } else if q == p.spec_up() {
            assert(all[(a.len() + b.len()) as int] == q);
        } else if q == p.spec_down() {
            assert(all[(a.len() + b.len() + c.len()) as int] == q);
        }
    }
}

impl Board {
    /// The cells of the board next to `pos`: to its left, to its right, above and
    /// below, in this order.
    pub fn adjacents(&self, pos: Position) -> (cells: Vec<Position>)
        ensures
            cells@ == self@.neighbours(pos),
    {
        let mut cells: Vec<Position> = Vec::new();
        let left = pos.left();
        if left != pos && self.in_bounds(&left) {
            cells.push(left);
        }
        assert(cells@ =~= self@.neighbour(pos, pos.spec_left()));
        let right = pos.right();
        if right != pos && self.in_bounds(&right) {
            cells.push(right);
        }
        assert(cells@ =~= self@.neighbour(pos, pos.spec_left()) + self@.neighbour(
            pos,
            pos.spec_right(),
        ));
        let up = pos.up();
        if up != pos && self.in_bounds(&up) {
            cells.push(up);
        }
        assert(cells@ =~= self@.neighbour(pos, pos.spec_left()) + self@.neighbour(
            pos,
            pos.spec_right(),
        ) + self@.neighbour(pos, pos.spec_up()));
        let down = pos.down();
        if down != pos && self.in_bounds(&down) {
            cells.push(down);
        }
        assert(cells@ =~= self@.neighbours(pos));
        cells
    }

    /// Adds to `moves` the matching moves that `pos` has a part in. `temp` is a copy
    /// of the board to try the moves on.
    fn hints_at(&self, temp: &mut Board, pos: Position, moves: &mut MoveSet)
        requires
            self@.full(),
            old(temp)@ == self@,
            self@.in_bounds(pos),
        ensures
            final(temp)@ == self@,
            final(moves)@ == old(moves)@.union(self@.hints_around(pos)),
    {
        let adjacents = self.adjacents(pos);
        let mut k: usize = 0;
        while k < adjacents.len()
            invariant
                k <= adjacents.len(),
                self@.full(),
                temp@ == self@,
                self@.in_bounds(pos),
                adjacents@ == self@.neighbours(pos),
                moves@ =~= old(moves)@.union(hints_among(self@, pos, adjacents@.take(k as int))),
            decreases adjacents.len() - k,
        {
            let other = adjacents[k];
            proof {
                lemma_neighbours(self@, pos, other);
                assert(adjacents@.contains(adjacents@[k as int]));
                lemma_swapped_either_way(self@, pos, other);
                assert(adjacents@.take(k + 1) =~= adjacents@.take(k as int).push(other));
                assert forall|q: Position|
                    adjacents@.take(k + 1).contains(q) <==> (adjacents@.take(k as int).contains(q)
                        || q == other) by {
                    let longer = adjacents@.take(k + 1);
                    let shorter = adjacents@.take(k as int);
                    if longer.contains(q) {
                        let i = choose|i: int| 0 <= i < longer.len() && longer[i] == q;
                        if i < k {
                            assert(shorter[i] == q);
                        }
                    }
                    if shorter.contains(q) {
                        let i = choose|i: int| 0 <= i < shorter.len() && shorter[i] == q;
                        assert(longer[i] == q);
                    }
                    if q == other {
                        assert(longer[k as int] == q);
                    }
                }
            }
            let ghost before = moves@;
            let mv = BoardMove(pos, other);
            if temp.try_swap(&pos, &other).is_ok() {
                moves.insert(mv);
            }
            proof {
                let wider = hints_among(self@, pos, adjacents@.take(k + 1));
                let narrower = hints_among(self@, pos, adjacents@.take(k as int));
                assert forall|m: (Position, Position)|
                    moves@.contains(m) <==> old(moves)@.union(wider).contains(m) by {
                    assert(before.contains(m) <==> old(moves)@.union(narrower).contains(m));
                    if wider.contains(m) && !narrower.contains(m) {
                        assert(m == mv.spec_canonical());
                    }
                }
            }
            k += 1;
        }
        proof {
            assert(adjacents@.take(adjacents.len() as int) =~= adjacents@);
            assert forall|m: (Position, Position)|
                hints_among(self@, pos, adjacents@).contains(m) <==> self@.hints_around(
                    pos,
                ).contains(m) by {
                if self@.is_hint(m.0, m.1) {
                    if m.0 == pos {
                        lemma_neighbours(self@, pos, m.1);
                    }
                    if m.1 == pos {
                        lemma_neighbours(self@, pos, m.0);
                    }
                }
            }
            assert(hints_among(self@, pos, adjacents@) =~= self@.hints_around(pos));
        }
    }

    /// The moves that make a match on a full board: every pair of neighbouring cells
    /// whose gems, exchanged, make one. A pair is reported once, whichever of its two
    /// cells it was found from.
    pub fn get_matching_moves(&self) -> (moves: MoveSet)
        requires
            self@.full(),
        ensures
            moves@ == self@.matching_moves(),
    {
        let mut moves = MoveSet::new();
        let mut temp = self.clone();
        let width = self.dimensions.x;
        let height = self.dimensions.y;
        let mut x: u32 = 0;
        while x < width
            invariant
                x <= width,
                width == self@.width,
                height == self@.height,
                self@.full(),
                temp@ == self@,
                moves@ =~= hints_so_far(self@, x as int, 0),
            decreases width - x,
        {
            let mut y: u32 = 0;
            while y < height
                invariant
                    x < width,
                    y <= height,
                    width == self@.width,
                    height == self@.height,
                    self@.full(),
                    temp@ == self@,
                    moves@ =~= hints_so_far(self@, x as int, y as int),
                decreases height - y,
            {
                let pos = Position { x, y };
                self.hints_at(&mut temp, pos, &mut moves);
                proof {
                    assert forall|p: Position|
                        reached(self@, p, x as int, y + 1) <==> (reached(
                            self@,
                            p,
                            x as int,
                            y as int,
                        ) || p == pos) by {}
                    assert(hints_so_far(self@, x as int, y as int).union(
                        self@.hints_around(pos),
                    ) =~= hints_so_far(self@, x as int, y + 1));
                }
                y += 1;
            }
            proof {
                assert forall|p: Position|
                    reached(self@, p, x as int, height as int) <==> reached(self@, p, x + 1, 0) by {}
                assert(hints_so_far(self@, x as int, height as int) =~= hints_so_far(
                    self@,
                    x + 1,
                    0,
                ));
            }
            x += 1;
        }
        proof {
            assert forall|p: Position| self@.in_bounds(p) <==> reached(self@, p, width as int, 0) by {}
            assert(hints_so_far(self@, width as int, 0) =~= self@.matching_moves());
        }
        moves
    }
}

} // verus!
