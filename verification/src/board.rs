//! The board, its cells and its construction from a grid.

use crate::collections::{GemMap, TypeSet};
use crate::matches::MatchDirection;
use crate::model::{cell_at, grid_view, is_rectangular, BoardView};
use crate::position::Position;
use vstd::prelude::*;
use vstd::std_specs::cmp::PartialEqSpecImpl;

verus! {

/// The logical match-3 board.
#[derive(Debug)]
pub struct Board {
    /// The extent of the board: `x` columns and `y` rows.
    pub dimensions: Position,
    /// The gem type of every occupied cell.
    pub gems: GemMap,
    /// The gem types that a refill may spawn.
    pub types: TypeSet,
}

/// A search for matches met a cell of the board that holds no gem.
#[derive(Clone, Copy, Debug, PartialEq, Eq, Structural)]
pub struct MissingGemError {
    /// The first such cell that the search came to.
    pub position: Position,
}

impl Clone for Board {
    fn clone(&self) -> (copy: Self)
        ensures
            copy@ == self@,
    {
        Board {
            dimensions: self.dimensions,
            gems: self.gems.duplicate(),
            types: self.types.duplicate(),
        }
    }
}

impl PartialEq for Board {
    /// Whether the two boards have the same size, the same gems in the same cells and
    /// the same types to spawn.
    fn eq(&self, other: &Self) -> (equal: bool) {
        let equal = self.dimensions == other.dimensions && self.gems.same(&other.gems)
            && self.types.same(&other.types);
        proof {
            if equal {
                assert(self@ =~= other@);
            }
        }
        equal
    }
}

impl PartialEqSpecImpl for Board {
    open spec fn obeys_eq_spec() -> bool {
        true
    }

    open spec fn eq_spec(&self, other: &Self) -> bool {
        self@ == other@
    }
}

impl Eq for Board {

}

impl View for Board {
    type V = BoardView;

    open spec fn view(&self) -> BoardView {
        BoardView {
            width: self.dimensions.x as nat,
            height: self.dimensions.y as nat,
            gems: self.gems@,
            types: self.types@,
        }
    }
}

impl Board {
    /// The gem type at the given position, if the cell holds a gem.
    pub fn get(&self, pos: &Position) -> (gem: Option<&u32>)
        ensures
            gem is Some <==> self@.gems.contains_key(*pos),
            gem matches Some(typ) ==> *typ == self@.gems[*pos],
    {
        self.gems.get(pos)
    }

    /// Takes the gem, if any, out of the given cell.
    pub fn remove(&mut self, pos: &Position)
        ensures
            final(self)@ == (BoardView { gems: old(self)@.gems.remove(*pos), ..old(self)@ }),
            old(self)@.spawnable() ==> final(self)@.spawnable(),
    {
        self.gems.remove(pos);
        proof {
            if old(self)@.spawnable() {
                assert forall|q: Position|
                    #![trigger self@.gems[q]]
                    self@.gems.contains_key(q) implies self@.types.contains(self@.gems[q]) by {
                    assert(self@.gems[q] == old(self)@.gems[q]);
                    assert(old(self)@.types.contains(old(self)@.gems[q]));
                }
            }
        }
    }

    /// Puts a gem of the given type into the given cell, in place of any gem there.
    pub fn insert(&mut self, pos: Position, typ: u32)
        ensures
            final(self)@ == (BoardView { gems: old(self)@.gems.insert(pos, typ), ..old(self)@ }),
            old(self)@.full() ==> final(self)@.full(),
    {
        self.gems.insert(pos, typ);
        proof {
            if old(self)@.full() {
                assert forall|p: Position| self@.in_bounds(p) implies #[trigger] self@.gems.contains_key(
                    p,
                ) by {
                    assert(old(self)@.gems.contains_key(p));
                }
            }
        }
    }

    /// Whether the cell lies on the board.
    pub fn in_bounds(&self, pos: &Position) -> (r: bool)
        ensures
            r == self@.in_bounds(*pos),
    {
        pos.x < self.dimensions.x && pos.y < self.dimensions.y
    }

    /// Every occupied cell with its gem type, each once, in no particular order.
    pub fn iter(&self) -> (entries: Vec<(Position, u32)>)
        ensures
            entries@.no_duplicates(),
            forall|p: Position, t: u32|
                entries@.contains((p, t)) <==> (self@.gems.contains_key(p) && self@.gems[p] == t),
    {
        self.gems.entries()
    }

    /// The board that a grid of gem types describes: one row of the board for each row
    /// of the grid, the first row on top. The first row gives the board its width, and
    /// the types that occur are those that the board may spawn.
    pub fn from(rows: Vec<Vec<u32>>) -> (board: Board)
        requires
            rows.len() <= u32::MAX,
            forall|y: int| 0 <= y < rows.len() ==> (#[trigger] rows[y]).len() <= u32::MAX,
        ensures
            board@ == grid_view(rows@),
            is_rectangular(rows@) ==> board@.full(),
            board@.spawnable(),
    {
        let mut gems = GemMap::new();
        let mut types = TypeSet::new();
        let height = rows.len();
        let width = if height > 0 {
            rows[0].len()
        } else {
            0
        };
        let mut y: usize = 0;
        while y < height
            invariant
                y <= height,
                height == rows.len(),
                height <= u32::MAX,
                forall|k: int| 0 <= k < rows.len() ==> (#[trigger] rows[k]).len() <= u32::MAX,
                gems@ =~= grid_view(rows@.take(y as int)).gems,
                types@ =~= grid_view(rows@.take(y as int)).types,
            decreases height - y,
        {
            let row = &rows[y];
            let ghost above = gems@;
            let ghost known = types@;
            let mut x: usize = 0;
            while x < row.len()
                invariant
                    y < height,
                    height == rows.len(),
                    height <= u32::MAX,
                    row == rows[y as int],
                    row.len() <= u32::MAX,
                    x <= row.len(),
                    above == grid_view(rows@.take(y as int)).gems,
                    known == grid_view(rows@.take(y as int)).types,
                    forall|p: Position|
                        #![trigger above.contains_key(p)]
                        above.contains_key(p) ==> p.y < y,
                    forall|p: Position|
                        #![trigger gems@.contains_key(p)]
                        gems@.contains_key(p) <==> (above.contains_key(p) || (p.y == y && p.x
                            < x)),
                    forall|p: Position|
                        #![trigger gems@[p]]
                        above.contains_key(p) ==> gems@[p] == above[p],
                    forall|p: Position|
                        #![trigger gems@[p]]
                        p.y == y && p.x < x ==> gems@[p] == row[p.x as int],
                    forall|t: u32|
                        #![trigger types@.contains(t)]
                        types@.contains(t) <==> (known.contains(t) || exists|k: int|
                            0 <= k < x && #[trigger] row[k] == t),
                decreases row.len() - x,
            {
                let gem = row[x];
                let ghost earlier = types@;
                let ghost placed = gems@;
                let pos = Position { x: x as u32, y: y as u32 };
                gems.insert(pos, gem);
                types.insert(gem);
                proof {
                    assert forall|p: Position|
                        #![trigger gems@.contains_key(p)]
                        gems@.contains_key(p) <==> (above.contains_key(p) || (p.y == y && p.x < x
                            + 1)) by {
                        assert(placed.contains_key(p) <==> (above.contains_key(p) || (p.y == y
                            && p.x < x)));
                    }
                    assert forall|p: Position|
                        #![trigger gems@[p]]
                        above.contains_key(p) implies gems@[p] == above[p] by {
                        assert(p != pos);
                        assert(placed[p] == above[p]);
                    }
                    assert forall|p: Position|
                        #![trigger gems@[p]]
                        p.y == y && p.x < x + 1 implies gems@[p] == row[p.x as int] by {
                        if p != pos {
                            assert(placed[p] == row[p.x as int]);
                        }
                    }
                    assert forall|t: u32|
                        #![trigger types@.contains(t)]
                        types@.contains(t) <==> (known.contains(t) || exists|k: int|
                            0 <= k < x + 1 && #[trigger] row[k] == t) by {
                        if t == gem {
                            assert(row[x as int] == t);
                        }
                        if earlier.contains(t) && !known.contains(t) {
                            let k = choose|k: int| 0 <= k < x && #[trigger] row[k] == t;
                            assert(row[k] == t);
                        }
                        if exists|k: int| 0 <= k < x + 1 && #[trigger] row[k] == t {
                            let k = choose|k: int| 0 <= k < x + 1 && #[trigger] row[k] == t;
                            if k < x {
                                assert(row[k] == t);
                                assert(earlier.contains(t));
                            }
                        }
                    }
                }
                x += 1;
            }
            proof {
                let done = grid_view(rows@.take(y + 1));
                let part = rows@.take(y + 1);
                assert forall|p: Position| gems@.contains_key(p) <==> done.gems.contains_key(p) by {
                    if p.y < y {
                        assert(part[p.y as int] == rows@.take(y as int)[p.y as int]);
                    }
                }
                assert forall|p: Position| gems@.contains_key(p) implies gems@[p] == done.gems[p] by {
                    if p.y < y {
                        assert(part[p.y as int] == rows@.take(y as int)[p.y as int]);
                    }
                }
                assert(gems@ =~= done.gems);
                assert forall|t: u32| types@.contains(t) <==> done.types.contains(t) by {
                    if known.contains(t) {
                        let p = choose|p: Position|
                            p.y < y && p.x < rows@.take(y as int)[p.y as int].len()
                                && #[trigger] rows@.take(y as int)[p.y as int][p.x as int] == t;
                        assert(part[p.y as int][p.x as int] == t);
                    }
                    if exists|k: int| 0 <= k < row.len() && #[trigger] row[k] == t {
                        let k = choose|k: int| 0 <= k < row.len() && #[trigger] row[k] == t;
                        let p = Position { x: k as u32, y: y as u32 };
                        assert(part[p.y as int][p.x as int] == t);
                    }
                    if done.types.contains(t) {
                        let p = choose|p: Position|
                            p.y < y + 1 && p.x < part[p.y as int].len() && #[trigger] part[p.y as int][p.x as int]
                                == t;
                        if p.y < y {
                            assert(rows@.take(y as int)[p.y as int][p.x as int] == t);
                        } else {
                            assert(row[p.x as int] == t);
                        }
                    }
                }
            }
            y += 1;
        }
        assert(rows@.take(height as int) =~= rows@);
        let board = Board {
            dimensions: Position { x: width as u32, y: height as u32 },
            gems,
            types,
        };
        assert(board@ =~= grid_view(rows@));
        proof {
            assert forall|q: Position|
                #![trigger board@.gems[q]]
                board@.gems.contains_key(q) implies board@.types.contains(board@.gems[q]) by {
                assert(rows@[q.y as int][q.x as int] == board@.gems[q]);
            }
            if is_rectangular(rows@) {
                assert forall|p: Position| board@.in_bounds(p) implies #[trigger] board@.gems.contains_key(
                    p,
                ) by {
                    assert(rows@[p.y as int].len() == rows@[0].len());
                }
            }
        }
        board
    }

    /// The gem types of the board row by row, the top row first, or `None` if a cell of
    /// the board holds no gem.
    pub fn rows(&self) -> (grid: Option<Vec<Vec<u32>>>)
        ensures
            grid is Some <==> self@.full(),
            grid matches Some(rows) ==> rows.len() == self@.height && forall|y: int|
                0 <= y < rows.len() ==> (#[trigger] rows[y])@ == self@.line(
                    MatchDirection::Horizontal,
                    y,
                ),
    {
        let height = self.dimensions.y;
        let mut rows: Vec<Vec<u32>> = Vec::new();
        let mut y: u32 = 0;
        while y < height
            invariant
                y <= height,
                height == self@.height,
                rows.len() == y,
                forall|k: int|
                    0 <= k < y ==> (#[trigger] rows[k])@ == self@.line(
                        MatchDirection::Horizontal,
                        k,
                    ),
                forall|li: int, j: int|
                    0 <= li < y && 0 <= j < self@.width ==> self@.gems.contains_key(
                        #[trigger] cell_at(MatchDirection::Horizontal, li, j),
                    ),
            decreases height - y,
        {
            match self.line_types(MatchDirection::Horizontal, y) {
                Ok(row) => {
                    rows.push(row);
                },
                Err(e) => {
                    assert(self@.in_bounds(e.position));
                    return None;
                },
            }
            y += 1;
        }
        proof {
            assert forall|p: Position| self@.in_bounds(p) implies #[trigger] self@.gems.contains_key(
                p,
            ) by {
                assert(p == cell_at(MatchDirection::Horizontal, p.y as int, p.x as int));
            }
        }
        Some(rows)
    }
}

} // verus!
