//! The board as a mathematical value, and what the operations on it mean.

use crate::matches::MatchDirection;
use crate::position::Position;
use crate::runs::is_run;
use vstd::prelude::*;

verus! {

/// The line that a cell lies on when the board is read in the given direction: its
/// row for horizontal lines, its column for vertical ones.
pub open spec fn line_of(direction: MatchDirection, p: Position) -> int {
    match direction {
        MatchDirection::Horizontal => p.y as int,
        MatchDirection::Vertical => p.x as int,
    }
}

/// How far along its line a cell lies: its column for horizontal lines, its row for
/// vertical ones.
pub open spec fn offset_of(direction: MatchDirection, p: Position) -> int {
    match direction {
        MatchDirection::Horizontal => p.x as int,
        MatchDirection::Vertical => p.y as int,
    }
}

/// The cell at `offset` on line `line`.
pub open spec fn cell_at(direction: MatchDirection, line: int, offset: int) -> Position {
    match direction {
        MatchDirection::Horizontal => Position { x: offset as u32, y: line as u32 },
        MatchDirection::Vertical => Position { x: line as u32, y: offset as u32 },
    }
}

/// The `len` cells of line `line` from offset `start` on.
pub open spec fn run_cells(direction: MatchDirection, line: int, start: int, len: int) -> Set<
    Position,
> {
    Set::new(
        |p: Position|
            line_of(direction, p) == line && start <= offset_of(direction, p) < start + len,
    )
}

/// Whether `q` is read before `p` when the lines of the given direction are read one
/// after the other, each from its first cell.
pub open spec fn read_before(direction: MatchDirection, q: Position, p: Position) -> bool {
    line_of(direction, q) < line_of(direction, p) || (line_of(direction, q) == line_of(
        direction,
        p,
    ) && offset_of(direction, q) < offset_of(direction, p))
}

/// The board that a grid of gem types describes: one row of the board for each row of
/// the grid, the first row on top. The first row gives the board its width, and the
/// types that occur are those that the board may spawn.
pub open spec fn grid_view(rows: Seq<Vec<u32>>) -> BoardView {
    BoardView {
        width: if rows.len() > 0 {
            rows[0].len() as nat
        } else {
            0
        },
        height: rows.len(),
        gems: Map::new(
            |p: Position| p.y < rows.len() && p.x < rows[p.y as int].len(),
            |p: Position| rows[p.y as int][p.x as int],
        ),
        types: Set::new(
            |t: u32|
                exists|p: Position|
                    p.y < rows.len() && p.x < rows[p.y as int].len() && #[trigger] rows[p.y as int][p.x as int]
                        == t,
        ),
    }
}

/// Whether every row of the grid is as long as the first.
pub open spec fn is_rectangular(rows: Seq<Vec<u32>>) -> bool {
    forall|y: int| 0 <= y < rows.len() ==> (#[trigger] rows[y]).len() == rows[0].len()
}

/// Why a swap was refused.
#[derive(Clone, Copy, Debug, PartialEq, Eq, Structural)]
pub enum SwapError {
    /// The given cell holds no gem.
    NoGem(Position),
    /// Both cells hold a gem, but exchanging them makes no match.
    NoMatches,
}

/// A board as a mathematical value.
#[verifier::ext_equal]
pub struct BoardView {
    /// The number of columns.
    pub width: nat,
    /// The number of rows.
    pub height: nat,
    /// The gem type of every occupied cell.
    pub gems: Map<Position, u32>,
    /// The gem types that a refill may spawn.
    pub types: Set<u32>,
}

impl BoardView {
    /// Whether the cell lies on the board.
    pub open spec fn in_bounds(self, p: Position) -> bool {
        p.x < self.width && p.y < self.height
    }

    /// Whether every gem is of a type that the board may spawn.
    pub open spec fn spawnable(self) -> bool {
        forall|p: Position|
            #![trigger self.gems[p]]
            self.gems.contains_key(p) ==> self.types.contains(self.gems[p])
    }

    /// Whether every cell of the board holds a gem.
    pub open spec fn full(self) -> bool {
        forall|p: Position| self.in_bounds(p) ==> #[trigger] self.gems.contains_key(p)
    }

    /// The number of lines in the given direction.
    pub open spec fn line_count(self, direction: MatchDirection) -> nat {
        match direction {
            MatchDirection::Horizontal => self.height,
            MatchDirection::Vertical => self.width,
        }
    }

    /// The number of cells on each line of the given direction.
    pub open spec fn line_len(self, direction: MatchDirection) -> nat {
        match direction {
            MatchDirection::Horizontal => self.width,
            MatchDirection::Vertical => self.height,
        }
    }

    /// The gem types along one line, from its first cell to its last.
    pub open spec fn line(self, direction: MatchDirection, line: int) -> Seq<u32> {
        Seq::new(self.line_len(direction), |j: int| self.gems[cell_at(direction, line, j)])
    }

    /// Whether `cells` is a match on some line of the given direction.
    pub open spec fn is_line_match(self, direction: MatchDirection, cells: Set<Position>) -> bool {
        exists|line: int, start: int, len: int|
            0 <= line < self.line_count(direction) && #[trigger] is_run(
                self.line(direction, line),
                start,
                len,
            ) && cells == run_cells(direction, line, start, len)
    }

    /// Whether `cells` is a match of the board: three or more neighbouring cells of
    /// one row or one column with the same gem type, not part of a longer such stretch.
    pub open spec fn is_match(self, cells: Set<Position>) -> bool {
        self.is_line_match(MatchDirection::Horizontal, cells) || self.is_line_match(
            MatchDirection::Vertical,
            cells,
        )
    }

    /// Whether the board has any match.
    pub open spec fn has_match(self) -> bool {
        exists|cells: Set<Position>| self.is_match(cells)
    }

    /// Whether `matches` lists every match on the lines of the given direction once.
    pub open spec fn lists_line_matches(
        self,
        direction: MatchDirection,
        matches: Seq<Set<Position>>,
    ) -> bool {
        &&& forall|k: int|
            0 <= k < matches.len() ==> self.is_line_match(direction, #[trigger] matches[k])
        &&& forall|cells: Set<Position>| #[trigger]
            self.is_line_match(direction, cells) ==> exists|k: int|
                0 <= k < matches.len() && #[trigger] matches[k] == cells
        &&& matches.no_duplicates()
    }

    /// Whether `matches` lists every match of the board once.
    pub open spec fn lists_matches(self, matches: Seq<Set<Position>>) -> bool {
        &&& forall|k: int| 0 <= k < matches.len() ==> self.is_match(#[trigger] matches[k])
        &&& forall|cells: Set<Position>| #[trigger]
            self.is_match(cells) ==> exists|k: int|
                0 <= k < matches.len() && #[trigger] matches[k] == cells
        &&& matches.no_duplicates()
    }

    /// The board with the gems of the two cells exchanged.
    pub open spec fn swapped(self, a: Position, b: Position) -> BoardView {
        BoardView { gems: self.gems.insert(a, self.gems[b]).insert(b, self.gems[a]), ..self }
    }

    /// What a request to swap the gems of `a` and `b` comes to: it is refused for the
    /// first of the two cells that holds no gem, and else if the exchange makes no match.
    pub open spec fn swap_outcome(self, a: Position, b: Position) -> Result<(), SwapError> {
        if !self.gems.contains_key(a) {
            Err(SwapError::NoGem(a))
        } else if !self.gems.contains_key(b) {
            Err(SwapError::NoGem(b))
        } else if self.swapped(a, b).has_match() {
            Ok(())
        } else {
            Err(SwapError::NoMatches)
        }
    }

    /// The number of gems in column `x` in the rows from `from` down to the bottom row.
    pub open spec fn gems_from(self, x: int, from: int) -> nat
        decreases self.height - from,
    {
        if from < 0 || from >= self.height {
            0
        } else if self.gems.contains_key(Position { x: x as u32, y: from as u32 }) {
            1 + self.gems_from(x, from + 1)
        } else {
            self.gems_from(x, from + 1)
        }
    }

    /// Where the gem of cell `p` comes to rest when the gems of its column fall: as
    /// many rows above the floor as there are gems in the column from `p` downwards.
    pub open spec fn landing(self, p: Position) -> Position {
        Position { x: p.x, y: (self.height - self.gems_from(p.x as int, p.y as int)) as u32 }
    }

    /// Whether `after` is this board with the gems of every column fallen to the
    /// bottom: each column keeps as many gems as it had, they fill its lowest rows, each
    /// gem rests at its landing cell, and cells outside the board are untouched.
    pub open spec fn dropped_to(self, after: BoardView) -> bool {
        &&& after.width == self.width
        &&& after.height == self.height
        &&& after.types == self.types
        &&& forall|p: Position|
            #![trigger after.gems.contains_key(p)]
            !self.in_bounds(p) ==> (after.gems.contains_key(p) <==> self.gems.contains_key(p))
        &&& forall|p: Position|
            #![trigger after.gems[p]]
            !self.in_bounds(p) && self.gems.contains_key(p) ==> after.gems[p] == self.gems[p]
        &&& forall|p: Position|
            #![trigger after.gems.contains_key(p)]
            self.in_bounds(p) ==> (after.gems.contains_key(p) <==> p.y >= self.height
                - self.gems_from(p.x as int, 0))
        &&& forall|p: Position|
            #![trigger self.landing(p)]
            self.in_bounds(p) && self.gems.contains_key(p) ==> after.gems.contains_key(
                self.landing(p),
            ) && after.gems[self.landing(p)] == self.gems[p]
        &&& forall|q: Position|
            #![trigger after.gems.contains_key(q)]
            self.in_bounds(q) && after.gems.contains_key(q) ==> exists|p: Position|
                #![trigger self.landing(p)]
                self.in_bounds(p) && self.gems.contains_key(p) && self.landing(p) == q
    }

    /// The gems that change their cell when the gems fall, each as the pair of the
    /// cell it leaves and the cell it lands in.
    pub open spec fn drop_moves(self) -> Set<(Position, Position)> {
        Set::new(
            |m: (Position, Position)|
                self.in_bounds(m.0) && self.gems.contains_key(m.0) && m.1 == self.landing(m.0)
                    && m.1 != m.0,
        )
    }

    /// Whether `after` is this board refilled: every gem is where it was, every cell of
    /// the board that was empty holds a gem of a type that the board may spawn, and no
    /// other cell was touched.
    pub open spec fn filled_to(self, after: BoardView) -> bool {
        &&& after.width == self.width
        &&& after.height == self.height
        &&& after.types == self.types
        &&& forall|p: Position|
            #![trigger after.gems.contains_key(p)]
            after.gems.contains_key(p) <==> (self.gems.contains_key(p) || self.in_bounds(p))
        &&& forall|p: Position|
            #![trigger after.gems[p]]
            self.gems.contains_key(p) ==> after.gems[p] == self.gems[p]
        &&& forall|p: Position|
            #![trigger after.gems[p]]
            self.in_bounds(p) && !self.gems.contains_key(p) ==> self.types.contains(after.gems[p])
    }

    /// The cells that a refill from this board to `after` gave a gem, each with the
    /// type of that gem.
    pub open spec fn fills(self, after: BoardView) -> Set<(Position, u32)> {
        Set::new(
            |f: (Position, u32)|
                self.in_bounds(f.0) && !self.gems.contains_key(f.0) && after.gems[f.0] == f.1,
        )
    }

    /// Whether the two boards agree on every cell that lies outside the board.
    pub open spec fn same_outside(self, after: BoardView) -> bool {
        &&& forall|p: Position|
            #![trigger after.gems.contains_key(p)]
            !self.in_bounds(p) ==> (after.gems.contains_key(p) <==> self.gems.contains_key(p))
        &&& forall|p: Position|
            #![trigger after.gems[p]]
            !self.in_bounds(p) && self.gems.contains_key(p) ==> after.gems[p] == self.gems[p]
    }

    /// The cell `q` as a list of its own if it is a cell of the board other than `p`,
    /// and the empty list if not.
    pub open spec fn neighbour(self, p: Position, q: Position) -> Seq<Position> {
        if q != p && self.in_bounds(q) {
            seq![q]
        } else {
            Seq::empty()
        }
    }

    /// The cells of the board next to `p`: to its left, to its right, above and below,
    /// in this order.
    pub open spec fn neighbours(self, p: Position) -> Seq<Position> {
        self.neighbour(p, p.spec_left()) + self.neighbour(p, p.spec_right()) + self.neighbour(
            p,
            p.spec_up(),
        ) + self.neighbour(p, p.spec_down())
    }

    /// Whether exchanging the gems of `a` and of `b`, the cell to the right of `a` or
    /// below it, makes a match. Both are cells of the board.
    pub open spec fn is_hint(self, a: Position, b: Position) -> bool {
        &&& self.in_bounds(a)
        &&& self.in_bounds(b)
        &&& a != b
        &&& (b == a.spec_right() || b == a.spec_down())
        &&& self.swapped(a, b).has_match()
    }

    /// The moves that make a match: each pair of neighbouring cells of the board whose
    /// exchange makes one, once, with the left or upper cell first.
    pub open spec fn matching_moves(self) -> Set<(Position, Position)> {
        Set::new(|m: (Position, Position)| self.is_hint(m.0, m.1))
    }

    /// The matching moves that `p` has a part in.
    pub open spec fn hints_around(self, p: Position) -> Set<(Position, Position)> {
        Set::new(|m: (Position, Position)| self.is_hint(m.0, m.1) && (m.0 == p || m.1 == p))
    }

    /// Whether the cell belongs to a match of the board.
    pub open spec fn matched(self, p: Position) -> bool {
        exists|cells: Set<Position>| #[trigger] self.is_match(cells) && cells.contains(p)
    }

    /// The cells that belong to a match of the board.
    pub open spec fn matched_cells(self) -> Set<Position> {
        Set::new(|p: Position| self.matched(p))
    }

    /// The board with the gems of all its matches taken off.
    pub open spec fn cleared(self) -> BoardView {
        BoardView { gems: self.gems.remove_keys(self.matched_cells()), ..self }
    }

    /// Whether `after` may be this board one round of clearing later: the gems of all
    /// matches are taken off, the gems above fall, and the empty cells are refilled.
    /// `popped`, `dropped` and `filled` are what the three steps report.
    pub open spec fn cascades_to(
        self,
        after: BoardView,
        popped: Set<Position>,
        dropped: Set<(Position, Position)>,
        filled: Set<(Position, u32)>,
    ) -> bool {
        exists|fallen: BoardView|
            {
                &&& #[trigger] self.cleared().dropped_to(fallen)
                &&& fallen.filled_to(after)
                &&& popped == self.matched_cells()
                &&& dropped == self.cleared().drop_moves()
                &&& filled == fallen.fills(after)
            }
    }

    /// Whether `after` may be this board `rounds` rounds of clearing later, each round
    /// begun on a board with a match.
    pub open spec fn cascades_in(self, after: BoardView, rounds: nat) -> bool
        decreases rounds,
    {
        if rounds == 0 {
            after == self
        } else {
            exists|
                next: BoardView,
                popped: Set<Position>,
                dropped: Set<(Position, Position)>,
                filled: Set<(Position, u32)>,
            |
                {
                    &&& self.has_match()
                    &&& #[trigger] self.cascades_to(next, popped, dropped, filled)
                    &&& next.cascades_in(after, (rounds - 1) as nat)
                }
        }
    }

    /// Whether `p` is the first cell without a gem when the lines of the given
    /// direction are read one after the other.
    pub open spec fn first_missing(self, direction: MatchDirection, p: Position) -> bool {
        &&& self.in_bounds(p)
        &&& !self.gems.contains_key(p)
        &&& forall|q: Position|
            self.in_bounds(q) && read_before(direction, q, p) ==> #[trigger] self.gems.contains_key(
                q,
            )
    }
}

} // verus!
