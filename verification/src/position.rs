//! Board coordinates and unordered pairs of them.

use vstd::prelude::*;
use vstd::std_specs::cmp::PartialEqSpecImpl;

verus! {

/// A cell coordinate: `x` counts columns from the left, `y` counts rows from the top.
///
/// The same pair also describes the extent of a board (`x` columns, `y` rows).
#[derive(Clone, Copy, Debug, PartialEq, Eq, Hash, Structural)]
pub struct Position {
    pub x: u32,
    pub y: u32,
}

impl Position {
    /// The position in column `x` and row `y`.
    pub fn new(x: u32, y: u32) -> (p: Position)
        ensures
            p == (Position { x, y }),
    {
        Position { x, y }
    }

    /// The neighbour one column to the left; column 0 has none and yields itself.
    pub open spec fn spec_left(self) -> Position {
        Position { x: if self.x == 0 { 0u32 } else { (self.x - 1) as u32 }, y: self.y }
    }

    /// The neighbour one column to the right; the last representable column yields itself.
    pub open spec fn spec_right(self) -> Position {
        Position { x: if self.x == u32::MAX { self.x } else { (self.x + 1) as u32 }, y: self.y }
    }

    /// The neighbour one row up; row 0 has none and yields itself.
    pub open spec fn spec_up(self) -> Position {
        Position { x: self.x, y: if self.y == 0 { 0u32 } else { (self.y - 1) as u32 } }
    }

    /// The neighbour one row down; the last representable row yields itself.
    pub open spec fn spec_down(self) -> Position {
        Position { x: self.x, y: if self.y == u32::MAX { self.y } else { (self.y + 1) as u32 } }
    }

    /// Whether the two cells are one step apart: they differ by exactly one in one
    /// coordinate and agree in the other. No cell is adjacent to itself.
    pub open spec fn spec_cardinally_adjacent(self, other: Position) -> bool {
        ||| self.y == other.y && (self.x + 1 == other.x || other.x + 1 == self.x)
        ||| self.x == other.x && (self.y + 1 == other.y || other.y + 1 == self.y)
    }

    /// Lexicographic order by column, then row.
    pub open spec fn precedes(self, other: Position) -> bool {
        self.x < other.x || (self.x == other.x && self.y < other.y)
    }

    /// The neighbour one column to the left, or the cell itself in column 0.
    pub fn left(&self) -> (p: Position)
        ensures
            p == self.spec_left(),
    {
        Position { x: self.x.saturating_sub(1), y: self.y }
    }

    /// The neighbour one column to the right, or the cell itself in the last
    /// representable column.
    pub fn right(&self) -> (p: Position)
        ensures
            p == self.spec_right(),
    {
        Position { x: self.x.saturating_add(1), y: self.y }
    }

    /// The neighbour one row up, or the cell itself in row 0.
    pub fn up(&self) -> (p: Position)
        ensures
            p == self.spec_up(),
    {
        Position { x: self.x, y: self.y.saturating_sub(1) }
    }

    /// The neighbour one row down, or the cell itself in the last representable row.
    pub fn down(&self) -> (p: Position)
        ensures
            p == self.spec_down(),
    {
        Position { x: self.x, y: self.y.saturating_add(1) }
    }

    /// Whether the two cells are one step apart: to the left or right of each other in
    /// one row, or above or below each other in one column.
    pub fn cardinally_adjacent(&self, other: &Position) -> (r: bool)
        ensures
            r == self.spec_cardinally_adjacent(*other),
    {
        *self != *other && (*self == other.left() || *self == other.right() || *self
            == other.up() || *self == other.down())
    }
}

/// A swap between two cells. The order of the two cells does not matter:
/// `BoardMove(a, b) == BoardMove(b, a)`.
#[derive(Clone, Copy, Debug)]
pub struct BoardMove(pub Position, pub Position);

impl PartialEq for BoardMove {
    fn eq(&self, other: &Self) -> (r: bool) {
        (self.0 == other.0 && self.1 == other.1) || (self.0 == other.1 && self.1 == other.0)
    }
}

impl PartialEqSpecImpl for BoardMove {
    open spec fn obeys_eq_spec() -> bool {
        true
    }

    open spec fn eq_spec(&self, other: &Self) -> bool {
        (self.0 == other.0 && self.1 == other.1) || (self.0 == other.1 && self.1 == other.0)
    }
}

impl Eq for BoardMove {

}

impl core::hash::Hash for BoardMove {
    /// Feeds the two cells to the hasher in canonical order, so that a move hashes
    /// alike whichever way round it is written.
    fn hash<H: core::hash::Hasher>(&self, state: &mut H) {
        let pair = self.canonical();
        feed_pair(&pair, state);
    }
}

/// `Hash::hash` of a pair of cells. Taken on trust, and nothing is claimed of what the
/// hasher makes of the pair.
#[verifier::external_body]
fn feed_pair<H: core::hash::Hasher>(pair: &(Position, Position), state: &mut H) {
    core::hash::Hash::hash(pair, state)
}

impl BoardMove {
    /// The two cells with the lexicographically smaller one first.
    pub open spec fn spec_canonical(self) -> (Position, Position) {
        if self.0.precedes(self.1) {
            (self.0, self.1)
        } else {
            (self.1, self.0)
        }
    }

    /// The two cells in the one order that stands for both `BoardMove(a, b)` and
    /// `BoardMove(b, a)`: smaller column first, and on equal columns smaller row first.
    /// Hashing or storing the result treats the two spellings of a move alike.
    pub fn canonical(&self) -> (r: (Position, Position))
        ensures
            r == self.spec_canonical(),
    {
        let a = self.0;
        let b = self.1;
        if a.x < b.x {
            (a, b)
        } else if b.x < a.x {
            (b, a)
        } else if a.y < b.y {
            (a, b)
        } else {
            (b, a)
        }
    }
}

} // verus!
