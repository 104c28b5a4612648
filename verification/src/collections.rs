//! The hash collections of `bevy::utils` that the board is stored in and reports with.
//!
//! The collections are `hashbrown` maps and sets. Their types carry an allocator
//! parameter bounded by a trait that cannot be declared to the verifier, so each
//! collection is held in the private field of an opaque struct. What a collection
//! contains is given by an uninterpreted function, and every method below is a thin
//! call into the collection whose contract is taken on trust from the documentation
//! of `hashbrown`: nothing in this file is proved. Cells are keyed by the plain pair
//! `(x, y)`, whose equality and hash are those of the integers.

use crate::position::Position;
use bevy::utils::{HashMap, HashSet};
use rand::seq::IteratorRandom;
use rand::Rng;
use vstd::prelude::*;

verus! {

/// The gems of a board by cell, in a `bevy::utils::HashMap`.
#[derive(Debug)]
#[verifier::external_body]
pub struct GemMap {
    cells: HashMap<(u32, u32), u32>,
}

/// The entries of a `GemMap`.
pub uninterp spec fn gems_of(map: GemMap) -> Map<Position, u32>;

impl View for GemMap {
    type V = Map<Position, u32>;

    open spec fn view(&self) -> Map<Position, u32> {
        gems_of(*self)
    }
}

impl GemMap {
    /// `HashMap::default`: a map without entries.
    #[verifier::external_body]
    pub(crate) fn new() -> (gems: GemMap)
        ensures
            gems_of(gems).dom() == Set::<Position>::empty(),
    {
        GemMap { cells: HashMap::default() }
    }

    /// `HashMap::get`: the value stored under the key, if there is one.
    #[verifier::external_body]
    pub(crate) fn get(&self, pos: &Position) -> (gem: Option<&u32>)
        ensures
            gem == (if gems_of(*self).contains_key(*pos) {
                Some(&gems_of(*self)[*pos])
            } else {
                None
            }),
    {
        self.cells.get(&(pos.x, pos.y))
    }

    /// `HashMap::insert`: afterwards the key maps to the value, and every other key is
    /// as before.
    #[verifier::external_body]
    pub(crate) fn insert(&mut self, pos: Position, typ: u32)
        ensures
            gems_of(*final(self)) == gems_of(*old(self)).insert(pos, typ),
    {
        self.cells.insert((pos.x, pos.y), typ);
    }

    /// `HashMap::remove`: afterwards the key is absent, and every other key is as before.
    #[verifier::external_body]
    pub(crate) fn remove(&mut self, pos: &Position)
        ensures
            gems_of(*final(self)) == gems_of(*old(self)).remove(*pos),
    {
        self.cells.remove(&(pos.x, pos.y));
    }

    /// `Clone::clone` of the map: a map with the same entries.
    #[verifier::external_body]
    pub(crate) fn duplicate(&self) -> (copy: GemMap)
        ensures
            gems_of(copy) == gems_of(*self),
    {
        GemMap { cells: self.cells.clone() }
    }

    /// `PartialEq::eq` of the map: whether the two maps have the same entries.
    #[verifier::external_body]
    pub(crate) fn same(&self, other: &GemMap) -> (equal: bool)
        ensures
            equal == (gems_of(*self) == gems_of(*other)),
    {
        self.cells == other.cells
    }

    /// `HashMap::iter`, collected: every entry exactly once, in no particular order.
    #[verifier::external_body]
    pub(crate) fn entries(&self) -> (all: Vec<(Position, u32)>)
        ensures
            all@.no_duplicates(),
            forall|p: Position, t: u32|
                all@.contains((p, t)) <==> (gems_of(*self).contains_key(p) && gems_of(*self)[p] == t),
    {
        self.cells.iter().map(|(k, v)| (Position::new(k.0, k.1), *v)).collect()
    }
}

/// The gem types a board may spawn, in a `bevy::utils::HashSet`.
#[derive(Debug)]
#[verifier::external_body]
pub struct TypeSet {
    ids: HashSet<u32>,
}

/// The members of a `TypeSet`.
pub uninterp spec fn types_of(set: TypeSet) -> Set<u32>;

impl View for TypeSet {
    type V = Set<u32>;

    open spec fn view(&self) -> Set<u32> {
        types_of(*self)
    }
}

impl TypeSet {
    /// `HashSet::default`: a set without members.
    #[verifier::external_body]
    pub(crate) fn new() -> (set: TypeSet)
        ensures
            types_of(set) == Set::<u32>::empty(),
    {
        TypeSet { ids: HashSet::default() }
    }

    /// `HashSet::insert`: afterwards the value is a member, beside the earlier members.
    #[verifier::external_body]
    pub(crate) fn insert(&mut self, typ: u32)
        ensures
            types_of(*final(self)) == types_of(*old(self)).insert(typ),
    {
        self.ids.insert(typ);
    }

    /// `Clone::clone` of the set: a set with the same members.
    #[verifier::external_body]
    pub(crate) fn duplicate(&self) -> (copy: TypeSet)
        ensures
            types_of(copy) == types_of(*self),
    {
        TypeSet { ids: self.ids.clone() }
    }

    /// `PartialEq::eq` of the set: whether the two sets have the same members.
    #[verifier::external_body]
    pub(crate) fn same(&self, other: &TypeSet) -> (equal: bool)
        ensures
            equal == (types_of(*self) == types_of(*other)),
    {
        self.ids == other.ids
    }

    /// `HashSet::iter`, collected: every member exactly once, in no particular order.
    #[verifier::external_body]
    pub(crate) fn items(&self) -> (all: Vec<u32>)
        ensures
            all@.no_duplicates(),
            forall|t: u32| all@.contains(t) <==> types_of(*self).contains(t),
    {
        self.ids.iter().copied().collect()
    }

    /// `IteratorRandom::choose` over the members, drawing from `rand::thread_rng()`:
    /// some member, whichever the generator picks, and `None` only for the empty set.
    #[verifier::external_body]
    pub(crate) fn draw(&self) -> (pick: Option<u32>)
        ensures
            pick is None <==> (forall|t: u32| !types_of(*self).contains(t)),
            pick matches Some(t) ==> types_of(*self).contains(t),
    {
        self.ids.iter().choose(&mut rand::thread_rng()).copied()
    }
}

/// A set of cells, in a `bevy::utils::HashSet`.
#[verifier::external_body]
pub struct PositionSet {
    cells: HashSet<(u32, u32)>,
}

/// The members of a `PositionSet`.
pub uninterp spec fn positions_of(set: PositionSet) -> Set<Position>;

impl View for PositionSet {
    type V = Set<Position>;

    open spec fn view(&self) -> Set<Position> {
        positions_of(*self)
    }
}

impl PositionSet {
    /// `HashSet::default`: a set without members.
    #[verifier::external_body]
    pub(crate) fn new() -> (set: PositionSet)
        ensures
            positions_of(set) == Set::<Position>::empty(),
    {
        PositionSet { cells: HashSet::default() }
    }

    /// `HashSet::insert`: afterwards the value is a member, beside the earlier members.
    #[verifier::external_body]
    pub(crate) fn insert(&mut self, pos: Position)
        ensures
            positions_of(*final(self)) == positions_of(*old(self)).insert(pos),
    {
        self.cells.insert((pos.x, pos.y));
    }

    /// `Clone::clone` of the set: a set with the same members.
    #[verifier::external_body]
    pub(crate) fn duplicate(&self) -> (copy: PositionSet)
        ensures
            positions_of(copy) == positions_of(*self),
    {
        PositionSet { cells: self.cells.clone() }
    }

    /// `HashSet::iter`, collected: every member exactly once, in no particular order.
    #[verifier::external_body]
    pub(crate) fn items(&self) -> (all: Vec<Position>)
        ensures
            all@.no_duplicates(),
            forall|p: Position| all@.contains(p) <==> positions_of(*self).contains(p),
    {
        self.cells.iter().map(|k| Position::new(k.0, k.1)).collect()
    }
}

/// A set of ordered pairs of cells, in a `bevy::utils::HashSet`.
#[verifier::external_body]
pub struct PairSet {
    pairs: HashSet<((u32, u32), (u32, u32))>,
}

/// The members of a `PairSet`.
pub uninterp spec fn pairs_of(set: PairSet) -> Set<(Position, Position)>;

impl View for PairSet {
    type V = Set<(Position, Position)>;

    open spec fn view(&self) -> Set<(Position, Position)> {
        pairs_of(*self)
    }
}

impl PairSet {
    /// `HashSet::default`: a set without members.
    #[verifier::external_body]
    pub(crate) fn new() -> (set: PairSet)
        ensures
            pairs_of(set) == Set::<(Position, Position)>::empty(),
    {
        PairSet { pairs: HashSet::default() }
    }

    /// `HashSet::insert`: afterwards the pair is a member, beside the earlier members.
    #[verifier::external_body]
    pub(crate) fn insert(&mut self, first: Position, second: Position)
        ensures
            pairs_of(*final(self)) == pairs_of(*old(self)).insert((first, second)),
    {
        self.pairs.insert(((first.x, first.y), (second.x, second.y)));
    }

    /// `HashSet::contains`: whether the pair is a member.
    #[verifier::external_body]
    pub(crate) fn contains(&self, first: &Position, second: &Position) -> (found: bool)
        ensures
            found == pairs_of(*self).contains((*first, *second)),
    {
        self.pairs.contains(&((first.x, first.y), (second.x, second.y)))
    }

    /// `HashSet::iter`, collected: every member exactly once, in no particular order.
    #[verifier::external_body]
    pub(crate) fn items(&self) -> (all: Vec<(Position, Position)>)
        ensures
            all@.no_duplicates(),
            forall|m: (Position, Position)| all@.contains(m) <==> pairs_of(*self).contains(m),
    {
        self.pairs.iter().map(|m| (Position::new(m.0.0, m.0.1), Position::new(m.1.0, m.1.1))).collect()
    }
}

/// A set of cells with the gem type each was given, in a `bevy::utils::HashSet`.
#[verifier::external_body]
pub struct FillSet {
    fills: HashSet<((u32, u32), u32)>,
}

/// The members of a `FillSet`.
pub uninterp spec fn fills_of(set: FillSet) -> Set<(Position, u32)>;

impl View for FillSet {
    type V = Set<(Position, u32)>;

    open spec fn view(&self) -> Set<(Position, u32)> {
        fills_of(*self)
    }
}

impl FillSet {
    /// `HashSet::default`: a set without members.
    #[verifier::external_body]
    pub(crate) fn new() -> (set: FillSet)
        ensures
            fills_of(set) == Set::<(Position, u32)>::empty(),
    {
        FillSet { fills: HashSet::default() }
    }

    /// `HashSet::insert`: afterwards the pair is a member, beside the earlier members.
    #[verifier::external_body]
    pub(crate) fn insert(&mut self, pos: Position, typ: u32)
        ensures
            fills_of(*final(self)) == fills_of(*old(self)).insert((pos, typ)),
    {
        self.fills.insert(((pos.x, pos.y), typ));
    }

    /// `HashSet::iter`, collected: every member exactly once, in no particular order.
    #[verifier::external_body]
    pub(crate) fn items(&self) -> (all: Vec<(Position, u32)>)
        ensures
            all@.no_duplicates(),
            forall|f: (Position, u32)| all@.contains(f) <==> fills_of(*self).contains(f),
    {
        self.fills.iter().map(|f| (Position::new(f.0.0, f.0.1), f.1)).collect()
    }
}

/// `Rng::gen_range(0..bound)` on `rand::thread_rng()`: some number below `bound`,
/// whichever the generator picks. The call panics on an empty range.
#[verifier::external_body]
pub(crate) fn random_below(bound: u32) -> (n: u32)
    requires
        bound > 0,
    ensures
        n < bound,
{
    rand::thread_rng().gen_range(0..bound)
}

} // verus!
