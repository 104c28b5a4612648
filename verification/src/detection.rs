//! The search for matches.

use crate::board::{Board, MissingGemError};
use crate::collections::PositionSet;
use crate::matches::{Match, MatchDirection, Matches};
use crate::model::{cell_at, line_of, offset_of, read_before, run_cells};
use crate::position::Position;
use crate::runs::{find_runs, is_run, lists_runs, Run};
use vstd::prelude::*;

verus! {

/// The cell at `offset` on line `line`.
fn cell(direction: MatchDirection, line: u32, offset: u32) -> (p: Position)
    ensures
        p == cell_at(direction, line as int, offset as int),
{
    match direction {
        MatchDirection::Horizontal => Position { x: offset, y: line },
        MatchDirection::Vertical => Position { x: line, y: offset },
    }
}

/// The match made of the cells of one run on one line.
fn run_match(direction: MatchDirection, line: u32, run: Run) -> (mat: Match)
    requires
        run.start + run.len <= u32::MAX,
    ensures
        mat@ == run_cells(direction, line as int, run.start as int, run.len as int),
{
    let mut cells = PositionSet::new();
    let first = run.start as u32;
    let end = (run.start + run.len) as u32;
    let mut j: u32 = first;
    while j < end
        invariant
            first == run.start,
            end == run.start + run.len,
            first <= j <= end,
            cells@ =~= run_cells(direction, line as int, first as int, j - first),
        decreases end - j,
    {
        cells.insert(cell(direction, line, j));
        j += 1;
    }
    Match::Straight(cells)
}

/// Whether the match named by `second` was found after the one named by `first`: on a
/// later line, or on the same line behind it.
spec fn follows(first: (int, int, int), second: (int, int, int)) -> bool {
    first.0 < second.0 || (first.0 == second.0 && first.1 + first.2 <= second.1)
}

impl Board {
    /// The number of lines in the given direction.
    fn line_count(&self, direction: MatchDirection) -> (n: u32)
        ensures
            n == self@.line_count(direction),
    {
        match direction {
            MatchDirection::Horizontal => self.dimensions.y,
            MatchDirection::Vertical => self.dimensions.x,
        }
    }

    /// The number of cells on each line of the given direction.
    fn line_len(&self, direction: MatchDirection) -> (n: u32)
        ensures
            n == self@.line_len(direction),
    {
        match direction {
            MatchDirection::Horizontal => self.dimensions.x,
            MatchDirection::Vertical => self.dimensions.y,
        }
    }

    /// The gem types along one line, or the first cell of the line that holds no gem.
    pub(crate) fn line_types(&self, direction: MatchDirection, line: u32) -> (r: Result<
        Vec<u32>,
        MissingGemError,
    >)
        requires
            line < self@.line_count(direction),
        ensures
            match r {
                Ok(types) => {
                    &&& types@ == self@.line(direction, line as int)
                    &&& forall|j: int|
                        0 <= j < self@.line_len(direction) ==> self@.gems.contains_key(
                            #[trigger] cell_at(direction, line as int, j),
                        )
                },
                Err(e) => {
                    &&& line_of(direction, e.position) == line
                    &&& offset_of(direction, e.position) < self@.line_len(direction)
                    &&& !self@.gems.contains_key(e.position)
                    &&& forall|j: int|
                        0 <= j < offset_of(direction, e.position) ==> self@.gems.contains_key(
                            #[trigger] cell_at(direction, line as int, j),
                        )
                },
            },
    {
        let len = self.line_len(direction);
        let mut types: Vec<u32> = Vec::new();
        let mut j: u32 = 0;
        while j < len
            invariant
                len == self@.line_len(direction),
                j <= len,
                types.len() == j,
                forall|k: int|
                    0 <= k < j ==> self@.gems.contains_key(
                        #[trigger] cell_at(direction, line as int, k),
                    ),
                forall|k: int|
                    0 <= k < j ==> #[trigger] types[k] == self@.gems[cell_at(
                        direction,
                        line as int,
                        k,
                    )],
            decreases len - j,
        {
            let pos = cell(direction, line, j);
            match self.gems.get(&pos) {
                Some(typ) => {
                    types.push(*typ);
                },
                None => {
                    return Err(MissingGemError { position: pos });
                },
            }
            j += 1;
        }
        assert(types@ =~= self@.line(direction, line as int));
        Ok(types)
    }

    /// The matches on the lines of one direction: along the rows for
    /// `MatchDirection::Horizontal`, along the columns for `MatchDirection::Vertical`.
    ///
    /// Every line is read from its first cell to its last. The search fails at the
    /// first cell without a gem.
    pub fn straight_matches(&self, direction: MatchDirection) -> (r: Result<
        Matches,
        MissingGemError,
    >)
        ensures
            r is Ok <==> self@.full(),
            r matches Ok(matches) ==> self@.lists_line_matches(direction, matches@),
            r matches Err(e) ==> self@.first_missing(direction, e.position),
    {
        let count = self.line_count(direction);
        let mut matches = Matches::default();
        let ghost mut origins: Seq<(int, int, int)> = Seq::empty();
        let mut i: u32 = 0;
        while i < count
            invariant
                count == self@.line_count(direction),
                i <= count,
                origins.len() == matches@.len(),
                forall|li: int, j: int|
                    0 <= li < i && 0 <= j < self@.line_len(direction) ==> self@.gems.contains_key(
                        #[trigger] cell_at(direction, li, j),
                    ),
                forall|k: int|
                    0 <= k < origins.len() ==> self.found(direction, #[trigger] origins[k], i as int)
                        && matches@[k] == run_cells(
                        direction,
                        origins[k].0,
                        origins[k].1,
                        origins[k].2,
                    ),
                forall|li: int, s: int, l: int|
                    0 <= li < i && #[trigger] is_run(self@.line(direction, li), s, l)
                        ==> origins.contains((li, s, l)),
                forall|j: int, k: int|
                    0 <= j < k < origins.len() ==> follows(#[trigger] origins[j], #[trigger] origins[k]),
            decreases count - i,
        {
            let line = match self.line_types(direction, i) {
                Ok(line) => line,
                Err(e) => {
                    proof {
                        self.lemma_first_missing(direction, e.position);
                    }
                    return Err(e);
                },
            };
            let runs = find_runs(&line);
            let mut k: usize = 0;
            while k < runs.len()
                invariant
                    i < count,
                    count == self@.line_count(direction),
                    line@ == self@.line(direction, i as int),
                    lists_runs(line@, runs@),
                    k <= runs.len(),
                    origins.len() == matches@.len(),
                    forall|n: int|
                        0 <= n < origins.len() ==> self.found(
                            direction,
                            #[trigger] origins[n],
                            i + 1,
                        ) && matches@[n] == run_cells(
                            direction,
                            origins[n].0,
                            origins[n].1,
                            origins[n].2,
                        ),
                    forall|n: int|
                        0 <= n < origins.len() ==> (#[trigger] origins[n]).0 < i || (exists|r: int|
                            0 <= r < k && origins[n] == (
                                i as int,
                                #[trigger] runs[r].start as int,
                                runs[r].len as int,
                            )),
                    forall|li: int, s: int, l: int|
                        0 <= li < i && #[trigger] is_run(self@.line(direction, li), s, l)
                            ==> origins.contains((li, s, l)),
                    forall|r: int|
                        0 <= r < k ==> origins.contains(
                            (i as int, (#[trigger] runs[r]).start as int, runs[r].len as int),
                        ),
                    forall|j: int, n: int|
                        0 <= j < n < origins.len() ==> follows(
                            #[trigger] origins[j],
                            #[trigger] origins[n],
                        ),
                decreases runs.len() - k,
            {
                let run = runs[k];
                assert(is_run(line@, runs@[k as int].start as int, runs@[k as int].len as int));
                let mat = run_match(direction, i, run);
                let ghost before = origins;
                let ghost origin = (i as int, run.start as int, run.len as int);
                matches.add(mat);
                proof {
                    origins = origins.push(origin);
                    assert(origins[origins.len() - 1] == origin);
                    assert forall|li: int, s: int, l: int|
                        0 <= li < i && #[trigger] is_run(
                            self@.line(direction, li),
                            s,
                            l,
                        ) implies origins.contains((li, s, l)) by {
                        let n = before.index_of((li, s, l));
                        assert(origins[n] == (li, s, l));
                    }
                    assert forall|r: int| 0 <= r < k + 1 implies origins.contains(
                        (i as int, (#[trigger] runs[r]).start as int, runs[r].len as int),
                    ) by {
                        if r < k {
                            let n = before.index_of(
                                (i as int, runs[r].start as int, runs[r].len as int),
                            );
                            assert(origins[n] == before[n]);
                        } else {
                            assert(origins[origins.len() - 1] == origin);
                        }
                    }
                    assert forall|j: int, n: int| 0 <= j < n < origins.len() implies follows(
                        #[trigger] origins[j],
                        #[trigger] origins[n],
                    ) by {
                        if n == origins.len() - 1 {
                            assert(origins[j] == before[j]);
                            if before[j].0 == i {
                                let r = choose|r: int|
                                    0 <= r < k && before[j] == (
                                        i as int,
                                        #[trigger] runs[r].start as int,
                                        runs[r].len as int,
                                    );
                                assert(runs[r].start + runs[r].len <= runs[k as int].start);
                            }
                        } else {
                            assert(origins[j] == before[j] && origins[n] == before[n]);
                        }
                    }
                    assert forall|n: int| 0 <= n < origins.len() implies (#[trigger] origins[n]).0
                        < i || (exists|r: int|
                        0 <= r < k + 1 && origins[n] == (
                            i as int,
                            #[trigger] runs[r].start as int,
                            runs[r].len as int,
                        )) by {
                        if n == origins.len() - 1 {
                            assert(origins[n] == (
                                i as int,
                                runs[k as int].start as int,
                                runs[k as int].len as int,
                            ));
                        } else {
                            assert(origins[n] == before[n]);
                            if before[n].0 >= i {
                                let r = choose|r: int|
                                    0 <= r < k && before[n] == (
                                        i as int,
                                        #[trigger] runs[r].start as int,
                                        runs[r].len as int,
                                    );
                                assert(origins[n] == (
                                    i as int,
                                    runs[r].start as int,
                                    runs[r].len as int,
                                ));
                            }
                        }
                    }
                }
                k += 1;
            }
            proof {
                assert forall|li: int, s: int, l: int|
                    0 <= li < i + 1 && #[trigger] is_run(
                        self@.line(direction, li),
                        s,
                        l,
                    ) implies origins.contains((li, s, l)) by {
                    if li == i {
                        let r = choose|r: int|
                            0 <= r < runs.len() && #[trigger] runs[r].start == s && runs[r].len == l;
                        assert(origins.contains(
                            (i as int, runs[r].start as int, runs[r].len as int),
                        ));
                    }
                }
            }
            i += 1;
        }
        proof {
            self.lemma_lists_line_matches(direction, matches@, origins);
            assert forall|p: Position| self@.in_bounds(p) implies #[trigger] self@.gems.contains_key(
                p,
            ) by {
                assert(p == cell_at(direction, line_of(direction, p), offset_of(direction, p)));
            }
        }
        Ok(matches)
    }

    /// All matches of the board: those along the rows, then those along the columns.
    ///
    /// The search fails if a cell of the board holds no gem, and names the first such
    /// cell, reading row by row.
    pub fn get_matches(&self) -> (r: Result<Matches, MissingGemError>)
        ensures
            r is Ok <==> self@.full(),
            r matches Ok(matches) ==> self@.lists_matches(matches@),
            r matches Err(e) ==> self@.first_missing(MatchDirection::Horizontal, e.position),
    {
        let mut matches = match self.straight_matches(MatchDirection::Horizontal) {
            Ok(matches) => matches,
            Err(e) => {
                return Err(e);
            },
        };
        let mut vertical = match self.straight_matches(MatchDirection::Vertical) {
            Ok(matches) => matches,
            Err(e) => {
                return Err(e);
            },
        };
        let ghost rows = matches@;
        let ghost columns = vertical@;
        matches.append(&mut vertical);
        proof {
            self.lemma_lists_matches(rows, columns);
        }
        Ok(matches)
    }

    /// Whether `origin` names a match on one of the first `lines` lines: the line, the
    /// offset of its first cell and its length.
    spec fn found(
        &self,
        direction: MatchDirection,
        origin: (int, int, int),
        lines: int,
    ) -> bool {
        &&& 0 <= origin.0 < lines
        &&& lines <= self@.line_count(direction)
        &&& is_run(self@.line(direction, origin.0), origin.1, origin.2)
    }

    /// A cell without a gem, before which its line is occupied and all earlier lines
    /// are too, is the first missing cell.
    proof fn lemma_first_missing(&self, direction: MatchDirection, p: Position)
        requires
            line_of(direction, p) < self@.line_count(direction),
            offset_of(direction, p) < self@.line_len(direction),
            !self@.gems.contains_key(p),
            forall|j: int|
                0 <= j < offset_of(direction, p) ==> self@.gems.contains_key(
                    #[trigger] cell_at(direction, line_of(direction, p), j),
                ),
            forall|li: int, j: int|
                0 <= li < line_of(direction, p) && 0 <= j < self@.line_len(direction)
                    ==> self@.gems.contains_key(#[trigger] cell_at(direction, li, j)),
        ensures
            self@.first_missing(direction, p),
    {
        assert forall|q: Position|
            self@.in_bounds(q) && read_before(direction, q, p) implies #[trigger] self@.gems.contains_key(
            q,
        ) by {
            assert(q == cell_at(direction, line_of(direction, q), offset_of(direction, q)));
        }
    }

    /// Matches that were collected line by line, run by run, are all the matches of
    /// their direction, each once.
    proof fn lemma_lists_line_matches(
        &self,
        direction: MatchDirection,
        matches: Seq<Set<Position>>,
        origins: Seq<(int, int, int)>,
    )
        requires
            origins.len() == matches.len(),
            forall|k: int|
                0 <= k < origins.len() ==> self.found(
                    direction,
                    #[trigger] origins[k],
                    self@.line_count(direction) as int,
                ) && matches[k] == run_cells(direction, origins[k].0, origins[k].1, origins[k].2),
            forall|li: int, s: int, l: int|
                0 <= li < self@.line_count(direction) && #[trigger] is_run(
                    self@.line(direction, li),
                    s,
                    l,
                ) ==> origins.contains((li, s, l)),
            forall|j: int, k: int|
                0 <= j < k < origins.len() ==> follows(#[trigger] origins[j], #[trigger] origins[k]),
        ensures
            self@.lists_line_matches(direction, matches),
    {
        assert forall|k: int| 0 <= k < matches.len() implies self@.is_line_match(
            direction,
            #[trigger] matches[k],
        ) by {
            let o = origins[k];
            assert(self.found(direction, o, self@.line_count(direction) as int));
            assert(is_run(self@.line(direction, o.0), o.1, o.2));
        }
        assert forall|cells: Set<Position>| #[trigger]
            self@.is_line_match(direction, cells) implies exists|k: int|
            0 <= k < matches.len() && #[trigger] matches[k] == cells by {
            let (li, s, l) = choose|li: int, s: int, l: int|
                0 <= li < self@.line_count(direction) && #[trigger] is_run(
                    self@.line(direction, li),
                    s,
                    l,
                ) && cells == run_cells(direction, li, s, l);
            let k = origins.index_of((li, s, l));
            assert(origins[k] == (li, s, l));
            assert(matches[k] == cells);
        }
        assert forall|j: int, k: int| 0 <= j < k < matches.len() implies matches[j] != matches[k] by {
            let a = origins[j];
            let b = origins[k];
            assert(self.found(direction, a, self@.line_count(direction) as int));
            assert(self.found(direction, b, self@.line_count(direction) as int));
            assert(follows(a, b));
            let p = cell_at(direction, a.0, a.1);
            assert(line_of(direction, p) == a.0 && offset_of(direction, p) == a.1);
            assert(matches[j].contains(p));
            assert(!matches[k].contains(p));
        }
    }

    /// No match along a row is also a match along a column.
    proof fn lemma_rows_cross_columns(&self, row: Set<Position>, column: Set<Position>)
        requires
            self@.is_line_match(MatchDirection::Horizontal, row),
            self@.is_line_match(MatchDirection::Vertical, column),
        ensures
            row != column,
    {
        let h = MatchDirection::Horizontal;
        let v = MatchDirection::Vertical;
        let (y, start, len) = choose|y: int, start: int, len: int|
            0 <= y < self@.line_count(h) && #[trigger] is_run(self@.line(h, y), start, len) && row
                == run_cells(h, y, start, len);
        let (x, top, count) = choose|x: int, top: int, count: int|
            0 <= x < self@.line_count(v) && #[trigger] is_run(self@.line(v, x), top, count)
                && column == run_cells(v, x, top, count);
        let p = cell_at(h, y, start);
        let q = cell_at(h, y, start + 1);
        assert(row.contains(p) && row.contains(q));
        assert(!(column.contains(p) && column.contains(q)));
    }

    /// The matches along the rows followed by those along the columns are all the
    /// matches of the board, each once.
    proof fn lemma_lists_matches(&self, rows: Seq<Set<Position>>, columns: Seq<Set<Position>>)
        requires
            self@.lists_line_matches(MatchDirection::Horizontal, rows),
            self@.lists_line_matches(MatchDirection::Vertical, columns),
        ensures
            self@.lists_matches(rows + columns),
    {
        let all = rows + columns;
        assert forall|k: int| 0 <= k < all.len() implies self@.is_match(#[trigger] all[k]) by {
            if k < rows.len() {
                assert(all[k] == rows[k]);
            } else {
                assert(all[k] == columns[k - rows.len()]);
            }
        }
        assert forall|cells: Set<Position>| #[trigger] self@.is_match(cells) implies exists|k: int|
            0 <= k < all.len() && #[trigger] all[k] == cells by {
            if self@.is_line_match(MatchDirection::Horizontal, cells) {
                let k = choose|k: int| 0 <= k < rows.len() && #[trigger] rows[k] == cells;
                assert(all[k] == cells);
            } else {
                let k = choose|k: int| 0 <= k < columns.len() && #[trigger] columns[k] == cells;
                assert(all[k + rows.len()] == cells);
            }
        }
        assert forall|j: int, k: int| 0 <= j < k < all.len() implies all[j] != all[k] by {
            if k < rows.len() {
                assert(all[j] == rows[j] && all[k] == rows[k]);
            } else if j >= rows.len() {
                assert(all[j] == columns[j - rows.len()] && all[k] == columns[k - rows.len()]);
            } else {
                assert(all[j] == rows[j] && all[k] == columns[k - rows.len()]);
                self.lemma_rows_cross_columns(all[j], all[k]);
            }
        }
    }

    /// The cells of a match lie on the board.
    pub(crate) proof fn lemma_match_in_bounds(&self, cells: Set<Position>, p: Position)
        requires
            self@.is_match(cells),
            cells.contains(p),
        ensures
            self@.in_bounds(p),
    {
        let d = if self@.is_line_match(MatchDirection::Horizontal, cells) {
            MatchDirection::Horizontal
        } else {
            MatchDirection::Vertical
        };
        let (line, start, len) = choose|line: int, start: int, len: int|
            0 <= line < self@.line_count(d) && #[trigger] is_run(self@.line(d, line), start, len)
                && cells == run_cells(d, line, start, len);
        assert(run_cells(d, line, start, len).contains(p));
    }
}

} // verus!
