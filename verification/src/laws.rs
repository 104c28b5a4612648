//! Laws that relate the operations of the board to each other.

use crate::board::Board;
use crate::gravity::{lemma_column_without_gaps, lemma_gems_from_bounds};
use crate::hints::lemma_neighbours;
use crate::matches::MatchDirection;
use crate::model::{cell_at, grid_view, is_rectangular, run_cells};
use crate::position::{BoardMove, Position};
use crate::runs::is_run;
use vstd::prelude::*;

verus! {

/// A board has a match exactly if a complete list of its matches has an entry. So on
/// a board without matches a search finds none, and a search that finds none shows
/// that there are none.
pub proof fn lemma_match_listed(board: Board, matches: Seq<Set<Position>>)
    requires
        board@.lists_matches(matches),
    ensures
        board@.has_match() <==> matches.len() > 0,
{
    if matches.len() > 0 {
        assert(board@.is_match(matches[0]));
    }
    if board@.has_match() {
        let cells = choose|cells: Set<Position>| board@.is_match(cells);
        assert(board@.is_match(cells));
    }
}

/// The cells of a match lie on the board, are of one gem type, and are three or more.
pub proof fn lemma_match_cells(board: Board, cells: Set<Position>)
    requires
        board@.is_match(cells),
    ensures
        forall|p: Position| cells.contains(p) ==> board@.in_bounds(p),
        forall|p: Position, q: Position|
            cells.contains(p) && cells.contains(q) ==> board@.gems[p] == board@.gems[q],
        exists|a: Position, b: Position, c: Position|
            cells.contains(a) && cells.contains(b) && cells.contains(c) && a != b && a != c && b
                != c,
{
    let d = if board@.is_line_match(MatchDirection::Horizontal, cells) {
        MatchDirection::Horizontal
    } else {
        MatchDirection::Vertical
    };
    let (line, start, len) = choose|line: int, start: int, len: int|
        0 <= line < board@.line_count(d) && #[trigger] is_run(board@.line(d, line), start, len)
            && cells == run_cells(d, line, start, len);
    let types = board@.line(d, line);
    assert forall|p: Position| cells.contains(p) implies board@.in_bounds(p) && board@.gems[p]
        == types[start] by {
        assert(run_cells(d, line, start, len).contains(p));
        let j = crate::model::offset_of(d, p);
        assert(p == cell_at(d, line, j));
        assert(types[j] == types[start]);
    }
    let a = cell_at(d, line, start);
    let b = cell_at(d, line, start + 1);
    let c = cell_at(d, line, start + 2);
    assert(cells.contains(a) && cells.contains(b) && cells.contains(c));
}

/// No move is reported twice: of a pair of cells and the same pair the other way
/// round, the matching moves of a board hold at most one.
pub proof fn lemma_hint_once(board: Board, p: Position, q: Position)
    ensures
        !(board@.matching_moves().contains((p, q)) && board@.matching_moves().contains((q, p))),
{
}

/// The two cells of a move may be given in either order: it is the same move, and has
/// the same canonical form.
pub proof fn lemma_move_either_way(a: Position, b: Position)
    ensures
        BoardMove(a, b).spec_canonical() == BoardMove(b, a).spec_canonical(),
        vstd::std_specs::cmp::PartialEqSpec::eq_spec(&BoardMove(a, b), &BoardMove(b, a)),
{
}

/// Two moves are equal exactly if their canonical forms are.
pub proof fn lemma_move_equality(first: BoardMove, second: BoardMove)
    ensures
        vstd::std_specs::cmp::PartialEqSpec::eq_spec(&first, &second) <==> first.spec_canonical()
            == second.spec_canonical(),
{
}

/// A falling gem stays in its column, comes to rest on the board, and not above the
/// cell it fell from.
pub proof fn lemma_fall_goes_down(board: Board, p: Position)
    requires
        board@.in_bounds(p),
        board@.gems.contains_key(p),
    ensures
        board@.landing(p).x == p.x,
        p.y <= board@.landing(p).y < board@.height,
{
    lemma_gems_from_bounds(board@, p.x as int, p.y as int, board@.height as int);
}

/// Falling keeps the order of the gems of a column: of two gems, the upper one comes
/// to rest above the lower one.
pub proof fn lemma_fall_keeps_order(board: Board, upper: Position, lower: Position)
    requires
        board@.in_bounds(upper),
        board@.in_bounds(lower),
        board@.gems.contains_key(upper),
        board@.gems.contains_key(lower),
        upper.x == lower.x,
        upper.y < lower.y,
    ensures
        board@.landing(upper).y < board@.landing(lower).y,
{
    lemma_gems_from_bounds(board@, upper.x as int, upper.y + 1, lower.y as int);
    lemma_gems_from_bounds(board@, upper.x as int, lower.y as int, board@.height as int);
}

/// Gems that have fallen do not fall further: on a board that gems have fallen to,
/// every gem rests at its landing cell, and a second fall moves none.
pub proof fn lemma_fallen_stays(before: Board, after: Board)
    requires
        before@.dropped_to(after@),
    ensures
        forall|p: Position|
            after@.in_bounds(p) && after@.gems.contains_key(p) ==> #[trigger] after@.landing(p)
                == p,
        after@.drop_moves() == Set::<(Position, Position)>::empty(),
{
    assert forall|p: Position|
        after@.in_bounds(p) && after@.gems.contains_key(p) implies #[trigger] after@.landing(p)
        == p by {
        assert forall|q: Position|
            q.x == p.x && p.y <= q.y < after@.height implies #[trigger] after@.gems.contains_key(
            q,
        ) by {
            assert(before@.in_bounds(q));
        }
        lemma_column_without_gaps(after@, p.x as int, p.y as int);
    }
    assert(after@.drop_moves() =~= Set::<(Position, Position)>::empty());
}

/// Exchanging the gems of two occupied cells twice gives the board back.
pub proof fn lemma_swap_back(board: Board, a: Position, b: Position)
    requires
        board@.gems.contains_key(a),
        board@.gems.contains_key(b),
    ensures
        board@.swapped(a, b).swapped(a, b) == board@,
{
    assert(board@.swapped(a, b).swapped(a, b).gems =~= board@.gems);
}

/// The board of a rectangular grid has the rows of the grid as its rows.
pub proof fn lemma_grid_rows(rows: Seq<Vec<u32>>, y: int)
    requires
        is_rectangular(rows),
        rows.len() <= u32::MAX,
        rows.len() > 0 ==> rows[0].len() <= u32::MAX,
        0 <= y < rows.len(),
    ensures
        grid_view(rows).line(MatchDirection::Horizontal, y) == rows[y]@,
{
    assert(rows[y].len() == rows[0].len());
    assert(grid_view(rows).line(MatchDirection::Horizontal, y) =~= rows[y]@);
}

/// A board without a line of three cells has no match.
pub proof fn lemma_small_board_has_no_match(board: Board)
    requires
        !(board@.width >= 3 && board@.height >= 1),
        !(board@.height >= 3 && board@.width >= 1),
    ensures
        !board@.has_match(),
{
    if board@.has_match() {
        let cells = choose|cells: Set<Position>| board@.is_match(cells);
        let d = if board@.is_line_match(MatchDirection::Horizontal, cells) {
            MatchDirection::Horizontal
        } else {
            MatchDirection::Vertical
        };
        let (line, start, len) = choose|line: int, start: int, len: int|
            0 <= line < board@.line_count(d) && #[trigger] is_run(board@.line(d, line), start, len)
                && cells == run_cells(d, line, start, len);
        assert(board@.line(d, line).len() == board@.line_len(d));
    }
}

/// The board of a rectangular grid is as wide as the first row and as high as the
/// grid, holds the gem of row `y`, place `x` in cell `(x, y)`, is full, holds no gem
/// elsewhere, and may spawn exactly the types that occur in the grid.
pub proof fn lemma_grid_board(rows: Seq<Vec<u32>>)
    requires
        rows.len() > 0,
        is_rectangular(rows),
        rows.len() <= u32::MAX,
        rows[0].len() <= u32::MAX,
    ensures
        grid_view(rows).width == rows[0].len(),
        grid_view(rows).height == rows.len(),
        grid_view(rows).full(),
        forall|p: Position|
            grid_view(rows).gems.contains_key(p) <==> #[trigger] grid_view(rows).in_bounds(p),
        forall|p: Position|
            grid_view(rows).in_bounds(p) ==> #[trigger] grid_view(rows).gems[p]
                == rows[p.y as int][p.x as int],
        forall|t: u32|
            #[trigger] grid_view(rows).types.contains(t) <==> exists|x: int, y: int|
                0 <= y < rows.len() && 0 <= x < rows[y].len() && #[trigger] rows[y][x] == t,
{
    let board = grid_view(rows);
    assert forall|p: Position| board.gems.contains_key(p) <==> #[trigger] board.in_bounds(p) by {
        if p.y < rows.len() {
            assert(rows[p.y as int].len() == rows[0].len());
        }
    }
    assert forall|t: u32| #[trigger]
        board.types.contains(t) <==> exists|x: int, y: int|
            0 <= y < rows.len() && 0 <= x < rows[y].len() && #[trigger] rows[y][x] == t by {
        if board.types.contains(t) {
            let p = choose|p: Position|
                p.y < rows.len() && p.x < rows[p.y as int].len() && #[trigger] rows[p.y as int][p.x as int]
                    == t;
            assert(rows[p.y as int][p.x as int] == t);
        }
        if exists|x: int, y: int|
            0 <= y < rows.len() && 0 <= x < rows[y].len() && #[trigger] rows[y][x] == t {
            let (x, y) = choose|x: int, y: int|
                0 <= y < rows.len() && 0 <= x < rows[y].len() && #[trigger] rows[y][x] == t;
            assert(rows[y].len() == rows[0].len());
            let p = Position { x: x as u32, y: y as u32 };
            assert(rows[p.y as int][p.x as int] == t);
        }
    }
}

/// The neighbours of a cell are the cells of the board that are one step away from it.
pub proof fn lemma_neighbours_adjacent(board: Board, p: Position, q: Position)
    ensures
        board@.neighbours(p).contains(q) <==> (board@.in_bounds(q) && q.spec_cardinally_adjacent(
            p,
        )),
{
    lemma_neighbours(board@, p, q);
}

/// The two cells of a matching move are one step apart.
pub proof fn lemma_hint_adjacent(board: Board, a: Position, b: Position)
    requires
        board@.is_hint(a, b),
    ensures
        a.spec_cardinally_adjacent(b),
        b.spec_cardinally_adjacent(a),
{
}

} // verus!
