use match3::board::{Board, MissingGemError};
use match3::collections::PositionSet;
use match3::matches::{Match, MatchDirection, Matches};
use match3::position::Position;

fn at(x: u32, y: u32) -> Position {
    Position::new(x, y)
}

fn sorted(mut cells: Vec<Position>) -> Vec<Position> {
    cells.sort_by_key(|p| (p.x, p.y));
    cells
}

fn found(matches: &Matches) -> Vec<Vec<Position>> {
    let mut all = Vec::new();
    for k in 0..matches.len() {
        all.push(sorted(matches.positions(k).unwrap()));
    }
    all.sort_by_key(|cells| cells.iter().map(|p| (p.x, p.y)).collect::<Vec<(u32, u32)>>());
    all
}

#[test]
fn row_of_three_and_two_gives_one_match_of_three() {
    let board = Board::from(vec![vec![7, 7, 7, 8, 8]]);
    let matches = board.get_matches().unwrap();
    assert_eq!(found(&matches), vec![vec![at(0, 0), at(1, 0), at(2, 0)]]);
}

#[test]
fn row_of_four_gives_one_match_of_four() {
    let board = Board::from(vec![vec![7, 7, 7, 7]]);
    let matches = board.get_matches().unwrap();
    assert_eq!(matches.len(), 1);
    assert_eq!(found(&matches), vec![vec![at(0, 0), at(1, 0), at(2, 0), at(3, 0)]]);
}

#[test]
fn column_match_is_found() {
    let board = Board::from(vec![vec![1, 2], vec![3, 2], vec![1, 2], vec![3, 1]]);
    let matches = board.get_matches().unwrap();
    assert_eq!(found(&matches), vec![vec![at(1, 0), at(1, 1), at(1, 2)]]);
}

#[test]
fn board_without_runs_has_no_match() {
    let board = Board::from(vec![vec![1, 2, 1], vec![2, 1, 2], vec![1, 2, 1]]);
    let matches = board.get_matches().unwrap();
    assert!(matches.is_empty());
    assert_eq!(matches.len(), 0);
}

#[test]
fn directions_are_searched_apart() {
    let board = Board::from(vec![vec![1, 1, 1], vec![2, 3, 1], vec![3, 2, 1]]);
    let rows = board.straight_matches(MatchDirection::Horizontal).unwrap();
    assert_eq!(found(&rows), vec![vec![at(0, 0), at(1, 0), at(2, 0)]]);
    let columns = board.straight_matches(MatchDirection::Vertical).unwrap();
    assert_eq!(found(&columns), vec![vec![at(2, 0), at(2, 1), at(2, 2)]]);
    let both = board.get_matches().unwrap();
    assert_eq!(
        found(&both),
        vec![vec![at(0, 0), at(1, 0), at(2, 0)], vec![at(2, 0), at(2, 1), at(2, 2)]]
    );
}

#[test]
fn crossing_matches_share_a_cell_once() {
    let board = Board::from(vec![vec![1, 2, 3], vec![1, 1, 1], vec![1, 3, 2]]);
    let matches = board.get_matches().unwrap();
    assert_eq!(matches.len(), 2);
    let cells = sorted(matches.without_duplicates().to_vec());
    assert_eq!(cells, vec![at(0, 0), at(0, 1), at(0, 2), at(1, 1), at(2, 1)]);
}

#[test]
fn search_fails_at_the_first_missing_gem() {
    let mut board = Board::from(vec![vec![1, 2, 1], vec![2, 1, 2], vec![1, 2, 1]]);
    board.remove(&at(2, 1));
    board.remove(&at(0, 2));
    assert_eq!(board.get_matches().err(), Some(MissingGemError { position: at(2, 1) }));
    assert_eq!(
        board.straight_matches(MatchDirection::Horizontal).err(),
        Some(MissingGemError { position: at(2, 1) })
    );
    assert_eq!(
        board.straight_matches(MatchDirection::Vertical).err(),
        Some(MissingGemError { position: at(0, 2) })
    );
}

#[test]
fn empty_board_has_no_match() {
    let board = Board::from(Vec::new());
    assert!(board.get_matches().unwrap().is_empty());
}

#[test]
fn matches_collect_in_order() {
    let first = Match::Straight(PositionSet::from_cells(&vec![at(0, 0), at(1, 0), at(2, 0)]));
    let second = Match::Straight(PositionSet::from_cells(&vec![at(2, 0), at(2, 1), at(2, 2)]));
    let third = Match::Straight(PositionSet::from_cells(&vec![at(5, 5), at(5, 6), at(5, 7)]));
    let mut matches = Matches::default();
    assert!(matches.is_empty());
    matches.add(first);
    assert!(!matches.is_empty());
    let mut more = Matches::default();
    more.add(second);
    more.add(third);
    matches.append(&mut more);
    assert!(more.is_empty());
    assert_eq!(matches.len(), 3);
    assert_eq!(sorted(matches.positions(0).unwrap()), vec![at(0, 0), at(1, 0), at(2, 0)]);
    assert_eq!(sorted(matches.positions(1).unwrap()), vec![at(2, 0), at(2, 1), at(2, 2)]);
    assert_eq!(sorted(matches.positions(2).unwrap()), vec![at(5, 5), at(5, 6), at(5, 7)]);
    assert_eq!(matches.positions(3), None);
    assert_eq!(matches.without_duplicates().to_vec().len(), 8);
}

#[test]
fn cloned_matches_hold_the_same_cells() {
    let board = Board::from(vec![vec![4, 4, 4, 4]]);
    let matches = board.get_matches().unwrap();
    let copy = matches.clone();
    assert_eq!(found(&copy), found(&matches));
}

#[test]
fn position_set_keeps_each_cell_once() {
    let set = PositionSet::from_cells(&vec![at(1, 1), at(2, 1), at(1, 1)]);
    assert_eq!(sorted(set.to_vec()), vec![at(1, 1), at(2, 1)]);
}
