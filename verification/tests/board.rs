use match3::board::Board;
use match3::cascade::MAX_CASCADE_ROUNDS;
use match3::config::{GenerateError, Match3Config};
use match3::model::SwapError;
use match3::position::{BoardMove, Position};

fn at(x: u32, y: u32) -> Position {
    Position::new(x, y)
}

fn entries(board: &Board) -> Vec<(Position, u32)> {
    let mut all = board.iter();
    all.sort_by_key(|e| (e.0.x, e.0.y));
    all
}

fn sorted_types(board: &Board) -> Vec<u32> {
    let mut types = board.types.to_vec();
    types.sort();
    types
}

#[test]
fn grid_gives_the_board_its_size_gems_and_types() {
    let board = Board::from(vec![vec![1, 2, 3], vec![4, 5, 1]]);
    assert_eq!(board.dimensions, at(3, 2));
    assert_eq!(board.get(&at(0, 0)), Some(&1));
    assert_eq!(board.get(&at(2, 0)), Some(&3));
    assert_eq!(board.get(&at(0, 1)), Some(&4));
    assert_eq!(board.get(&at(2, 1)), Some(&1));
    assert_eq!(board.get(&at(3, 0)), None);
    assert_eq!(board.get(&at(0, 2)), None);
    assert_eq!(sorted_types(&board), vec![1, 2, 3, 4, 5]);
}

#[test]
fn rows_give_the_grid_back() {
    let grid = vec![vec![1, 2, 3], vec![4, 5, 1]];
    let board = Board::from(grid.clone());
    assert_eq!(board.rows(), Some(grid));
}

#[test]
fn ragged_grid_leaves_cells_empty() {
    let board = Board::from(vec![vec![1, 2, 3], vec![4]]);
    assert_eq!(board.dimensions, at(3, 2));
    assert_eq!(board.get(&at(0, 1)), Some(&4));
    assert_eq!(board.get(&at(1, 1)), None);
    assert_eq!(board.rows(), None);
}

#[test]
fn empty_grid_gives_an_empty_board() {
    let board = Board::from(Vec::new());
    assert_eq!(board.dimensions, at(0, 0));
    assert_eq!(board.iter(), Vec::new());
    assert_eq!(board.rows(), Some(Vec::new()));
}

#[test]
fn iter_lists_every_gem_once() {
    let board = Board::from(vec![vec![1, 2], vec![3, 4]]);
    assert_eq!(
        entries(&board),
        vec![(at(0, 0), 1), (at(0, 1), 3), (at(1, 0), 2), (at(1, 1), 4)]
    );
}

#[test]
fn insert_and_remove_change_one_cell() {
    let mut board = Board::from(vec![vec![1, 2], vec![3, 4]]);
    board.remove(&at(1, 0));
    assert_eq!(board.get(&at(1, 0)), None);
    assert_eq!(entries(&board), vec![(at(0, 0), 1), (at(0, 1), 3), (at(1, 1), 4)]);
    board.insert(at(1, 0), 9);
    assert_eq!(board.get(&at(1, 0)), Some(&9));
    board.insert(at(0, 0), 8);
    assert_eq!(board.rows(), Some(vec![vec![8, 9], vec![3, 4]]));
}

#[test]
fn clone_is_a_board_of_its_own() {
    let board = Board::from(vec![vec![1, 2], vec![3, 4]]);
    let mut copy = board.clone();
    assert_eq!(copy.dimensions, board.dimensions);
    assert_eq!(entries(&copy), entries(&board));
    assert_eq!(sorted_types(&copy), sorted_types(&board));
    copy.insert(at(0, 0), 7);
    assert_eq!(board.get(&at(0, 0)), Some(&1));
}

#[test]
fn column_with_gaps_compacts_to_the_bottom() {
    let mut board = Board::from(vec![vec![1], vec![9], vec![2], vec![9], vec![3]]);
    board.remove(&at(0, 1));
    board.remove(&at(0, 3));
    let moves = board.drop();
    assert_eq!(board.get(&at(0, 0)), None);
    assert_eq!(board.get(&at(0, 1)), None);
    assert_eq!(board.get(&at(0, 2)), Some(&1));
    assert_eq!(board.get(&at(0, 3)), Some(&2));
    assert_eq!(board.get(&at(0, 4)), Some(&3));
    let mut moved = moves.to_vec();
    moved.sort_by_key(|m| (m.0.x, m.0.y));
    assert_eq!(moved, vec![(at(0, 0), at(0, 2)), (at(0, 2), at(0, 3))]);
}

#[test]
fn columns_fall_apart_from_each_other() {
    let mut board = Board::from(vec![vec![1, 2, 3], vec![4, 5, 6], vec![7, 8, 9]]);
    board.remove(&at(0, 2));
    board.remove(&at(1, 1));
    board.remove(&at(1, 2));
    let moves = board.drop();
    assert_eq!(board.get(&at(0, 0)), None);
    assert_eq!(board.get(&at(0, 1)), Some(&1));
    assert_eq!(board.get(&at(0, 2)), Some(&4));
    assert_eq!(board.get(&at(1, 0)), None);
    assert_eq!(board.get(&at(1, 1)), None);
    assert_eq!(board.get(&at(1, 2)), Some(&2));
    assert_eq!(board.get(&at(2, 0)), Some(&3));
    assert_eq!(board.get(&at(2, 1)), Some(&6));
    assert_eq!(board.get(&at(2, 2)), Some(&9));
    let mut moved = moves.to_vec();
    moved.sort_by_key(|m| (m.0.x, m.0.y));
    assert_eq!(
        moved,
        vec![(at(0, 0), at(0, 1)), (at(0, 1), at(0, 2)), (at(1, 0), at(1, 2))]
    );
}

#[test]
fn full_board_does_not_fall() {
    let mut board = Board::from(vec![vec![1, 2], vec![3, 4]]);
    let moves = board.drop();
    assert_eq!(moves.to_vec(), Vec::new());
    assert_eq!(board.rows(), Some(vec![vec![1, 2], vec![3, 4]]));
}

#[test]
fn fall_leaves_cells_outside_the_board_alone() {
    let mut board = Board::from(vec![vec![1], vec![2]]);
    board.insert(at(5, 0), 7);
    board.remove(&at(0, 1));
    board.drop();
    assert_eq!(board.get(&at(5, 0)), Some(&7));
    assert_eq!(board.get(&at(0, 1)), Some(&1));
    assert_eq!(board.get(&at(0, 0)), None);
}

#[test]
fn fill_gives_every_empty_cell_a_spawnable_gem() {
    let mut board = Board::from(vec![vec![1, 2, 3], vec![3, 1, 2]]);
    board.remove(&at(0, 0));
    board.remove(&at(2, 1));
    let fills = board.fill();
    let mut filled = fills.to_vec();
    filled.sort_by_key(|f| (f.0.x, f.0.y));
    assert_eq!(filled.len(), 2);
    assert_eq!(filled[0].0, at(0, 0));
    assert_eq!(filled[1].0, at(2, 1));
    for (pos, typ) in filled {
        assert!(typ == 1 || typ == 2 || typ == 3);
        assert_eq!(board.get(&pos), Some(&typ));
    }
    assert_eq!(board.get(&at(1, 0)), Some(&2));
    assert_eq!(board.get(&at(0, 1)), Some(&3));
    assert!(board.rows().is_some());
}

#[test]
fn fill_of_a_full_board_changes_nothing() {
    let mut board = Board::from(vec![vec![1, 2], vec![3, 4]]);
    let fills = board.fill();
    assert_eq!(fills.to_vec(), Vec::new());
    assert_eq!(board.rows(), Some(vec![vec![1, 2], vec![3, 4]]));
}

#[test]
fn swap_without_a_match_is_refused_and_undone() {
    let mut board = Board::from(vec![vec![1, 2, 1]]);
    let before = entries(&board);
    assert_eq!(board.swap(&at(0, 0), &at(1, 0)), Err(SwapError::NoMatches));
    assert_eq!(entries(&board), before);
    assert_eq!(board.rows(), Some(vec![vec![1, 2, 1]]));
    assert_eq!(sorted_types(&board), vec![1, 2]);
    assert_eq!(board.dimensions, at(3, 1));
}

#[test]
fn refused_swap_leaves_an_equal_board() {
    let mut board = Board::from(vec![vec![1, 2, 3], vec![3, 1, 2], vec![2, 3, 1]]);
    let before = board.clone();
    for a in [at(0, 0), at(1, 1), at(2, 2), at(5, 5)] {
        for b in [at(1, 0), at(0, 1), at(2, 1), at(0, 7)] {
            assert!(board.swap(&a, &b).is_err());
            assert!(board == before);
        }
    }
}

#[test]
fn boards_are_equal_by_size_gems_and_types() {
    let board = Board::from(vec![vec![1, 2], vec![3, 4]]);
    assert!(board == Board::from(vec![vec![1, 2], vec![3, 4]]));
    assert!(board != Board::from(vec![vec![1, 2], vec![3, 5]]));
    assert!(board != Board::from(vec![vec![1, 2, 3, 4]]));
    let mut other = board.clone();
    other.remove(&at(1, 1));
    assert!(board != other);
    other.insert(at(1, 1), 4);
    assert!(board == other);
    let mut wider = board.clone();
    wider.dimensions = at(3, 2);
    assert!(board != wider);
    let fewer_types = Board::from(vec![vec![1, 1], vec![1, 1]]);
    let mut same_gems = Board::from(vec![vec![1, 2], vec![1, 1]]);
    same_gems.insert(at(1, 0), 1);
    assert!(fewer_types != same_gems);
}

#[test]
fn swap_with_a_match_is_kept() {
    let mut board = Board::from(vec![vec![1, 2, 1, 1]]);
    assert_eq!(board.swap(&at(1, 0), &at(0, 0)), Ok(()));
    assert_eq!(board.rows(), Some(vec![vec![2, 1, 1, 1]]));
    assert_eq!(board.get_matches().unwrap().len(), 1);
}

#[test]
fn swap_names_the_first_cell_without_a_gem() {
    let mut board = Board::from(vec![vec![1, 2, 1, 1]]);
    let before = entries(&board);
    assert_eq!(board.swap(&at(9, 9), &at(0, 0)), Err(SwapError::NoGem(at(9, 9))));
    assert_eq!(board.swap(&at(0, 0), &at(4, 0)), Err(SwapError::NoGem(at(4, 0))));
    assert_eq!(board.swap(&at(7, 7), &at(8, 8)), Err(SwapError::NoGem(at(7, 7))));
    assert_eq!(entries(&board), before);
}

#[test]
fn swap_of_an_empty_cell_on_a_board_with_gaps_is_refused() {
    let mut board = Board::from(vec![vec![1, 2, 1, 1]]);
    board.remove(&at(3, 0));
    assert_eq!(board.swap(&at(3, 0), &at(2, 0)), Err(SwapError::NoGem(at(3, 0))));
    assert_eq!(board.swap(&at(2, 0), &at(3, 0)), Err(SwapError::NoGem(at(3, 0))));
}

#[test]
fn swap_of_far_cells_counts_too() {
    let mut board = Board::from(vec![vec![1, 1, 2, 3], vec![3, 2, 1, 2]]);
    assert_eq!(board.swap(&at(2, 0), &at(2, 1)), Ok(()));
    assert_eq!(board.rows(), Some(vec![vec![1, 1, 1, 3], vec![3, 2, 2, 2]]));
}

#[test]
fn try_swap_never_changes_the_board() {
    let mut board = Board::from(vec![vec![1, 2, 1, 1]]);
    let before = entries(&board);
    assert_eq!(board.try_swap(&at(0, 0), &at(1, 0)), Ok(()));
    assert_eq!(entries(&board), before);
    assert_eq!(board.try_swap(&at(1, 0), &at(2, 0)), Err(SwapError::NoMatches));
    assert_eq!(entries(&board), before);
    assert_eq!(board.try_swap(&at(1, 0), &at(1, 1)), Err(SwapError::NoGem(at(1, 1))));
    assert_eq!(entries(&board), before);
}

#[test]
fn popping_empties_the_cells_of_every_match() {
    let mut board = Board::from(vec![vec![1, 2, 3], vec![1, 1, 1], vec![1, 3, 2]]);
    let popped = board.pop_matches();
    let mut cells = popped.to_vec();
    cells.sort_by_key(|p| (p.x, p.y));
    assert_eq!(cells, vec![at(0, 0), at(0, 1), at(0, 2), at(1, 1), at(2, 1)]);
    assert_eq!(
        entries(&board),
        vec![(at(1, 0), 2), (at(1, 2), 3), (at(2, 0), 3), (at(2, 2), 2)]
    );
}

#[test]
fn popping_a_board_without_matches_takes_nothing() {
    let mut board = Board::from(vec![vec![1, 2], vec![3, 4]]);
    assert_eq!(board.pop_matches().to_vec(), Vec::new());
    assert_eq!(board.rows(), Some(vec![vec![1, 2], vec![3, 4]]));
}

#[test]
fn cascade_step_reports_what_it_did() {
    let mut board = Board::from(vec![vec![4, 2, 3], vec![1, 1, 1], vec![2, 3, 2]]);
    let step = board.cascade_step().unwrap();
    let mut popped = step.popped.to_vec();
    popped.sort_by_key(|p| (p.x, p.y));
    assert_eq!(popped, vec![at(0, 1), at(1, 1), at(2, 1)]);
    let mut dropped = step.dropped.to_vec();
    dropped.sort_by_key(|m| (m.0.x, m.0.y));
    assert_eq!(
        dropped,
        vec![(at(0, 0), at(0, 1)), (at(1, 0), at(1, 1)), (at(2, 0), at(2, 1))]
    );
    let mut filled = step.filled.to_vec();
    filled.sort_by_key(|f| (f.0.x, f.0.y));
    assert_eq!(filled.len(), 3);
    assert_eq!(filled[0].0, at(0, 0));
    assert_eq!(filled[1].0, at(1, 0));
    assert_eq!(filled[2].0, at(2, 0));
    for (pos, typ) in filled {
        assert!(1 <= typ && typ <= 4);
        assert_eq!(board.get(&pos), Some(&typ));
    }
    let rows = board.rows().unwrap();
    assert_eq!(rows[1], vec![4, 2, 3]);
    assert_eq!(rows[2], vec![2, 3, 2]);
}

#[test]
fn cascade_step_on_a_board_without_matches_does_nothing() {
    let mut board = Board::from(vec![vec![1, 2], vec![3, 4]]);
    assert!(board.cascade_step().is_none());
    assert_eq!(board.rows(), Some(vec![vec![1, 2], vec![3, 4]]));
}

#[test]
fn clearing_leaves_no_match_and_a_full_board() {
    let mut board = Board::from(vec![
        vec![1, 1, 1, 2],
        vec![2, 3, 4, 2],
        vec![3, 4, 1, 2],
        vec![4, 1, 3, 3],
    ]);
    let stable = board.clear_matches();
    assert!(stable);
    assert!(board.get_matches().unwrap().is_empty());
    assert_eq!(board.dimensions, at(4, 4));
    assert_eq!(board.iter().len(), 16);
    assert_eq!(sorted_types(&board), vec![1, 2, 3, 4]);
    for (_, typ) in board.iter() {
        assert!(1 <= typ && typ <= 4);
    }
}

#[test]
fn clearing_a_board_without_matches_changes_nothing() {
    let grid = vec![vec![1, 2, 1], vec![2, 1, 2], vec![1, 2, 1]];
    let mut board = Board::from(grid.clone());
    assert!(board.clear_matches());
    assert_eq!(board.rows(), Some(grid));
}

#[test]
fn clearing_gives_up_when_every_refill_matches() {
    assert_eq!(MAX_CASCADE_ROUNDS, 100_000);
    let mut board = Board::from(vec![vec![1, 1, 1]]);
    let stable = board.clear_matches();
    assert!(!stable);
    assert_eq!(board.rows(), Some(vec![vec![1, 1, 1]]));
    assert!(!board.get_matches().unwrap().is_empty());
}

#[test]
fn cells_next_to_a_cell() {
    let board = Board::from(vec![vec![1, 2, 3], vec![4, 5, 6], vec![7, 8, 9]]);
    assert_eq!(board.adjacents(at(1, 1)), vec![at(0, 1), at(2, 1), at(1, 0), at(1, 2)]);
    assert_eq!(board.adjacents(at(0, 0)), vec![at(1, 0), at(0, 1)]);
    assert_eq!(board.adjacents(at(2, 2)), vec![at(1, 2), at(2, 1)]);
    assert_eq!(board.adjacents(at(2, 0)), vec![at(1, 0), at(2, 1)]);
    assert_eq!(board.adjacents(at(3, 1)), vec![at(2, 1)]);
    assert_eq!(board.adjacents(at(7, 7)), Vec::new());
    assert!(board.in_bounds(&at(2, 2)));
    assert!(!board.in_bounds(&at(3, 2)));
    assert!(!board.in_bounds(&at(2, 3)));
}

#[test]
fn hints_list_each_matching_move_once() {
    let board = Board::from(vec![vec![1, 2, 1, 1]]);
    let moves = board.get_matching_moves();
    let listed = moves.to_vec();
    assert_eq!(listed.len(), 1);
    assert!(listed[0] == BoardMove(at(0, 0), at(1, 0)));
    assert!(moves.contains(&BoardMove(at(0, 0), at(1, 0))));
    assert!(moves.contains(&BoardMove(at(1, 0), at(0, 0))));
    assert!(!moves.contains(&BoardMove(at(1, 0), at(2, 0))));
    assert!(!moves.contains(&BoardMove(at(2, 0), at(3, 0))));
    assert_eq!(board.rows(), Some(vec![vec![1, 2, 1, 1]]));
}

#[test]
fn hints_cover_both_directions() {
    let board = Board::from(vec![vec![1, 2, 3], vec![2, 1, 1], vec![3, 2, 3]]);
    let moves = board.get_matching_moves();
    let mut listed: Vec<(Position, Position)> =
        moves.to_vec().iter().map(|m| m.canonical()).collect();
    listed.sort_by_key(|m| (m.0.x, m.0.y, m.1.x, m.1.y));
    assert_eq!(listed, vec![(at(0, 0), at(0, 1)), (at(0, 1), at(1, 1))]);
    for i in 0..listed.len() {
        for j in 0..listed.len() {
            if i != j {
                assert!(BoardMove(listed[i].0, listed[i].1) != BoardMove(listed[j].0, listed[j].1));
            }
        }
    }
}

#[test]
fn board_without_a_matching_move_has_no_hint() {
    let board = Board::from(vec![vec![1, 2], vec![3, 4]]);
    assert_eq!(board.get_matching_moves().to_vec().len(), 0);
}

#[test]
fn default_configuration() {
    let config = Match3Config::default();
    assert_eq!(config.gem_types, 5);
    assert_eq!(config.board_dimensions, at(10, 10));
}

#[test]
fn generated_board_is_full_and_stable() {
    let config = Match3Config::default();
    let board = Board::generate(&config).unwrap();
    assert_eq!(board.dimensions, at(10, 10));
    assert_eq!(board.iter().len(), 100);
    assert_eq!(sorted_types(&board), vec![0, 1, 2, 3, 4]);
    for (pos, typ) in board.iter() {
        assert!(board.in_bounds(&pos));
        assert!(typ < 5);
    }
    assert!(board.get_matches().unwrap().is_empty());
}

#[test]
fn generation_refuses_fewer_than_three_types() {
    let config = Match3Config { gem_types: 2, board_dimensions: at(4, 4) };
    assert_eq!(Board::generate(&config).err(), Some(GenerateError::TooFewGemTypes));
    let config = Match3Config { gem_types: 0, board_dimensions: at(4, 4) };
    assert_eq!(Board::generate(&config).err(), Some(GenerateError::TooFewGemTypes));
    let config = Match3Config { gem_types: 3, board_dimensions: at(4, 4) };
    assert!(Board::generate(&config).is_ok());
}

#[test]
fn fallen_gems_do_not_fall_again() {
    let mut board = Board::from(vec![vec![1, 2, 3], vec![4, 5, 6], vec![7, 8, 9]]);
    board.remove(&at(0, 1));
    board.remove(&at(1, 2));
    board.remove(&at(2, 0));
    assert_eq!(board.drop().to_vec().len(), 3);
    let settled = board.clone();
    assert_eq!(board.drop().to_vec(), Vec::new());
    assert!(board == settled);
}

#[test]
fn every_operation_keeps_a_full_board_full() {
    let mut board = Board::from(vec![vec![1, 1, 2, 1], vec![2, 3, 1, 3], vec![3, 2, 3, 2]]);
    assert!(board.rows().is_some());
    board.insert(at(0, 0), 1);
    assert!(board.rows().is_some());
    assert!(board.swap(&at(0, 0), &at(0, 1)).is_err());
    assert!(board.rows().is_some());
    assert!(board.try_swap(&at(2, 0), &at(2, 1)).is_ok());
    assert!(board.rows().is_some());
    assert!(board.swap(&at(2, 0), &at(2, 1)).is_ok());
    assert!(board.rows().is_some());
    board.drop();
    assert!(board.rows().is_some());
    board.fill();
    assert!(board.rows().is_some());
    board.get_matching_moves();
    assert!(board.rows().is_some());
    board.clear_matches();
    assert!(board.rows().is_some());
    assert_eq!(board.iter().len(), 12);
}

#[test]
fn swap_with_a_cell_below_a_one_row_board_finds_no_gem() {
    let mut board = Board::from(vec![vec![1, 2, 1]]);
    let before = board.clone();
    assert_eq!(board.swap(&at(0, 0), &at(0, 1)), Err(SwapError::NoGem(at(0, 1))));
    assert!(board == before);
}

#[test]
fn random_board_is_full_of_the_configured_types() {
    let config = Match3Config { gem_types: 4, board_dimensions: at(6, 3) };
    let board = Board::random(&config).unwrap();
    assert_eq!(board.dimensions, at(6, 3));
    assert_eq!(board.iter().len(), 18);
    assert!(board.rows().is_some());
    assert_eq!(sorted_types(&board), vec![0, 1, 2, 3]);
    for (pos, typ) in board.iter() {
        assert!(board.in_bounds(&pos));
        assert!(typ < 4);
    }
}

#[test]
fn random_board_refuses_fewer_than_three_types() {
    let config = Match3Config { gem_types: 2, board_dimensions: at(6, 3) };
    assert_eq!(Board::random(&config).err(), Some(GenerateError::TooFewGemTypes));
}

#[test]
fn boards_too_small_to_match_are_always_generated() {
    for (x, y) in [(0, 0), (1, 1), (2, 2), (2, 1), (0, 9), (9, 0), (1, 2)] {
        let config = Match3Config { gem_types: 3, board_dimensions: at(x, y) };
        let board = Board::generate(&config).unwrap();
        assert_eq!(board.dimensions, at(x, y));
        assert_eq!(board.iter().len(), (x * y) as usize);
        assert!(board.get_matches().unwrap().is_empty());
    }
}

#[test]
fn board_shows_its_parts_when_debugged() {
    let board = Board::from(vec![vec![7]]);
    let text = format!("{:?}", board);
    assert!(text.contains("Board"));
    assert!(text.contains("dimensions"));
    assert!(text.contains('7'));
}

#[test]
fn move_set_finds_members_in_either_order() {
    let board = Board::from(vec![vec![1, 2, 3], vec![2, 1, 1], vec![3, 2, 3]]);
    let moves = board.get_matching_moves();
    assert!(moves.contains(&BoardMove(at(0, 0), at(0, 1))));
    assert!(moves.contains(&BoardMove(at(0, 1), at(0, 0))));
    assert!(moves.contains(&BoardMove(at(1, 1), at(0, 1))));
    assert!(!moves.contains(&BoardMove(at(1, 1), at(2, 1))));
    assert!(!moves.contains(&BoardMove(at(0, 0), at(1, 1))));
}
