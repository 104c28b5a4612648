use match3::position::{BoardMove, Position};

fn at(x: u32, y: u32) -> Position {
    Position::new(x, y)
}

#[test]
fn new_position_has_its_coordinates() {
    let p = Position::new(3, 7);
    assert_eq!(p.x, 3);
    assert_eq!(p.y, 7);
    assert_eq!(p, Position { x: 3, y: 7 });
}

#[test]
fn neighbours_are_one_step_away() {
    let p = at(4, 5);
    assert_eq!(p.left(), at(3, 5));
    assert_eq!(p.right(), at(5, 5));
    assert_eq!(p.up(), at(4, 4));
    assert_eq!(p.down(), at(4, 6));
}

#[test]
fn neighbours_saturate_at_the_edges() {
    assert_eq!(at(0, 2).left(), at(0, 2));
    assert_eq!(at(2, 0).up(), at(2, 0));
    assert_eq!(at(u32::MAX, 2).right(), at(u32::MAX, 2));
    assert_eq!(at(2, u32::MAX).down(), at(2, u32::MAX));
}

#[test]
fn cardinal_adjacency() {
    let p = at(4, 5);
    assert!(at(3, 5).cardinally_adjacent(&p));
    assert!(at(5, 5).cardinally_adjacent(&p));
    assert!(at(4, 4).cardinally_adjacent(&p));
    assert!(at(4, 6).cardinally_adjacent(&p));
    assert!(!at(5, 6).cardinally_adjacent(&p));
    assert!(!at(4, 5).cardinally_adjacent(&p));
    assert!(!at(6, 5).cardinally_adjacent(&p));
}

#[test]
fn no_cell_is_adjacent_to_itself() {
    assert!(!at(0, 0).cardinally_adjacent(&at(0, 0)));
    assert!(!at(0, 3).cardinally_adjacent(&at(0, 3)));
    assert!(!at(3, 0).cardinally_adjacent(&at(3, 0)));
    assert!(!at(u32::MAX, 3).cardinally_adjacent(&at(u32::MAX, 3)));
    assert!(!at(3, u32::MAX).cardinally_adjacent(&at(3, u32::MAX)));
    assert!(!at(u32::MAX, u32::MAX).cardinally_adjacent(&at(u32::MAX, u32::MAX)));
}

#[test]
fn adjacency_at_the_edges() {
    assert!(at(0, 0).cardinally_adjacent(&at(1, 0)));
    assert!(at(1, 0).cardinally_adjacent(&at(0, 0)));
    assert!(at(0, 0).cardinally_adjacent(&at(0, 1)));
    assert!(at(0, 1).cardinally_adjacent(&at(0, 0)));
    assert!(at(u32::MAX, 7).cardinally_adjacent(&at(u32::MAX - 1, 7)));
    assert!(at(u32::MAX - 1, 7).cardinally_adjacent(&at(u32::MAX, 7)));
    assert!(at(7, u32::MAX).cardinally_adjacent(&at(7, u32::MAX - 1)));
    assert!(!at(0, 0).cardinally_adjacent(&at(1, 1)));
    assert!(!at(0, 0).cardinally_adjacent(&at(2, 0)));
    assert!(!at(0, 0).cardinally_adjacent(&at(u32::MAX, 0)));
}

#[test]
fn moves_are_equal_in_either_order() {
    let a = at(1, 2);
    let b = at(2, 2);
    let c = at(1, 3);
    assert!(BoardMove(a, b) == BoardMove(a, b));
    assert!(BoardMove(a, b) == BoardMove(b, a));
    assert!(BoardMove(a, b) != BoardMove(a, c));
    assert!(BoardMove(a, b) != BoardMove(c, b));
}

#[test]
fn canonical_order_is_by_column_then_row() {
    let a = at(1, 9);
    let b = at(2, 0);
    assert_eq!(BoardMove(a, b).canonical(), (a, b));
    assert_eq!(BoardMove(b, a).canonical(), (a, b));
    let c = at(1, 3);
    assert_eq!(BoardMove(a, c).canonical(), (c, a));
    assert_eq!(BoardMove(c, a).canonical(), (c, a));
    assert_eq!(BoardMove(a, a).canonical(), (a, a));
}

#[test]
fn moves_hash_alike_in_either_order() {
    let a = at(1, 2);
    let b = at(2, 2);
    let c = at(1, 3);
    let mut moves = std::collections::HashSet::new();
    assert!(moves.insert(BoardMove(a, b)));
    assert!(!moves.insert(BoardMove(b, a)));
    assert!(moves.insert(BoardMove(a, c)));
    assert!(!moves.insert(BoardMove(c, a)));
    assert_eq!(moves.len(), 2);
    assert!(moves.contains(&BoardMove(b, a)));
    assert!(!moves.contains(&BoardMove(b, c)));
}
