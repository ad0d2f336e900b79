use tile_board::attribute::Color;
use tile_board::attribute::Shape;
use tile_board::board::Board;
use tile_board::board::Move;
use tile_board::board::Tile;
use tile_board::position::Position;

#[test]
fn new_board_is_empty() {
    let board = Board::new(12, 12);
    assert_eq!(board.width(), 12);
    assert_eq!(board.height(), 12);
    assert_eq!(board.len(), 0);
    for x in 0..12 {
        for y in 0..12 {
            assert_eq!(board.get(x, y), None);
        }
    }
}

#[test]
fn board_is_rows_wide_and_cols_high() {
    let board = Board::new(3, 4);
    assert_eq!(board.width(), 3);
    assert_eq!(board.height(), 4);
    assert_eq!(board.indices().len(), 12);
}

#[test]
fn zero_dimension_gives_board_without_cells() {
    let board = Board::new(0, 5);
    assert_eq!(board.width(), 0);
    assert_eq!(board.height(), 0);
    assert_eq!(board.get(0, 0), None);
    let board = Board::new(5, 0);
    assert_eq!(board.width(), 0);
    assert_eq!(board.height(), 0);
    assert!(board.indices().is_empty());
}

#[test]
fn standard_board_is_twelve_by_twelve() {
    let board = Board::default();
    assert_eq!(board.width(), 12);
    assert_eq!(board.height(), 12);
    assert_eq!(board.len(), 0);
    assert_eq!(board.get(11, 11), None);
}

#[test]
fn board_that_cannot_be_stored_is_not_made() {
    assert!(Board::try_new(usize::MAX, usize::MAX).is_none());
    assert!(Board::try_new(usize::MAX, 2).is_none());
    assert!(Board::try_new(2, usize::MAX).is_none());
    assert!(Board::try_new(usize::MAX / 16, 1).is_none());
    let board = Board::try_new(3, 4).unwrap();
    assert_eq!(board.width(), 3);
    assert_eq!(board.height(), 4);
    let board = Board::try_new(0, usize::MAX);
    assert!(board.is_none());
    let board = Board::try_new(0, 9).unwrap();
    assert_eq!(board.width(), 0);
}

#[test]
fn lookup_outside_board_finds_nothing() {
    let mut board = Board::new(2, 2);
    board.create_tile(Position::new(1, 1), Color::Blue, Shape::Diamond);
    assert_eq!(board.get(1, 1), Some(0));
    assert_eq!(board.get(2, 1), None);
    assert_eq!(board.get(1, 2), None);
    assert_eq!(board.get(usize::MAX, usize::MAX), None);
    assert_eq!(board.occupant_at(&Position { x: u32::MAX, y: 0 }), None);
}

#[test]
fn indices_run_along_the_rows_first() {
    let board = Board::new(2, 3);
    assert_eq!(board.indices(), vec![(0, 0), (1, 0), (0, 1), (1, 1), (0, 2), (1, 2)]);
}

#[test]
fn created_tile_is_found_at_its_cell() {
    let mut board = Board::new(3, 4);
    let id = board.create_tile(Position::new(2, 3), Color::Red, Shape::Circle);
    assert_eq!(id, 0);
    assert_eq!(board.len(), 1);
    assert_eq!(board.get(2, 3), Some(0));
    assert_eq!(board.get(3, 2), None);
    assert_eq!(board.occupant_at(&Position { x: 2, y: 3 }), Some(0));
    assert_eq!(
        board.tile(0),
        Some(Tile { position: Position { x: 2, y: 3 }, color: Color::Red, shape: Shape::Circle, marked: false })
    );
}

#[test]
fn tiles_are_numbered_in_order_of_creation() {
    let mut board = Board::new(2, 2);
    assert_eq!(board.create_tile(Position::new(0, 0), Color::Blue, Shape::Diamond), 0);
    assert_eq!(board.create_tile(Position::new(1, 0), Color::Red, Shape::Circle), 1);
    assert_eq!(board.create_tile(Position::new(0, 1), Color::Yellow, Shape::Triangle), 2);
    assert_eq!(board.get(0, 0), Some(0));
    assert_eq!(board.get(1, 0), Some(1));
    assert_eq!(board.get(0, 1), Some(2));
    assert_eq!(board.get(1, 1), None);
}

#[test]
fn tile_outside_board_is_registered_without_a_cell() {
    let mut board = Board::new(2, 2);
    let id = board.create_tile(Position::new(2, 0), Color::Blue, Shape::Diamond);
    assert_eq!(id, 0);
    assert_eq!(board.len(), 1);
    assert_eq!(board.tile(0).unwrap().position, Position { x: 2, y: 0 });
    for x in 0..2 {
        for y in 0..2 {
            assert_eq!(board.get(x, y), None);
        }
    }
}

#[test]
fn creating_on_an_occupied_cell_overwrites_the_reference() {
    let mut board = Board::new(2, 2);
    let first = board.create_tile(Position::new(1, 0), Color::Blue, Shape::Diamond);
    let second = board.create_tile(Position::new(1, 0), Color::Red, Shape::Circle);
    assert_eq!(board.get(1, 0), Some(second));
    assert!(board.tile(first).is_some());
}

#[test]
fn destroyed_tile_leaves_an_empty_cell() {
    let mut board = Board::new(3, 3);
    let id = board.create_tile(Position::new(1, 2), Color::Yellow, Shape::Triangle);
    let removed = board.destroy_tile(id);
    assert_eq!(
        removed,
        Some(Tile {
            position: Position { x: 1, y: 2 },
            color: Color::Yellow,
            shape: Shape::Triangle,
            marked: false
        })
    );
    assert_eq!(board.get(1, 2), None);
    assert_eq!(board.tile(id), None);
    assert_eq!(board.len(), 1);
}

#[test]
fn destroying_what_is_not_live_changes_nothing() {
    let mut board = Board::new(2, 2);
    let id = board.create_tile(Position::new(0, 0), Color::Blue, Shape::Diamond);
    assert_eq!(board.destroy_tile(7), None);
    assert_eq!(board.get(0, 0), Some(id));
    assert!(board.destroy_tile(id).is_some());
    assert_eq!(board.destroy_tile(id), None);
    assert_eq!(board.get(0, 0), None);
}

#[test]
fn destroying_a_displaced_tile_leaves_the_cell_alone() {
    let mut board = Board::new(2, 2);
    let first = board.create_tile(Position::new(0, 1), Color::Blue, Shape::Diamond);
    let second = board.create_tile(Position::new(0, 1), Color::Red, Shape::Circle);
    assert!(board.destroy_tile(first).is_some());
    assert_eq!(board.get(0, 1), Some(second));
    assert!(board.destroy_tile(second).is_some());
    assert_eq!(board.get(0, 1), None);
}

#[test]
fn destroying_a_tile_outside_the_board_touches_no_cell() {
    let mut board = Board::new(2, 2);
    let inside = board.create_tile(Position::new(1, 1), Color::Blue, Shape::Diamond);
    let outside = board.create_tile(Position::new(5, 5), Color::Red, Shape::Circle);
    assert!(board.destroy_tile(outside).is_some());
    assert_eq!(board.get(1, 1), Some(inside));
}

#[test]
fn marking_sets_the_mark_once() {
    let mut board = Board::new(2, 2);
    let id = board.create_tile(Position::new(0, 0), Color::Blue, Shape::Diamond);
    board.mark_tile(id);
    let once = board.tile(id);
    assert!(once.unwrap().marked);
    board.mark_tile(id);
    assert_eq!(board.tile(id), once);
    board.mark_tile(3);
    assert_eq!(board.len(), 1);
}

#[test]
fn tile_falls_into_the_empty_cell_below() {
    let mut board = Board::new(2, 3);
    let id = board.create_tile(Position::new(1, 2), Color::Blue, Shape::Diamond);
    let moved = board.fall(1, 2);
    assert_eq!(moved, Some(Move { tile: id, position: Position { x: 1, y: 1 } }));
    assert_eq!(board.get(1, 2), None);
    assert_eq!(board.get(1, 1), Some(id));
    assert_eq!(board.tile(id).unwrap().position, Position { x: 1, y: 1 });
}

#[test]
fn tile_on_a_tile_does_not_fall() {
    let mut board = Board::new(1, 2);
    let lower = board.create_tile(Position::new(0, 0), Color::Blue, Shape::Diamond);
    let upper = board.create_tile(Position::new(0, 1), Color::Red, Shape::Circle);
    assert_eq!(board.fall(0, 1), None);
    assert_eq!(board.get(0, 0), Some(lower));
    assert_eq!(board.get(0, 1), Some(upper));
    assert_eq!(board.tile(upper).unwrap().position, Position { x: 0, y: 1 });
}

#[test]
fn empty_cell_does_not_fall() {
    let mut board = Board::new(1, 2);
    assert_eq!(board.fall(0, 1), None);
    assert_eq!(board.get(0, 0), None);
    assert_eq!(board.get(0, 1), None);
}

#[test]
fn positions_are_ordered_by_row_alone() {
    let low = Position { x: 5, y: 1 };
    let high = Position { x: 0, y: 2 };
    let beside = Position { x: 9, y: 1 };
    assert!(low < high);
    assert!(high > low);
    assert!(!(low < beside));
    assert!(!(low > beside));
    assert!(low <= beside);
    assert_eq!(low.partial_cmp(&beside), Some(std::cmp::Ordering::Equal));
    assert_eq!(low.partial_cmp(&high), Some(std::cmp::Ordering::Less));
    assert_eq!(high.partial_cmp(&low), Some(std::cmp::Ordering::Greater));
    assert_ne!(low, beside);
}

#[test]
fn position_keeps_small_indices() {
    assert_eq!(Position::new(3, 4), Position { x: 3, y: 4 });
    assert_eq!(Position::new(0, 0), Position { x: 0, y: 0 });
    assert_eq!(Position::new(4294967295, 11), Position { x: u32::MAX, y: 11 });
}
