use tile_board::attribute::Color;
use tile_board::attribute::Shape;
use tile_board::board::Board;
use tile_board::cursor::check_match;
use tile_board::cursor::mark;
use tile_board::cursor::marked_tiles;
use tile_board::cursor::move_cursor;
use tile_board::cursor::spawn_cursor;
use tile_board::cursor::Cursor;
use tile_board::position::Position;

fn at(x: u32, y: u32) -> Cursor {
    Cursor { position: Position { x, y } }
}

#[test]
fn cursor_starts_in_the_corner() {
    assert_eq!(spawn_cursor().position, Position { x: 0, y: 0 });
}

#[test]
fn cursor_moves_by_the_given_step() {
    let board = Board::new(12, 12);
    let mut cursor = spawn_cursor();
    move_cursor(&mut cursor, &board, 1, 0);
    assert_eq!(cursor.position, Position { x: 1, y: 0 });
    move_cursor(&mut cursor, &board, 0, 1);
    assert_eq!(cursor.position, Position { x: 1, y: 1 });
    move_cursor(&mut cursor, &board, 1, 1);
    assert_eq!(cursor.position, Position { x: 2, y: 2 });
    move_cursor(&mut cursor, &board, -1, -1);
    assert_eq!(cursor.position, Position { x: 1, y: 1 });
    move_cursor(&mut cursor, &board, 0, 0);
    assert_eq!(cursor.position, Position { x: 1, y: 1 });
}

#[test]
fn cursor_stops_at_the_left_and_bottom_edge() {
    let board = Board::new(12, 12);
    let mut cursor = spawn_cursor();
    move_cursor(&mut cursor, &board, -1, 0);
    assert_eq!(cursor.position, Position { x: 0, y: 0 });
    move_cursor(&mut cursor, &board, 0, -1);
    assert_eq!(cursor.position, Position { x: 0, y: 0 });
    let mut cursor = at(3, 2);
    move_cursor(&mut cursor, &board, -5, -2);
    assert_eq!(cursor.position, Position { x: 0, y: 0 });
    let mut cursor = at(3, 2);
    move_cursor(&mut cursor, &board, i32::MIN, i32::MIN);
    assert_eq!(cursor.position, Position { x: 0, y: 0 });
}

#[test]
fn cursor_stops_at_the_right_and_top_edge() {
    let board = Board::new(12, 12);
    let mut cursor = at(11, 11);
    move_cursor(&mut cursor, &board, 1, 0);
    assert_eq!(cursor.position, Position { x: 11, y: 11 });
    move_cursor(&mut cursor, &board, 0, 1);
    assert_eq!(cursor.position, Position { x: 11, y: 11 });
    let mut cursor = at(10, 4);
    move_cursor(&mut cursor, &board, 3, i32::MAX);
    assert_eq!(cursor.position, Position { x: 11, y: 11 });
}

#[test]
fn cursor_outside_the_board_comes_back_to_the_edge() {
    let board = Board::new(4, 6);
    let mut cursor = at(u32::MAX, u32::MAX);
    move_cursor(&mut cursor, &board, 1, 1);
    assert_eq!(cursor.position, Position { x: 3, y: 5 });
    let mut cursor = at(40, 60);
    move_cursor(&mut cursor, &board, 0, -1);
    assert_eq!(cursor.position, Position { x: 3, y: 5 });
}

#[test]
fn cursor_on_a_board_without_cells_stays_at_zero() {
    let board = Board::new(0, 0);
    let mut cursor = spawn_cursor();
    move_cursor(&mut cursor, &board, 1, 1);
    assert_eq!(cursor.position, Position { x: 0, y: 0 });
}

#[test]
fn selecting_an_occupied_cell_marks_its_tile() {
    let mut board = Board::new(3, 3);
    let id = board.create_tile(Position::new(1, 2), Color::Red, Shape::Circle);
    let other = board.create_tile(Position::new(0, 0), Color::Red, Shape::Circle);
    assert_eq!(mark(&mut board, &at(1, 2)), Some(id));
    assert!(board.tile(id).unwrap().marked);
    assert!(!board.tile(other).unwrap().marked);
    assert_eq!(marked_tiles(&board), vec![id]);
    assert_eq!(mark(&mut board, &at(1, 2)), Some(id));
    assert_eq!(marked_tiles(&board), vec![id]);
}

#[test]
fn selecting_an_empty_cell_marks_nothing() {
    let mut board = Board::new(3, 3);
    board.create_tile(Position::new(1, 2), Color::Red, Shape::Circle);
    assert_eq!(mark(&mut board, &at(2, 2)), None);
    assert_eq!(mark(&mut board, &at(3, 0)), None);
    assert_eq!(mark(&mut board, &at(u32::MAX, u32::MAX)), None);
    assert!(marked_tiles(&board).is_empty());
}

#[test]
fn marked_tiles_are_listed_in_rising_order() {
    let mut board = Board::new(3, 1);
    let a = board.create_tile(Position::new(0, 0), Color::Red, Shape::Circle);
    let b = board.create_tile(Position::new(1, 0), Color::Red, Shape::Circle);
    let c = board.create_tile(Position::new(2, 0), Color::Red, Shape::Circle);
    mark(&mut board, &at(2, 0));
    mark(&mut board, &at(0, 0));
    assert_eq!(marked_tiles(&board), vec![a, c]);
    board.destroy_tile(a);
    assert_eq!(marked_tiles(&board), vec![c]);
    mark(&mut board, &at(1, 0));
    assert_eq!(marked_tiles(&board), vec![b, c]);
}

#[test]
fn two_marked_tiles_are_never_destroyed() {
    let mut board = Board::new(3, 1);
    let a = board.create_tile(Position::new(0, 0), Color::Red, Shape::Circle);
    let b = board.create_tile(Position::new(1, 0), Color::Red, Shape::Circle);
    mark(&mut board, &at(0, 0));
    mark(&mut board, &at(1, 0));
    assert!(check_match(&mut board).is_empty());
    assert_eq!(board.get(0, 0), Some(a));
    assert_eq!(board.get(1, 0), Some(b));
    assert_eq!(marked_tiles(&board), vec![a, b]);
}

#[test]
fn no_marked_tiles_is_no_match() {
    let mut board = Board::new(3, 1);
    board.create_tile(Position::new(0, 0), Color::Red, Shape::Circle);
    assert!(check_match(&mut board).is_empty());
    assert_eq!(board.get(0, 0), Some(0));
}

#[test]
fn matched_tiles_are_destroyed_and_their_cells_emptied() {
    let mut board = Board::new(2, 2);
    let a = board.create_tile(Position::new(0, 0), Color::Blue, Shape::Diamond);
    let b = board.create_tile(Position::new(1, 0), Color::Red, Shape::Circle);
    let c = board.create_tile(Position::new(0, 1), Color::Yellow, Shape::Triangle);
    let d = board.create_tile(Position::new(1, 1), Color::Blue, Shape::Diamond);
    mark(&mut board, &at(0, 1));
    mark(&mut board, &at(0, 0));
    mark(&mut board, &at(1, 0));
    assert_eq!(check_match(&mut board), vec![a, b, c]);
    assert_eq!(board.get(0, 0), None);
    assert_eq!(board.get(1, 0), None);
    assert_eq!(board.get(0, 1), None);
    assert_eq!(board.get(1, 1), Some(d));
    assert_eq!(board.tile(a), None);
    assert_eq!(board.tile(b), None);
    assert_eq!(board.tile(c), None);
    assert!(board.tile(d).is_some());
    assert!(marked_tiles(&board).is_empty());
    assert!(check_match(&mut board).is_empty());
}

#[test]
fn same_color_and_different_shapes_are_destroyed() {
    let mut board = Board::new(3, 1);
    board.create_tile(Position::new(0, 0), Color::Blue, Shape::Diamond);
    board.create_tile(Position::new(1, 0), Color::Blue, Shape::Circle);
    board.create_tile(Position::new(2, 0), Color::Blue, Shape::Triangle);
    for x in 0..3 {
        mark(&mut board, &at(x, 0));
    }
    assert_eq!(check_match(&mut board), vec![0, 1, 2]);
    for x in 0..3 {
        assert_eq!(board.get(x, 0), None);
    }
}

#[test]
fn failed_match_keeps_tiles_and_marks() {
    let mut board = Board::new(3, 1);
    let a = board.create_tile(Position::new(0, 0), Color::Blue, Shape::Diamond);
    let b = board.create_tile(Position::new(1, 0), Color::Blue, Shape::Diamond);
    let c = board.create_tile(Position::new(2, 0), Color::Red, Shape::Circle);
    for x in 0..3 {
        mark(&mut board, &at(x, 0));
    }
    assert!(check_match(&mut board).is_empty());
    assert_eq!(board.get(0, 0), Some(a));
    assert_eq!(board.get(1, 0), Some(b));
    assert_eq!(board.get(2, 0), Some(c));
    assert_eq!(marked_tiles(&board), vec![a, b, c]);
    assert!(check_match(&mut board).is_empty());
    assert_eq!(marked_tiles(&board), vec![a, b, c]);
}

#[test]
fn marks_pile_up_until_a_match() {
    let mut board = Board::new(4, 1);
    board.create_tile(Position::new(0, 0), Color::Red, Shape::Circle);
    board.create_tile(Position::new(1, 0), Color::Red, Shape::Circle);
    board.create_tile(Position::new(2, 0), Color::Red, Shape::Circle);
    board.create_tile(Position::new(3, 0), Color::Red, Shape::Circle);
    mark(&mut board, &at(0, 0));
    assert!(check_match(&mut board).is_empty());
    mark(&mut board, &at(1, 0));
    assert!(check_match(&mut board).is_empty());
    mark(&mut board, &at(3, 0));
    assert_eq!(check_match(&mut board), vec![0, 1, 3]);
    assert_eq!(board.get(2, 0), Some(2));
}
