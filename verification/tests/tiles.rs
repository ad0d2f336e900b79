use tile_board::attribute::Color;
use tile_board::attribute::Shape;
use tile_board::board::Board;
use tile_board::position::Position;
use tile_board::tiles::spawn_board;

#[test]
fn every_cell_gets_a_tile_of_its_own() {
    let mut board = Board::new(12, 12);
    spawn_board(&mut board);
    assert_eq!(board.len(), 144);
    for x in 0..12 {
        for y in 0..12 {
            let id = board.get(x, y).unwrap();
            assert_eq!(id, y * 12 + x);
            let tile = board.tile(id).unwrap();
            assert_eq!(tile.position, Position::new(x, y));
            assert!(!tile.marked);
            assert!(matches!(tile.color, Color::Blue | Color::Red | Color::Yellow));
            assert!(matches!(tile.shape, Shape::Diamond | Shape::Circle | Shape::Triangle));
        }
    }
}

#[test]
fn tiles_are_numbered_row_by_row() {
    let mut board = Board::new(2, 3);
    spawn_board(&mut board);
    assert_eq!(board.len(), 6);
    assert_eq!(board.tile(0).unwrap().position, Position { x: 0, y: 0 });
    assert_eq!(board.tile(1).unwrap().position, Position { x: 1, y: 0 });
    assert_eq!(board.tile(2).unwrap().position, Position { x: 0, y: 1 });
    assert_eq!(board.tile(3).unwrap().position, Position { x: 1, y: 1 });
    assert_eq!(board.tile(4).unwrap().position, Position { x: 0, y: 2 });
    assert_eq!(board.tile(5).unwrap().position, Position { x: 1, y: 2 });
}

#[test]
fn filling_a_board_without_cells_creates_nothing() {
    let mut board = Board::new(0, 7);
    spawn_board(&mut board);
    assert_eq!(board.len(), 0);
}

#[test]
fn filling_again_overwrites_every_cell() {
    let mut board = Board::new(2, 2);
    let old = board.create_tile(Position::new(1, 1), Color::Red, Shape::Circle);
    spawn_board(&mut board);
    assert_eq!(board.len(), 5);
    assert_eq!(board.get(0, 0), Some(1));
    assert_eq!(board.get(1, 0), Some(2));
    assert_eq!(board.get(0, 1), Some(3));
    assert_eq!(board.get(1, 1), Some(4));
    assert_eq!(
        board.tile(old).unwrap().position,
        Position { x: 1, y: 1 }
    );
}

#[test]
fn random_attributes_take_more_than_one_value() {
    let mut board = Board::new(12, 12);
    spawn_board(&mut board);
    let first = board.tile(0).unwrap();
    let mut varied_color = false;
    let mut varied_shape = false;
    for id in 1..board.len() {
        let tile = board.tile(id).unwrap();
        varied_color = varied_color || tile.color != first.color;
        varied_shape = varied_shape || tile.shape != first.shape;
    }
    assert!(varied_color);
    assert!(varied_shape);
}
