use tile_board::attribute::Color;
use tile_board::attribute::Shape;
use tile_board::matching::distinct_colors;
use tile_board::matching::distinct_shapes;
use tile_board::matching::is_match;
use tile_board::matching::MATCH_SIZE;

#[test]
fn all_different_in_both_attributes_is_a_match() {
    let colors = vec![Color::Blue, Color::Red, Color::Yellow];
    let shapes = vec![Shape::Diamond, Shape::Circle, Shape::Triangle];
    assert!(is_match(&colors, &shapes));
}

#[test]
fn same_color_with_different_shapes_is_a_match() {
    let colors = vec![Color::Blue, Color::Blue, Color::Blue];
    let shapes = vec![Shape::Diamond, Shape::Circle, Shape::Triangle];
    assert!(is_match(&colors, &shapes));
}

#[test]
fn different_colors_with_same_shape_is_a_match() {
    let colors = vec![Color::Yellow, Color::Blue, Color::Red];
    let shapes = vec![Shape::Circle, Shape::Circle, Shape::Circle];
    assert!(is_match(&colors, &shapes));
}

#[test]
fn three_identical_tiles_are_a_match() {
    let colors = vec![Color::Red, Color::Red, Color::Red];
    let shapes = vec![Shape::Triangle, Shape::Triangle, Shape::Triangle];
    assert!(is_match(&colors, &shapes));
}

#[test]
fn two_of_three_sharing_a_color_is_no_match() {
    let colors = vec![Color::Blue, Color::Blue, Color::Red];
    let shapes = vec![Shape::Diamond, Shape::Diamond, Shape::Circle];
    assert!(!is_match(&colors, &shapes));
}

#[test]
fn two_of_three_sharing_a_shape_is_no_match() {
    let colors = vec![Color::Blue, Color::Red, Color::Yellow];
    let shapes = vec![Shape::Diamond, Shape::Circle, Shape::Circle];
    assert!(!is_match(&colors, &shapes));
}

#[test]
fn fewer_than_three_tiles_never_match() {
    assert_eq!(MATCH_SIZE, 3);
    assert!(!is_match(&vec![], &vec![]));
    assert!(!is_match(&vec![Color::Blue], &vec![Shape::Diamond]));
    assert!(!is_match(&vec![Color::Blue, Color::Blue], &vec![Shape::Diamond, Shape::Diamond]));
    assert!(!is_match(&vec![Color::Blue, Color::Red], &vec![Shape::Diamond, Shape::Circle]));
}

#[test]
fn four_tiles_match_only_when_all_alike() {
    let same = vec![Color::Red, Color::Red, Color::Red, Color::Red];
    let diamonds = vec![Shape::Diamond, Shape::Diamond, Shape::Diamond, Shape::Diamond];
    assert!(is_match(&same, &diamonds));
    let mixed = vec![Color::Blue, Color::Red, Color::Yellow, Color::Blue];
    assert!(!is_match(&mixed, &diamonds));
    let shapes = vec![Shape::Diamond, Shape::Circle, Shape::Triangle, Shape::Circle];
    assert!(!is_match(&same, &shapes));
}

#[test]
fn different_values_are_counted_once() {
    assert_eq!(distinct_colors(&vec![]), 0);
    assert_eq!(distinct_colors(&vec![Color::Red]), 1);
    assert_eq!(distinct_colors(&vec![Color::Red, Color::Red, Color::Red]), 1);
    assert_eq!(distinct_colors(&vec![Color::Red, Color::Blue, Color::Red]), 2);
    assert_eq!(distinct_colors(&vec![Color::Yellow, Color::Blue, Color::Red, Color::Blue]), 3);
    assert_eq!(distinct_shapes(&vec![]), 0);
    assert_eq!(distinct_shapes(&vec![Shape::Circle, Shape::Circle]), 1);
    assert_eq!(distinct_shapes(&vec![Shape::Circle, Shape::Diamond]), 2);
    assert_eq!(distinct_shapes(&vec![Shape::Triangle, Shape::Circle, Shape::Diamond]), 3);
}
