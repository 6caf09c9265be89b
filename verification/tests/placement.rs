use epd_photoframe_server::config::Position;
use epd_photoframe_server::placement::place;

#[test]
fn every_anchor() {
    let at = |p: Position| place(100, 60, 20, 10, p, 3);
    assert_eq!(at(Position::TopLeft), (3, 3));
    assert_eq!(at(Position::Top), (40, 3));
    assert_eq!(at(Position::TopRight), (77, 3));
    assert_eq!(at(Position::Left), (3, 25));
    assert_eq!(at(Position::Right), (77, 25));
    assert_eq!(at(Position::BottomLeft), (3, 47));
    assert_eq!(at(Position::Bottom), (40, 47));
    assert_eq!(at(Position::BottomRight), (77, 47));
}

#[test]
fn boxes_larger_than_the_canvas_start_at_its_edge() {
    assert_eq!(place(10, 10, 20, 20, Position::BottomRight, 3), (0, 0));
    assert_eq!(place(10, 10, 8, 20, Position::Bottom, 3), (1, 0));
    assert_eq!(place(10, 10, 8, 8, Position::BottomRight, u32::MAX), (0, 0));
}
