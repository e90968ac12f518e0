use ceratophrys::{square, wh, x, xy, y, yx, Position, Region, Size};

#[test]
fn position_constructors() {
    assert_eq!(Position { x: 3, y: -4 }, xy(3, -4));
    assert_eq!(Position { x: 3, y: -4 }, yx(-4, 3));
    assert_eq!(xy(7, 0), x(7));
    assert_eq!(xy(0, 7), y(7));
    assert_eq!(xy(0, 0), Position::origin());
}

#[test]
fn position_moves_saturate() {
    assert_eq!(xy(i16::MAX, 5), xy(i16::MAX - 1, 5).move_x(10));
    assert_eq!(xy(i16::MIN, 5), xy(i16::MIN + 1, 5).move_x(-10));
    assert_eq!(xy(1, i16::MAX), xy(1, 0).move_y_unsigned(u16::MAX));
    assert_eq!(xy(3, 4), xy(1, 1).move_xy(2, 3));
    assert_eq!(xy(3, 4), xy(1, 1).move_xy_unsigned(2, 3));
    assert_eq!(xy(11, 1), xy(1, 1).move_x_unsigned(10));
    assert_eq!(xy(1, -9), xy(1, 1).move_y(-10));
}

#[test]
fn position_arithmetic() {
    assert_eq!(xy(4, 6), xy(1, 2) + xy(3, 4));
    assert_eq!(xy(-2, -2), xy(1, 2) - xy(3, 4));
    assert_eq!(xy(3, -6), xy(1, -2) * 3);
    assert_eq!(xy(i16::MAX, i16::MIN), xy(20000, -20000) * 2);
    assert_eq!(xy(1, 2), xy(1, 5).min(xy(4, 2)));
    assert_eq!(xy(4, 5), xy(1, 5).max(xy(4, 2)));
    assert!(xy(9, 1).is_before(xy(0, 2)));
    assert!(xy(0, 2).is_before(xy(1, 2)));
    assert!(!xy(1, 2).is_before(xy(1, 2)));
}

#[test]
fn size_basics() {
    assert_eq!(Size { width: 3, height: 4 }, wh(3, 4));
    assert_eq!(wh(5, 5), square(5));
    assert!(wh(0, 3).is_empty());
    assert!(!wh(1, 1).is_empty());
    assert_eq!(12, wh(3, 4).area());
    assert_eq!(65535u32 * 65535, wh(65535, 65535).area());
    assert!(wh(3, 4).contains(xy(2, 3)));
    assert!(!wh(3, 4).contains(xy(3, 0)));
    assert!(!wh(3, 4).contains(xy(-1, 0)));
    assert_eq!(wh(5, 4), wh(5, 2).max(wh(1, 4)));
    assert_eq!(wh(1, 2), wh(5, 2).min(wh(1, 4)));
}

#[test]
fn size_positions_row_major() {
    assert_eq!(vec![xy(0, 0), xy(1, 0), xy(0, 1), xy(1, 1), xy(0, 2), xy(1, 2)], wh(2, 3).positions());
    assert!(wh(0, 3).positions().is_empty());
}

#[test]
fn size_edge_positions() {
    assert_eq!(
        vec![xy(0, 0), xy(1, 0), xy(2, 0), xy(0, 2), xy(1, 2), xy(2, 2), xy(0, 1), xy(2, 1)],
        wh(3, 3).edge_positions()
    );
    assert_eq!(vec![xy(0, 0), xy(1, 0)], wh(2, 1).edge_positions());
    assert_eq!(vec![xy(0, 0), xy(0, 2), xy(0, 1)], wh(1, 3).edge_positions());
    assert!(wh(0, 0).edge_positions().is_empty());
}

#[test]
fn bounding_boxes() {
    let ps = [xy(3, -1), xy(-2, 4), xy(0, 0)];
    assert_eq!(wh(6, 6), Size::from_positions(&ps));
    assert_eq!(Region::new(xy(-2, -1), wh(6, 6)), Region::from_positions(&ps));
    assert_eq!(wh(0, 0), Size::from_positions(&[]));
    assert_eq!(Region::new(xy(0, 0), wh(0, 0)), Region::from_positions(&[]));
}

#[test]
fn region_corners() {
    let r = Region::new(xy(2, 3), wh(4, 5));
    assert_eq!(3, r.top());
    assert_eq!(7, r.bottom());
    assert_eq!(2, r.left());
    assert_eq!(5, r.right());
    assert_eq!(xy(2, 3), r.top_left());
    assert_eq!(xy(5, 3), r.top_right());
    assert_eq!(xy(2, 7), r.bottom_left());
    assert_eq!(xy(5, 7), r.bottom_right());
    assert!(!r.is_empty());
    assert!(Region::new(xy(2, 3), wh(0, 5)).is_empty());
    assert_eq!(vec![xy(2, 3), xy(3, 3), xy(2, 4), xy(3, 4)], Region::new(xy(2, 3), wh(2, 2)).positions());
}

#[test]
fn pixels_move_and_keep_color() {
    let red = ceratophrys::Color::rgb(255, 0, 0);
    let p = ceratophrys::Pixel::new(xy(1, 2), red).map_position(|p| p + xy(3, 3));
    assert_eq!(ceratophrys::Pixel::new(xy(4, 5), red), p);
}
