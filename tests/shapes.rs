use ceratophrys::shapes::{Line, Polygon, Rectangle};
use ceratophrys::{wh, xy, Color, Position};

fn line_positions(v: Position) -> Vec<Position> {
    Line::new().vector(v).pixels().into_iter().map(|p| p.position).collect()
}

#[test]
fn line_steps_along_the_major_axis() {
    assert_eq!(vec![xy(0, 0), xy(1, 0), xy(2, 1), xy(3, 1), xy(4, 2), xy(5, 2)], line_positions(xy(5, 2)));
    assert_eq!(vec![xy(0, 0), xy(0, -1), xy(-1, -2), xy(-1, -3)], line_positions(xy(-1, -3)));
}

#[test]
fn line_holds_both_ends() {
    for v in [xy(0, 0), xy(5, 2), xy(-3, -7), xy(7, -7), xy(0, 9), xy(-12, 1), xy(100, 37)] {
        let ps = line_positions(v);
        assert_eq!(ps[0], xy(0, 0));
        assert_eq!(*ps.last().unwrap(), v);
        let n = (v.x.abs().max(v.y.abs()) + 1) as usize;
        assert_eq!(n, ps.len());
        let mut sorted = ps.clone();
        sorted.sort_by_key(|p| (p.y, p.x));
        sorted.dedup();
        assert_eq!(n, sorted.len());
    }
}

#[test]
fn zero_line_is_one_pixel() {
    assert_eq!(vec![xy(3, 4)], Line::new().position(xy(3, 4)).pixels().into_iter().map(|p| p.position).collect::<Vec<_>>());
}

#[test]
fn line_image_has_its_color() {
    let red = Color::rgb(255, 0, 0);
    let image = Line::new().color(red).position(xy(1, 1)).vector(xy(2, 2)).to_image();
    assert_eq!(red, image.get_color(xy(3, 3)));
    assert_eq!(3, image.pixels.len());
}

#[test]
fn rectangle_outline_and_fill_counts() {
    for (w, h) in [(2u16, 2u16), (5, 5), (3, 7), (10, 2)] {
        let outline = Rectangle::new().size(wh(w, h)).pixels();
        assert_eq!((2 * w + 2 * h - 4) as usize, outline.len());
        let filled = Rectangle::new().size(wh(w, h)).fill().pixels();
        assert_eq!((w * h) as usize, filled.len());
    }
}

#[test]
fn rectangle_outline_in_row_order() {
    let ps: Vec<Position> = Rectangle::new().position(xy(1, 1)).size(wh(3, 3)).pixels().into_iter().map(|p| p.position).collect();
    assert_eq!(vec![xy(1, 1), xy(2, 1), xy(3, 1), xy(1, 2), xy(3, 2), xy(1, 3), xy(2, 3), xy(3, 3)], ps);
}

#[test]
fn thin_rectangles() {
    assert_eq!(3, Rectangle::new().size(wh(1, 3)).pixels().len());
    assert_eq!(4, Rectangle::new().size(wh(4, 1)).pixels().len());
    assert_eq!(0, Rectangle::new().size(wh(0, 3)).pixels().len());
}

#[test]
fn polygon_outline_of_a_triangle() {
    let p = Polygon::new(Color::black()).vertex(xy(4, 0)).vertex(xy(0, 4));
    let mut ps = p.points();
    ps.sort_by_key(|p| (p.y, p.x));
    // Edges: (0,0)->(4,0), (4,0)->(4,4), (4,4)->(0,0).
    let expected = vec![
        xy(0, 0), xy(1, 0), xy(2, 0), xy(3, 0), xy(4, 0),
        xy(1, 1), xy(4, 1),
        xy(2, 2), xy(4, 2),
        xy(3, 3), xy(4, 3),
        xy(4, 4),
    ];
    assert_eq!(expected, ps);
}

#[test]
fn polygon_without_vertices_is_the_origin() {
    assert_eq!(vec![xy(0, 0)], Polygon::new(Color::black()).points());
    assert_eq!(2, Polygon::new(Color::black()).vertices(vec![xy(1, 0), xy(1, 0)]).vertices.len());
}

#[test]
fn shape_defaults() {
    let l = Line::default();
    assert_eq!(Color::black(), l.color);
    assert_eq!(xy(0, 0), l.vector);
    let r = Rectangle::default();
    assert!(!r.fill);
    assert_eq!(wh(0, 0), r.size);
}
