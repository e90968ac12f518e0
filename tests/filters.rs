use ceratophrys::filters::{Erase, Fill, Filter, Scale, Scoped, Silhouette};
use ceratophrys::shapes::Rectangle;
use ceratophrys::{wh, xy, Color, Image, Pixel};

fn red() -> Color {
    Color::rgb(255, 0, 0)
}

fn ring() -> Image {
    Rectangle::new().position(xy(0, 0)).size(wh(5, 5)).color(Color::black()).to_image()
}

#[test]
fn fill_colors_only_the_enclosed_interior() {
    let filled = Fill::new(red()).filter(ring());
    let mut red_count = 0;
    let mut black_count = 0;
    for y in 0..5 {
        for x in 0..5 {
            let c = filled.get_color(xy(x, y));
            if x == 0 || y == 0 || x == 4 || y == 4 {
                assert_eq!(Color::black(), c);
                black_count += 1;
            } else {
                assert_eq!(red(), c);
                red_count += 1;
            }
        }
    }
    assert_eq!(9, red_count);
    assert_eq!(16, black_count);
    assert_eq!(25, filled.pixels.len());
    assert_eq!(Color::transparent(), filled.get_color(xy(5, 5)));
    assert_eq!(Color::transparent(), filled.get_color(xy(-1, 2)));
}

#[test]
fn fill_leaves_holes_open_to_the_border() {
    // A "C" shape: the gap in the right column lets the inside reach the border.
    let mut image = ring();
    let mut kept = Image::new();
    for px in image.pixels.iter() {
        if px.position != xy(4, 2) {
            kept.put(*px);
        }
    }
    image = kept;
    let filled = Fill::new(red()).filter(image);
    assert_eq!(Color::transparent(), filled.get_color(xy(2, 2)));
    assert_eq!(Color::transparent(), filled.get_color(xy(4, 2)));
    assert_eq!(15, filled.pixels.len());
}

#[test]
fn fill_finds_holes_per_layer() {
    let inner = Rectangle::new().position(xy(10, 10)).size(wh(3, 3)).to_image();
    let image = ring().child(inner);
    let filled = Fill::new(red()).filter(image);
    assert_eq!(red(), filled.get_color(xy(2, 2)));
    assert_eq!(red(), filled.get_color(xy(11, 11)));
    assert_eq!(1, filled.children[0].pixels.iter().filter(|p| p.color == red()).count());
}

#[test]
fn fill_on_empty_image() {
    let filled = Fill::new(red()).filter(Image::new());
    assert!(filled.pixels.is_empty());
}

#[test]
fn silhouette_blackens_visible_pixels() {
    let image = Image::from_pixels(&[
        Pixel::new(xy(0, 0), Color::rgba(10, 20, 30, 40)),
        Pixel::new(xy(1, 0), Color::rgba(10, 20, 30, 0)),
    ])
    .child(Image::from_pixels(&[Pixel::new(xy(3, 3), red())]));
    let out = Silhouette.filter(image);
    assert_eq!(Color::black(), out.pixels[0].color);
    assert_eq!(Color::rgba(10, 20, 30, 0), out.pixels[1].color);
    assert_eq!(Color::black(), out.children[0].pixels[0].color);
}

#[test]
fn erase_empties() {
    let out = Erase.filter(ring().name("x"));
    assert!(out.pixels.is_empty());
    assert!(out.name.is_none());
}

#[test]
fn scale_multiplies_the_size() {
    let image = Image::from_pixels(&[
        Pixel::new(xy(0, 0), red()),
        Pixel::new(xy(1, 0), Color::rgb(0, 0, 255)),
        Pixel::new(xy(1, 1), Color::rgb(0, 255, 0)),
    ]);
    let scaled = Scale::new(3).filter(image);
    assert_eq!(wh(6, 6), scaled.get_size());
    assert_eq!(27, scaled.pixels.len());
    for y in 0..6i16 {
        for x in 0..6i16 {
            let expected = match (x / 3, y / 3) {
                (0, 0) => red(),
                (1, 0) => Color::rgb(0, 0, 255),
                (1, 1) => Color::rgb(0, 255, 0),
                _ => Color::transparent(),
            };
            assert_eq!(expected, scaled.get_color(xy(x, y)));
        }
    }
}

#[test]
fn scale_floors_negative_positions() {
    let image = Image::from_pixels(&[Pixel::new(xy(-1, -2), red())]);
    let scaled = Scale::new(2).filter(image);
    assert_eq!(red(), scaled.get_color(xy(-2, -4)));
    assert_eq!(red(), scaled.get_color(xy(-1, -3)));
    assert_eq!(Color::transparent(), scaled.get_color(xy(0, -4)));
    assert_eq!(wh(2, 2), scaled.get_size());
}

#[test]
fn scale_by_one_keeps_pixels() {
    let image = ring();
    let before = image.pixels.clone();
    let scaled = Scale::new(1).filter(image);
    assert_eq!(before, scaled.pixels);
}

#[test]
fn scoped_applies_to_the_named_node_only() {
    let target = Image::from_pixels(&[Pixel::new(xy(1, 1), red())]).name("eye");
    let other = Image::from_pixels(&[Pixel::new(xy(2, 2), red())]).name("nose");
    let image = Image::from_pixels(&[Pixel::new(xy(0, 0), red())]).child(other).child(target);
    let out = Scoped::new("eye", Silhouette).filter(image);
    assert_eq!(red(), out.get_color(xy(0, 0)));
    assert_eq!(red(), out.get_color(xy(2, 2)));
    assert_eq!(Color::black(), out.get_color(xy(1, 1)));
}

#[test]
fn scoped_without_match_changes_nothing() {
    let image = Image::from_pixels(&[Pixel::new(xy(0, 0), red())]).child(ring().name("a"));
    let out = Scoped::new("zzz", Erase).filter(image);
    assert_eq!(red(), out.pixels[0].color);
    assert_eq!(16, out.children[0].pixels.len());
}

#[test]
fn scoped_stops_at_the_first_match() {
    let inner = Image::from_pixels(&[Pixel::new(xy(5, 5), red())]).name("a");
    let outer = Image::from_pixels(&[Pixel::new(xy(1, 1), red())]).name("a").child(inner);
    let out = Scoped::new("a", Erase).filter(Image::new().child(outer));
    assert!(out.children[0].pixels.is_empty());
    assert!(out.children[0].children.is_empty());
}

#[test]
fn filters_in_sequence() {
    let image = Image::from_pixels(&[Pixel::new(xy(1, 1), red())]);
    let out = vec![Scale::new(2), Scale::new(3)].filter(image);
    assert_eq!(wh(6, 6), out.get_size());
    assert_eq!(red(), out.get_color(xy(6, 6)));
    assert_eq!(red(), out.get_color(xy(11, 11)));
    let same = Vec::<Erase>::new().filter(ring());
    assert_eq!(16, same.pixels.len());
}
