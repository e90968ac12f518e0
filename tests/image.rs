use ceratophrys::filters::{Erase, Filter, Silhouette};
use ceratophrys::{wh, xy, Color, Image, Pixel, Region};

fn red() -> Color {
    Color::rgb(255, 0, 0)
}

fn blue() -> Color {
    Color::rgb(0, 0, 255)
}

#[test]
fn extend_blends_onto_existing_pixels() {
    let mut image = Image::new();
    image.extend(&[Pixel::new(xy(1, 1), blue()), Pixel::new(xy(2, 1), blue())]);
    image.extend(&[Pixel::new(xy(1, 1), Color::rgba(255, 0, 0, 128))]);
    assert_eq!(2, image.pixels.len());
    assert_eq!(Color::rgba(128, 0, 127, 255), image.get_color(xy(1, 1)));
    assert_eq!(blue(), image.get_color(xy(2, 1)));
    assert_eq!(Color::transparent(), image.get_color(xy(0, 0)));
}

#[test]
fn put_replaces() {
    let mut image = Image::from_pixels(&[Pixel::new(xy(0, 0), blue())]);
    image.put(Pixel::new(xy(0, 0), Color::rgba(1, 2, 3, 4)));
    assert_eq!(Color::rgba(1, 2, 3, 4), image.get_color(xy(0, 0)));
    assert_eq!(1, image.pixels.len());
}

#[test]
fn children_are_painted_over_their_parent() {
    let child = Image::from_pixels(&[Pixel::new(xy(0, 0), red()), Pixel::new(xy(5, 5), red())]);
    let image = Image::from_pixels(&[Pixel::new(xy(0, 0), blue())]).child(child);
    assert_eq!(red(), image.get_color(xy(0, 0)));
    assert_eq!(red(), image.get_color(xy(5, 5)));
    assert_eq!(3, image.iter().len());
    assert_eq!(vec![xy(0, 0), xy(0, 0), xy(5, 5)], image.positions());
}

#[test]
fn regions_of_trees() {
    let child = Image::from_pixels(&[Pixel::new(xy(-1, 4), red())]);
    let image = Image::from_pixels(&[Pixel::new(xy(2, 0), blue())]).children(vec![child]);
    assert_eq!(Region::new(xy(-1, 0), wh(4, 5)), image.get_region());
    assert_eq!(wh(4, 5), image.get_size());
    assert_eq!(0, image.get_top());
    assert_eq!(4, image.get_bottom());
    assert_eq!(-1, image.get_left());
    assert_eq!(2, image.get_right());
    let empty = Image::new();
    assert_eq!(Region::new(xy(0, 0), wh(0, 0)), empty.get_region());
    assert_eq!(0, empty.get_top());
}

#[test]
fn dense_grid_starts_at_the_bounding_box() {
    let half = Color::rgba(255, 0, 0, 128);
    let child = Image::from_pixels(&[Pixel::new(xy(10, 20), half)]);
    let image = Image::from_pixels(&[Pixel::new(xy(10, 20), blue()), Pixel::new(xy(11, 21), red())]).child(child);
    let (size, colors) = image.to_size_and_colors();
    assert_eq!(wh(2, 2), size);
    assert_eq!(vec![Color::rgba(128, 0, 127, 255), Color::transparent(), Color::transparent(), red()], colors);
}

#[test]
fn names_and_offsets() {
    let image = Image::from_pixels(&[Pixel::new(xy(1, 2), red())])
        .child(Image::from_pixels(&[Pixel::new(xy(0, 0), blue())]))
        .name("frog");
    assert_eq!(Some("frog".to_string()), image.name);
    let moved = image.offset(xy(10, -1));
    assert_eq!(Some("frog".to_string()), moved.name);
    assert_eq!(red(), moved.get_color(xy(11, 1)));
    assert_eq!(blue(), moved.get_color(xy(10, -1)));
    assert_eq!(Color::transparent(), moved.get_color(xy(1, 2)));
}

#[test]
fn filter_through_image() {
    let image = Image::from_pixels(&[Pixel::new(xy(0, 0), red())]);
    let out = image.filter(Silhouette);
    assert_eq!(Color::black(), out.get_color(xy(0, 0)));
    let erased = Erase.filter(out);
    assert!(erased.pixels.is_empty() && erased.children.is_empty() && erased.name.is_none());
}

#[test]
fn images_from_text() {
    let palette = [('o', Color::black()), ('x', red()), ('o', blue())];
    let image = Image::from_text(&palette, "o x\r\n xo\n\nx");
    assert_eq!(blue(), image.get_color(xy(0, 0)));
    assert_eq!(Color::transparent(), image.get_color(xy(1, 0)));
    assert_eq!(red(), image.get_color(xy(2, 0)));
    assert_eq!(red(), image.get_color(xy(1, 1)));
    assert_eq!(blue(), image.get_color(xy(2, 1)));
    assert_eq!(red(), image.get_color(xy(0, 3)));
    assert_eq!(7, image.pixels.len());
    assert_eq!(wh(3, 4), image.get_size());
}

#[test]
fn bare_carriage_return_is_a_character() {
    let image = Image::from_text(&[('\r', red())], "a\rb");
    assert_eq!(red(), image.get_color(xy(1, 0)));
    assert_eq!(3, image.pixels.len());
}

#[test]
fn images_to_text() {
    let image = Image::from_text(&[('a', red()), ('b', blue())], "ab\nba");
    assert_eq!(" 0\n0 \n", image.to_text());
    let shifted = Image::from_pixels(&[Pixel::new(xy(5, 5), red()), Pixel::new(xy(7, 5), blue())]);
    assert_eq!(" 01\n", shifted.to_text());
    assert_eq!("", Image::new().to_text());
}

#[test]
fn text_runs_out_of_symbols() {
    let pixels: Vec<Pixel> = (0..70).map(|i| Pixel::new(xy(i as i16, 0), Color::rgb(i as u8, 0, 0))).collect();
    let text = Image::from_pixels(&pixels).to_text();
    let expected: String = " 0123456789abcdefghijklmnopqrstuvwxyzABCDEFGHIJKLMNOPQRSTUVWXYZ".chars().chain("???????".chars()).chain("\n".chars()).collect();
    assert_eq!(expected, text);
}

#[test]
fn dense_grids_must_match_their_size() {
    let err = Image::from_dense(wh(2, 2), vec![red(); 3]).unwrap_err();
    assert_eq!(ceratophrys::image::InvalidDimensions { size: wh(2, 2), len: 3 }, err);
    let image = Image::from_dense(wh(2, 1), vec![red(), blue()]).unwrap();
    assert_eq!(vec![Pixel::new(xy(0, 0), red()), Pixel::new(xy(1, 0), blue())], image.pixels);
    assert!(Image::from_dense(wh(0, 5), Vec::new()).unwrap().pixels.is_empty());
}
