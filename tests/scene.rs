use ceratophrys::entity::{Entity, Frame};
use ceratophrys::{xy, Color, Image, Pixel};

#[test]
fn entities_place_children_relative_to_parents() {
    let red = Color::rgb(255, 0, 0);
    let blue = Color::rgb(0, 0, 255);
    let child = Entity::new().image_pixels(&[Pixel::new(xy(1, 1), blue)]).offset(xy(10, 0)).name("child");
    let root = Entity::new().image(Image::from_pixels(&[Pixel::new(xy(0, 0), red)])).offset(xy(2, 3)).child(child);
    assert_eq!(vec![Pixel::new(xy(2, 3), red), Pixel::new(xy(13, 4), blue)], root.pixels());
    let image = root.to_image();
    assert_eq!(blue, image.get_color(xy(13, 4)));
    assert_eq!(Some("child".to_string()), root.children[0].name);
}

#[test]
fn frames_default_to_one_second() {
    let f = Frame::new();
    assert_eq!(1_000_000_000, f.duration);
    let g = f.duration(40_000_000).entity(Entity::new().offset(xy(1, 1)));
    assert_eq!(40_000_000, g.duration);
    assert_eq!(xy(1, 1), g.entity.offset);
}
