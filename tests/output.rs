use ceratophrys::bmp::BmpImage;
use ceratophrys::gif::AnimatedGifImage;
use ceratophrys::{wh, xy, Animation, Canvas, Color, Image, Palette, Pixel};

fn red() -> Color {
    Color::rgb(255, 0, 0)
}

fn blue() -> Color {
    Color::rgb(0, 0, 255)
}

#[test]
fn bitmap_of_two_by_two() {
    let image = Image::from_pixels(&[
        Pixel::new(xy(0, 0), red()),
        Pixel::new(xy(1, 0), red()),
        Pixel::new(xy(0, 1), blue()),
        Pixel::new(xy(1, 1), blue()),
    ]);
    let bytes = BmpImage::new(image).to_bytes();
    let mut expected: Vec<u8> = vec![b'B', b'M', 70, 0, 0, 0, 0, 0, 0, 0, 54, 0, 0, 0];
    expected.extend_from_slice(&[40, 0, 0, 0, 2, 0, 0, 0, 2, 0, 0, 0, 1, 0, 32, 0, 0, 0, 0, 0, 16, 0, 0, 0]);
    expected.extend_from_slice(&[0; 16]);
    expected.extend_from_slice(&[255, 0, 0, 255, 255, 0, 0, 255]);
    expected.extend_from_slice(&[0, 0, 255, 255, 0, 0, 255, 255]);
    assert_eq!(expected, bytes);
}

#[test]
fn bitmap_of_nothing() {
    let bytes = BmpImage::new(Image::new()).to_bytes();
    assert_eq!(54, bytes.len());
    assert_eq!(&[54, 0, 0, 0], &bytes[2..6]);
}

#[test]
fn canvas_tracks_bounds_of_draws() {
    let mut canvas = Canvas::new();
    canvas.draw_pixel(xy(3, 4), red());
    assert_eq!(xy(3, 4), canvas.start_point());
    assert_eq!(xy(4, 5), canvas.end_point());
    canvas.draw_pixel(xy(-2, 7), red());
    canvas.set_pixel(xy(5, -1), blue());
    assert_eq!(xy(-2, -1), canvas.start_point());
    assert_eq!(xy(6, 8), canvas.end_point());
    assert_eq!(wh(8, 9), canvas.size());
    canvas.erase_pixel(xy(5, -1));
    assert_eq!(xy(-2, 4), canvas.start_point());
    assert_eq!(xy(4, 8), canvas.end_point());
    canvas.erase_pixel(xy(3, 4));
    canvas.erase_pixel(xy(-2, 7));
    assert_eq!(wh(0, 0), canvas.size());
    assert!(canvas.pixels().is_empty());
}

#[test]
fn canvas_blends_and_flattens() {
    let mut canvas = Canvas::new();
    canvas.set_background_color(Color::rgb(0, 255, 0));
    canvas.draw_pixel(xy(1, 1), blue());
    canvas.draw_pixel(xy(1, 1), Color::rgba(255, 0, 0, 128));
    canvas.draw_pixel(xy(2, 1), Color::rgba(0, 0, 0, 0));
    let image = canvas.to_image();
    assert_eq!(2, image.pixels.len());
    assert_eq!(Pixel::new(xy(0, 0), Color::rgba(128, 0, 127, 255)), image.pixels[0]);
    assert_eq!(Pixel::new(xy(1, 0), Color::rgb(0, 255, 0)), image.pixels[1]);
}

#[test]
fn animation_timing() {
    let a = Animation::new().frame(Image::new()).frame(Image::new()).frame(Image::new()).fps4();
    assert_eq!(250_000_000, a.get_frame_duration());
    assert_eq!(750_000_000, a.get_duration());
    assert_eq!(500_000_000, a.get_nth_frame_time(2));
    let b = Animation::still_frame(Image::new());
    assert_eq!(255, b.fps);
    assert_eq!(1_000_000_000 / 255, b.get_frame_duration());
    assert_eq!(1, Animation::new().fps);
    assert_eq!(60, Animation::new().fps60().fps);
    assert_eq!(3, Animation::new().fps(3).fps);
}

#[test]
fn animation_frame_sizes_and_maps() {
    let f0 = Image::from_pixels(&[Pixel::new(xy(0, 0), red()), Pixel::new(xy(4, 0), red())]);
    let f1 = Image::from_pixels(&[Pixel::new(xy(0, 0), red()), Pixel::new(xy(0, 2), red())]);
    let a = Animation::new().frames(vec![f0, f1]).fps10();
    assert_eq!(wh(5, 3), a.get_max_frame_size());
    let moved = a.map_frame(|f: Image| f.name("m"));
    assert_eq!(Some("m".to_string()), moved.frames[1].name);
    let black = moved.filter(ceratophrys::filters::Silhouette);
    assert_eq!(Color::black(), black.frames[0].pixels[1].color);
}

#[test]
fn gif_inputs() {
    let f0 = Image::from_pixels(&[Pixel::new(xy(0, 0), red()), Pixel::new(xy(1, 0), blue())]);
    let f1 = Image::from_pixels(&[Pixel::new(xy(0, 0), blue()), Pixel::new(xy(0, 1), Color::rgba(255, 0, 0, 7))]);
    let mut gif = AnimatedGifImage::new(Animation::new().frame(f0).frame(f1).fps5());
    assert!(!gif.repeat);
    gif.repeat();
    assert!(gif.repeat);
    assert_eq!(20, gif.frame_delay());
    assert_eq!(vec![(255, 0, 0), (0, 0, 255)], gif.global_palette());
    assert_eq!(wh(2, 2), gif.screen_size());
    let (size, rgb) = AnimatedGifImage::frame_rgb(&gif.anime.frames[1]);
    assert_eq!(wh(1, 2), size);
    assert_eq!(vec![0, 0, 255, 255, 0, 0], rgb);
    let slow = AnimatedGifImage::new(Animation::new().fps(3));
    assert_eq!(33, slow.frame_delay());
}

#[test]
fn palette_lookup() {
    let p = Palette::new().color('o', Color::black()).color('x', red()).color('o', blue());
    assert_eq!(blue(), p.get_color('o'));
    assert_eq!(red(), p.get_color('x'));
    assert_eq!(Color::transparent(), p.get_color(' '));
    let q = p.default_color(Color::rgb(1, 1, 1));
    assert_eq!(Color::rgb(1, 1, 1), q.get_color(' '));
    assert_eq!(Color::rgb(1, 1, 1), q.get_default_color());
}
