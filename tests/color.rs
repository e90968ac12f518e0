use ceratophrys::Color;

#[test]
fn alpha_blend_works() {
    let black = Color::rgba(0, 0, 0, 255);
    assert_eq!(black, black.alpha_blend(black));

    let transparent = Color::rgba(0, 0, 0, 0);
    assert_eq!(transparent, transparent.alpha_blend(transparent));

    assert_eq!(black, transparent.alpha_blend(black));
    assert_eq!(black, black.alpha_blend(transparent));
}

#[test]
fn blend_onto_transparent_keeps_source() {
    let transparent = Color::transparent();
    for c in [
        Color::rgba(10, 20, 30, 40),
        Color::rgba(255, 0, 0, 1),
        Color::rgba(1, 2, 3, 0),
        Color::rgb(9, 8, 7),
    ] {
        assert_eq!(c, c.alpha_blend(transparent));
    }
}

#[test]
fn opaque_source_hides_destination() {
    let red = Color::rgb(255, 0, 0);
    for d in [Color::rgba(0, 0, 255, 255), Color::rgba(0, 200, 0, 100), Color::transparent()] {
        assert_eq!(red, red.alpha_blend(d));
    }
}

#[test]
fn half_transparent_red_over_blue() {
    let src = Color::rgba(255, 0, 0, 128);
    let dst = Color::rgba(0, 0, 255, 255);
    assert_eq!(Color::rgba(128, 0, 127, 255), src.alpha_blend(dst));
}

#[test]
fn half_transparent_over_half_transparent() {
    // a = 128*255 + 128*255 - 128*255*128*255/65025 = 65280 - 16384 = 48896 -> 191
    let src = Color::rgba(200, 100, 0, 128);
    let dst = Color::rgba(0, 100, 200, 128);
    let out = src.alpha_blend(dst);
    assert_eq!(191, out.a);
    // r: 200*128 = 25600, d = 0 -> 25600 * 65025 / 48896 / 255 = 133
    assert_eq!(133, out.r);
    // g: 12800 + 12800 - 12800*32640/65025 = 25600 - 6425 = 19175 -> 19175*65025/48896/255 = 100
    assert_eq!(100, out.g);
    // b: 0 + 25600 - 25600*32640/65025 = 25600 - 12850 = 12750 -> 12750*65025/48896/255 = 66
    assert_eq!(66, out.b);
}

#[test]
fn transparent_source_keeps_destination() {
    let dst = Color::rgba(5, 6, 7, 8);
    assert_eq!(dst, Color::rgba(255, 255, 255, 0).alpha_blend(dst));
}

#[test]
fn colors_from_hex() {
    assert_eq!(Color::rgba(0x12, 0x34, 0x56, 0x78), Color::rgba_hex(0x12345678));
    assert_eq!(Color::rgb(0xab, 0xcd, 0xef), Color::rgb_hex(0xabcdef));
    assert_eq!(Color::rgb(0xab, 0xcd, 0xef), Color::rgb_hex(0xff_abcdef));
    assert_eq!(Color::rgb(0x66, 0x33, 0x99), Color::rgb_hex(ceratophrys::named::REBECCA_PURPLE));
    assert_eq!(Color::rgb(0, 255, 255), Color::rgb_hex(ceratophrys::named::CYAN));
}

#[test]
fn color_accessors() {
    let c = Color::rgb(1, 2, 3).alpha(4);
    assert_eq!((1, 2, 3, 4), c.to_rgba());
    assert!(!c.is_transparent());
    assert!(c.alpha(0).is_transparent());
    assert_eq!(Color::rgba(0, 0, 0, 255), Color::black());
}
