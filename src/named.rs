//! The CSS named colors, each as `0xRRGGBB` for `Color::rgb_hex`.
use vstd::prelude::*;

verus! {

pub const ALICE_BLUE: u32 = 0xf0f8ff;

pub const ANTIQUE_WHITE: u32 = 0xfaebd7;

pub const AQUA: u32 = 0x00ffff;

pub const AQUAMARINE: u32 = 0x7fffd4;

pub const AZURE: u32 = 0xf0ffff;

pub const BEIGE: u32 = 0xf5f5dc;

pub const BISQUE: u32 = 0xffe4c4;

pub const BLACK: u32 = 0x000000;

pub const BLANCHED_ALMOND: u32 = 0xffebcd;

pub const BLUE: u32 = 0x0000ff;

pub const BLUE_VIOLET: u32 = 0x8a2be2;

pub const BROWN: u32 = 0xa52a2a;

pub const BURLY_WOOD: u32 = 0xdeb887;

pub const CADET_BLUE: u32 = 0x5f9ea0;

pub const CHARTREUSE: u32 = 0x7fff00;

pub const CHOCOLATE: u32 = 0xd2691e;

pub const CORAL: u32 = 0xff7f50;

pub const CORNFLOWER_BLUE: u32 = 0x6495ed;

pub const CORNSILK: u32 = 0xfff8dc;

pub const CRIMSON: u32 = 0xdc143c;

pub const CYAN: u32 = 0x00ffff;

pub const DARK_BLUE: u32 = 0x00008b;

pub const DARK_CYAN: u32 = 0x008b8b;

pub const DARK_GOLDENROD: u32 = 0xb8860b;

pub const DARK_GRAY: u32 = 0xa9a9a9;

pub const DARK_GREEN: u32 = 0x006400;

pub const DARK_GREY: u32 = 0xa9a9a9;

pub const DARK_KHAKI: u32 = 0xbdb76b;

pub const DARK_MAGENTA: u32 = 0x8b008b;

pub const DARK_OLIVEGREEN: u32 = 0x556b2f;

pub const DARK_ORANGE: u32 = 0xff8c00;

pub const DARK_ORCHID: u32 = 0x9932cc;

pub const DARK_RED: u32 = 0x8b0000;

pub const DARK_SALMON: u32 = 0xe9967a;

pub const DARK_SEA_GREEN: u32 = 0x8fbc8f;

pub const DARK_SLATE_BLUE: u32 = 0x483d8b;

pub const DARK_SLATE_GRAY: u32 = 0x2f4f4f;

pub const DARK_SLATE_GREY: u32 = 0x2f4f4f;

pub const DARK_TURQUOISE: u32 = 0x00ced1;

pub const DARK_VIOLET: u32 = 0x9400d3;

pub const DEEP_PINK: u32 = 0xff1493;

pub const DEEP_SKY_BLUE: u32 = 0x00bfff;

pub const DIM_GRAY: u32 = 0x696969;

pub const DIM_GREY: u32 = 0x696969;

pub const DODGER_BLUE: u32 = 0x1e90ff;

pub const FIRE_BRICK: u32 = 0xb22222;

pub const FLORAL_WHITE: u32 = 0xfffaf0;

pub const FOREST_GREEN: u32 = 0x228b22;

pub const FUCHSIA: u32 = 0xff00ff;

pub const GAINSBORO: u32 = 0xdcdcdc;

pub const GHOST_WHITE: u32 = 0xf8f8ff;

pub const GOLD: u32 = 0xffd700;

pub const GOLDEN_ROD: u32 = 0xdaa520;

pub const GRAY: u32 = 0x808080;

pub const GREEN: u32 = 0x008000;

pub const GREEN_YELLOW: u32 = 0xadff2f;

pub const GREY: u32 = 0x808080;

pub const HONEY_DEW: u32 = 0xf0fff0;

pub const HOT_PINK: u32 = 0xff69b4;

pub const INDIAN_RED: u32 = 0xcd5c5c;

pub const INDIGO: u32 = 0x4b0082;

pub const IVORY: u32 = 0xfffff0;

pub const KHAKI: u32 = 0xf0e68c;

pub const LAVENDER: u32 = 0xe6e6fa;

pub const LAVENDER_BLUSH: u32 = 0xfff0f5;

pub const LAWN_GREEN: u32 = 0x7cfc00;

pub const LEMON_CHIFFON: u32 = 0xfffacd;

pub const LIGHT_BLUE: u32 = 0xadd8e6;

pub const LIGHT_CORAL: u32 = 0xf08080;

pub const LIGHT_CYAN: u32 = 0xe0ffff;

pub const LIGHT_GOLDEN_ROD_YELLOW: u32 = 0xfafad2;

pub const LIGHT_GRAY: u32 = 0xd3d3d3;

pub const LIGHT_GREEN: u32 = 0x90ee90;

pub const LIGHT_GREY: u32 = 0xd3d3d3;

pub const LIGHT_PINK: u32 = 0xffb6c1;

pub const LIGHT_SALMON: u32 = 0xffa07a;

pub const LIGHT_SEA_GREEN: u32 = 0x20b2aa;

pub const LIGHT_SKY_BLUE: u32 = 0x87cefa;

pub const LIGHT_SLATE_GRAY: u32 = 0x778899;

pub const LIGHT_SLATE_GREY: u32 = 0x778899;

pub const LIGHT_STEEL_BLUE: u32 = 0xb0c4de;

pub const LIGHT_YELLOW: u32 = 0xffffe0;

pub const LIME: u32 = 0x00ff00;

pub const LIME_GREEN: u32 = 0x32cd32;

pub const LINEN: u32 = 0xfaf0e6;

pub const MAGENTA: u32 = 0xff00ff;

pub const MAROON: u32 = 0x800000;

pub const MEDIUM_AQUA_MARINE: u32 = 0x66cdaa;

pub const MEDIUM_BLUE: u32 = 0x0000cd;

pub const MEDIUM_ORCHID: u32 = 0xba55d3;

pub const MEDIUM_PURPLE: u32 = 0x9370db;

pub const MEDIUM_SEA_GREEN: u32 = 0x3cb371;

pub const MEDIUM_SLATE_BLUE: u32 = 0x7b68ee;

pub const MEDIUM_SPRING_GREEN: u32 = 0x00fa9a;

pub const MEDIUM_TURQUOISE: u32 = 0x48d1cc;

pub const MEDIUM_VIOLET_RED: u32 = 0xc71585;

pub const MIDNIGHT_BLUE: u32 = 0x191970;

pub const MINT_CREAM: u32 = 0xf5fffa;

pub const MISTY_ROSE: u32 = 0xffe4e1;

pub const MOCCASIN: u32 = 0xffe4b5;

pub const NAVAJO_WHITE: u32 = 0xffdead;

pub const NAVY: u32 = 0x000080;

pub const OLD_LACE: u32 = 0xfdf5e6;

pub const OLIVE: u32 = 0x808000;

pub const OLIVE_DRAB: u32 = 0x6b8e23;

pub const ORANGE: u32 = 0xffa500;

pub const ORANGE_RED: u32 = 0xff4500;

pub const ORCHID: u32 = 0xda70d6;

pub const PALE_GOLDEN_ROD: u32 = 0xeee8aa;

pub const PALE_GREEN: u32 = 0x98fb98;

pub const PALE_TURQUOISE: u32 = 0xafeeee;

pub const PALE_VIOLET_RED: u32 = 0xdb7093;

pub const PAPAYA_WHIP: u32 = 0xffefd5;

pub const PEACH_PUFF: u32 = 0xffdab9;

pub const PERU: u32 = 0xcd853f;

pub const PINK: u32 = 0xffc0cb;

pub const PLUM: u32 = 0xdda0dd;

pub const POWDER_BLUE: u32 = 0xb0e0e6;

pub const PURPLE: u32 = 0x800080;

pub const REBECCA_PURPLE: u32 = 0x663399;

pub const RED: u32 = 0xff0000;

pub const ROSY_BROWN: u32 = 0xbc8f8f;

pub const ROYAL_BLUE: u32 = 0x4169e1;

pub const SADDLE_BROWN: u32 = 0x8b4513;

pub const SALMON: u32 = 0xfa8072;

pub const SANDY_BROWN: u32 = 0xf4a460;

pub const SEA_GREEN: u32 = 0x2e8b57;

pub const SEA_SHELL: u32 = 0xfff5ee;

pub const SIENNA: u32 = 0xa0522d;

pub const SILVER: u32 = 0xc0c0c0;

pub const SKY_BLUE: u32 = 0x87ceeb;

pub const SLATE_BLUE: u32 = 0x6a5acd;

pub const SLATE_GRAY: u32 = 0x708090;

pub const SLATE_GREY: u32 = 0x708090;

pub const SNOW: u32 = 0xfffafa;

pub const SPRING_GREEN: u32 = 0x00ff7f;

pub const STEEL_BLUE: u32 = 0x4682b4;

pub const TAN: u32 = 0xd2b48c;

pub const TEAL: u32 = 0x008080;

pub const THISTLE: u32 = 0xd8bfd8;

pub const TOMATO: u32 = 0xff6347;

pub const TURQUOISE: u32 = 0x40e0d0;

pub const VIOLET: u32 = 0xee82ee;

pub const WHEAT: u32 = 0xf5deb3;

pub const WHITE: u32 = 0xffffff;

pub const WHITE_SMOKE: u32 = 0xf5f5f5;

pub const YELLOW: u32 = 0xffff00;

pub const YELLOW_GREEN: u32 = 0x9acd32;

} // verus!
