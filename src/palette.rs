//! Colors by character, for images written as text.
use vstd::prelude::*;
use crate::color::{Color, spec_transparent};

verus! {

/// The map from character to color that `entries` hold; a later entry wins.
pub open spec fn char_map(entries: Seq<(char, Color)>) -> Map<char, Color>
    decreases entries.len(),
{
    if entries.len() == 0 {
        Map::empty()
    } else {
        char_map(entries.drop_last()).insert(entries.last().0, entries.last().1)
    }
}

/// A color for each of some characters, and one for every other character.
#[derive(Debug)]
pub struct Palette {
    colors: Vec<(char, Color)>,
    default_color: Color,
}

impl Palette {
    /// The colors given per character.
    pub closed spec fn spec_colors(self) -> Map<char, Color> {
        char_map(self.colors@)
    }

    /// The color of every other character.
    pub closed spec fn spec_default(self) -> Color {
        self.default_color
    }

    /// No character has a color of its own; the others are transparent.
    pub fn new() -> (r: Self)
        ensures
            r.spec_colors() == Map::<char, Color>::empty(),
            r.spec_default() == spec_transparent(),
    {
        Palette { colors: Vec::new(), default_color: Color::transparent() }
    }

    /// The palette with `color` for `ch`.
    pub fn color(self, ch: char, color: Color) -> (r: Self)
        ensures
            r.spec_colors() == self.spec_colors().insert(ch, color),
            r.spec_default() == self.spec_default(),
    {
        let mut p = self;
        p.colors.push((ch, color));
        assert(p.colors@.drop_last() =~= self.colors@);
        p
    }

    /// The color of `ch`.
    pub fn get_color(&self, ch: char) -> (r: Color)
        ensures
            r == if self.spec_colors().contains_key(ch) { self.spec_colors()[ch] } else { self.spec_default() },
    {
        let mut i: usize = self.colors.len();
        assert(self.colors@.take(i as int) =~= self.colors@);
        while i > 0
            invariant
                0 <= i <= self.colors@.len(),
                char_map(self.colors@).contains_key(ch) ==> char_map(self.colors@.take(i as int)).contains_key(ch)
                    && char_map(self.colors@.take(i as int))[ch] == char_map(self.colors@)[ch],
                !char_map(self.colors@).contains_key(ch) ==> !char_map(self.colors@.take(i as int)).contains_key(ch),
            decreases i,
        {
            let (c, color) = self.colors[i - 1];
            assert(self.colors@.take(i as int).drop_last() =~= self.colors@.take(i - 1));
            if c == ch {
                return color;
            }
            i = i - 1;
        }
        self.default_color
    }

    /// The palette with `color` for the characters without one.
    pub fn default_color(self, color: Color) -> (r: Self)
        ensures
            r.spec_colors() == self.spec_colors(),
            r.spec_default() == color,
    {
        Palette { default_color: color, ..self }
    }

    pub fn get_default_color(&self) -> (r: Color)
        ensures
            r == self.spec_default(),
    {
        self.default_color
    }
}

} // verus!
