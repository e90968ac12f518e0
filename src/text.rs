//! Images written as text: one character per pixel, one line per row.
use vstd::prelude::*;
use crate::color::{Color, spec_transparent};
use crate::image::{Image, blend_all, fits_extent, positions_of};
use crate::region::size_of;
use crate::palette::char_map;
use crate::pixel::Pixel;
use crate::position::Position;

verus! {

/// The character at `i` ends a line: a line feed, or a carriage return just before one.
pub open spec fn ends_line(cs: Seq<char>, i: int) -> bool {
    cs[i] == '\n' || (cs[i] == '\r' && i + 1 < cs.len() && cs[i + 1] == '\n')
}

/// Column and row after the first `n` characters of `cs`.
pub open spec fn cursor(cs: Seq<char>, n: int) -> (int, int)
    decreases n,
{
    if n <= 0 {
        (0, 0)
    } else if cs[n - 1] == '\n' {
        (0, cursor(cs, n - 1).1 + 1)
    } else if ends_line(cs, n - 1) {
        cursor(cs, n - 1)
    } else {
        (cursor(cs, n - 1).0 + 1, cursor(cs, n - 1).1)
    }
}

/// The color of `ch`: the last entry of `palette` for it, or transparent.
pub open spec fn glyph_color(palette: Seq<(char, Color)>, ch: char) -> Color {
    if char_map(palette).contains_key(ch) {
        char_map(palette)[ch]
    } else {
        spec_transparent()
    }
}

/// One pixel for each of the first `n` characters that does not end a line, at its
/// column and row, in the color the palette gives it.
pub open spec fn text_pixels(palette: Seq<(char, Color)>, cs: Seq<char>, n: int) -> Seq<Pixel>
    decreases n,
{
    if n <= 0 {
        Seq::empty()
    } else if ends_line(cs, n - 1) {
        text_pixels(palette, cs, n - 1)
    } else {
        text_pixels(palette, cs, n - 1).push(
            Pixel {
                position: Position { x: cursor(cs, n - 1).0 as i16, y: cursor(cs, n - 1).1 as i16 },
                color: glyph_color(palette, cs[n - 1]),
            },
        )
    }
}

/// Every pixel of the text has a column and a row within 16 bits.
pub open spec fn text_fits(cs: Seq<char>) -> bool {
    forall|n: int| 0 <= n < cs.len() ==> #[trigger] cursor(cs, n).0 <= i16::MAX && cursor(cs, n).1 <= i16::MAX
}

/// Columns and rows never go below zero.
proof fn lemma_cursor_nonneg(cs: Seq<char>, n: int)
    ensures
        cursor(cs, n).0 >= 0,
        cursor(cs, n).1 >= 0,
    decreases n,
{
    if n > 0 {
        lemma_cursor_nonneg(cs, n - 1);
    }
}

/// The color of `ch` in `palette`, the last entry winning; transparent where it has none.
fn palette_color(palette: &[(char, Color)], ch: char) -> (r: Color)
    ensures
        r == glyph_color(palette@, ch),
{
    let mut i: usize = palette.len();
    assert(palette@.take(i as int) =~= palette@);
    while i > 0
        invariant
            0 <= i <= palette@.len(),
            char_map(palette@).contains_key(ch) ==> char_map(palette@.take(i as int)).contains_key(ch)
                && char_map(palette@.take(i as int))[ch] == char_map(palette@)[ch],
            !char_map(palette@).contains_key(ch) ==> !char_map(palette@.take(i as int)).contains_key(ch),
        decreases i,
    {
        let (c, color) = palette[i - 1];
        assert(palette@.take(i as int).drop_last() =~= palette@.take(i - 1));
        if c == ch {
            return color;
        }
        i = i - 1;
    }
    Color::transparent()
}

impl Image {
    /// The image that `text` draws: each character that does not end a line becomes a
    /// pixel at its column and row, in the color `palette` gives it (the last entry for
    /// a character winning), or transparent where the palette has none.
    pub fn from_text(palette: &[(char, Color)], text: &str) -> (r: Image)
        requires
            text_fits(text@),
        ensures
            r.wf(),
            r.name.is_none(),
            r.children@.len() == 0,
            r.own_map() == blend_all(Map::empty(), text_pixels(palette@, text@, text@.len() as int)),
    {
        let n = text.unicode_len();
        let ghost cs = text@;
        let mut pixels: Vec<Pixel> = Vec::new();
        let mut x: i32 = 0;
        let mut y: i32 = 0;
        let mut i: usize = 0;
        while i < n
            invariant
                0 <= i <= n,
                n == cs.len(),
                cs == text@,
                text_fits(cs),
                (x as int, y as int) == cursor(cs, i as int),
                pixels@ == text_pixels(palette@, cs, i as int),
            decreases n - i,
        {
            proof {
                lemma_cursor_nonneg(cs, i as int);
                assert(cursor(cs, i as int).0 <= i16::MAX && cursor(cs, i as int).1 <= i16::MAX);
            }
            let ch = text.get_char(i);
            let at_end = ch == '\n' || (ch == '\r' && i + 1 < n && text.get_char(i + 1) == '\n');
            if ch == '\n' {
                x = 0;
                y = y + 1;
            } else if !at_end {
                let color = palette_color(palette, ch);
                pixels.push(Pixel::new(Position::xy(x as i16, y as i16), color));
                x = x + 1;
            }
            i = i + 1;
        }
        Image::from_pixels(pixels.as_slice())
    }
}

/// The characters that stand for colors, in the order colors are met.
pub open spec fn text_symbols() -> Seq<char> {
    seq![' ', '0', '1', '2', '3', '4', '5', '6', '7', '8', '9', 'a', 'b', 'c', 'd', 'e', 'f', 'g', 'h', 'i', 'j', 'k', 'l', 'm', 'n', 'o', 'p', 'q', 'r', 's', 't', 'u', 'v', 'w', 'x', 'y', 'z', 'A', 'B', 'C', 'D', 'E', 'F', 'G', 'H', 'I', 'J', 'K', 'L', 'M', 'N', 'O', 'P', 'Q', 'R', 'S', 'T', 'U', 'V', 'W', 'X', 'Y', 'Z']
}

/// The character for the `k`-th distinct color: a symbol while they last, then `?`.
pub open spec fn symbol_at(k: int) -> char {
    if 0 <= k < text_symbols().len() {
        text_symbols()[k]
    } else {
        '?'
    }
}

/// The distinct colors among the first `n` of `colors`, in the order first met.
pub open spec fn first_seen(colors: Seq<Color>, n: int) -> Seq<Color>
    decreases n,
{
    if n <= 0 {
        Seq::empty()
    } else if first_seen(colors, n - 1).contains(colors[n - 1]) {
        first_seen(colors, n - 1)
    } else {
        first_seen(colors, n - 1).push(colors[n - 1])
    }
}

/// The position of `colors[i]` among the distinct colors met up to it.
pub open spec fn seen_index(colors: Seq<Color>, i: int) -> int {
    choose|k: int| 0 <= k < first_seen(colors, i + 1).len() && #[trigger] first_seen(colors, i + 1)[k] == colors[i]
}

/// The text of the first `n` cells of a grid `w` wide: one character per cell, a line
/// feed after each full row.
pub open spec fn grid_text(colors: Seq<Color>, w: int, n: int) -> Seq<char>
    decreases n,
{
    if n <= 0 {
        Seq::empty()
    } else {
        let line = grid_text(colors, w, n - 1).push(symbol_at(seen_index(colors, n - 1)));
        if n % w == 0 {
            line.push('\n')
        } else {
            line
        }
    }
}

/// The distinct colors met so far have no repeats, hold every color met, and grow by
/// appending.
proof fn lemma_first_seen(colors: Seq<Color>, n: int)
    requires
        0 <= n <= colors.len(),
    ensures
        forall|a: int, b: int| 0 <= a < b < first_seen(colors, n).len() ==> first_seen(colors, n)[a] != first_seen(colors, n)[b],
        forall|j: int| 0 <= j < n ==> first_seen(colors, n).contains(#[trigger] colors[j]),
        forall|m: int| 0 <= m <= n ==> first_seen(colors, m) == first_seen(colors, n).take(first_seen(colors, m).len() as int),
        forall|m: int| 0 <= m <= n ==> first_seen(colors, m).len() <= first_seen(colors, n).len(),
    decreases n,
{
    if n > 0 {
        lemma_first_seen(colors, n - 1);
        let s = first_seen(colors, n - 1);
        let t = first_seen(colors, n);
        if !s.contains(colors[n - 1]) {
            assert forall|a: int, b: int| 0 <= a < b < t.len() implies t[a] != t[b] by {
                if b == t.len() - 1 {
                    assert(t[a] == s[a]);
                    if t[a] == t[b] {
                        assert(s.contains(colors[n - 1]));
                    }
                }
            }
            assert(t.take(s.len() as int) =~= s);
            assert forall|j: int| 0 <= j < n implies t.contains(#[trigger] colors[j]) by {
                if j < n - 1 {
                    let k = choose|k: int| 0 <= k < s.len() && s[k] == colors[j];
                    assert(t[k] == colors[j]);
                } else {
                    assert(t[t.len() - 1] == colors[j]);
                }
            }
            assert forall|m: int| 0 <= m <= n implies first_seen(colors, m) == t.take(first_seen(colors, m).len() as int) by {
                if m < n {
                    assert(first_seen(colors, m) == s.take(first_seen(colors, m).len() as int));
                    assert(s.take(first_seen(colors, m).len() as int) =~= t.take(first_seen(colors, m).len() as int));
                } else {
                    assert(t.take(t.len() as int) =~= t);
                }
            }
        } else {
            assert(t.take(t.len() as int) =~= t);
        }
    }
}

/// Distinct colors are looked up among `(color, symbol)` pairs.
fn find_symbol(assigned: &Vec<(Color, char)>, c: Color) -> (r: Option<usize>)
    ensures
        match r {
            Some(k) => k < assigned@.len() && assigned@[k as int].0 == c,
            None => forall|k: int| 0 <= k < assigned@.len() ==> assigned@[k].0 != c,
        },
{
    let mut k: usize = 0;
    while k < assigned.len()
        invariant
            0 <= k <= assigned@.len(),
            forall|j: int| 0 <= j < k ==> assigned@[j].0 != c,
        decreases assigned@.len() - k,
    {
        if assigned[k].0 == c {
            return Some(k);
        }
        k = k + 1;
    }
    None
}

/// Relies on `String::push`, which appends one character.
#[verifier::external_body]
fn push_char(s: &mut String, c: char)
    ensures
        final(s)@ == old(s)@.push(c),
{
    s.push(c)
}

impl Image {
    /// The image as text: its dense grid over the bounding box row by row, each color
    /// as a character in the order colors are first met (a space, digits, lower case,
    /// upper case, then `?`), a line feed after each row.
    pub fn to_text(&self) -> (r: String)
        requires
            fits_extent(positions_of(self.flat())),
        ensures
            r@ == grid_text(
                self.dense_colors(),
                size_of(positions_of(self.flat())).width as int,
                self.dense_colors().len() as int,
            ),
    {
        let symbols: Vec<char> = vec![' ', '0', '1', '2', '3', '4', '5', '6', '7', '8', '9', 'a', 'b', 'c', 'd', 'e', 'f', 'g', 'h', 'i', 'j', 'k', 'l', 'm', 'n', 'o', 'p', 'q', 'r', 's', 't', 'u', 'v', 'w', 'x', 'y', 'z', 'A', 'B', 'C', 'D', 'E', 'F', 'G', 'H', 'I', 'J', 'K', 'L', 'M', 'N', 'O', 'P', 'Q', 'R', 'S', 'T', 'U', 'V', 'W', 'X', 'Y', 'Z'];
        assert(symbols@ =~= text_symbols());
        let (size, colors) = self.to_size_and_colors();
        let w = size.width as usize;
        let mut assigned: Vec<(Color, char)> = Vec::new();
        let mut text = String::new();
        let mut i: usize = 0;
        while i < colors.len()
            invariant
                0 <= i <= colors@.len(),
                symbols@ == text_symbols(),
                w == size.width,
                colors@.len() == size.width * size.height,
                assigned@.len() == first_seen(colors@, i as int).len(),
                forall|k: int| 0 <= k < assigned@.len() ==> #[trigger] assigned@[k] == (first_seen(colors@, i as int)[k], symbol_at(k)),
                text@ == grid_text(colors@, w as int, i as int),
            decreases colors@.len() - i,
        {
            proof {
                lemma_first_seen(colors@, i as int + 1);
            }
            let c = colors[i];
            let ghost before = first_seen(colors@, i as int);
            let ghost after = first_seen(colors@, i as int + 1);
            let ch = match find_symbol(&assigned, c) {
                Some(k) => {
                    proof {
                        assert(assigned@[k as int].0 == before[k as int]);
                        assert(before.contains(c));
                        assert(after == before);
                        assert(after[k as int] == c);
                        let q = seen_index(colors@, i as int);
                        assert(after[q] == c);
                        if q != k {
                            if q < k {
                                assert(after[q] != after[k as int]);
                            } else {
                                assert(after[k as int] != after[q]);
                            }
                        }
                    }
                    assigned[k].1
                },
                None => {
                    let k = assigned.len();
                    let s = if k < symbols.len() { symbols[k] } else { '?' };
                    proof {
                        assert(!before.contains(c)) by {
                            if before.contains(c) {
                                let j = choose|j: int| 0 <= j < before.len() && before[j] == c;
                                assert(assigned@[j].0 == c);
                            }
                        }
                        assert(after == before.push(c));
                        assert(after[k as int] == c);
                        let q = seen_index(colors@, i as int);
                        assert(after[q] == c);
                        if q != k {
                            if q < k {
                                assert(after[q] != after[k as int]);
                            } else {
                                assert(after[k as int] != after[q]);
                            }
                        }
                    }
                    let ghost prior = assigned@;
                    assigned.push((c, s));
                    proof {
                        assert forall|j: int| 0 <= j < assigned@.len() implies #[trigger] assigned@[j] == (after[j], symbol_at(j)) by {
                            if j < k {
                                assert(assigned@[j] == prior[j]);
                                assert(prior[j] == (before[j], symbol_at(j)));
                            }
                        }
                    }
                    s
                },
            };
            proof {
                assert(w > 0) by (nonlinear_arith)
                    requires colors@.len() == w * size.height, i < colors@.len();
            }
            push_char(&mut text, ch);
            if (i + 1) % w == 0 {
                push_char(&mut text, '\n');
            }
            i = i + 1;
        }
        text
    }
}

} // verus!
