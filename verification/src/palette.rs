//! The terminal palette: which color a cell color stands for.
use vstd::prelude::*;

use crate::color::{Rgba, Shade};
use crate::config::ParsedTheme;

verus! {

/// How many colors a terminal knows by number: 256 indexed ones, and the named
/// ones behind them.
pub const COLOR_COUNT: usize = 269;

/// Number of the named foreground color.
pub const NAMED_FOREGROUND: usize = 256;

/// Number of the named background color.
pub const NAMED_BACKGROUND: usize = 257;

/// Number of the named cursor color.
pub const NAMED_CURSOR: usize = 258;

/// Number of the first of the eight named dim colors.
pub const NAMED_DIM: usize = 259;

/// Number of the named bright foreground color.
pub const NAMED_BRIGHT_FOREGROUND: usize = 267;

/// Number of the named dim foreground color.
pub const NAMED_DIM_FOREGROUND: usize = 268;

/// A color that a program set.
#[derive(Clone, Copy, PartialEq, Eq, Debug, Structural)]
pub struct Rgb {
    pub r: u8,
    pub g: u8,
    pub b: u8,
}

/// The color of a cell.
#[derive(Clone, Copy, PartialEq, Eq, Debug, Structural)]
pub enum Color {
    /// A color of its own.
    Spec(Rgb),
    /// A named color, by its number.
    Named(usize),
    /// One of the 256 indexed colors.
    Indexed(u8),
}

/// Resolved terminal palette used to turn cell colors into shades.
#[derive(Clone)]
pub struct Palette {
    pub normal: [Shade; 8],
    pub bright: [Shade; 8],
    pub dim: [Shade; 8],
    pub foreground: Shade,
    pub background: Shade,
    pub cursor: Shade,
    pub cursor_text: Option<Rgba>,
    /// Colors changed by programs.
    pub dynamic: Vec<Option<Rgb>>,
}

/// A color that a program set, as a shade.
pub open spec fn opaque_shade(rgb: Rgb) -> Shade {
    Shade::Exact(Rgba { r: rgb.r, g: rgb.g, b: rgb.b, a: 255 })
}

/// The brightness of one of the six levels of the color cube.
pub open spec fn cube_level(v: int) -> u8 {
    if v == 0 {
        0
    } else {
        (55 + v * 40) as u8
    }
}

impl Palette {
    /// The color of an index: the sixteen colors of the theme, a cube of six
    /// levels a channel, and a ramp of grays.
    pub open spec fn cube(self, idx: u8) -> Shade {
        if idx < 8 {
            self.normal@[idx as int]
        } else if idx < 16 {
            self.bright@[idx - 8]
        } else if idx < 232 {
            let i = idx - 16;
            Shade::Exact(
                Rgba {
                    r: cube_level(i / 36),
                    g: cube_level(i / 6 % 6),
                    b: cube_level(i % 6),
                    a: 255,
                },
            )
        } else {
            let v = (8 + (idx - 232) * 10) as u8;
            Shade::Exact(Rgba { r: v, g: v, b: v, a: 255 })
        }
    }

    /// The color of a named color's number: the sixteen colors of the theme, its
    /// own colors for text, background and cursor, and the dim ones.
    pub open spec fn numbered(self, n: usize) -> Option<Shade> {
        if n < 8 {
            Some(self.normal@[n as int])
        } else if n < 16 {
            Some(self.bright@[n - 8])
        } else if n == NAMED_FOREGROUND {
            Some(self.foreground)
        } else if n == NAMED_BACKGROUND {
            Some(self.background)
        } else if n == NAMED_CURSOR {
            Some(self.cursor)
        } else if NAMED_DIM <= n < NAMED_BRIGHT_FOREGROUND {
            Some(self.dim@[n - NAMED_DIM])
        } else if n == NAMED_BRIGHT_FOREGROUND {
            Some(self.bright@[7])
        } else if n == NAMED_DIM_FOREGROUND {
            Some(self.dim@[7])
        } else {
            None
        }
    }

    /// The shade of a cell color. What a program set comes first.
    pub open spec fn shade(self, color: Color, dynamic: Seq<Option<Rgb>>) -> Shade {
        match color {
            Color::Spec(rgb) => opaque_shade(rgb),
            Color::Named(n) => if n < COLOR_COUNT && dynamic[n as int] is Some {
                opaque_shade(dynamic[n as int]->0)
            } else {
                match self.numbered(n) {
                    Some(shade) => shade,
                    None => self.foreground,
                }
            },
            Color::Indexed(i) => match dynamic[i as int] {
                Some(rgb) => opaque_shade(rgb),
                None => self.cube(i),
            },
        }
    }

    /// The theme's answer to a program that asks for a color by its number.
    pub open spec fn theme_shade(self, idx: usize) -> Shade {
        if idx < 8 {
            self.normal@[idx as int]
        } else if idx < 16 {
            self.bright@[idx - 8]
        } else if idx == 17 {
            self.background
        } else if idx == 18 {
            self.cursor
        } else if 19 <= idx < 27 {
            self.dim@[idx - 19]
        } else {
            self.foreground
        }
    }

    /// The palette of a theme, with no color changed.
    pub fn from_theme(theme: &ParsedTheme) -> (r: Palette)
        ensures
            r.normal@ == theme.normal@,
            r.bright@ == theme.bright@,
            r.dim@ == theme.dim@,
            r.foreground == theme.foreground,
            r.background == theme.background,
            r.cursor == theme.cursor,
            r.cursor_text == theme.cursor_text,
            r.dynamic@ == Seq::new(COLOR_COUNT as nat, |i: int| None::<Rgb>),
    {
        let mut dynamic: Vec<Option<Rgb>> = Vec::new();
        let mut i: usize = 0;
        while i < COLOR_COUNT
            invariant
                i <= COLOR_COUNT,
                dynamic@ == Seq::new(i as nat, |k: int| None::<Rgb>),
            decreases COLOR_COUNT - i,
        {
            dynamic.push(None);
            i += 1;
            assert(dynamic@ =~= Seq::new(i as nat, |k: int| None::<Rgb>));
        }
        Palette {
            normal: theme.normal,
            bright: theme.bright,
            dim: theme.dim,
            foreground: theme.foreground,
            background: theme.background,
            cursor: theme.cursor,
            cursor_text: theme.cursor_text,
            dynamic,
        }
    }

    /// The color of an index that no program changed.
    pub fn indexed_cube(&self, idx: u8) -> (r: Shade)
        ensures
            r == self.cube(idx),
    {
        let i: usize = idx as usize;
        if i < 8 {
            self.normal[i]
        } else if i < 16 {
            self.bright[i - 8]
        } else if i < 232 {
            let n: usize = i - 16;
            Shade::Exact(
                Rgba { r: level(n / 36), g: level(n / 6 % 6), b: level(n % 6), a: 255 },
            )
        } else {
            let v: u8 = (8 + (i - 232) * 10) as u8;
            Shade::Exact(Rgba { r: v, g: v, b: v, a: 255 })
        }
    }

    /// The color of a named color's number, where it is one.
    pub fn named(&self, n: usize) -> (r: Option<Shade>)
        ensures
            r == self.numbered(n),
    {
        if n < 8 {
            Some(self.normal[n])
        } else if n < 16 {
            Some(self.bright[n - 8])
        } else if n == NAMED_FOREGROUND {
            Some(self.foreground)
        } else if n == NAMED_BACKGROUND {
            Some(self.background)
        } else if n == NAMED_CURSOR {
            Some(self.cursor)
        } else if NAMED_DIM <= n && n < NAMED_BRIGHT_FOREGROUND {
            Some(self.dim[n - NAMED_DIM])
        } else if n == NAMED_BRIGHT_FOREGROUND {
            Some(self.bright[7])
        } else if n == NAMED_DIM_FOREGROUND {
            Some(self.dim[7])
        } else {
            None
        }
    }

    /// Resolve a cell color, honoring the colors that programs set.
    pub fn resolve(&self, color: Color, dynamic: &Vec<Option<Rgb>>) -> (r: Shade)
        requires
            dynamic@.len() == COLOR_COUNT,
        ensures
            r == self.shade(color, dynamic@),
    {
        match color {
            Color::Spec(rgb) => from_ansi_rgb(rgb),
            Color::Named(n) => {
                if n < COLOR_COUNT {
                    if let Some(rgb) = dynamic[n] {
                        return from_ansi_rgb(rgb);
                    }
                }
                match self.named(n) {
                    Some(shade) => shade,
                    None => self.foreground,
                }
            },
            Color::Indexed(i) => {
                if let Some(rgb) = dynamic[i as usize] {
                    return from_ansi_rgb(rgb);
                }
                self.indexed_cube(i)
            },
        }
    }

    /// A color that a program set, as a shade.
    pub fn rgb(rgb: Rgb) -> (r: Shade)
        ensures
            r == opaque_shade(rgb),
    {
        from_ansi_rgb(rgb)
    }

    /// The theme's answer to a program that asks for a color by its number.
    /// There is no ninth dim color to answer with.
    pub fn theme_color_at(&self, idx: usize) -> (r: Shade)
        requires
            idx != 27,
        ensures
            r == self.theme_shade(idx),
    {
        if idx < 8 {
            self.normal[idx]
        } else if idx < 16 {
            self.bright[idx - 8]
        } else if idx == 17 {
            self.background
        } else if idx == 18 {
            self.cursor
        } else if 19 <= idx && idx < 27 {
            self.dim[idx - 19]
        } else {
            self.foreground
        }
    }

    /// The answer to a program that asks for a color by its number: what a
    /// program set, or else what the theme says.
    pub fn requested_color(&self, idx: usize) -> (r: Shade)
        requires
            idx < self.dynamic@.len(),
            idx != 27 || self.dynamic@[27] is Some,
        ensures
            r == (match self.dynamic@[idx as int] {
                Some(rgb) => opaque_shade(rgb),
                None => self.theme_shade(idx),
            }),
    {
        match self.dynamic[idx] {
            Some(rgb) => from_ansi_rgb(rgb),
            None => self.theme_color_at(idx),
        }
    }
}

/// The brightness of one of the six levels of the color cube.
fn level(v: usize) -> (r: u8)
    requires
        v <= 5,
    ensures
        r == cube_level(v as int),
{
    if v == 0 {
        0
    } else {
        55 + v as u8 * 40
    }
}

/// A color that a program set, as a shade.
pub fn from_ansi_rgb(rgb: Rgb) -> (r: Shade)
    ensures
        r == opaque_shade(rgb),
{
    Shade::Exact(Rgba { r: rgb.r, g: rgb.g, b: rgb.b, a: 255 })
}

// ---------------------------------------------------------------------------
// Laws
// ---------------------------------------------------------------------------

/// The brightness of the six levels of the color cube.
pub proof fn law_cube_levels()
    ensures
        cube_level(0) == 0,
        cube_level(1) == 95,
        cube_level(2) == 135,
        cube_level(3) == 175,
        cube_level(4) == 215,
        cube_level(5) == 255,
{
}

/// The color with levels `r`, `g` and `b` in the cube has the number
/// `16 + 36r + 6g + b`, and is opaque. Behind the cube come 24 grays, ten apart
/// from eight on. The first sixteen numbers are those of the theme.
pub proof fn law_indexed_colors(p: Palette, r: int, g: int, b: int, k: int)
    requires
        0 <= r < 6,
        0 <= g < 6,
        0 <= b < 6,
        0 <= k < 24,
    ensures
        ({
            let in_cube = p.cube((16 + 36 * r + 6 * g + b) as u8);
            in_cube == Shade::Exact(
                Rgba { r: cube_level(r), g: cube_level(g), b: cube_level(b), a: 255 },
            )
        }),
        ({
            let gray = (8 + 10 * k) as u8;
            p.cube((232 + k) as u8) == Shade::Exact(Rgba { r: gray, g: gray, b: gray, a: 255 })
        }),
        k < 8 ==> p.cube(k as u8) == p.normal@[k] && p.cube((k + 8) as u8) == p.bright@[k],
{
    lemma_cube_position(r, g, b);
}

/// The levels of a color are told from its place in the cube.
proof fn lemma_cube_position(r: int, g: int, b: int)
    requires
        0 <= r < 6,
        0 <= g < 6,
        0 <= b < 6,
    ensures
        0 <= 36 * r + 6 * g + b < 216,
        (36 * r + 6 * g + b) / 36 == r,
        (36 * r + 6 * g + b) / 6 % 6 == g,
        (36 * r + 6 * g + b) % 6 == b,
{
    let i = 36 * r + 6 * g + b;
    vstd::arithmetic::div_mod::lemma_fundamental_div_mod_converse(i, 36, r, 6 * g + b);
    vstd::arithmetic::div_mod::lemma_fundamental_div_mod_converse(i, 6, 6 * r + g, b);
    vstd::arithmetic::div_mod::lemma_fundamental_div_mod_converse(6 * r + g, 6, r, g);
}

/// The numbers of the named colors: the sixteen of the theme, then from 256 on
/// the foreground, the background, the cursor, eight dim ones, and the bright and
/// the dim foreground. No other number names a color.
pub proof fn law_named_colors(p: Palette, n: usize, k: int)
    requires
        0 <= k < 8,
    ensures
        p.numbered(k as usize) == Some(p.normal@[k]),
        p.numbered((8 + k) as usize) == Some(p.bright@[k]),
        p.numbered(256) == Some(p.foreground),
        p.numbered(257) == Some(p.background),
        p.numbered(258) == Some(p.cursor),
        p.numbered((259 + k) as usize) == Some(p.dim@[k]),
        p.numbered(267) == Some(p.bright@[7]),
        p.numbered(268) == Some(p.dim@[7]),
        16 <= n < 256 || n >= 269 ==> p.numbered(n) is None,
{
}

/// What a program set for a number is shown for it, opaque, by index and by name;
/// otherwise the palette decides, and a number that names nothing is shown as the
/// foreground. A color of its own is shown as it is.
pub proof fn law_program_colors_come_first(
    p: Palette,
    dynamic: Seq<Option<Rgb>>,
    n: usize,
    i: u8,
    rgb: Rgb,
)
    ensures
        p.shade(Color::Spec(rgb), dynamic) == Shade::Exact(
            Rgba { r: rgb.r, g: rgb.g, b: rgb.b, a: 255 },
        ),
        n < 269 && dynamic[n as int] == Some(rgb) ==> p.shade(Color::Named(n), dynamic)
            == p.shade(Color::Spec(rgb), dynamic),
        dynamic[i as int] == Some(rgb) ==> p.shade(Color::Indexed(i), dynamic) == p.shade(
            Color::Spec(rgb),
            dynamic,
        ),
        (n >= 269 || dynamic[n as int] is None) && p.numbered(n) is Some ==> Some(
            p.shade(Color::Named(n), dynamic),
        ) == p.numbered(n),
        (n >= 269 || dynamic[n as int] is None) && p.numbered(n) is None ==> p.shade(
            Color::Named(n),
            dynamic,
        ) == p.foreground,
        dynamic[i as int] is None ==> p.shade(Color::Indexed(i), dynamic) == p.cube(i),
{
}

/// A program that asks for a color is answered with the sixteen colors of the
/// theme by their numbers; 17 and 18 stand for the background and the cursor, the
/// eight numbers from 19 on for the dim colors, and every other number for the
/// foreground.
pub proof fn law_answered_colors(p: Palette, k: int, n: usize)
    requires
        0 <= k < 8,
    ensures
        p.theme_shade(k as usize) == p.normal@[k],
        p.theme_shade((8 + k) as usize) == p.bright@[k],
        p.theme_shade(16) == p.foreground,
        p.theme_shade(17) == p.background,
        p.theme_shade(18) == p.cursor,
        p.theme_shade((19 + k) as usize) == p.dim@[k],
        n >= 28 ==> p.theme_shade(n) == p.foreground,
{
}

} // verus!
