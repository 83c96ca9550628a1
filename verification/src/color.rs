//! Colors as they are written down: hexadecimal texts and eight-bit channels.
use vstd::prelude::*;
use vstd::string::*;

use crate::text::{
    chars_of, is_white, lemma_trimmed_again, owned, trim, trim_left, trim_right, trimmed,
};

verus! {

/// A color with straight alpha, eight bits a channel.
#[derive(Clone, Copy, PartialEq, Eq, Debug, Structural)]
pub struct Rgba {
    pub r: u8,
    pub g: u8,
    pub b: u8,
    pub a: u8,
}

/// A color as a theme gives it. The renderer works out the brightness of each
/// channel as a fraction.
#[derive(Clone, Copy, PartialEq, Eq, Debug, Structural)]
pub enum Shade {
    /// A color that was written down.
    Exact(Rgba),
    /// An opaque color by thousandths of full brightness.
    Permille(u16, u16, u16),
    /// An opaque color with 66 hundredths of the brightness of another.
    Dimmed(Rgba),
}

impl Default for Rgba {
    fn default() -> (r: Rgba)
        ensures
            r == (Rgba { r: 0, g: 0, b: 0, a: 255 }),
    {
        Rgba { r: 0, g: 0, b: 0, a: 255 }
    }
}

/// The value of a hexadecimal digit, in either case.
pub open spec fn hex_digit(c: char) -> Option<u8> {
    if '0' <= c <= '9' {
        Some((c as u32 - 48) as u8)
    } else if 'a' <= c <= 'f' {
        Some((c as u32 - 87) as u8)
    } else if 'A' <= c <= 'F' {
        Some((c as u32 - 55) as u8)
    } else {
        None
    }
}

/// The number that two characters write down: two hexadecimal digits, or one
/// behind a plus sign.
pub open spec fn hex_pair(high: char, low: char) -> Option<u8> {
    if high == '+' {
        hex_digit(low)
    } else {
        match (hex_digit(high), hex_digit(low)) {
            (Some(h), Some(l)) => Some((h * 16 + l) as u8),
            _ => None,
        }
    }
}

/// A text without the number signs in front of it.
pub open spec fn bare(s: Seq<char>) -> Seq<char>
    decreases s.len(),
{
    if s.len() > 0 && s[0] == '#' {
        bare(s.drop_first())
    } else {
        s
    }
}

/// A color of four channels that may each be missing.
pub open spec fn color_of(
    r: Option<u8>,
    g: Option<u8>,
    b: Option<u8>,
    a: Option<u8>,
) -> Option<Rgba> {
    match (r, g, b, a) {
        (Some(r), Some(g), Some(b), Some(a)) => Some(Rgba { r, g, b, a }),
        _ => None,
    }
}

/// The color that a text writes down: `#rgb`, `#rgba`, `#rrggbb` or `#rrggbbaa`,
/// with white space around it.
pub open spec fn hex_color(input: Seq<char>) -> Option<Rgba> {
    let d = bare(trimmed(input));
    if d.len() == 3 {
        color_of(hex_pair(d[0], d[0]), hex_pair(d[1], d[1]), hex_pair(d[2], d[2]), Some(255))
    } else if d.len() == 4 {
        color_of(
            hex_pair(d[0], d[0]),
            hex_pair(d[1], d[1]),
            hex_pair(d[2], d[2]),
            hex_pair(d[3], d[3]),
        )
    } else if d.len() == 6 {
        color_of(hex_pair(d[0], d[1]), hex_pair(d[2], d[3]), hex_pair(d[4], d[5]), Some(255))
    } else if d.len() == 8 {
        color_of(
            hex_pair(d[0], d[1]),
            hex_pair(d[2], d[3]),
            hex_pair(d[4], d[5]),
            hex_pair(d[6], d[7]),
        )
    } else {
        None
    }
}

/// The hexadecimal digit with a value.
pub open spec fn hex_char(n: int) -> char {
    if n < 10 {
        (48 + n) as char
    } else {
        (87 + n) as char
    }
}

/// The text of a color, without its alpha: `#rrggbb`.
pub open spec fn hex_text(c: Rgba) -> Seq<char> {
    seq![
        '#',
        hex_char(c.r as int / 16),
        hex_char(c.r as int % 16),
        hex_char(c.g as int / 16),
        hex_char(c.g as int % 16),
        hex_char(c.b as int / 16),
        hex_char(c.b as int % 16),
    ]
}

/// The value of a hexadecimal digit.
fn digit(c: char) -> (r: Option<u8>)
    ensures
        r == hex_digit(c),
        r matches Some(n) ==> n < 16,
{
    if '0' <= c && c <= '9' {
        Some(c as u8 - 48)
    } else if 'a' <= c && c <= 'f' {
        Some(c as u8 - 87)
    } else if 'A' <= c && c <= 'F' {
        Some(c as u8 - 55)
    } else {
        None
    }
}

/// The number that two characters write down.
fn pair(high: char, low: char) -> (r: Option<u8>)
    ensures
        r == hex_pair(high, low),
{
    if high == '+' {
        return digit(low);
    }
    match (digit(high), digit(low)) {
        (Some(h), Some(l)) => Some(h * 16 + l),
        _ => None,
    }
}

/// A color of four channels that may each be missing.
fn all_channels(r: Option<u8>, g: Option<u8>, b: Option<u8>, a: Option<u8>) -> (c: Option<Rgba>)
    ensures
        c == color_of(r, g, b, a),
{
    match (r, g, b, a) {
        (Some(r), Some(g), Some(b), Some(a)) => Some(Rgba { r, g, b, a }),
        _ => None,
    }
}

/// The hexadecimal digit with a value.
fn digit_of(n: u8) -> (r: char)
    requires
        n < 16,
    ensures
        r == hex_char(n as int),
{
    if n < 10 {
        (48 + n) as char
    } else {
        (87 + n) as char
    }
}

/// Read a color from its text.
fn read_hex(input: &str) -> (r: Option<Rgba>)
    ensures
        r == hex_color(input@),
{
    let text = trim(input);
    let v = chars_of(text.as_str());
    let mut i: usize = 0;
    assert(v@.skip(0) =~= v@);
    while i < v.len() && v[i] == '#'
        invariant
            i <= v@.len(),
            bare(v@.skip(i as int)) == bare(v@),
        decreases v@.len() - i,
    {
        assert(v@.skip(i as int)[0] == v@[i as int]);
        assert(v@.skip(i as int).drop_first() =~= v@.skip(i + 1));
        i += 1;
    }
    let ghost d = bare(v@);
    assert(d == v@.skip(i as int)) by {
        if i < v@.len() {
            assert(v@.skip(i as int)[0] == v@[i as int]);
        }
    }
    assert(forall|k: int| 0 <= k < d.len() ==> d[k] == v@[i + k]);
    let n: usize = v.len() - i;
    if n == 3 {
        all_channels(
            pair(v[i], v[i]),
            pair(v[i + 1], v[i + 1]),
            pair(v[i + 2], v[i + 2]),
            Some(255),
        )
    } else if n == 4 {
        all_channels(
            pair(v[i], v[i]),
            pair(v[i + 1], v[i + 1]),
            pair(v[i + 2], v[i + 2]),
            pair(v[i + 3], v[i + 3]),
        )
    } else if n == 6 {
        all_channels(
            pair(v[i], v[i + 1]),
            pair(v[i + 2], v[i + 3]),
            pair(v[i + 4], v[i + 5]),
            Some(255),
        )
    } else if n == 8 {
        all_channels(
            pair(v[i], v[i + 1]),
            pair(v[i + 2], v[i + 3]),
            pair(v[i + 4], v[i + 5]),
            pair(v[i + 6], v[i + 7]),
        )
    } else {
        None
    }
}

impl Rgba {
    /// A color from its channels.
    pub fn from_u8(r: u8, g: u8, b: u8, a: u8) -> (c: Rgba)
        ensures
            c == (Rgba { r, g, b, a }),
    {
        Rgba { r, g, b, a }
    }

    /// Parse `#rgb`, `#rgba`, `#rrggbb` or `#rrggbbaa`.
    pub fn from_hex(input: &str) -> (r: Result<Rgba, String>)
        ensures
            match r {
                Ok(color) => hex_color(input@) == Some(color),
                Err(message) => hex_color(input@) is None && message@ == "invalid hex color `"@
                    + input@ + "`"@,
            },
    {
        match read_hex(input) {
            Some(color) => Ok(color),
            None => {
                let mut message = owned("invalid hex color `");
                message.append(input);
                message.append("`");
                Err(message)
            },
        }
    }

    /// The color as a number, eight bits a channel and without the alpha.
    pub fn to_u32(self) -> (n: u32)
        ensures
            n == self.r * 65536 + self.g * 256 + self.b,
    {
        self.r as u32 * 65536 + self.g as u32 * 256 + self.b as u32
    }

    /// The text of the color, without its alpha: `#rrggbb`.
    pub fn to_text(self) -> (s: String)
        ensures
            s@ == hex_text(self),
    {
        let mut out = String::new();
        out.push('#');
        out.push(digit_of(self.r / 16));
        out.push(digit_of(self.r % 16));
        out.push(digit_of(self.g / 16));
        out.push(digit_of(self.g % 16));
        out.push(digit_of(self.b / 16));
        out.push(digit_of(self.b % 16));
        assert(out@ =~= hex_text(self));
        out
    }
}

/// Reading the text of a color gives the color back, opaque.
pub proof fn law_text_reads_back(c: Rgba)
    ensures
        hex_color(hex_text(c)) == Some(Rgba { a: 255, ..c }),
{
    let t = hex_text(c);
    lemma_hex_char(c.r as int / 16);
    lemma_hex_char(c.r as int % 16);
    lemma_hex_char(c.g as int / 16);
    lemma_hex_char(c.g as int % 16);
    lemma_hex_char(c.b as int / 16);
    lemma_hex_char(c.b as int % 16);
    assert(t.len() == 7);
    assert(trim_left(t) == t);
    assert(t.last() == hex_char(c.b as int % 16));
    assert(trim_right(t) == t);
    let d = t.drop_first();
    assert(d[0] == hex_char(c.r as int / 16));
    assert(bare(d) == d);
    assert(bare(t) == d);
    assert(hex_pair(d[0], d[1]) == Some(c.r));
    assert(hex_pair(d[2], d[3]) == Some(c.g));
    assert(hex_pair(d[4], d[5]) == Some(c.b));
}

/// A hexadecimal digit is read as its value.
proof fn lemma_hex_char(n: int)
    requires
        0 <= n < 16,
    ensures
        hex_digit(hex_char(n)) == Some(n as u8),
        hex_char(n) != '#',
        hex_char(n) != '+',
        !is_white(hex_char(n)),
{
}

/// The sixteen digits, in either case, and nothing else.
pub proof fn law_hex_digits(c: char, n: u32)
    ensures
        n < 10 && c as u32 == '0' as u32 + n ==> hex_digit(c) == Some(n as u8),
        n < 6 && c as u32 == 'a' as u32 + n ==> hex_digit(c) == Some((10 + n) as u8),
        n < 6 && c as u32 == 'A' as u32 + n ==> hex_digit(c) == Some((10 + n) as u8),
        hex_digit(c) is Some <==> '0' <= c <= '9' || 'a' <= c <= 'f' || 'A' <= c <= 'F',
{
}

/// Hexadecimal digits are taken as they are: nothing is cut off around them.
proof fn lemma_digits_stay(d: Seq<char>)
    requires
        d.len() > 0,
        forall|i: int| 0 <= i < d.len() ==> hex_digit(#[trigger] d[i]) is Some,
    ensures
        bare(trimmed(d)) == d,
        bare(trimmed(seq!['#'] + d)) == d,
{
    assert(hex_digit(d[0]) is Some);
    assert(hex_digit(d[d.len() - 1]) is Some);
    assert(trim_left(d) == d);
    assert(trim_right(d) == d);
    assert(bare(d) == d);
    let t = seq!['#'] + d;
    assert(t[0] == '#');
    assert(t.last() == d.last());
    assert(trim_left(t) == t);
    assert(trim_right(t) == t);
    assert(t.drop_first() =~= d);
}

/// Eight digits write down red, green, blue and alpha in this order, two digits
/// each with the high one first; six leave the alpha out, which is then full. A
/// number sign in front does not matter.
pub proof fn law_channels_stand_in_order(d: Seq<char>, v: Seq<u8>)
    requires
        d.len() == 8 || d.len() == 6,
        v.len() == d.len(),
        forall|i: int| 0 <= i < d.len() ==> hex_digit(#[trigger] d[i]) == Some(v[i]) && v[i] < 16,
    ensures
        ({
            let color = Rgba {
                r: (v[0] * 16 + v[1]) as u8,
                g: (v[2] * 16 + v[3]) as u8,
                b: (v[4] * 16 + v[5]) as u8,
                a: if d.len() == 8 {
                    (v[6] * 16 + v[7]) as u8
                } else {
                    255
                },
            };
            hex_color(d) == Some(color) && hex_color(seq!['#'] + d) == Some(color)
        }),
{
    lemma_digits_stay(d);
    assert(hex_digit(d[0]) == Some(v[0]) && hex_digit(d[1]) == Some(v[1]));
    assert(hex_digit(d[2]) == Some(v[2]) && hex_digit(d[3]) == Some(v[3]));
    assert(hex_digit(d[4]) == Some(v[4]) && hex_digit(d[5]) == Some(v[5]));
    if d.len() == 8 {
        assert(hex_digit(d[6]) == Some(v[6]) && hex_digit(d[7]) == Some(v[7]));
    }
}

/// A short form stands for the long one with every digit doubled.
pub proof fn law_short_form_doubles_digits(r: char, g: char, b: char, a: char)
    requires
        hex_digit(r) is Some,
        hex_digit(g) is Some,
        hex_digit(b) is Some,
        hex_digit(a) is Some,
    ensures
        hex_color(seq!['#', r, g, b]) == hex_color(seq!['#', r, r, g, g, b, b]),
        hex_color(seq!['#', r, g, b, a]) == hex_color(seq!['#', r, r, g, g, b, b, a, a]),
        hex_color(seq!['#', r, g, b]) is Some,
        hex_color(seq!['#', r, g, b, a]) is Some,
{
    lemma_digits_stay(seq![r, g, b]);
    lemma_digits_stay(seq![r, g, b, a]);
    lemma_digits_stay(seq![r, r, g, g, b, b]);
    lemma_digits_stay(seq![r, r, g, g, b, b, a, a]);
    assert(seq!['#'] + seq![r, g, b] =~= seq!['#', r, g, b]);
    assert(seq!['#'] + seq![r, g, b, a] =~= seq!['#', r, g, b, a]);
    assert(seq!['#'] + seq![r, r, g, g, b, b] =~= seq!['#', r, r, g, g, b, b]);
    assert(seq!['#'] + seq![r, r, g, g, b, b, a, a] =~= seq!['#', r, r, g, g, b, b, a, a]);
}

/// A text of another length, or with a character that is no digit in a place
/// where only a digit will do, is no color.
pub proof fn law_other_texts_are_no_colors(d: Seq<char>, i: int)
    requires
        d.len() > 0,
        forall|k: int| 0 <= k < d.len() && k != i ==> hex_digit(#[trigger] d[k]) is Some,
        0 < i < d.len() - 1 ==> d[i] != '+',
        0 <= i < d.len() ==> 0 < i < d.len() - 1 && hex_digit(d[i]) is None,
    ensures
        d.len() != 3 && d.len() != 4 && d.len() != 6 && d.len() != 8 ==> hex_color(d) is None,
        0 <= i < d.len() ==> hex_color(d) is None,
{
    assert(hex_digit(d[0]) is Some);
    assert(hex_digit(d[d.len() - 1]) is Some);
    assert(trim_left(d) == d);
    assert(trim_right(d) == d);
    assert(bare(d) == d);
}

/// White space around a color does not matter, nor does a number sign in front
/// of one.
pub proof fn law_space_and_signs_do_not_matter(s: Seq<char>)
    ensures
        hex_color(trimmed(s)) == hex_color(s),
        s.len() > 0 && !is_white(s.last()) && !is_white(s[0]) ==> hex_color(seq!['#'] + s)
            == hex_color(s),
{
    lemma_trimmed_again(s);
    if s.len() > 0 && !is_white(s.last()) && !is_white(s[0]) {
        let t = seq!['#'] + s;
        assert(t[0] == '#' && t.last() == s.last());
        assert(trim_left(t) == t && trim_right(t) == t);
        assert(trim_left(s) == s && trim_right(s) == s);
        assert(t.drop_first() =~= s);
    }
}

} // verus!
