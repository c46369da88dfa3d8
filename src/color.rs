use vstd::prelude::*;

verus! {

/// An RGBA color, one byte per channel.
#[derive(Clone, Copy, Debug, PartialEq, Eq, Structural)]
pub struct Color {
    pub r: u8,
    pub g: u8,
    pub b: u8,
    pub a: u8,
}

impl Color {

    pub open spec fn white_spec() -> Color {
        Color { r: 255, g: 255, b: 255, a: 255 }
    }

    pub open spec fn whitesmoke_spec() -> Color {
        Color { r: 245, g: 245, b: 245, a: 255 }
    }

    pub open spec fn black_spec() -> Color {
        Color { r: 0, g: 0, b: 0, a: 255 }
    }
    pub fn new(r: u8, g: u8, b: u8, a: u8) -> (c: Color)
        ensures
            c == (Color { r, g, b, a }),
    {
        Color { r, g, b, a }
    }

    /// Opaque white.
    pub fn white() -> (c: Color)
        ensures
            c == Color::white_spec(),
    {
        Color { r: 255, g: 255, b: 255, a: 255 }
    }

    /// Opaque black.
    pub fn black() -> (c: Color)
        ensures
            c == Color::black_spec(),
    {
        Color { r: 0, g: 0, b: 0, a: 255 }
    }

    /// The light gray used for debug rays.
    pub fn whitesmoke() -> (c: Color)
        ensures
            c == Color::whitesmoke_spec(),
    {
        Color { r: 245, g: 245, b: 245, a: 255 }
    }

    /// Red, the placeholder for an image that could not be read.
    pub fn red() -> (c: Color)
        ensures
            c == (Color { r: 230, g: 41, b: 55, a: 255 }),
    {
        Color { r: 230, g: 41, b: 55, a: 255 }
    }

    /// Blue, the placeholder for a missing sprite sheet.
    pub fn blue() -> (c: Color)
        ensures
            c == (Color { r: 0, g: 121, b: 241, a: 255 }),
    {
        Color { r: 0, g: 121, b: 241, a: 255 }
    }

    /// The color that sprite art uses to mark a pixel as see-through.
    pub fn transparent_key() -> (c: Color)
        ensures
            c == transparent_key_color(),
    {
        Color { r: 152, g: 0, b: 136, a: 255 }
    }
}

pub open spec fn transparent_key_color() -> Color {
    Color { r: 152, g: 0, b: 136, a: 255 }
}

pub open spec fn all_channels_in(c: Color, lo: u8, hi: u8) -> bool {
    &&& lo <= c.r <= hi
    &&& lo <= c.g <= hi
    &&& lo <= c.b <= hi
}

/// The rule by which a sampled sprite pixel is dropped: the magic color, low alpha,
/// the two gray bands of sheet backgrounds, near black, or near white.
pub open spec fn transparent(c: Color) -> bool {
    ||| c == transparent_key_color()
    ||| c.a < 128
    ||| all_channels_in(c, 50, 85)
    ||| all_channels_in(c, 75, 115)
    ||| (c.r < 25 && c.g < 25 && c.b < 25)
    ||| (c.r > 230 && c.g > 230 && c.b > 230)
}

/// Whether a sprite pixel of this color is left out when compositing.
pub fn is_transparent_color(color: Color) -> (r: bool)
    ensures
        r == transparent(color),
{
    if color == Color::transparent_key() {
        return true;
    }
    if color.a < 128 {
        return true;
    }
    if color.r >= 50 && color.r <= 85 && color.g >= 50 && color.g <= 85 && color.b >= 50
        && color.b <= 85 {
        return true;
    }
    if color.r >= 75 && color.r <= 115 && color.g >= 75 && color.g <= 115 && color.b >= 75
        && color.b <= 115 {
        return true;
    }
    if color.r < 25 && color.g < 25 && color.b < 25 {
        return true;
    }
    if color.r > 230 && color.g > 230 && color.b > 230 {
        return true;
    }
    false
}

/// The classifier answers for every color, and drops the magic color and every
/// near-black or near-white color whatever its alpha.
pub proof fn lemma_transparency_extremes(c: Color)
    ensures
        c == transparent_key_color() ==> transparent(c),
        (c.r < 25 && c.g < 25 && c.b < 25) ==> transparent(c),
        (c.r > 230 && c.g > 230 && c.b > 230) ==> transparent(c),
{
}

} // verus!
