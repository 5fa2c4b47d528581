//! Four-channel pixel values.

use vstd::prelude::*;

verus! {

/// An RGBA pixel value, one byte per channel.
#[derive(Copy, Clone, Debug, PartialEq, Eq, Structural)]
pub struct Color {
    pub r: u8,
    pub g: u8,
    pub b: u8,
    pub a: u8,
}

/// Opaque black.
pub open spec fn black() -> Color {
    Color { r: 0, g: 0, b: 0, a: 255 }
}

/// Opaque white.
pub open spec fn white() -> Color {
    Color { r: 255, g: 255, b: 255, a: 255 }
}

/// The opaque colour whose red, green and blue channels are bits 16..24,
/// 8..16 and 0..8 of `rgb`.
pub open spec fn rgb_color(rgb: u32) -> Color {
    Color {
        r: ((rgb >> 16) & 0xff) as u8,
        g: ((rgb >> 8) & 0xff) as u8,
        b: (rgb & 0xff) as u8,
        a: 255,
    }
}

impl Color {
    /// Opaque black.
    pub fn black() -> (c: Color)
        ensures
            c == self::black(),
    {
        Color { r: 0, g: 0, b: 0, a: 255 }
    }

    /// Opaque white.
    pub fn white() -> (c: Color)
        ensures
            c == self::white(),
    {
        Color { r: 255, g: 255, b: 255, a: 255 }
    }

    /// An opaque colour from its red, green and blue channels.
    pub fn new(r: u8, g: u8, b: u8) -> (c: Color)
        ensures
            c == (Color { r, g, b, a: 255 }),
    {
        Color { r, g, b, a: 255 }
    }

    /// An opaque colour from a packed `0xRRGGBB` value; higher bits are ignored.
    pub fn from_rgb(rgb: u32) -> (c: Color)
        ensures
            c == rgb_color(rgb),
    {
        let r: u32 = (rgb >> 16) & 0xff;
        let g: u32 = (rgb >> 8) & 0xff;
        let b: u32 = rgb & 0xff;
        assert(((rgb >> 16) & 0xff) <= 255) by (bit_vector);
        assert(((rgb >> 8) & 0xff) <= 255) by (bit_vector);
        assert((rgb & 0xff) <= 255) by (bit_vector);
        Color { r: r as u8, g: g as u8, b: b as u8, a: 255 }
    }
}

} // verus!
