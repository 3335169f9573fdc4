//! Colours: the named presets of the status LED, and the 16-bit colours of
//! the display.

use vstd::prelude::*;

verus! {

/// A named colour of the status LED.
#[derive(Clone, Copy, Debug, PartialEq, Eq, Structural)]
pub enum Color {
    Red,
    Orange,
    Green,
}

impl Color {
    /// The red, green and blue channel of each preset.
    pub open spec fn channels(self) -> (u8, u8, u8) {
        match self {
            Color::Red => (255u8, 0u8, 0u8),
            Color::Orange => (255u8, 165u8, 0u8),
            Color::Green => (0u8, 255u8, 0u8),
        }
    }

    /// The preset as an RGB triple of 8-bit channels.
    pub fn rgb(&self) -> (triple: (u8, u8, u8))
        ensures
            triple == self.channels(),
    {
        match self {
            Color::Red => (255, 0, 0),
            Color::Orange => (255, 165, 0),
            Color::Green => (0, 255, 0),
        }
    }
}

/// A display colour with 5 bits of red, 6 of green and 5 of blue.
///
/// The channels are kept apart. A channel that exceeds its width is for the
/// display driver to mask; the colours that this crate draws with never do.
#[derive(Clone, Copy, Debug, PartialEq, Eq, Structural)]
pub struct Rgb565 {
    pub r: u8,
    pub g: u8,
    pub b: u8,
}

impl Rgb565 {
    /// The colour of a lit segment: full green.
    pub open spec fn lit() -> Rgb565 {
        Rgb565 { r: 0, g: 63, b: 0 }
    }

    /// The colour of an unlit segment: a grey just above black, so that the
    /// outline of the whole glyph stays visible.
    pub open spec fn unlit() -> Rgb565 {
        Rgb565 { r: 2, g: 2, b: 2 }
    }

    /// Whether each channel fits its width.
    pub open spec fn in_gamut(self) -> bool {
        self.r < 32 && self.g < 64 && self.b < 32
    }

    /// The colour with the given channels.
    pub fn new(r: u8, g: u8, b: u8) -> (c: Rgb565)
        ensures
            c == (Rgb565 { r, g, b }),
    {
        Rgb565 { r, g, b }
    }

    /// The colour of a segment, lit or not.
    pub open spec fn of_segment(on: bool) -> Rgb565 {
        if on {
            Rgb565::lit()
        } else {
            Rgb565::unlit()
        }
    }

    /// The colour in which a segment is filled.
    pub fn for_segment(on: bool) -> (c: Rgb565)
        ensures
            c == Rgb565::of_segment(on),
            c.in_gamut(),
    {
        if on {
            Rgb565 { r: 0, g: 63, b: 0 }
        } else {
            Rgb565 { r: 2, g: 2, b: 2 }
        }
    }
}

} // verus!
