//! The wire encoding of one pixel of the addressable status LED.

use vstd::prelude::*;
use ws2812_esp32_rmt_driver::driver::color::LedPixelColor;
use ws2812_esp32_rmt_driver::driver::color::LedPixelColorGrb24;

verus! {

/// The bytes that the LED expects for an RGB triple: green first, then red,
/// then blue.
pub open spec fn wire_order(rgb: (u8, u8, u8)) -> Seq<u8> {
    seq![rgb.1, rgb.0, rgb.2]
}

/// Calls `LedPixelColorGrb24::new_with_rgb` of the LED driver crate and copies
/// out the bytes that its `as_ref` exposes.
///
/// Trusted, not proved: the driver stores a 24-bit GRB pixel as the three
/// bytes green, red, blue, in that order.
#[verifier::external_body]
fn grb24_bytes(r: u8, g: u8, b: u8) -> (bytes: Vec<u8>)
    ensures
        bytes@ == seq![g, r, b],
{
    LedPixelColorGrb24::new_with_rgb(r, g, b).as_ref().to_vec()
}

/// Serialises an RGB triple into the three bytes of one LED pixel, in the
/// order in which they go onto the wire.
pub fn encode_pixel(rgb: (u8, u8, u8)) -> (wire: [u8; 3])
    ensures
        wire@ == wire_order(rgb),
        wire[0] == rgb.1,
        wire[1] == rgb.0,
        wire[2] == rgb.2,
{
    let bytes = grb24_bytes(rgb.0, rgb.1, rgb.2);
    let wire = [bytes[0], bytes[1], bytes[2]];
    assert(wire@ =~= wire_order(rgb));
    wire
}

} // verus!
