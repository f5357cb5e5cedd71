//! Color derivation: the first three digest bytes are normalized into a
//! brightness band so the result is neither near-white nor near-black.

use vstd::prelude::*;

verus! {

/// Lower bound of the brightness band for every derived channel.
pub const MIN_BRIGHTNESS: u8 = 50;

/// Upper bound of the brightness band for every derived channel.
pub const MAX_BRIGHTNESS: u8 = 200;

/// An RGB color with one byte per channel.
#[derive(Clone, Copy, Debug, PartialEq, Eq, Structural)]
pub struct Color {
    pub r: u8,
    pub g: u8,
    pub b: u8,
}

/// The background color of every canvas: pure white.
pub open spec fn white() -> Color {
    Color { r: 255, g: 255, b: 255 }
}

/// A digest byte mapped into the brightness band by integer truncation:
/// `min + v * (max - min) / 255`.
pub open spec fn channel_spec(v: u8) -> u8 {
    (MIN_BRIGHTNESS + v * (MAX_BRIGHTNESS - MIN_BRIGHTNESS) / 255) as u8
}

/// The color derived from a digest: its first three bytes, each banded.
pub open spec fn color_spec(hash: Seq<u8>) -> Color
    recommends
        hash.len() >= 3,
{
    Color {
        r: channel_spec(hash[0]),
        g: channel_spec(hash[1]),
        b: channel_spec(hash[2]),
    }
}

/// Maps one digest byte into the brightness band.
fn banded_channel(v: u8) -> (c: u8)
    ensures
        c == channel_spec(v),
        MIN_BRIGHTNESS <= c <= MAX_BRIGHTNESS,
{
    let span: u32 = (MAX_BRIGHTNESS - MIN_BRIGHTNESS) as u32;
    let c32: u32 = MIN_BRIGHTNESS as u32 + (v as u32) * span / 255;
    assert(c32 <= MAX_BRIGHTNESS) by {
        assert((v as u32) * span <= 255 * span) by (nonlinear_arith)
            requires
                v <= 255u32,
                span >= 0,
        ;
    };
    c32 as u8
}

/// Derives the fill color from the first three digest bytes.
///
/// Every channel lies within `[MIN_BRIGHTNESS, MAX_BRIGHTNESS]` inclusive.
pub fn generate_color(hash: &Vec<u8>) -> (c: Color)
    requires
        hash@.len() >= 3,
    ensures
        c == color_spec(hash@),
        MIN_BRIGHTNESS <= c.r <= MAX_BRIGHTNESS,
        MIN_BRIGHTNESS <= c.g <= MAX_BRIGHTNESS,
        MIN_BRIGHTNESS <= c.b <= MAX_BRIGHTNESS,
{
    Color {
        r: banded_channel(hash[0]),
        g: banded_channel(hash[1]),
        b: banded_channel(hash[2]),
    }
}

} // verus!
