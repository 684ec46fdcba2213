//! The colour of an iteration count.

use vstd::prelude::*;

verus! {

/// The alpha channel of every pixel: fully opaque.
pub const OPAQUE: u8 = 255;

/// One RGBA8 pixel.
#[derive(Clone, Copy, Debug, PartialEq, Eq, Structural)]
pub struct Pixel {
    pub red: u8,
    pub green: u8,
    pub blue: u8,
    pub alpha: u8,
}

impl Pixel {
    /// The four bytes of the pixel in buffer order: red, green, blue, alpha.
    pub open spec fn bytes(self) -> Seq<u8> {
        seq![self.red, self.green, self.blue, self.alpha]
    }
}

/// The pixel that stands for an iteration count: a quarter of the count, half
/// of it and the count itself, each reduced to its low byte, and an opaque
/// alpha.
pub open spec fn pixel_of(iter_index: u32) -> Pixel {
    Pixel {
        red: ((iter_index / 4) % 256) as u8,
        green: ((iter_index / 2) % 256) as u8,
        blue: (iter_index % 256) as u8,
        alpha: OPAQUE,
    }
}

/// Colours an iteration count.
pub fn colorize(iter_index: u32) -> (px: Pixel)
    ensures
        px == pixel_of(iter_index),
        px.alpha == OPAQUE,
{
    Pixel {
        red: ((iter_index / 4) % 256) as u8,
        green: ((iter_index / 2) % 256) as u8,
        blue: (iter_index % 256) as u8,
        alpha: OPAQUE,
    }
}

/// Below 256 no channel wraps: red is a quarter of the count, green is half
/// of it, and blue is the count itself.
pub proof fn lemma_channels_below_wrap(iter_index: u32)
    requires
        iter_index < 256,
    ensures
        pixel_of(iter_index).red == iter_index / 4,
        pixel_of(iter_index).green == iter_index / 2,
        pixel_of(iter_index).blue == iter_index,
        pixel_of(iter_index).alpha == 255,
{
}

} // verus!
