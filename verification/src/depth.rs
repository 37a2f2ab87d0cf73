//! How many bits a pixel takes.

use vstd::prelude::*;

verus! {

/// The colour depth of a bitmap: one or two bits for each pixel.
#[derive(Clone, Copy, Debug, PartialEq, Eq, Structural)]
pub enum BitsPerPixel {
    One,
    Two,
}

impl BitsPerPixel {
    /// The number of bits of one pixel.
    pub open spec fn bits(self) -> nat {
        match self {
            BitsPerPixel::One => 1,
            BitsPerPixel::Two => 2,
        }
    }

    /// The number of pixels that share a byte.
    pub open spec fn per_byte(self) -> nat {
        match self {
            BitsPerPixel::One => 8,
            BitsPerPixel::Two => 4,
        }
    }

    /// The number of palette indices that one pixel can tell apart.
    pub open spec fn radix(self) -> nat {
        match self {
            BitsPerPixel::One => 2,
            BitsPerPixel::Two => 4,
        }
    }

    /// The depth that a sprite with `glyphs` distinct glyphs gets: one bit
    /// for up to two glyphs, two bits otherwise.
    pub open spec fn for_glyphs(glyphs: nat) -> BitsPerPixel {
        if glyphs <= 2 {
            BitsPerPixel::One
        } else {
            BitsPerPixel::Two
        }
    }

    /// The bytes that `pixels` pixels take at this depth: their bits, rounded
    /// up to whole bytes.
    pub open spec fn bytes_for(self, pixels: nat) -> nat {
        match self {
            BitsPerPixel::One => (pixels + 7) / 8,
            BitsPerPixel::Two => (2 * pixels + 7) / 8,
        }
    }
}

} // verus!
