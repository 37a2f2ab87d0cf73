//! The words and tables that the drawing calls of the console take.

use vstd::prelude::*;
use crate::depth::BitsPerPixel;

verus! {

/// The blit flag for a sprite with one bit per pixel.
pub const BLIT_1BPP: u32 = 0;

/// The blit flag for a sprite with two bits per pixel.
pub const BLIT_2BPP: u32 = 1;

/// The palette that the console starts with, lightest colour first.
pub open spec fn default_palette() -> Seq<u32> {
    seq![0xE0F8CFu32, 0x86C06Cu32, 0x306850u32, 0x071821u32]
}

/// The draw colours word for a call that draws with two draw indices:
/// `low` in the lowest four bits, `high` in the four bits above.
pub fn draw_colors(low: u16, high: u16) -> (r: u16)
    ensures
        r == (high << 4u16) | low,
        low < 16 && high < 16 ==> r == 16 * high + low,
{
    proof {
        assert(low < 16 && high < 16 ==> ((high << 4u16) | low) == 16 * high + low)
            by (bit_vector);
    }
    (high << 4u16) | low
}

/// The flags of a blit: the transform bits, with the lowest bit set for a
/// sprite with two bits per pixel.
pub fn blit_flags(bpp: BitsPerPixel, transform: u32) -> (r: u32)
    ensures
        bpp == BitsPerPixel::One ==> r == transform,
        bpp == BitsPerPixel::Two ==> r == transform | BLIT_2BPP,
{
    proof {
        assert(transform | 0u32 == transform) by (bit_vector);
    }
    match bpp {
        BitsPerPixel::One => transform | BLIT_1BPP,
        BitsPerPixel::Two => transform | BLIT_2BPP,
    }
}

/// Turns the palette round: the first colour changes places with the last,
/// the second with the third.
pub fn flip_palette(colors: &mut [u32; 4])
    ensures
        final(colors)@ == old(colors)@.reverse(),
{
    let first = colors[0];
    let second = colors[1];
    colors[0] = colors[3];
    colors[1] = colors[2];
    colors[2] = second;
    colors[3] = first;
    proof {
        assert(colors@ =~= old(colors)@.reverse());
    }
}

/// Puts the palette back to the one that the console starts with.
pub fn reset_palette(colors: &mut [u32; 4])
    ensures
        final(colors)@ == default_palette(),
{
    colors[0] = 0xE0F8CF;
    colors[1] = 0x86C06C;
    colors[2] = 0x306850;
    colors[3] = 0x071821;
    proof {
        assert(colors@ =~= default_palette());
    }
}

} // verus!
