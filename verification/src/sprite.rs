//! The sprite type of `wasm4_common`, as far as this library makes sprites.

use vstd::prelude::*;
use wasm4_common::draw::{DrawIndices, Sprite};
use crate::depth::BitsPerPixel;

verus! {

/// `wasm4_common::draw::Sprite`. Its fields are private to its crate: a value
/// of it is known only by the names below.
#[verifier::external_type_specification]
#[verifier::external_body]
#[verifier::reject_recursive_types(Bytes)]
pub struct ExSprite<Bytes: ?Sized>(Sprite<Bytes>);

/// The bytes that a sprite holds: what `Sprite::bytes` returns.
pub uninterp spec fn sprite_bytes(sprite: Sprite<Vec<u8>>) -> Seq<u8>;

/// The width of a sprite in pixels: what `Sprite::width` returns.
pub uninterp spec fn sprite_width(sprite: Sprite<Vec<u8>>) -> u32;

/// The height of a sprite in pixels: what `Sprite::height` returns.
pub uninterp spec fn sprite_height(sprite: Sprite<Vec<u8>>) -> u32;

/// The bits of each pixel of a sprite: 1 where `Sprite::bpp` returns `One`,
/// 2 where it returns `Two`.
pub uninterp spec fn sprite_bits(sprite: Sprite<Vec<u8>>) -> nat;

/// `len` bytes can hold a picture of `width` by `height` pixels at depth
/// `bpp`, and both the number of pixels and the number of pixels that the
/// bytes have room for can be counted in the integers of the machine.
pub open spec fn sprite_fits(len: nat, width: u32, height: u32, bpp: BitsPerPixel) -> bool {
    &&& width * height <= u32::MAX
    &&& len * bpp.per_byte() <= usize::MAX
    &&& width * height <= len * bpp.per_byte()
}

/// Calls `Sprite::from_bytes` of `wasm4_common`, with transparent draw
/// indices.
///
/// That function multiplies width by height in `u32` and the length of the
/// bytes by the pixels per byte in `usize`, both checked, and makes the
/// sprite if neither overflows and the first product is at most the second.
/// The sprite then holds the bytes, the shape and the depth as they were
/// handed in.
#[verifier::external_body]
pub(crate) fn sprite_from_bytes(bytes: Vec<u8>, width: u32, height: u32, bpp: BitsPerPixel) -> (r:
    Option<Sprite<Vec<u8>>>)
    ensures
        r.is_some() <==> sprite_fits(bytes@.len(), width, height, bpp),
        r matches Some(sprite) ==> {
            &&& sprite_bytes(sprite) == bytes@
            &&& sprite_width(sprite) == width
            &&& sprite_height(sprite) == height
            &&& sprite_bits(sprite) == bpp.bits()
        },
{
    let depth = match bpp {
        BitsPerPixel::One => wasm4_common::draw::BitsPerPixel::One,
        BitsPerPixel::Two => wasm4_common::draw::BitsPerPixel::Two,
    };
    Sprite::from_bytes(bytes, [width, height], depth, DrawIndices::TRANSPARENT)
}

} // verus!
