//! From a sprite text to a sprite, in two passes over the text: one that
//! finds the depth and the number of bytes, and one that fills a buffer of
//! exactly that many bytes.

use vstd::prelude::*;
use vstd::slice::slice_subrange;
use vstd::utf8::*;
use wasm4_common::draw::Sprite;
use crate::decode::{decode_utf8_first, lemma_first_char, lemma_leading_newline, lemma_no_bytes};
use crate::depth::BitsPerPixel;
use crate::error::SpriteError;
use crate::glyphs::{lemma_allocate, GlyphTable};
use crate::grid::{
    compile, finish, lemma_compile, lemma_scan, lemma_step, scan_from, start, step, Grid,
    ScanState, NEW_LINE, SPACE, TAB,
};
use crate::pack::{lemma_bytes_for, lemma_overlay_exact, BitPacker};
use crate::sprite::{
    sprite_bits, sprite_bytes, sprite_fits, sprite_from_bytes, sprite_height, sprite_width,
};

verus! {

/// What a pass over a sprite text yields.
pub enum SpriteInfo {
    /// The sprite, from the building pass.
    Sprite(Sprite<Vec<u8>>),
    /// The depth and the number of bytes, from the sizing pass.
    Calc(BitsPerPixel, usize),
}

impl SpriteInfo {
    /// The depth and the number of bytes that the sizing pass found.
    pub fn calc(self) -> (r: (BitsPerPixel, usize))
        requires
            self is Calc,
        ensures
            self == SpriteInfo::Calc(r.0, r.1),
    {
        match self {
            SpriteInfo::Calc(bpp, capacity) => (bpp, capacity),
            SpriteInfo::Sprite(_) => vstd::pervasive::unreached(),
        }
    }

    /// The sprite that the building pass made.
    pub fn sprite(self) -> (r: Sprite<Vec<u8>>)
        requires
            self is Sprite,
        ensures
            self == SpriteInfo::Sprite(r),
    {
        match self {
            SpriteInfo::Sprite(sprite) => sprite,
            SpriteInfo::Calc(_, _) => vstd::pervasive::unreached(),
        }
    }
}

/// The sprite shows the picture: its shape and depth are those of the
/// picture, and its bytes are the packed pixels.
pub open spec fn depicts(sprite: Sprite<Vec<u8>>, g: Grid) -> bool {
    &&& sprite_width(sprite) == g.width
    &&& sprite_height(sprite) == g.height
    &&& sprite_bits(sprite) == g.bpp().bits()
    &&& sprite_bytes(sprite) == g.bytes()
}

/// What the sizing pass answers for `text`: the depth and the number of
/// bytes of its picture, or the reason why it draws none.
pub open spec fn sized(text: Seq<char>, r: Result<(BitsPerPixel, usize), SpriteError>) -> bool {
    match compile(text) {
        Ok(g) => r matches Ok(size) && size.0 == g.bpp() && size.1 == g.capacity(),
        Err(e) => r == Err::<(BitsPerPixel, usize), SpriteError>(e),
    }
}

/// What the building pass answers for `text` and a buffer of `capacity`
/// bytes: the reason why the text draws no picture; or that the buffer has
/// not the length that the picture takes; or a sprite that shows the picture.
pub open spec fn built(text: Seq<char>, capacity: nat, r: Result<Sprite<Vec<u8>>, SpriteError>)
    -> bool {
    match compile(text) {
        Ok(g) => if capacity == g.capacity() {
            r matches Ok(sprite) && depicts(sprite, g)
        } else {
            r == Err::<Sprite<Vec<u8>>, SpriteError>(SpriteError::InconsistentCapacity)
        },
        Err(e) => r == Err::<Sprite<Vec<u8>>, SpriteError>(e),
    }
}

/// The sizing pass: finds the depth and the number of bytes of the sprite
/// that `input` draws, and writes nothing.
pub fn sprite_calc(input: &str) -> (r: Result<(BitsPerPixel, usize), SpriteError>)
    ensures
        sized(input@, r),
{
    match sprite_builder_impl(BitsPerPixel::Two, true, input, Vec::new()) {
        Ok(info) => Ok(info.calc()),
        Err(e) => Err(e),
    }
}

/// The building pass: makes the sprite that `input` draws, in `buffer`.
///
/// The sizing pass is run again, and a buffer of another length than it asks
/// for is turned down. What the buffer held before does not matter.
pub fn sprite_builder(input: &str, buffer: Vec<u8>) -> (r: Result<Sprite<Vec<u8>>, SpriteError>)
    ensures
        built(input@, buffer@.len(), r),
{
    let (bpp, capacity) = match sprite_calc(input) {
        Ok(size) => size,
        Err(e) => {
            return Err(e);
        },
    };
    if capacity != buffer.len() {
        return Err(SpriteError::InconsistentCapacity);
    }
    match sprite_builder_impl(bpp, false, input, buffer) {
        Ok(info) => Ok(info.sprite()),
        Err(e) => Err(e),
    }
}

/// What both passes in a row answer for `text`: a sprite that shows its
/// picture, or the reason why it draws none.
pub open spec fn drawn(text: Seq<char>, r: Result<Sprite<Vec<u8>>, SpriteError>) -> bool {
    match compile(text) {
        Ok(g) => r matches Ok(sprite) && depicts(sprite, g),
        Err(e) => r == Err::<Sprite<Vec<u8>>, SpriteError>(e),
    }
}

/// Both passes in a row: finds the size of the sprite that `input` draws,
/// makes a buffer of exactly that size and builds the sprite in it.
pub fn text_sprite(input: &str) -> (r: Result<Sprite<Vec<u8>>, SpriteError>)
    ensures
        drawn(input@, r),
{
    let (_, capacity) = match sprite_calc(input) {
        Ok(size) => size,
        Err(e) => {
            return Err(e);
        },
    };
    sprite_builder(input, vec![0u8; capacity])
}

/// What one pass answers: in the sizing pass the size, in the building pass
/// the sprite, and in both the reason why the text draws no picture.
spec fn passed(text: Seq<char>, calc_capacity: bool, r: Result<SpriteInfo, SpriteError>)
    -> bool {
    match compile(text) {
        Ok(g) => if calc_capacity {
            r matches Ok(SpriteInfo::Calc(bpp, capacity)) && bpp == g.bpp() && capacity
                == g.capacity()
        } else {
            r matches Ok(SpriteInfo::Sprite(sprite)) && depicts(sprite, g)
        },
        Err(e) => r == Err::<SpriteInfo, SpriteError>(e),
    }
}

/// One pass over the text.
///
/// Decodes one character after the other, skips spaces and tabs, closes a
/// row at each newline and holds it to the width of the first row, pairs the
/// glyphs, gives each new glyph the next palette index and packs the indices
/// into `buffer` at depth `bpp`.
///
/// The sizing pass (`calc_capacity`) packs at two bits into whatever buffer
/// it gets, an empty one for choice, and answers with the depth and the
/// length that the pixels take. The building pass is for a text that the
/// sizing pass accepted, with the depth and a buffer of the length that it
/// found, and answers with the sprite.
fn sprite_builder_impl(bpp: BitsPerPixel, calc_capacity: bool, input: &str, buffer: Vec<u8>) -> (r:
    Result<SpriteInfo, SpriteError>)
    requires
        calc_capacity ==> bpp == BitsPerPixel::Two,
        !calc_capacity ==> (compile(input@) matches Ok(g) && bpp == g.bpp() && buffer@.len()
            == g.capacity()),
    ensures
        passed(input@, calc_capacity, r),
{
    let ghost text = input@;
    let ghost given = buffer@;
    let bytes = input.as_bytes();
    let len = bytes.len();
    proof {
        lemma_no_bytes(text);
        lemma_compile(text);
    }
    if len == 0 {
        return Err(SpriteError::MissingLeadingNewline);
    }
    proof {
        lemma_leading_newline(text);
    }
    if bytes[0] as u32 != NEW_LINE {
        return Err(SpriteError::MissingLeadingNewline);
    }
    let mut offset: usize = 1;
    let mut table = GlyphTable::new();
    let mut packer = BitPacker::new(bpp, buffer);
    let mut pending: Option<u32> = None;
    let mut width: Option<usize> = None;
    let mut current_width: usize = 0;
    let mut current_height: usize = 0;

    let ghost mut st = start();
    let ghost mut at: int = 1;
    let ghost goal = scan_from(start(), text, 1);
    proof {
        assert(text.drop_first() =~= text.subrange(1, text.len() as int));
    }

    while offset < len
        invariant
            text == input@,
            text.len() > 0 && text[0] == '\n',
            goal == scan_from(start(), text, 1),
            len == bytes@.len(),
            bytes@ == encode_utf8(text),
            1 <= offset <= len,
            1 <= at <= text.len(),
            at <= offset,
            bytes@.subrange(offset as int, len as int) == encode_utf8(
                text.subrange(at, text.len() as int),
            ),
            st.wf(),
            st.weight() <= at - 1,
            scan_from(st, text, at) == goal,
            pending == st.pending,
            current_width == st.row_width,
            current_height == st.height,
            width is Some <==> st.width is Some,
            width is Some ==> st.width == Some(width->0 as nat),
            table@ == st.glyphs,
            packer.wf(),
            packer@ == st.pixels,
            packer.depth() == bpp,
            packer.buffer() == given,
            calc_capacity ==> bpp == BitsPerPixel::Two,
            !calc_capacity ==> (goal matches Ok(last) && BitsPerPixel::for_glyphs(
                last.glyphs.len(),
            ) == bpp),
        ensures
            offset == len,
            at == text.len(),
        decreases len - offset,
    {
        let ghost rest = text.subrange(at, text.len() as int);
        proof {
            lemma_no_bytes(rest);
            lemma_first_char(rest);
            assert(rest[0] == text[at]);
            assert(rest.drop_first() =~= text.subrange(at + 1, text.len() as int));
            lemma_step(st, text[at] as u32);
        }
        let (n, cp) = decode_utf8_first(slice_subrange(bytes, offset, len));
        proof {
            assert(bytes@.subrange(offset as int, len as int).subrange(
                n as int,
                len - offset,
            ) =~= bytes@.subrange(offset + n, len as int));
        }
        offset += n;
        let ghost next = step(st, cp);
        if cp == SPACE || cp == TAB {
        } else if cp == NEW_LINE {
            if pending.is_some() {
                return Err(SpriteError::PairMismatch);
            }
            match width {
                None => {
                    width = Some(current_width);
                },
                Some(w) => {
                    if current_width != w {
                        return Err(SpriteError::UnequalRowWidths);
                    }
                },
            }
            current_height += 1;
            current_width = 0;
        } else {
            match pending {
                None => {
                    pending = Some(cp);
                },
                Some(twin) => {
                    if twin != cp {
                        return Err(SpriteError::PairMismatch);
                    }
                    let index = match table.allocate(cp) {
                        Ok(index) => index,
                        Err(e) => {
                            return Err(e);
                        },
                    };
                    current_width += 1;
                    proof {
                        lemma_allocate(st.glyphs, cp);
                        lemma_scan(next->Ok_0, text, at + 1);
                    }
                    packer.push(index);
                    pending = None;
                },
            }
        }
        proof {
            st = next->Ok_0;
            at = at + 1;
        }
    }

    proof {
        lemma_no_bytes(text.subrange(at, text.len() as int));
        assert(goal == Ok::<ScanState, SpriteError>(st));
        assert(compile(text) == finish(st));
    }
    if pending.is_some() {
        return Err(SpriteError::PairMismatch);
    }
    if current_width != 0 {
        return Err(SpriteError::UnterminatedRow);
    }
    let w = match width {
        Some(w) => w,
        None => {
            return Err(SpriteError::NoRows);
        },
    };
    proof {
        assert(w * current_height == st.pixels.len()) by (nonlinear_arith)
            requires
                st.pixels.len() == current_height * w + 0,
        ;
    }
    let total = w * current_height;
    if w > u32::MAX as usize || current_height > u32::MAX as usize || total > u32::MAX as usize {
        return Err(SpriteError::TooLarge);
    }
    let ghost g = finish(st)->Ok_0;
    proof {
        lemma_bytes_for(g.bpp(), total as nat);
    }
    if calc_capacity {
        let (depth, per_byte) = if table.len() <= 2 {
            (BitsPerPixel::One, 8usize)
        } else {
            (BitsPerPixel::Two, 4usize)
        };
        Ok(SpriteInfo::Calc(depth, (total + (per_byte - 1)) / per_byte))
    } else {
        let bytes = packer.finish();
        proof {
            lemma_overlay_exact(given, g.bytes());
            assert(sprite_fits(bytes@.len(), w as u32, current_height as u32, bpp)) by {
                assert(w as u32 * current_height as u32 == total);
                match bpp {
                    BitsPerPixel::One => {},
                    BitsPerPixel::Two => {},
                }
            }
        }
        match sprite_from_bytes(bytes, w as u32, current_height as u32, bpp) {
            Some(sprite) => Ok(SpriteInfo::Sprite(sprite)),
            None => Err(SpriteError::InconsistentCapacity),
        }
    }
}

/// The two passes agree: the building pass makes a sprite exactly where the
/// sizing pass finds a size and the buffer has the length that it found, the
/// sprite then has that many bytes and the depth that the sizing pass found,
/// and where the sizing pass turns the text down the building pass does so
/// for the same reason.
pub proof fn law_passes_agree(
    text: Seq<char>,
    size: Result<(BitsPerPixel, usize), SpriteError>,
    capacity: nat,
    sprite: Result<Sprite<Vec<u8>>, SpriteError>,
)
    requires
        sized(text, size),
        built(text, capacity, sprite),
    ensures
        sprite is Ok <==> size is Ok && capacity == size->Ok_0.1,
        sprite matches Ok(made) ==> {
            &&& sprite_bytes(made).len() == size->Ok_0.1
            &&& sprite_bits(made) == size->Ok_0.0.bits()
            &&& sprite_bytes(made).len() == size->Ok_0.0.bytes_for(
                (sprite_width(made) * sprite_height(made)) as nat,
            )
        },
        size matches Err(e) ==> sprite == Err::<Sprite<Vec<u8>>, SpriteError>(e),
{
    lemma_compile(text);
}

/// Both passes in a row make a sprite exactly where the sizing pass finds a
/// size, the sprite then has the bytes and the depth that the sizing pass
/// found, and a text that the sizing pass turns down is turned down for the
/// same reason.
pub proof fn law_drawing_agrees_with_sizing(
    text: Seq<char>,
    size: Result<(BitsPerPixel, usize), SpriteError>,
    sprite: Result<Sprite<Vec<u8>>, SpriteError>,
)
    requires
        sized(text, size),
        drawn(text, sprite),
    ensures
        sprite is Ok <==> size is Ok,
        sprite matches Ok(made) ==> {
            &&& sprite_bytes(made).len() == size->Ok_0.1
            &&& sprite_bits(made) == size->Ok_0.0.bits()
        },
        size matches Err(e) ==> sprite == Err::<Sprite<Vec<u8>>, SpriteError>(e),
{
    lemma_compile(text);
}

/// The sizing pass has one answer for each text.
pub proof fn law_sizing_is_determined(
    text: Seq<char>,
    first: Result<(BitsPerPixel, usize), SpriteError>,
    second: Result<(BitsPerPixel, usize), SpriteError>,
)
    requires
        sized(text, first),
        sized(text, second),
    ensures
        first == second,
{
}

/// The building pass has one outcome for each text and length of buffer: two
/// runs either make sprites with the same bytes, shape and depth, or turn
/// the text down for the same reason.
pub proof fn law_building_is_determined(
    text: Seq<char>,
    capacity: nat,
    first: Result<Sprite<Vec<u8>>, SpriteError>,
    second: Result<Sprite<Vec<u8>>, SpriteError>,
)
    requires
        built(text, capacity, first),
        built(text, capacity, second),
    ensures
        first is Ok <==> second is Ok,
        first is Err ==> first == second,
        first matches Ok(a) ==> {
            &&& sprite_bytes(a) == sprite_bytes(second->Ok_0)
            &&& sprite_width(a) == sprite_width(second->Ok_0)
            &&& sprite_height(a) == sprite_height(second->Ok_0)
            &&& sprite_bits(a) == sprite_bits(second->Ok_0)
        },
{
}

} // verus!
