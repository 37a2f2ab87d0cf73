//! What a sprite text means: the rows of glyph pairs that it draws.
//!
//! The text is read one character at a time. Spaces and tabs are skipped, a
//! newline closes a row, and any other character is a glyph, which counts as
//! a pixel once it has come twice in a row.

use vstd::prelude::*;
use crate::depth::BitsPerPixel;
use crate::error::SpriteError;
use crate::glyphs::{
    allocate, indices_of, is_table, lemma_allocate, lemma_slot_of, lemma_slot_of_entry,
    palette_of, slot_of,
};
use crate::pack::{fits_depth, packed};

verus! {

/// The code point that closes a row.
pub const NEW_LINE: u32 = 10;

/// A code point that is skipped.
pub const TAB: u32 = 9;

/// A code point that is skipped.
pub const SPACE: u32 = 32;

/// How far the reading of a text has come.
pub struct ScanState {
    /// The glyph that still waits for its twin.
    pub pending: Option<u32>,
    /// The pixels of the row that is being read.
    pub row_width: nat,
    /// The rows that are closed.
    pub height: nat,
    /// The width of the first row, once it is closed.
    pub width: Option<nat>,
    /// The distinct glyphs, in the order in which they first came.
    pub glyphs: Seq<u32>,
    /// The glyph of each pixel, row after row.
    pub cells: Seq<u32>,
    /// The palette index of each pixel, row after row.
    pub pixels: Seq<u8>,
}

/// The picture that a text draws.
pub struct Grid {
    /// The pixels in each row.
    pub width: nat,
    /// The number of rows.
    pub height: nat,
    /// The distinct glyphs, in the order in which they first came.
    pub glyphs: Seq<u32>,
    /// The glyph of each pixel, row after row.
    pub cells: Seq<u32>,
    /// The palette index of each pixel, row after row.
    pub pixels: Seq<u8>,
}

/// The state before the first character is read.
pub open spec fn start() -> ScanState {
    ScanState {
        pending: None,
        row_width: 0,
        height: 0,
        width: None,
        glyphs: Seq::empty(),
        cells: Seq::empty(),
        pixels: Seq::empty(),
    }
}

/// A newline closes the row. The first row sets the width, and every later
/// row must have it. A glyph that still waits for its twin has none.
pub open spec fn on_newline(s: ScanState) -> Result<ScanState, SpriteError> {
    if s.pending is Some {
        Err(SpriteError::PairMismatch)
    } else if s.width is Some && s.width->0 != s.row_width {
        Err(SpriteError::UnequalRowWidths)
    } else {
        Ok(ScanState { row_width: 0, height: s.height + 1, width: Some(s.row_width), ..s })
    }
}

/// A glyph either waits for its twin or is the twin: then the pair is one
/// more pixel of the row, with the palette index of its glyph.
pub open spec fn on_glyph(s: ScanState, glyph: u32) -> Result<ScanState, SpriteError> {
    if s.pending is None {
        Ok(ScanState { pending: Some(glyph), ..s })
    } else if s.pending->0 != glyph {
        Err(SpriteError::PairMismatch)
    } else {
        match allocate(s.glyphs, glyph) {
            Ok((glyphs, index)) => Ok(
                ScanState {
                    pending: None,
                    row_width: s.row_width + 1,
                    glyphs,
                    cells: s.cells.push(glyph),
                    pixels: s.pixels.push(index),
                    ..s
                },
            ),
            Err(e) => Err(e),
        }
    }
}

/// What one character does to the state.
pub open spec fn step(s: ScanState, c: u32) -> Result<ScanState, SpriteError> {
    if c == SPACE || c == TAB {
        Ok(s)
    } else if c == NEW_LINE {
        on_newline(s)
    } else {
        on_glyph(s, c)
    }
}

/// The state after the characters of `text` from position `from` on, or the
/// first error on the way.
pub open spec fn scan_from(s: ScanState, text: Seq<char>, from: int) -> Result<
    ScanState,
    SpriteError,
>
    decreases text.len() - from,
{
    if from < 0 || from >= text.len() {
        Ok(s)
    } else {
        match step(s, text[from] as u32) {
            Ok(next) => scan_from(next, text, from + 1),
            Err(e) => Err(e),
        }
    }
}

/// What the end of the text makes of the state: the text must not end within
/// a pair or a row, must hold a row, and its picture must fit in 32 bits.
pub open spec fn finish(s: ScanState) -> Result<Grid, SpriteError> {
    if s.pending is Some {
        Err(SpriteError::PairMismatch)
    } else if s.row_width != 0 {
        Err(SpriteError::UnterminatedRow)
    } else if s.width is None {
        Err(SpriteError::NoRows)
    } else if s.width->0 > u32::MAX || s.height > u32::MAX || s.pixels.len() > u32::MAX {
        Err(SpriteError::TooLarge)
    } else {
        Ok(
            Grid {
                width: s.width->0,
                height: s.height,
                glyphs: s.glyphs,
                cells: s.cells,
                pixels: s.pixels,
            },
        )
    }
}

/// The picture that `text` draws, or the first reason why it draws none.
///
/// The text begins with a newline, which is dropped; the rest is read
/// character by character.
pub open spec fn compile(text: Seq<char>) -> Result<Grid, SpriteError> {
    if text.len() == 0 || text[0] != '\n' {
        Err(SpriteError::MissingLeadingNewline)
    } else {
        match scan_from(start(), text, 1) {
            Ok(s) => finish(s),
            Err(e) => Err(e),
        }
    }
}

impl Grid {
    /// The depth that the picture needs: one bit for up to two glyphs, two
    /// bits for three or four.
    pub open spec fn bpp(self) -> BitsPerPixel {
        BitsPerPixel::for_glyphs(self.glyphs.len())
    }

    /// The length of the packed picture in bytes: the bits of its pixels,
    /// rounded up to whole bytes.
    pub open spec fn capacity(self) -> nat {
        self.bpp().bytes_for(self.pixels.len())
    }

    /// The packed picture.
    pub open spec fn bytes(self) -> Seq<u8> {
        packed(self.pixels, self.bpp())
    }
}

/// Pixel `k` is the first one with palette index `index`, and every pixel
/// before it has a smaller index.
pub open spec fn introduced_at(pixels: Seq<u8>, index: int, k: int) -> bool {
    &&& 0 <= k < pixels.len()
    &&& pixels[k] == index
    &&& forall|j: int| 0 <= j < k ==> (#[trigger] pixels[j]) < index
}

/// Some pixel has palette index `index`, and the first such pixel comes
/// after pixels with smaller indices only.
pub open spec fn introduced(pixels: Seq<u8>, index: int) -> bool {
    exists|k: int| introduced_at(pixels, index, k)
}

/// The glyphs, the cells and the pixels go together: the glyphs are the
/// table that the cells fill, at most four of them, each pixel is the index
/// of the glyph of its cell, and the indices were given out in the order in
/// which the glyphs first came.
pub open spec fn indexed(glyphs: Seq<u32>, cells: Seq<u32>, pixels: Seq<u8>) -> bool {
    &&& is_table(glyphs)
    &&& glyphs == palette_of(cells)
    &&& pixels == indices_of(cells)
    &&& pixels.len() == cells.len()
    &&& forall|k: int|
        0 <= k < pixels.len() ==> (#[trigger] pixels[k]) < glyphs.len() && glyphs[pixels[k] as int]
            == cells[k]
    &&& forall|i: int| 0 <= i < glyphs.len() ==> #[trigger] introduced(pixels, i)
}

impl ScanState {
    /// What holds of every state on the way through a text.
    pub open spec fn wf(self) -> bool {
        &&& indexed(self.glyphs, self.cells, self.pixels)
        &&& self.row_width <= self.cells.len()
        &&& match self.width {
            None => self.height == 0 && self.cells.len() == self.row_width,
            Some(w) => self.cells.len() == self.height * w + self.row_width,
        }
    }

    /// The characters that the state has taken at least: two for each pixel,
    /// one for a waiting glyph and one for each row.
    pub open spec fn weight(self) -> nat {
        2 * self.cells.len() + self.height + if self.pending is Some {
            1nat
        } else {
            0nat
        }
    }
}

impl Grid {
    /// What holds of every picture that a text draws.
    pub open spec fn wf(self) -> bool {
        &&& indexed(self.glyphs, self.cells, self.pixels)
        &&& self.pixels.len() == self.width * self.height
        &&& self.width <= u32::MAX
        &&& self.height <= u32::MAX
        &&& self.pixels.len() <= u32::MAX
        &&& fits_depth(self.pixels, self.bpp())
    }
}

/// One character keeps a state well-formed, lets the glyph table grow at its
/// end only, and adds at most one to the weight.
pub proof fn lemma_step(s: ScanState, c: u32)
    requires
        s.wf(),
    ensures
        step(s, c) matches Ok(t) ==> {
            &&& t.wf()
            &&& s.glyphs.len() <= t.glyphs.len()
            &&& t.weight() <= s.weight() + 1
        },
{
    if c == SPACE || c == TAB {
    } else if c == NEW_LINE {
        if let Ok(t) = on_newline(s) {
            assert(s.cells.len() == s.height * s.row_width + s.row_width) by (nonlinear_arith)
                requires
                    s.height == 0 && s.cells.len() == s.row_width || s.cells.len() == s.height
                        * s.row_width + s.row_width,
            ;
            assert(t.cells.len() == t.height * s.row_width + 0) by (nonlinear_arith)
                requires
                    t.height == s.height + 1,
                    t.cells.len() == s.height * s.row_width + s.row_width,
            ;
        }
    } else if s.pending is Some && s.pending->0 == c {
        lemma_allocate(s.glyphs, c);
        lemma_slot_of(s.glyphs, c);
        if let Ok((glyphs, index)) = allocate(s.glyphs, c) {
            let t = on_glyph(s, c)->Ok_0;
            let at = s.pixels.len() as int;
            assert(t.pixels[at] == index);
            assert(t.cells.drop_last() =~= s.cells);
            assert(t.glyphs == palette_of(t.cells));
            assert(t.pixels =~= indices_of(t.cells));
            assert forall|k: int| 0 <= k < t.pixels.len() implies (#[trigger] t.pixels[k])
                < glyphs.len() && glyphs[t.pixels[k] as int] == t.cells[k] by {
                if k < at {
                    assert(t.pixels[k] == s.pixels[k]);
                    assert(glyphs.take(s.glyphs.len() as int)[s.pixels[k] as int]
                        == glyphs[s.pixels[k] as int]);
                }
            }
            assert forall|i: int| 0 <= i < glyphs.len() implies #[trigger] introduced(
                t.pixels,
                i,
            ) by {
                if i < s.glyphs.len() {
                    assert(introduced(s.pixels, i));
                    let k = choose|k: int| introduced_at(s.pixels, i, k);
                    assert forall|j: int| 0 <= j < k implies (#[trigger] t.pixels[j]) < i by {
                        assert(t.pixels[j] == s.pixels[j]);
                    }
                    assert(introduced_at(t.pixels, i, k));
                } else {
                    assert forall|j: int| 0 <= j < at implies (#[trigger] t.pixels[j]) < i by {
                        assert(t.pixels[j] == s.pixels[j]);
                    }
                    assert(introduced_at(t.pixels, i, at));
                }
            }
            if s.width is Some {
                assert(t.cells.len() == t.height * s.width->0 + t.row_width);
            }
        }
    }
}

/// Reading on keeps a state well-formed, lets the glyph table grow only, and
/// takes at least as many characters as the weight grows.
pub proof fn lemma_scan(s: ScanState, text: Seq<char>, from: int)
    requires
        s.wf(),
        0 <= from <= text.len(),
    ensures
        scan_from(s, text, from) matches Ok(t) ==> {
            &&& t.wf()
            &&& s.glyphs.len() <= t.glyphs.len()
            &&& t.weight() <= s.weight() + (text.len() - from)
        },
    decreases text.len() - from,
{
    if from < text.len() {
        lemma_step(s, text[from] as u32);
        if let Ok(next) = step(s, text[from] as u32) {
            lemma_scan(next, text, from + 1);
        }
    }
}

/// A picture that a text draws is well-formed, and the text has at least two
/// characters for each of its pixels.
pub proof fn lemma_compile(text: Seq<char>)
    ensures
        compile(text) matches Ok(g) ==> g.wf() && 2 * g.pixels.len() + g.height < text.len(),
{
    if let Ok(g) = compile(text) {
        assert(start().wf());
        lemma_scan(start(), text, 1);
        assert(g.pixels.len() == g.width * g.height) by (nonlinear_arith)
            requires
                g.pixels.len() == g.height * g.width + 0,
        ;
        assert(fits_depth(g.pixels, g.bpp())) by {
            assert forall|i: int| 0 <= i < g.pixels.len() implies (#[trigger] g.pixels[i])
                < g.bpp().radix() by {
                assert(g.pixels[i] < g.glyphs.len());
            }
        }
    }
}

/// Palette indices follow the glyphs: in the picture that a text draws, the
/// glyph table and the indices are what the glyphs of the cells give when
/// each is asked for in turn, whatever else the text holds. The table has at
/// most four glyphs and none twice, each pixel has the index at which the
/// table holds the glyph of its cell, two pixels have the same index exactly
/// if their cells hold the same glyph, and the indices were given out in the
/// order in which the glyphs first came.
pub proof fn law_palette_indices(text: Seq<char>)
    ensures
        compile(text) matches Ok(g) ==> {
            &&& g.glyphs == palette_of(g.cells)
            &&& g.pixels == indices_of(g.cells)
            &&& indexed(g.glyphs, g.cells, g.pixels)
            &&& forall|k: int|
                0 <= k < g.cells.len() ==> (#[trigger] g.pixels[k]) == slot_of(g.glyphs, g.cells[k])
            &&& forall|a: int, b: int|
                0 <= a < g.cells.len() && 0 <= b < g.cells.len() ==> (g.cells[a] == g.cells[b]
                    <==> #[trigger] g.pixels[a] == #[trigger] g.pixels[b])
        },
{
    lemma_compile(text);
    if let Ok(g) = compile(text) {
        assert forall|k: int| 0 <= k < g.cells.len() implies (#[trigger] g.pixels[k]) == slot_of(
            g.glyphs,
            g.cells[k],
        ) by {
            lemma_slot_of_entry(g.glyphs, g.pixels[k] as int);
        }
    }
}

/// The pixels of a picture are its rows: width times height of them, and
/// each dimension fits in 32 bits.
pub proof fn law_pixel_count(text: Seq<char>)
    ensures
        compile(text) matches Ok(g) ==> {
            &&& g.pixels.len() == g.width * g.height
            &&& g.cells.len() == g.width * g.height
            &&& g.width <= u32::MAX
            &&& g.height <= u32::MAX
            &&& g.width * g.height <= u32::MAX
        },
{
    lemma_compile(text);
}

/// Two texts that agree from some position on are read alike from there.
proof fn lemma_scan_shifted(s: ScanState, a: Seq<char>, i: int, b: Seq<char>, j: int)
    requires
        0 <= i <= a.len(),
        0 <= j <= b.len(),
        a.skip(i) == b.skip(j),
    ensures
        scan_from(s, a, i) == scan_from(s, b, j),
    decreases a.len() - i,
{
    assert(a.skip(i).len() == a.len() - i);
    assert(b.skip(j).len() == b.len() - j);
    if i < a.len() {
        assert(a[i] == a.skip(i)[0]);
        assert(b[j] == b.skip(j)[0]);
        if let Ok(next) = step(s, a[i] as u32) {
            assert(a.skip(i + 1) =~= a.skip(i).skip(1));
            assert(b.skip(j + 1) =~= b.skip(j).skip(1));
            lemma_scan_shifted(next, a, i + 1, b, j + 1);
        }
    }
}

/// A blank that is put in at `at` changes nothing for the reading that
/// starts at or before it.
proof fn lemma_scan_blank(s: ScanState, text: Seq<char>, from: int, at: int, blank: char)
    requires
        0 <= from <= at <= text.len(),
        blank == ' ' || blank == '\t',
    ensures
        scan_from(s, text.insert(at, blank), from) == scan_from(s, text, from),
    decreases at - from,
{
    let wider = text.insert(at, blank);
    if from < at {
        assert(wider[from] == text[from]);
        if let Ok(next) = step(s, text[from] as u32) {
            lemma_scan_blank(next, text, from + 1, at, blank);
        }
    } else {
        assert(wider[at] == blank);
        assert(step(s, blank as u32) == Ok::<ScanState, SpriteError>(s));
        assert(wider.skip(at + 1) =~= text.skip(at));
        lemma_scan_shifted(s, wider, at + 1, text, at);
    }
}

/// Blanks do not matter: a space or a tab put in anywhere after the leading
/// newline, also within a pair, leaves the outcome as it is.
pub proof fn law_blank_insertion(text: Seq<char>, at: int, blank: char)
    requires
        1 <= at <= text.len(),
        blank == ' ' || blank == '\t',
    ensures
        compile(text.insert(at, blank)) == compile(text),
{
    let wider = text.insert(at, blank);
    assert(wider[0] == text[0]);
    lemma_scan_blank(start(), text, 1, at, blank);
}

} // verus!
