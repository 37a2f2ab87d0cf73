//! Pictures written out as sprite text, and that reading gives them back.

use vstd::prelude::*;
use crate::error::SpriteError;
use crate::glyphs::{
    allocate, indices_of, lemma_allocate, lemma_palette_of, lemma_slot_of, palette_of, MAX_GLYPHS,
};
use crate::grid::{
    compile, on_glyph, on_newline, scan_from, start, step, Grid, ScanState, NEW_LINE, SPACE, TAB,
};

verus! {

/// A glyph is any character but the space, the tab and the newline.
pub open spec fn is_glyph(c: char) -> bool {
    c as u32 != SPACE && c as u32 != TAB && c as u32 != NEW_LINE
}

/// The code points of a run of characters.
pub open spec fn codes(cells: Seq<char>) -> Seq<u32> {
    Seq::new(cells.len(), |i: int| cells[i] as u32)
}

/// The text that draws the first `rows` rows of a picture of the given
/// width and `extra` cells of the next row: a newline to begin with, each
/// cell as its glyph written twice, and a newline after each row.
pub open spec fn written_upto(cells: Seq<char>, width: nat, rows: nat, extra: nat) -> Seq<char>
    decreases rows, extra,
{
    if extra > 0 {
        let glyph = cells[rows * width + extra - 1];
        written_upto(cells, width, rows, (extra - 1) as nat).push(glyph).push(glyph)
    } else if rows > 0 {
        written_upto(cells, width, (rows - 1) as nat, width).push('\n')
    } else {
        seq!['\n']
    }
}

/// The text that draws a picture of `height` rows of `width` cells each.
pub open spec fn written(cells: Seq<char>, width: nat, height: nat) -> Seq<char> {
    written_upto(cells, width, height, 0)
}

/// The state in which the reading of `written_upto` ends.
pub open spec fn read_upto(cells: Seq<char>, width: nat, rows: nat, extra: nat) -> ScanState {
    let seen = codes(cells).take((rows * width + extra) as int);
    ScanState {
        pending: None,
        row_width: extra,
        height: rows,
        width: if rows == 0 {
            None
        } else {
            Some(width)
        },
        glyphs: palette_of(seen),
        cells: seen,
        pixels: indices_of(seen),
    }
}

/// Reading a text with one more character at its end is reading the text
/// and then that character.
pub proof fn lemma_scan_push(s: ScanState, text: Seq<char>, last: char, from: int)
    requires
        0 <= from <= text.len(),
    ensures
        scan_from(s, text.push(last), from) == match scan_from(s, text, from) {
            Ok(t) => step(t, last as u32),
            Err(e) => Err(e),
        },
    decreases text.len() - from,
{
    let longer = text.push(last);
    if from < text.len() {
        assert(longer[from] == text[from]);
        if let Ok(next) = step(s, text[from] as u32) {
            lemma_scan_push(next, text, last, from + 1);
        }
    } else {
        assert(longer[from] == last);
        if let Ok(next) = step(s, last as u32) {
            assert(scan_from(next, longer, from + 1) == Ok::<ScanState, SpriteError>(next));
        }
    }
}

/// A written text begins with a newline.
proof fn lemma_written_head(cells: Seq<char>, width: nat, rows: nat, extra: nat)
    ensures
        written_upto(cells, width, rows, extra).len() >= 1,
        written_upto(cells, width, rows, extra)[0] == '\n',
    decreases rows, extra,
{
    if extra > 0 {
        lemma_written_head(cells, width, rows, (extra - 1) as nat);
    } else if rows > 0 {
        lemma_written_head(cells, width, (rows - 1) as nat, width);
    }
}

/// Reading a written text, as far as it is written, ends in the state that
/// has seen its cells.
proof fn lemma_read_upto(cells: Seq<char>, width: nat, rows: nat, extra: nat)
    requires
        extra <= width,
        rows * width + extra <= cells.len(),
        forall|i: int| 0 <= i < cells.len() ==> is_glyph(#[trigger] cells[i]),
        palette_of(codes(cells)).len() <= MAX_GLYPHS,
    ensures
        scan_from(start(), written_upto(cells, width, rows, extra), 1) == Ok::<
            ScanState,
            SpriteError,
        >(read_upto(cells, width, rows, extra)),
    decreases rows, extra,
{
    if extra > 0 {
        let n = (rows * width + extra) as int;
        let glyph = cells[n - 1];
        let shorter = written_upto(cells, width, rows, (extra - 1) as nat);
        let before = read_upto(cells, width, rows, (extra - 1) as nat);
        let waiting = ScanState { pending: Some(glyph as u32), ..before };
        lemma_read_upto(cells, width, rows, (extra - 1) as nat);
        lemma_written_head(cells, width, rows, (extra - 1) as nat);
        lemma_scan_push(start(), shorter, glyph, 1);
        lemma_scan_push(start(), shorter.push(glyph), glyph, 1);
        assert(is_glyph(glyph));
        assert(step(before, glyph as u32) == Ok::<ScanState, SpriteError>(waiting));

        let seen = codes(cells).take(n);
        let after = read_upto(cells, width, rows, extra);
        assert(seen.drop_last() =~= codes(cells).take(n - 1));
        assert(seen.last() == glyph as u32);
        lemma_palette_of(codes(cells), n);
        lemma_palette_of(codes(cells), n - 1);
        lemma_palette_of(before.cells, 0);
        lemma_slot_of(before.glyphs, glyph as u32);
        lemma_allocate(before.glyphs, glyph as u32);
        assert(allocate(before.glyphs, glyph as u32) is Ok);
        let paired = on_glyph(waiting, glyph as u32)->Ok_0;
        assert(paired.glyphs == after.glyphs);
        assert(paired.cells =~= after.cells);
        assert(paired.pixels =~= after.pixels);
        assert(step(waiting, glyph as u32) == Ok::<ScanState, SpriteError>(after));
        assert(scan_from(start(), shorter.push(glyph), 1) == Ok::<ScanState, SpriteError>(waiting));
    } else if rows > 0 {
        let shorter = written_upto(cells, width, (rows - 1) as nat, width);
        let before = read_upto(cells, width, (rows - 1) as nat, width);
        assert((rows - 1) * width + width == rows * width) by (nonlinear_arith);
        lemma_read_upto(cells, width, (rows - 1) as nat, width);
        lemma_written_head(cells, width, (rows - 1) as nat, width);
        lemma_scan_push(start(), shorter, '\n', 1);
        assert(step(before, '\n' as u32) == on_newline(before));
        assert(on_newline(before) == Ok::<ScanState, SpriteError>(read_upto(cells, width, rows, 0)));
    } else {
        assert(codes(cells).take(0) =~= Seq::<u32>::empty());
        assert(read_upto(cells, width, 0, 0) == start());
    }
}

/// What is written is read: the text of a picture with at least one row, of
/// glyphs only, at most four of them distinct, and of a size that fits in 32
/// bits, draws that picture, with the palette indices in the order in which
/// its glyphs first come.
pub proof fn law_written_is_read(cells: Seq<char>, width: nat, height: nat)
    requires
        height >= 1,
        cells.len() == width * height,
        forall|i: int| 0 <= i < cells.len() ==> is_glyph(#[trigger] cells[i]),
        palette_of(codes(cells)).len() <= MAX_GLYPHS,
        width <= u32::MAX,
        height <= u32::MAX,
        cells.len() <= u32::MAX,
    ensures
        compile(written(cells, width, height)) == Ok::<Grid, SpriteError>(
            Grid {
                width,
                height,
                glyphs: palette_of(codes(cells)),
                cells: codes(cells),
                pixels: indices_of(codes(cells)),
            },
        ),
{
    assert(height * width + 0 == cells.len()) by (nonlinear_arith)
        requires
            cells.len() == width * height,
    ;
    lemma_read_upto(cells, width, height, 0);
    lemma_written_head(cells, width, height, 0);
    lemma_palette_of(codes(cells), 0);
    assert(codes(cells).take(cells.len() as int) =~= codes(cells));
}

} // verus!
