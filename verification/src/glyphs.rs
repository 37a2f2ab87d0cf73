//! Palette indices for glyphs, handed out in the order in which the glyphs
//! first appear.

use vstd::prelude::*;
use crate::error::SpriteError;

verus! {

/// The most glyphs that one sprite can tell apart.
pub const MAX_GLYPHS: usize = 4;

/// The first position at or after `from` at which `table` holds `glyph`, or
/// the length of `table` where there is none.
pub open spec fn slot_from(table: Seq<u32>, glyph: u32, from: int) -> int
    decreases table.len() - from,
{
    if from < 0 || from >= table.len() {
        table.len() as int
    } else if table[from] == glyph {
        from
    } else {
        slot_from(table, glyph, from + 1)
    }
}

/// The palette index of `glyph` in `table`: its position, or the length of
/// `table` where it has none yet.
pub open spec fn slot_of(table: Seq<u32>, glyph: u32) -> int {
    slot_from(table, glyph, 0)
}

/// What asking for the index of `glyph` does to `table`: a glyph that is
/// present keeps its index and leaves the table alone; a new one goes to the
/// end and gets the old length, unless the table is full.
pub open spec fn allocate(table: Seq<u32>, glyph: u32) -> Result<(Seq<u32>, u8), SpriteError> {
    let slot = slot_of(table, glyph);
    if slot < table.len() {
        Ok((table, slot as u8))
    } else if table.len() >= MAX_GLYPHS {
        Err(SpriteError::TooManyGlyphs)
    } else {
        Ok((table.push(glyph), slot as u8))
    }
}

/// A table as the allocator keeps it: at most four glyphs, none twice.
pub open spec fn is_table(table: Seq<u32>) -> bool {
    table.len() <= MAX_GLYPHS && table.no_duplicates()
}

/// `slot_from` finds the first match from `from` on, and says so when there
/// is none.
pub proof fn lemma_slot_from(table: Seq<u32>, glyph: u32, from: int)
    requires
        0 <= from <= table.len(),
    ensures
        from <= slot_from(table, glyph, from) <= table.len(),
        slot_from(table, glyph, from) < table.len() ==> table[slot_from(table, glyph, from)]
            == glyph,
        forall|j: int| from <= j < slot_from(table, glyph, from) ==> table[j] != glyph,
    decreases table.len() - from,
{
    if from < table.len() && table[from] != glyph {
        lemma_slot_from(table, glyph, from + 1);
    }
}

/// The index of a glyph is where the table holds it, and the length of the
/// table exactly when the table does not hold it.
pub proof fn lemma_slot_of(table: Seq<u32>, glyph: u32)
    ensures
        0 <= slot_of(table, glyph) <= table.len(),
        slot_of(table, glyph) < table.len() <==> table.contains(glyph),
        slot_of(table, glyph) < table.len() ==> table[slot_of(table, glyph)] == glyph,
        forall|j: int| 0 <= j < slot_of(table, glyph) ==> table[j] != glyph,
{
    lemma_slot_from(table, glyph, 0);
}

/// In a table without duplicates, the index of the glyph at a position is
/// that position.
pub proof fn lemma_slot_of_entry(table: Seq<u32>, i: int)
    requires
        table.no_duplicates(),
        0 <= i < table.len(),
    ensures
        slot_of(table, table[i]) == i,
{
    lemma_slot_of(table, table[i]);
}

/// Allocation keeps a table a table, keeps every glyph where it was, and
/// answers with the place at which the table then holds the glyph.
pub proof fn lemma_allocate(table: Seq<u32>, glyph: u32)
    requires
        is_table(table),
    ensures
        match allocate(table, glyph) {
            Ok((grown, index)) => {
                &&& is_table(grown)
                &&& index < grown.len()
                &&& grown[index as int] == glyph
                &&& slot_of(grown, glyph) == index
                &&& table.len() <= grown.len() <= table.len() + 1
                &&& grown.take(table.len() as int) == table
            },
            Err(e) => e == SpriteError::TooManyGlyphs && table.len() == MAX_GLYPHS
                && !table.contains(glyph),
        },
{
    lemma_slot_of(table, glyph);
    if slot_of(table, glyph) >= table.len() && table.len() < MAX_GLYPHS {
        let grown = table.push(glyph);
        assert(grown.take(table.len() as int) =~= table);
        assert(grown[table.len() as int] == glyph);
        lemma_slot_of(grown, glyph);
        assert(slot_of(grown, glyph) == table.len()) by {
            if slot_of(grown, glyph) < table.len() {
                assert(table[slot_of(grown, glyph)] == glyph);
            }
        }
    } else if slot_of(table, glyph) < table.len() {
        assert(table.take(table.len() as int) =~= table);
    }
}

/// An index, once given, stays: whatever glyph is asked for next, a glyph of
/// the table has the same index afterwards, and asking for the same glyph
/// again changes nothing and gives the same answer.
pub proof fn law_indices_are_kept(table: Seq<u32>, glyph: u32, other: u32)
    requires
        is_table(table),
    ensures
        allocate(table, glyph) matches Ok((grown, index)) ==> {
            &&& allocate(grown, glyph) == Ok::<(Seq<u32>, u8), SpriteError>((grown, index))
            &&& table.contains(other) ==> slot_of(grown, other) == slot_of(table, other)
        },
{
    lemma_allocate(table, glyph);
    if let Ok((grown, index)) = allocate(table, glyph) {
        lemma_slot_of(table, other);
        if table.contains(other) {
            let at = slot_of(table, other);
            assert(grown.take(table.len() as int)[at] == grown[at]);
            lemma_slot_of_entry(grown, at);
        }
    }
}

/// The table that a run of glyphs fills when each is asked for in turn,
/// however many they are: the distinct glyphs, in the order in which they
/// first come.
pub open spec fn palette_of(cells: Seq<u32>) -> Seq<u32>
    decreases cells.len(),
{
    if cells.len() == 0 {
        Seq::empty()
    } else {
        let before = palette_of(cells.drop_last());
        if slot_of(before, cells.last()) < before.len() {
            before
        } else {
            before.push(cells.last())
        }
    }
}

/// The palette index that each glyph of a run gets when each is asked for in
/// turn.
pub open spec fn indices_of(cells: Seq<u32>) -> Seq<u8>
    decreases cells.len(),
{
    if cells.len() == 0 {
        Seq::empty()
    } else {
        indices_of(cells.drop_last()).push(slot_of(palette_of(cells), cells.last()) as u8)
    }
}

/// The table of a run holds no glyph twice, and the table of a longer run is
/// at least as long.
pub proof fn lemma_palette_of(cells: Seq<u32>, n: int)
    requires
        0 <= n <= cells.len(),
    ensures
        palette_of(cells).no_duplicates(),
        palette_of(cells.take(n)).len() <= palette_of(cells).len(),
        indices_of(cells).len() == cells.len(),
    decreases cells.len(),
{
    if cells.len() > 0 {
        let before = cells.drop_last();
        lemma_slot_of(palette_of(before), cells.last());
        if n < cells.len() {
            lemma_palette_of(before, n);
            assert(before.take(n) =~= cells.take(n));
        } else {
            lemma_palette_of(before, n - 1);
            assert(cells.take(n) =~= cells);
        }
    } else {
        assert(cells.take(n) =~= cells);
    }
}

/// The glyphs of one sprite, each with the palette index that it was given.
pub struct GlyphTable {
    glyphs: [u32; 4],
    len: usize,
}

impl View for GlyphTable {
    type V = Seq<u32>;

    /// The glyphs in the order of their indices.
    closed spec fn view(&self) -> Seq<u32> {
        self.glyphs@.take(self.len as int)
    }
}

impl GlyphTable {
    #[verifier::type_invariant]
    spec fn well_formed(&self) -> bool {
        self.len <= MAX_GLYPHS && self@.no_duplicates()
    }

    /// An empty table.
    pub fn new() -> (r: GlyphTable)
        ensures
            r@ == Seq::<u32>::empty(),
    {
        GlyphTable { glyphs: [0u32; 4], len: 0 }
    }

    /// The number of glyphs in the table.
    pub fn len(&self) -> (r: usize)
        ensures
            r == self@.len(),
            is_table(self@),
    {
        proof {
            use_type_invariant(self);
        }
        self.len
    }

    /// The palette index of `glyph`: the one it has, or the next free one if
    /// it is new. A fifth glyph is turned down, and the table stays as it is.
    pub fn allocate(&mut self, glyph: u32) -> (r: Result<u8, SpriteError>)
        ensures
            is_table(old(self)@),
            match allocate(old(self)@, glyph) {
                Ok((grown, index)) => r == Ok::<u8, SpriteError>(index) && final(self)@ == grown,
                Err(e) => r == Err::<u8, SpriteError>(e) && final(self)@ == old(self)@,
            },
    {
        proof {
            use_type_invariant(&*self);
        }
        let mut i: usize = 0;
        while i < self.len
            invariant
                i <= self.len <= MAX_GLYPHS,
                self.len == self@.len(),
                *self == *old(self),
                is_table(self@),
                forall|j: int| 0 <= j < i ==> self@[j] != glyph,
            decreases self.len - i,
        {
            if self.glyphs[i] == glyph {
                proof {
                    assert(self@[i as int] == glyph);
                    lemma_slot_of(self@, glyph);
                }
                return Ok(i as u8);
            }
            i += 1;
        }
        proof {
            lemma_slot_of(self@, glyph);
        }
        if i >= MAX_GLYPHS {
            return Err(SpriteError::TooManyGlyphs);
        }
        let mut glyphs = self.glyphs;
        glyphs[i] = glyph;
        proof {
            lemma_allocate(self@, glyph);
            assert(glyphs@.take(i + 1) =~= self@.push(glyph));
        }
        *self = GlyphTable { glyphs, len: i + 1 };
        Ok(i as u8)
    }
}

} // verus!
