//! Why a sprite text is turned down.

use vstd::prelude::*;

verus! {

/// The reasons for which a sprite text yields no sprite.
///
/// Each one ends the work on that sprite: there is no partial result.
#[derive(Clone, Copy, Debug, PartialEq, Eq, Structural)]
pub enum SpriteError {
    /// The text is empty or does not begin with a newline.
    MissingLeadingNewline,
    /// A row holds another number of pixels than the first row.
    UnequalRowWidths,
    /// A glyph is not followed by the same glyph again before its row or the
    /// text ends.
    PairMismatch,
    /// A fifth distinct glyph turns up.
    TooManyGlyphs,
    /// The text ends within a row: the last row has no newline.
    UnterminatedRow,
    /// The text holds no row at all.
    NoRows,
    /// The width, the height or the number of pixels does not fit in 32 bits.
    TooLarge,
    /// The buffer handed to the building pass has another length than the
    /// sizing pass asks for.
    InconsistentCapacity,
}

impl SpriteError {
    /// The diagnostic that goes with each reason.
    pub open spec fn text(self) -> Seq<char> {
        match self {
            SpriteError::MissingLeadingNewline => "missing leading newline"@,
            SpriteError::UnequalRowWidths => "rows must have equal width"@,
            SpriteError::PairMismatch => "pattern pairs not matching"@,
            SpriteError::TooManyGlyphs => "too many distinct glyphs"@,
            SpriteError::UnterminatedRow => "last row not terminated"@,
            SpriteError::NoRows => "no rows found"@,
            SpriteError::TooLarge => "sprite too large"@,
            SpriteError::InconsistentCapacity => "inconsistent capacity"@,
        }
    }

    /// The diagnostic as a string.
    pub fn message(&self) -> (r: &'static str)
        ensures
            r@ == self.text(),
    {
        match self {
            SpriteError::MissingLeadingNewline => "missing leading newline",
            SpriteError::UnequalRowWidths => "rows must have equal width",
            SpriteError::PairMismatch => "pattern pairs not matching",
            SpriteError::TooManyGlyphs => "too many distinct glyphs",
            SpriteError::UnterminatedRow => "last row not terminated",
            SpriteError::NoRows => "no rows found",
            SpriteError::TooLarge => "sprite too large",
            SpriteError::InconsistentCapacity => "inconsistent capacity",
        }
    }
}

} // verus!
