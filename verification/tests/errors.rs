use wasm4::error::SpriteError;
use wasm4::inline_sprite::{sprite_builder, sprite_calc};

fn both(text: &str) -> SpriteError {
    let sized = sprite_calc(text).err().unwrap();
    let built = sprite_builder(text, vec![0u8; 4]).err().unwrap();
    assert_eq!(sized, built);
    sized
}

#[test]
fn empty_text_has_no_leading_newline() {
    assert_eq!(both(""), SpriteError::MissingLeadingNewline);
}

#[test]
fn text_must_begin_with_a_newline() {
    assert_eq!(both("0011\n"), SpriteError::MissingLeadingNewline);
    assert_eq!(both(" \n0011\n"), SpriteError::MissingLeadingNewline);
    assert_eq!(both("▒\n0011\n"), SpriteError::MissingLeadingNewline);
}

#[test]
fn text_without_rows() {
    assert_eq!(both("\n"), SpriteError::NoRows);
    assert_eq!(both("\n \t "), SpriteError::NoRows);
}

#[test]
fn last_row_needs_its_newline() {
    assert_eq!(both("\n0011"), SpriteError::UnterminatedRow);
    assert_eq!(both("\n0011\n2233"), SpriteError::UnterminatedRow);
    assert_eq!(both("\n0011\n2233  "), SpriteError::UnterminatedRow);
}

#[test]
fn glyph_without_twin() {
    assert_eq!(both("\n01\n"), SpriteError::PairMismatch);
    assert_eq!(both("\n0\n"), SpriteError::PairMismatch);
    assert_eq!(both("\n000\n"), SpriteError::PairMismatch);
    assert_eq!(both("\n0\n0\n"), SpriteError::PairMismatch);
    assert_eq!(both("\n00\n1"), SpriteError::PairMismatch);
    assert_eq!(both("\n0"), SpriteError::PairMismatch);
    assert_eq!(both("\n0011\n2232\n"), SpriteError::PairMismatch);
}

#[test]
fn rows_of_unequal_width() {
    assert_eq!(both("\n00\n0011\n"), SpriteError::UnequalRowWidths);
    assert_eq!(both("\n0011\n00\n"), SpriteError::UnequalRowWidths);
    assert_eq!(both("\n0011\n\n"), SpriteError::UnequalRowWidths);
    assert_eq!(both("\n\n00\n"), SpriteError::UnequalRowWidths);
}

#[test]
fn more_than_four_glyphs() {
    assert_eq!(both("\n0011223344\n"), SpriteError::TooManyGlyphs);
    assert_eq!(both("\n0011\n2233\n4455\n"), SpriteError::TooManyGlyphs);
}

#[test]
fn four_glyphs_are_enough() {
    assert!(sprite_calc("\n00112233\n33221100\n").is_ok());
}

#[test]
fn first_error_in_reading_order_wins() {
    assert_eq!(both("\n00\n0011\n01\n"), SpriteError::UnequalRowWidths);
    assert_eq!(both("\n01\n0011\n"), SpriteError::PairMismatch);
    assert_eq!(both("\n0011223344\n0\n"), SpriteError::TooManyGlyphs);
    assert_eq!(both("0011223344"), SpriteError::MissingLeadingNewline);
}

#[test]
fn buffer_of_wrong_length() {
    let text = "\n0011\n2233\n";
    assert_eq!(sprite_builder(text, Vec::new()).err(), Some(SpriteError::InconsistentCapacity));
    assert_eq!(sprite_builder(text, vec![0u8; 2]).err(), Some(SpriteError::InconsistentCapacity));
    assert!(sprite_builder(text, vec![0u8; 1]).is_ok());
}

#[test]
fn text_errors_come_before_the_buffer() {
    assert_eq!(sprite_builder("\n01\n", vec![0u8; 7]).err(), Some(SpriteError::PairMismatch));
}

#[test]
fn every_reason_has_its_message() {
    assert_eq!(SpriteError::MissingLeadingNewline.message(), "missing leading newline");
    assert_eq!(SpriteError::UnequalRowWidths.message(), "rows must have equal width");
    assert_eq!(SpriteError::PairMismatch.message(), "pattern pairs not matching");
    assert_eq!(SpriteError::TooManyGlyphs.message(), "too many distinct glyphs");
    assert_eq!(SpriteError::UnterminatedRow.message(), "last row not terminated");
    assert_eq!(SpriteError::NoRows.message(), "no rows found");
    assert_eq!(SpriteError::TooLarge.message(), "sprite too large");
    assert_eq!(SpriteError::InconsistentCapacity.message(), "inconsistent capacity");
}
