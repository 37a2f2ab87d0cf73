//! Sprites for the WASM-4 fantasy console, written as text.
//!
//! A sprite is drawn as rows of glyphs, each glyph written twice so that the
//! picture looks square in a text editor:
//!
//! ```text
//!
//! 0011
//! 2233
//! ```
//!
//! The text begins with a newline and every row ends with one; spaces and
//! tabs may stand anywhere. Up to four distinct glyphs get the palette
//! indices 0 to 3 in the order in which they first come, and the indices are
//! packed into bytes at one bit per pixel for up to two glyphs and at two
//! bits otherwise.
//!
//! - [`grid`] says what a text draws, or why it draws nothing.
//! - [`written`] says which texts draw which pictures.
//! - [`decode`], [`glyphs`] and [`pack`] are the parts of the reader: one
//!   code point from UTF-8, palette indices, and bits into bytes.
//! - [`inline_sprite`] reads a text in two passes, one that finds the size
//!   and one that fills a buffer of that size, and makes the sprite.
//! - [`sprite`] is the sprite type of `wasm4_common`, as far as it is needed.
//! - [`draw`] holds the words that the drawing calls of the console take.

pub mod decode;
pub mod depth;
pub mod draw;
pub mod error;
pub mod glyphs;
pub mod grid;
pub mod inline_sprite;
pub mod pack;
pub mod sprite;
pub mod written;
