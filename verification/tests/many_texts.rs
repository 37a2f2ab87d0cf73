use wasm4::depth::BitsPerPixel;
use wasm4::error::SpriteError;
use wasm4::inline_sprite::{sprite_builder, sprite_calc, text_sprite};

struct Picture {
    width: u32,
    height: u32,
    two_bits: bool,
    bytes: Vec<u8>,
}

fn by_hand(text: &str) -> Result<Picture, SpriteError> {
    let mut chars = text.chars();
    if chars.next() != Some('\n') {
        return Err(SpriteError::MissingLeadingNewline);
    }
    let mut rows: Vec<Vec<char>> = Vec::new();
    let mut row: Vec<char> = Vec::new();
    let mut waiting: Option<char> = None;
    let mut glyphs: Vec<char> = Vec::new();
    for c in chars {
        match c {
            ' ' | '\t' => {}
            '\n' => {
                if waiting.is_some() {
                    return Err(SpriteError::PairMismatch);
                }
                if !rows.is_empty() && rows[0].len() != row.len() {
                    return Err(SpriteError::UnequalRowWidths);
                }
                rows.push(std::mem::take(&mut row));
            }
            glyph => match waiting.take() {
                None => waiting = Some(glyph),
                Some(twin) => {
                    if twin != glyph {
                        return Err(SpriteError::PairMismatch);
                    }
                    if !glyphs.contains(&glyph) {
                        if glyphs.len() == 4 {
                            return Err(SpriteError::TooManyGlyphs);
                        }
                        glyphs.push(glyph);
                    }
                    row.push(glyph);
                }
            },
        }
    }
    if waiting.is_some() {
        return Err(SpriteError::PairMismatch);
    }
    if !row.is_empty() {
        return Err(SpriteError::UnterminatedRow);
    }
    if rows.is_empty() {
        return Err(SpriteError::NoRows);
    }
    let two_bits = glyphs.len() > 2;
    let bits = if two_bits { 2 } else { 1 };
    let pixels: Vec<u8> = rows
        .iter()
        .flatten()
        .map(|glyph| glyphs.iter().position(|g| g == glyph).unwrap() as u8)
        .collect();
    let bytes = pixels
        .chunks(8 / bits)
        .map(|run| run.iter().fold(0u8, |value, pixel| (value << bits) | pixel))
        .collect();
    Ok(Picture { width: rows[0].len() as u32, height: rows.len() as u32, two_bits, bytes })
}

struct Dice(u64);

impl Dice {
    fn roll(&mut self, sides: usize) -> usize {
        self.0 = self.0.wrapping_mul(6364136223846793005).wrapping_add(1442695040888963407);
        ((self.0 >> 33) as usize) % sides
    }
}

fn check(text: &str) {
    let expected = by_hand(text);
    match &expected {
        Err(reason) => {
            assert_eq!(sprite_calc(text), Err(*reason), "{text:?}");
            assert_eq!(text_sprite(text).err(), Some(*reason), "{text:?}");
            assert_eq!(sprite_builder(text, vec![0; 3]).err(), Some(*reason), "{text:?}");
        }
        Ok(picture) => {
            let bpp = if picture.two_bits { BitsPerPixel::Two } else { BitsPerPixel::One };
            assert_eq!(sprite_calc(text), Ok((bpp, picture.bytes.len())), "{text:?}");
            let sprite = text_sprite(text).ok().unwrap();
            assert_eq!(sprite.shape(), [picture.width, picture.height], "{text:?}");
            assert_eq!(sprite.bytes(), &picture.bytes, "{text:?}");
            assert_eq!(
                sprite.bpp() == wasm4_common::draw::BitsPerPixel::Two,
                picture.two_bits,
                "{text:?}"
            );
            assert_eq!(
                sprite_builder(text, vec![0; picture.bytes.len() + 1]).err(),
                Some(SpriteError::InconsistentCapacity),
                "{text:?}"
            );
        }
    }
}

#[test]
fn scrambled_texts() {
    let alphabet = ['\n', '\n', ' ', '\t', 'a', 'a', 'b', 'c', 'é', '▒', '😀'];
    let mut dice = Dice(7);
    for _ in 0..20000 {
        let length = dice.roll(12);
        let mut text = String::new();
        if dice.roll(10) != 0 {
            text.push('\n');
        }
        for _ in 0..length {
            text.push(alphabet[dice.roll(alphabet.len())]);
        }
        check(&text);
    }
}

#[test]
fn drawn_texts_with_flaws() {
    let glyphs = ['a', 'b', 'é', '▒', '😀'];
    let mut dice = Dice(11);
    let mut good = 0;
    for _ in 0..5000 {
        let width = dice.roll(11);
        let height = 1 + dice.roll(4);
        let most = if dice.roll(8) == 0 { 5 } else { 4 };
        let kinds = 1 + dice.roll(most);
        let mut text = String::from("\n");
        for _ in 0..height {
            for _ in 0..dice.roll(3) {
                text.push(' ');
            }
            for _ in 0..width {
                let glyph = glyphs[dice.roll(kinds)];
                text.push(glyph);
                if dice.roll(6) == 0 {
                    text.push('\t');
                }
                text.push(glyph);
            }
            text.push('\n');
        }
        match dice.roll(12) {
            0 => {
                text.pop();
            }
            1 => {
                let at = dice.roll(text.chars().count());
                text = text.chars().enumerate().filter(|(i, _)| *i != at).map(|(_, c)| c).collect();
            }
            2 => text.push_str("aa"),
            _ => {}
        }
        if by_hand(&text).is_ok() {
            good += 1;
        }
        check(&text);
    }
    assert!(good > 2000);
}
