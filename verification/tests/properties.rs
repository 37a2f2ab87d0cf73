use wasm4::depth::BitsPerPixel;
use wasm4::inline_sprite::{sprite_builder, sprite_calc};

const TEXTS: [&str; 8] = [
    "\n0011\n2233\n",
    "\n0011\n",
    "\nbbaa\naabb\n",
    "\n001100110011001100\n",
    "\n0011223300\n",
    "\n\n",
    "\n😀😀éé\nAA😀😀\n",
    "\n001122\n221100\n001122\n",
];

const BAD_TEXTS: [&str; 7] =
    ["", "\n", "\n01\n", "\n00\n0011\n", "\n0011223344\n", "\n0011", "0011\n"];

#[test]
fn sizing_finds_the_length_that_building_fills() {
    for text in TEXTS {
        let (_, capacity) = sprite_calc(text).ok().unwrap();
        let sprite = sprite_builder(text, vec![0u8; capacity]).ok().unwrap();
        assert_eq!(sprite.bytes().len(), capacity);
        let bits = if sprite.bpp() == wasm4_common::draw::BitsPerPixel::Two { 2 } else { 1 };
        let pixels = (sprite.width() * sprite.height()) as usize;
        assert_eq!(capacity, (pixels * bits + 7) / 8);
    }
}

#[test]
fn same_text_same_sprite() {
    for text in TEXTS {
        let first = sprite_calc(text);
        let second = sprite_calc(text);
        assert_eq!(first, second);
        let capacity = first.ok().unwrap().1;
        let a = sprite_builder(text, vec![0u8; capacity]).ok().unwrap();
        let b = sprite_builder(text, vec![0xFFu8; capacity]).ok().unwrap();
        assert_eq!(a.bytes(), b.bytes());
        assert_eq!(a.shape(), b.shape());
        assert!(a.bpp() == b.bpp());
    }
    for text in BAD_TEXTS {
        assert_eq!(sprite_calc(text), sprite_calc(text));
        assert_eq!(
            sprite_builder(text, Vec::new()).err(),
            sprite_builder(text, Vec::new()).err()
        );
    }
}

#[test]
fn both_passes_give_a_glyph_the_same_index() {
    let text = "\nzzyyxxww\nwwxxyyzz\n";
    assert_eq!(sprite_calc(text), Ok((BitsPerPixel::Two, 2)));
    let sprite = sprite_builder(text, vec![0u8; 2]).ok().unwrap();
    assert_eq!(sprite.bytes(), &vec![0b00_01_10_11u8, 0b11_10_01_00u8]);
    let text = "\nzzyy\nyyzz\nzzzz\n";
    assert_eq!(sprite_calc(text), Ok((BitsPerPixel::One, 1)));
    let sprite = sprite_builder(text, vec![0u8; 1]).ok().unwrap();
    assert_eq!(sprite.bytes(), &vec![0b01_10_00u8]);
}

#[test]
fn blanks_change_nothing() {
    let plain = "\n0011\n2233\n";
    let (bpp, capacity) = sprite_calc(plain).ok().unwrap();
    let expected = sprite_builder(plain, vec![0u8; capacity]).ok().unwrap();
    let spaced = [
        "\n 0011\n2233\n",
        "\n0011 \n2233\n",
        "\n0011\n\t2233\n",
        "\n0011\n2233\n   ",
        "\n    0011\n    2233\n    ",
        "\n00\t11\n22  33\n",
        "\n0 0 1 1\n2\t2\t3\t3\n",
        "\n  00  11 \n\t2 2\t33\n   ",
    ];
    for text in spaced {
        assert_eq!(sprite_calc(text), Ok((bpp, capacity)));
        let sprite = sprite_builder(text, vec![0u8; capacity]).ok().unwrap();
        assert_eq!(sprite.bytes(), expected.bytes());
        assert_eq!(sprite.shape(), expected.shape());
        assert!(sprite.bpp() == expected.bpp());
    }
}

#[test]
fn blanks_change_no_error() {
    for text in BAD_TEXTS {
        if text.is_empty() {
            continue;
        }
        for at in 1..=text.len() {
            for blank in [' ', '\t'] {
                let mut wider = String::from(text);
                wider.insert(at, blank);
                assert_eq!(sprite_calc(&wider), sprite_calc(text));
            }
        }
    }
}

#[test]
fn blank_put_in_at_every_place() {
    for text in TEXTS {
        let expected = sprite_calc(text);
        let capacity = expected.ok().unwrap().1;
        let sprite = sprite_builder(text, vec![0u8; capacity]).ok().unwrap();
        for (at, _) in text.char_indices().skip(1).chain([(text.len(), ' ')]) {
            let mut wider = String::from(text);
            wider.insert(at, ' ');
            assert_eq!(sprite_calc(&wider), expected);
            let other = sprite_builder(&wider, vec![0u8; capacity]).ok().unwrap();
            assert_eq!(other.bytes(), sprite.bytes());
            assert_eq!(other.shape(), sprite.shape());
        }
    }
}

fn write(cells: &[char], width: usize) -> String {
    let mut text = String::from("\n");
    for row in cells.chunks(width) {
        for cell in row {
            text.push(*cell);
            text.push(*cell);
        }
        text.push('\n');
    }
    text
}

fn first_appearance(cells: &[char]) -> (Vec<char>, Vec<u8>) {
    let mut glyphs = Vec::new();
    let mut indices = Vec::new();
    for cell in cells {
        if !glyphs.contains(cell) {
            glyphs.push(*cell);
        }
        indices.push(glyphs.iter().position(|g| g == cell).unwrap() as u8);
    }
    (glyphs, indices)
}

fn unpack(bytes: &[u8], bits: usize, count: usize) -> Vec<u8> {
    let per_byte = 8 / bits;
    let mut pixels = Vec::new();
    for (k, byte) in bytes.iter().enumerate() {
        let held = (count - k * per_byte).min(per_byte);
        for j in 0..held {
            let shift = bits * (held - 1 - j);
            pixels.push((byte >> shift) & ((1u8 << bits) - 1));
        }
    }
    pixels
}

#[test]
fn what_is_written_is_read() {
    let pictures: [(&str, usize); 6] = [
        ("ab", 1),
        ("abcdabcdabcd", 4),
        ("xxyxxyxxyxxyxxyxxyxxyxxyxxy", 9),
        ("▒█▓.▓█▒.▒", 3),
        ("qqqqqqqqqqqqqqqqq", 17),
        ("0123012301230123012", 19),
    ];
    for (picture, width) in pictures {
        let cells: Vec<char> = picture.chars().collect();
        let height = cells.len() / width;
        let text = write(&cells, width);
        let (glyphs, indices) = first_appearance(&cells);
        let bits = if glyphs.len() <= 2 { 1 } else { 2 };
        let (bpp, capacity) = sprite_calc(&text).ok().unwrap();
        assert_eq!(bpp == BitsPerPixel::Two, bits == 2);
        assert_eq!(capacity, (cells.len() * bits + 7) / 8);
        let sprite = sprite_builder(&text, vec![0u8; capacity]).ok().unwrap();
        assert_eq!(sprite.shape(), [width as u32, height as u32]);
        assert_eq!(unpack(sprite.bytes(), bits, cells.len()), indices);
    }
}
