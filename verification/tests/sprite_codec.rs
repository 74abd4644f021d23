use rust_console_game_engine::DecodeError;
use rust_console_game_engine::RustConsoleSprite;

#[test]
fn new_sprite_is_blank_and_black() {
    let s = RustConsoleSprite::new(3, 2).unwrap();
    assert_eq!(s.width(), 3);
    assert_eq!(s.height(), 2);
    for y in 0..2 {
        for x in 0..3 {
            assert_eq!(s.get_glyph(x, y), ' ');
            assert_eq!(s.get_color(x, y), 0);
        }
    }
}

#[test]
fn setters_write_in_bounds_only() {
    let mut s = RustConsoleSprite::new(2, 2).unwrap();
    s.set_glyph(1, 0, 'A');
    s.set_color(1, 0, 9);
    assert_eq!(s.get_glyph(1, 0), 'A');
    assert_eq!(s.get_color(1, 0), 9);
    s.set_glyph(2, 0, 'X');
    s.set_color(0, 2, 5);
    for y in 0..2 {
        for x in 0..2 {
            if (x, y) == (1, 0) {
                continue;
            }
            assert_eq!(s.get_glyph(x, y), ' ');
            assert_eq!(s.get_color(x, y), 0);
        }
    }
}

#[test]
fn out_of_range_reads_yield_blank_and_black() {
    let s = RustConsoleSprite::new(2, 2).unwrap();
    assert_eq!(s.get_glyph(2, 0), ' ');
    assert_eq!(s.get_glyph(0, 2), ' ');
    assert_eq!(s.get_color(9, 9), 0);
}

#[test]
fn to_bytes_writes_the_exact_layout() {
    let mut s = RustConsoleSprite::new(1, 1).unwrap();
    s.set_glyph(0, 0, 'A');
    s.set_color(0, 0, 5);
    let b = s.to_bytes();
    assert_eq!(b, vec![1, 0, 0, 0, 1, 0, 0, 0, 5, 0, 0x41, 0]);
}

#[test]
fn from_bytes_reads_the_exact_layout() {
    let b: Vec<u8> = vec![1, 0, 0, 0, 1, 0, 0, 0, 0x03, 0x02, 0x41, 0];
    let s = RustConsoleSprite::from_bytes(&b).unwrap();
    assert_eq!(s.width(), 1);
    assert_eq!(s.height(), 1);
    assert_eq!(s.get_glyph(0, 0), 'A');
    assert_eq!(s.get_color(0, 0), 0x0203);
}

#[test]
fn round_trip_preserves_every_cell() {
    let mut s = RustConsoleSprite::new(3, 2).unwrap();
    let glyphs = ['a', '#', ' ', '\u{2588}', 'z', '!'];
    let mut k = 0;
    for y in 0..2 {
        for x in 0..3 {
            s.set_glyph(x, y, glyphs[k]);
            s.set_color(x, y, (k as u16) * 17 + 3);
            k += 1;
        }
    }
    let b = s.to_bytes();
    assert_eq!(b.len(), 8 + 4 * 6);
    let d = RustConsoleSprite::from_bytes(&b).unwrap();
    assert_eq!(d.width(), s.width());
    assert_eq!(d.height(), s.height());
    for y in 0..2 {
        for x in 0..3 {
            assert_eq!(d.get_glyph(x, y), s.get_glyph(x, y));
            assert_eq!(d.get_color(x, y), s.get_color(x, y));
        }
    }
}

#[test]
fn short_header_is_truncated() {
    let b: Vec<u8> = vec![1, 0, 0, 0, 1, 0, 0];
    assert!(matches!(RustConsoleSprite::from_bytes(&b), Err(DecodeError::Truncated)));
}

#[test]
fn missing_payload_is_truncated() {
    // declares 2 x 2 cells, so 8 + 16 bytes are needed; only 8 + 15 given
    let mut b: Vec<u8> = vec![2, 0, 0, 0, 2, 0, 0, 0];
    b.extend(std::iter::repeat(0u8).take(15));
    assert!(matches!(RustConsoleSprite::from_bytes(&b), Err(DecodeError::Truncated)));
}

#[test]
fn surrogate_code_unit_is_rejected() {
    // one cell whose glyph code unit 0xD800 is a surrogate
    let b: Vec<u8> = vec![1, 0, 0, 0, 1, 0, 0, 0, 0, 0, 0x00, 0xD8];
    assert!(matches!(RustConsoleSprite::from_bytes(&b), Err(DecodeError::InvalidGlyph)));
}

#[test]
fn zero_sized_sprite_decodes() {
    let b: Vec<u8> = vec![0, 0, 0, 0, 5, 0, 0, 0];
    let s = RustConsoleSprite::from_bytes(&b).unwrap();
    assert_eq!(s.width(), 0);
    assert_eq!(s.height(), 5);
}
