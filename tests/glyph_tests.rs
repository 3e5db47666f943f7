use dni_clock::buf2d::Vec2d;
use dni_clock::clock::update_time;
use dni_clock::colors::{from_u8_rgb, BG, FG};
use dni_clock::glyphs::{n_to_dni, GlyphBuffer, Glyphs, TextBuffer};

/// A glyph of `w` by `h` whose left `ink` columns are foreground.
fn bar(w: usize, h: usize, ink: usize) -> GlyphBuffer {
    let mut g = Vec2d::new(BG, w, h);
    for y in 0..h {
        for x in 0..ink {
            g.set(x, y, FG);
        }
    }
    g
}

fn digits(w: usize, h: usize) -> Vec<GlyphBuffer> {
    (0..25).map(|i| bar(w, h, i % w)).collect()
}

#[test]
fn transparency_of_background_and_foreground() {
    assert!(TextBuffer::pixel_is_somewhat_transparent(BG));
    assert!(!TextBuffer::pixel_is_somewhat_transparent(FG));
}

#[test]
fn transparency_threshold() {
    // brightness 464: 301 below white
    assert!(TextBuffer::pixel_is_somewhat_transparent(from_u8_rgb(155, 155, 154)));
    // brightness 465: exactly 300 below white
    assert!(!TextBuffer::pixel_is_somewhat_transparent(from_u8_rgb(155, 155, 155)));
}

#[test]
fn dni_characters() {
    assert_eq!(n_to_dni(0), b'0');
    assert_eq!(n_to_dni(9), b'9');
    assert_eq!(n_to_dni(10), b')');
    assert_eq!(n_to_dni(16), b'^');
    assert_eq!(n_to_dni(22), b'\\');
    assert_eq!(n_to_dni(24), b'}');
    assert_eq!(n_to_dni(25), b'|');
}

#[test]
fn new_text_buffer_is_empty() {
    let t = TextBuffer::new();
    assert_eq!(t.buf.width(), 0);
    assert_eq!((t.x, t.y, t.height), (0, 0, 0));
}

#[test]
fn short_glyph_is_centered_in_line() {
    let mut t = TextBuffer { buf: Vec2d::new(BG, 20, 60), x: 3, y: 5, height: 50 };
    let glyph = bar(4, 30, 4);
    t.write_glyph(&glyph);
    assert_eq!(t.x, 7);
    assert_eq!(t.buf.get(3, 14), BG);
    assert_eq!(t.buf.get(3, 15), FG);
    assert_eq!(t.buf.get(6, 44), FG);
    assert_eq!(t.buf.get(6, 45), BG);
    assert_eq!(t.buf.get(7, 20), BG);
}

#[test]
fn overwrite_then_compose() {
    let mut t = TextBuffer { buf: Vec2d::new(FG, 6, 2), x: 0, y: 0, height: 2 };
    // A: ink in its left two columns, background in the other two
    let a = bar(4, 2, 2);
    t.write_glyph(&a);
    assert_eq!(t.buf.as_1d(), &[FG, FG, BG, BG, FG, FG, FG, FG, BG, BG, FG, FG]);
    // B: all ink except a background first column, written over columns 1..5
    let mut b = bar(4, 2, 4);
    b.set(0, 0, BG);
    b.set(0, 1, BG);
    t.x = 1;
    t.write_glyph_composing(&b);
    assert_eq!(t.x, 5);
    // column 1 was A's ink and stays; columns 2 and 3 were background and take
    // B's ink; column 4 was foreground and stays
    assert_eq!(t.buf.as_1d(), &[FG, FG, FG, FG, FG, FG, FG, FG, FG, FG, FG, FG]);
}

#[test]
fn compose_keeps_ink_under_background() {
    let mut t = TextBuffer { buf: Vec2d::new(BG, 3, 1), x: 0, y: 0, height: 1 };
    t.buf.set(1, 0, FG);
    let g = Vec2d::new(from_u8_rgb(9, 9, 9), 3, 1);
    t.write_glyph_composing(&g);
    assert_eq!(t.buf.as_1d(), &[from_u8_rgb(9, 9, 9), FG, from_u8_rgb(9, 9, 9)]);
}

#[test]
fn two_digit_numeral_of_twenty_six() {
    let mut g = Glyphs::from_rendered(10, digits(20, 30), bar(5, 30, 2)).unwrap();
    let one_width = g.get_dni_number_one_digit(1).width();
    let n = g.get_dni_number_two_digits(26);
    assert_eq!(n.width(), 2 * one_width - 10);
    assert_eq!(n.height(), 30);
    // tens digit 1 has one ink column at 0; ones digit 1 starts at column 10
    for x in 0..30 {
        let expected = if x == 0 || x == 10 { FG } else { BG };
        assert_eq!(n.get(x, 7), expected);
    }
}

#[test]
fn numeral_tens_ink_survives_overlap() {
    let mut g = Glyphs::from_rendered(3, digits(5, 2), bar(1, 2, 1)).unwrap();
    // 59 = 2 * 25 + 9: tens digit has ink in columns 0..2, ones digit 9 (ink 4)
    let n = g.get_dni_number_two_digits(59);
    assert_eq!(n.width(), 7);
    assert_eq!(n.row(0), &[FG, FG, FG, FG, FG, FG, BG]);
}

#[test]
fn numeral_is_the_same_on_second_request() {
    let mut g = Glyphs::from_rendered(2, digits(6, 4), bar(2, 4, 1)).unwrap();
    let first = g.get_dni_number_two_digits(37).as_1d().to_vec();
    let second = g.get_dni_number_two_digits(37).as_1d().to_vec();
    assert_eq!(first, second);
    let other = g.get_dni_number_two_digits(12).as_1d().to_vec();
    assert_ne!(first, other);
}

#[test]
fn single_digits_and_colon() {
    let g = Glyphs::from_rendered(1, digits(4, 3), bar(2, 3, 1)).unwrap();
    assert_eq!(g.get_dni_number_one_digit(3).as_1d(), bar(4, 3, 3).as_1d());
    assert_eq!(g.get_colon().width(), 2);
    assert_eq!(g.get_colon().as_1d(), bar(2, 3, 1).as_1d());
}

#[test]
fn glyph_set_is_refused_when_it_cannot_compose() {
    let mut short = digits(4, 3);
    short.truncate(24);
    assert!(Glyphs::from_rendered(1, short, bar(2, 3, 1)).is_none());
    let mut uneven = digits(4, 3);
    uneven[7] = bar(4, 2, 1);
    assert!(Glyphs::from_rendered(1, uneven, bar(2, 3, 1)).is_none());
}

#[test]
fn narrow_digits_only_block_their_own_numerals() {
    let mut ds = digits(6, 2);
    ds[7] = bar(2, 2, 1);
    let mut g = Glyphs::from_rendered(4, ds, bar(1, 2, 1)).unwrap();
    // 7, 32 and 57 have 7 as ones digit, which is narrower than the overlap
    assert!(!g.can_compose(7));
    assert!(!g.can_compose(32));
    assert!(!g.can_compose(57));
    assert!(g.can_compose(8));
    // 33 = 1 * 25 + 8: both digits are six wide
    let n = g.get_dni_number_two_digits(33);
    assert_eq!(n.width(), 6 + 6 - 4);
    assert_eq!(n.height(), 2);
}

#[test]
fn every_digit_narrower_than_overlap_blocks_all() {
    let g = Glyphs::from_rendered(5, digits(4, 3), bar(2, 3, 1)).unwrap();
    for n in 0..60 {
        assert!(!g.can_compose(n));
    }
}

#[test]
fn overlap_keeps_tens_ink_and_draws_ones_over_background() {
    // tens digit 1: ink in columns 0..4 of 6; ones digit 2: ink in columns 0..2
    let mut ds = digits(6, 1);
    ds[1] = bar(6, 1, 4);
    ds[2] = bar(6, 1, 2);
    let dim = from_u8_rgb(5, 5, 5);
    ds[2].set(4, 0, dim);
    let mut g = Glyphs::from_rendered(3, ds, bar(1, 1, 1)).unwrap();
    // 27 = 1 * 25 + 2; the ones digit starts at column 3
    let n = g.get_dni_number_two_digits(27);
    assert_eq!(n.width(), 9);
    // columns 3..6 are the overlap: column 3 keeps the tens digit's ink, while
    // columns 4 and 5 were background and take the ones digit's pixels
    assert_eq!(n.row(0), &[FG, FG, FG, FG, FG, BG, BG, dim, BG]);
}

#[test]
fn frame_places_hour_after_margin_and_centers_line() {
    let mut g = Glyphs::from_rendered(5, digits(20, 30), bar(6, 30, 6)).unwrap();
    let frame = update_time(3, 26, 59, &mut g).unwrap();
    assert_eq!(frame.buf.width(), 300);
    assert_eq!(frame.buf.height(), 70);
    assert_eq!(frame.x, 10 + 20 + 6 + 35 + 6 + 35);
    // hour digit 3 has ink in its first three columns, rows 20..50
    assert_eq!(frame.buf.get(10, 20), FG);
    assert_eq!(frame.buf.get(12, 49), FG);
    assert_eq!(frame.buf.get(10, 19), BG);
    assert_eq!(frame.buf.get(10, 50), BG);
    assert_eq!(frame.buf.get(13, 20), BG);
    // the colon follows at 30..36
    assert_eq!(frame.buf.get(30, 30), FG);
    assert_eq!(frame.buf.get(35, 30), FG);
    assert_eq!(frame.buf.get(9, 30), BG);
    // the minute numeral matches the cached one
    let minute = g.get_dni_number_two_digits(26).as_1d().to_vec();
    for y in 0..30 {
        for x in 0..35 {
            assert_eq!(frame.buf.get(36 + x, 20 + y), minute[y * 35 + x]);
        }
    }
}

#[test]
fn frame_refuses_glyphs_that_do_not_fit() {
    let mut wide = Glyphs::from_rendered(0, digits(100, 30), bar(6, 30, 6)).unwrap();
    assert!(update_time(1, 2, 3, &mut wide).is_none());
    let mut tall = Glyphs::from_rendered(0, digits(5, 60), bar(6, 30, 6)).unwrap();
    assert!(update_time(1, 2, 3, &mut tall).is_none());
}
