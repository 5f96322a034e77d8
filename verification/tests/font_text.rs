use sruler::font::{glyph_bits, glyph_cells, text_lines};

fn chars(s: &str) -> Vec<char> {
    s.chars().collect()
}

#[test]
fn glyph_bits_gives_the_bitmap_rows() {
    assert_eq!(glyph_bits('0'), [0b01110, 0b10001, 0b10011, 0b10101, 0b11001, 0b10001, 0b01110]);
    assert_eq!(glyph_bits('7'), [0b11111, 0b00001, 0b00010, 0b00100, 0b01000, 0b01000, 0b01000]);
    assert_eq!(glyph_bits('t'), glyph_bits('T'));
    assert_eq!(glyph_bits('\u{00d7}'), glyph_bits('x'));
    assert_eq!(glyph_bits('X'), glyph_bits('x'));
}

#[test]
fn unknown_characters_are_blank() {
    assert_eq!(glyph_bits('q'), [0; 7]);
    assert_eq!(glyph_bits(' '), [0; 7]);
    assert!(glyph_cells('q').is_empty());
}

#[test]
fn glyph_cells_lists_lit_cells_row_by_row() {
    assert_eq!(glyph_cells('-'), vec![(3, 0), (3, 1), (3, 2), (3, 3), (3, 4)]);
    assert_eq!(glyph_cells('.'), vec![(5, 1), (5, 2), (6, 1), (6, 2)]);
    assert_eq!(glyph_cells('1').len(), 1 + 2 + 1 + 1 + 1 + 1 + 3);
    assert_eq!(glyph_cells('1')[0], (0, 2));
}

#[test]
fn text_lines_splits_like_str_lines() {
    assert_eq!(text_lines("foo\r\nbar\n\nbaz\r"), vec![chars("foo"), chars("bar"), chars(""), chars("baz\r")]);
    assert_eq!(text_lines(""), Vec::<Vec<char>>::new());
    assert_eq!(text_lines("a\n"), vec![chars("a")]);
    assert_eq!(text_lines("\n"), vec![chars("")]);
    assert_eq!(text_lines("12 x 3 px\n6 x 2 logical\nT 24"), vec![chars("12 x 3 px"), chars("6 x 2 logical"), chars("T 24")]);
}
