use deepcis_os::font_text::{
    parse_ascii_font, parse_index, parse_row, split_lines, trim_line, FontError,
};

/// A well-formed font text: glyph `i` has row `r` equal to `(i + r) % 256`.
fn font_text() -> String {
    let mut s = String::new();
    for i in 0..256usize {
        s.push_str(&format!("0x{:02x} glyph\n", i));
        for r in 0..16usize {
            let v = (i + r) % 256;
            let mut row = String::from("  ");
            for bit in (0..8).rev() {
                row.push(if (v >> bit) & 1 == 1 { '@' } else { '.' });
            }
            row.push('\n');
            s.push_str(&row);
        }
        s.push('\n');
    }
    s
}

fn chars(s: &str) -> Vec<char> {
    s.chars().collect()
}

#[test]
fn trims_whitespace_at_both_ends() {
    assert_eq!(trim_line(&chars(" \t..@@ \r")), chars("..@@"));
    assert_eq!(trim_line(&chars("   ")), Vec::<char>::new());
    assert_eq!(trim_line(&chars("a b")), chars("a b"));
    // Whitespace beyond ASCII is trimmed too, as `str::trim` does.
    assert_eq!(trim_line(&chars("\u{a0}\u{3000}..@\u{2009}\u{85}")), chars("..@"));
    assert_eq!(trim_line(&chars("\u{200b}.")), chars("\u{200b}."));
}

#[test]
fn trimming_agrees_with_str_trim() {
    for s in [" x ", "\u{2028}a\u{2029}", "\u{1680}\u{202f}b\u{205f}", "\t\n\u{b}\u{c}\r c", "\u{feff}d"] {
        assert_eq!(trim_line(&chars(s)), chars(s.trim()));
    }
}

#[test]
fn splits_at_line_feeds_and_keeps_a_last_unfinished_line() {
    let lines = split_lines("0x00\n  .@ \n\nend");
    assert_eq!(lines, vec![chars("0x00"), chars(".@"), Vec::new(), chars("end")]);
    let lines = split_lines("a\r\n");
    assert_eq!(lines, vec![chars("a")]);
    assert_eq!(split_lines(""), Vec::<Vec<char>>::new());
}

#[test]
fn row_pixels_make_a_number() {
    assert_eq!(parse_row(&chars("@......@")), Some(0b1000_0001));
    assert_eq!(parse_row(&chars("..@@")), Some(3));
    assert_eq!(parse_row(&chars("")), Some(0));
    assert_eq!(parse_row(&chars("..x.")), None);
    // Nine pixels give a number that no longer fits in a byte.
    assert_eq!(parse_row(&chars("@........")), Some(256));
}

#[test]
fn header_index_is_hexadecimal() {
    assert_eq!(parse_index('4', '1'), Some(0x41));
    assert_eq!(parse_index('f', 'F'), Some(255));
    assert_eq!(parse_index('+', 'a'), Some(10));
    assert_eq!(parse_index('g', '0'), None);
    assert_eq!(parse_index('-', '1'), None);
    assert_eq!(parse_index('\u{ff11}', '1'), None);
}

#[test]
fn parses_a_whole_font() {
    let table = parse_ascii_font(&font_text()).unwrap();
    assert_eq!(table.len(), 256);
    assert_eq!(table[0][0], 0);
    assert_eq!(table[0][15], 15);
    assert_eq!(table[0x41][0], 0x41);
    assert_eq!(table[255][1], 0);
    assert_eq!(table[255][15], 14);
}

#[test]
fn font_with_too_few_glyphs_is_refused() {
    let text = font_text();
    let cut = text.find("0xff").unwrap();
    assert_eq!(parse_ascii_font(&text[..cut]), Err(FontError::WrongGlyphCount));
}

#[test]
fn glyph_with_too_few_rows_is_refused() {
    let text = font_text().replacen("  ........\n", "", 1);
    assert_eq!(parse_ascii_font(&text), Err(FontError::WrongRowCount));
}

#[test]
fn row_that_overflows_a_byte_is_refused() {
    let text = font_text().replacen("  ........\n", "  @........\n", 1);
    assert_eq!(parse_ascii_font(&text), Err(FontError::RowOutOfRange));
}

#[test]
fn invalid_pixel_is_refused() {
    let text = font_text().replacen("  ........\n", "  ...x....\n", 1);
    assert_eq!(parse_ascii_font(&text), Err(FontError::InvalidPixel));
}

#[test]
fn header_faults_are_refused() {
    assert_eq!(parse_ascii_font("0x1\n"), Err(FontError::ShortHeader));
    assert_eq!(parse_ascii_font("0xzz\n"), Err(FontError::InvalidIndex));
    assert_eq!(parse_ascii_font("0x01\n"), Err(FontError::IndexOutOfOrder));
    assert_eq!(parse_ascii_font("0x00\n........\n\n0x02\n"), Err(FontError::IndexOutOfOrder));
}

#[test]
fn line_that_ends_a_glyph_is_skipped() {
    // The header right after the rows ends the glyph and is not read, so
    // the out-of-order index goes unnoticed and only one glyph is found.
    assert_eq!(parse_ascii_font("0x00\n........\n0x02\n"), Err(FontError::WrongGlyphCount));
}

#[test]
fn empty_text_has_no_glyphs() {
    assert_eq!(parse_ascii_font(""), Err(FontError::WrongGlyphCount));
}
