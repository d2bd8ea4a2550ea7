use psf2::{ColumnIter, Font, GlyphTable, ParseError, RowIter};

fn header(flags: u32, count: u32, size: u32, height: u32, width: u32) -> Vec<u8> {
    let mut b = vec![0x72, 0xb5, 0x4a, 0x86];
    for v in [0u32, 32, flags, count, size, height, width] {
        b.extend_from_slice(&v.to_le_bytes());
    }
    b
}

/// A 6x12 font of `count` glyphs, glyph `g` having byte `g` in every row.
fn font_6x12(count: u32, flags: u32, table: &[u8]) -> Vec<u8> {
    let mut b = header(flags, count, 12, 12, 6);
    for g in 0..count {
        for _ in 0..12 {
            b.push(g as u8);
        }
    }
    b.extend_from_slice(table);
    b
}

fn columns(mut it: ColumnIter) -> Vec<bool> {
    let mut out = Vec::new();
    while let Some(b) = it.next() {
        out.push(b);
    }
    out
}

fn rows(mut it: RowIter) -> Vec<Vec<bool>> {
    let mut out = Vec::new();
    while let Some(row) = it.next() {
        out.push(columns(row));
    }
    out
}

fn is_err(r: Result<Font, ParseError>, e: ParseError) -> bool {
    match r {
        Err(x) => x == e,
        Ok(_) => false,
    }
}

#[test]
fn short_buffers_end_unexpectedly() {
    assert!(is_err(Font::new(vec![]), ParseError::UnexpectedEnd));
    assert!(is_err(Font::new(vec![0x72, 0xb5, 0x4a, 0x86]), ParseError::UnexpectedEnd));
    let mut b = header(0, 0, 0, 0, 0);
    b.pop();
    assert_eq!(b.len(), 31);
    assert!(is_err(Font::new(b), ParseError::UnexpectedEnd));
}

#[test]
fn wrong_signature_is_bad_magic() {
    let mut b = header(0, 0, 0, 0, 0);
    b[3] = 0x87;
    assert!(is_err(Font::new(b), ParseError::BadMagic));
    assert!(is_err(Font::new(vec![0u8; 40]), ParseError::BadMagic));
}

#[test]
fn glyphs_past_end_are_rejected() {
    let mut b = font_6x12(3, 0, &[]);
    b.pop();
    assert!(is_err(Font::new(b), ParseError::UnexpectedEnd));
    let b = header(0, 0x1000_0000, 0x100, 12, 6);
    assert!(is_err(Font::new(b), ParseError::UnexpectedEnd));
    let mut b = header(0, 1, 1, 1, 1);
    b[8..12].copy_from_slice(&u32::MAX.to_le_bytes());
    b.push(0);
    assert!(is_err(Font::new(b), ParseError::UnexpectedEnd));
}

#[test]
fn exact_fit_is_accepted() {
    let b = font_6x12(2, 0, &[]);
    let font = Font::new(b).ok().unwrap();
    assert_eq!(font.width(), 6);
    assert_eq!(font.height(), 12);
    assert!(font.get_index(1).is_some());
    assert!(font.get_index(2).is_none());
    assert!(font.get_index(u32::MAX).is_none());
}

#[test]
fn ascii_a_in_6x12_font() {
    let font = Font::new(font_6x12(96, 0, &[])).ok().unwrap();
    let glyph = font.get_ascii(b'A').unwrap();
    assert_eq!(glyph.len(), 12);
    assert_eq!(glyph.data(), &[0x41; 12]);
    let r = rows(glyph);
    assert_eq!(r.len(), 12);
    for row in &r {
        assert_eq!(row, &[false, true, false, false, false, false]);
    }
}

#[test]
fn glyph_has_height_rows_of_width_pixels() {
    let font = Font::new(font_6x12(5, 0, &[])).ok().unwrap();
    for i in 0..5 {
        let r = rows(font.get_index(i).unwrap());
        assert_eq!(r.len(), font.height() as usize);
        for row in &r {
            assert_eq!(row.len(), font.width() as usize);
        }
    }
}

#[test]
fn table_single_run_binds_each_codepoint() {
    let mut t = Vec::new();
    t.extend_from_slice("ab".as_bytes());
    t.push(0xFF);
    t.extend_from_slice("cé".as_bytes());
    t.push(0xFE);
    t.extend_from_slice("xy".as_bytes());
    t.push(0xFF);
    let table = GlyphTable::parse(&t);
    assert_eq!(table.lookup("a"), Some(0));
    assert_eq!(table.lookup("b"), Some(0));
    assert_eq!(table.lookup("c"), Some(1));
    assert_eq!(table.lookup("é"), Some(1));
    assert_eq!(table.lookup("xy"), Some(1));
    assert_eq!(table.lookup("ab"), None);
    assert_eq!(table.lookup("x"), Some(b'x' as u32));
    assert_eq!(table.lookup("ü"), None);
}

#[test]
fn table_skips_invalid_utf8_runs() {
    let t = [0xC3, 0xFF, b'q', 0xFF, 0xE2, 0x82, 0xAC, 0xFF];
    let table = GlyphTable::parse(&t);
    assert_eq!(table.lookup("q"), Some(1));
    assert_eq!(table.lookup("€"), Some(2));
    assert_eq!(table.lookup("\u{c3}"), None);
}

#[test]
fn table_later_entry_overrides() {
    let t = [b'k', 0xFF, b'k', 0xFF];
    let table = GlyphTable::parse(&t);
    assert_eq!(table.lookup("k"), Some(1));
    assert_eq!(GlyphTable::new().lookup("k"), Some(b'k' as u32));
    assert_eq!(GlyphTable::new().lookup("kk"), None);
}

#[test]
fn unicode_lookup_through_font_table() {
    let mut t = Vec::new();
    t.extend_from_slice("é".as_bytes());
    t.push(0xFF);
    t.extend_from_slice("A".as_bytes());
    t.push(0xFF);
    t.push(0xFE);
    t.extend_from_slice("ñ".as_bytes());
    t.push(0xFF);
    let font = Font::new(font_6x12(70, 1, &t)).ok().unwrap();
    assert_eq!(font.get_unicode('é').unwrap().data(), &[0; 12]);
    assert_eq!(font.get_unicode('A').unwrap().data(), &[1; 12]);
    assert_eq!(font.get_unicode_composed("ñ").unwrap().data(), &[2; 12]);
    assert_eq!(font.get_unicode('B').unwrap().data(), &[0x42; 12]);
    assert!(font.get_unicode('ü').is_none());
    assert_eq!(font.get_ascii(b'A').unwrap().data(), &[0x41; 12]);
}

#[test]
fn table_ignored_without_flag() {
    let t = [b'B', 0xFF];
    let font = Font::new(font_6x12(70, 0, &t)).ok().unwrap();
    assert_eq!(font.get_unicode('B').unwrap().data(), &[0x42; 12]);
}

#[test]
fn ascii_fallback_matches_index() {
    let font = Font::new(font_6x12(80, 1, &[])).ok().unwrap();
    for c in ['A', 'z', '0', '\u{7f}'] {
        let by_char = font.get_unicode(c).map(|g| g.data().to_vec());
        let by_index = font.get_index(c as u32).map(|g| g.data().to_vec());
        assert_eq!(by_char, by_index);
    }
    assert!(font.get_unicode('\u{7f}').is_none());
    assert!(font.get_unicode_composed("AB").is_none());
}

#[test]
fn error_messages() {
    assert_eq!(ParseError::UnexpectedEnd.message(), "unexpected end");
    assert_eq!(ParseError::BadMagic.message(), "bad magic number");
}
