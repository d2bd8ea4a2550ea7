use vstd::prelude::*;
use vstd::slice::slice_subrange;

use vstd::arithmetic::div_mod::lemma_div_by_multiple;

use crate::bitmap::{lemma_row_count, row_bytes, rows_forward, RowIter};
use crate::table::{char_string, resolve, translation, GlyphTable};

verus! {

/// Length of the fixed header that starts every font.
pub const HEADER_LEN: usize = 32;

/// Why bytes might not be a valid PSF2 font.
#[derive(Debug, Clone, Copy, PartialEq, Eq, Structural)]
pub enum ParseError {
    /// The data ended before the header or the glyph bitmaps it declares.
    UnexpectedEnd,
    /// The data does not start with the PSF2 signature: probably not PSF2 data.
    BadMagic,
}

impl ParseError {
    /// A short description of the error.
    pub fn message(&self) -> (r: &'static str)
        ensures
            *self == ParseError::UnexpectedEnd ==> r@ == "unexpected end"@,
            *self == ParseError::BadMagic ==> r@ == "bad magic number"@,
    {
        match *self {
            ParseError::UnexpectedEnd => "unexpected end",
            ParseError::BadMagic => "bad magic number",
        }
    }
}

/// The little-endian 32-bit integer stored at `at`.
pub open spec fn le_u32(b: Seq<u8>, at: int) -> int {
    b[at] + 256 * b[at + 1] + 65536 * b[at + 2] + 16777216 * b[at + 3]
}

/// Whether the data starts with the signature `72 B5 4A 86`.
pub open spec fn has_magic(b: Seq<u8>) -> bool {
    b[0] == 0x72 && b[1] == 0xb5 && b[2] == 0x4a && b[3] == 0x86
}

/// Offset at which the glyph bitmaps start.
pub open spec fn header_size(b: Seq<u8>) -> int {
    le_u32(b, 8)
}

/// Header flags; bit 0 tells that a translation table follows the glyphs.
pub open spec fn flags(b: Seq<u8>) -> int {
    le_u32(b, 12)
}

/// Number of glyphs.
pub open spec fn glyph_count(b: Seq<u8>) -> int {
    le_u32(b, 16)
}

/// Bytes that each glyph bitmap takes.
pub open spec fn glyph_size(b: Seq<u8>) -> int {
    le_u32(b, 20)
}

/// Rows of a glyph.
pub open spec fn height(b: Seq<u8>) -> int {
    le_u32(b, 24)
}

/// Columns of a glyph.
pub open spec fn width(b: Seq<u8>) -> int {
    le_u32(b, 28)
}

/// Offset just past the last glyph bitmap.
pub open spec fn glyphs_end(b: Seq<u8>) -> int {
    header_size(b) + glyph_size(b) * glyph_count(b)
}

/// Whether the glyph bitmaps fit in the data, with their size and end computed in
/// 32-bit arithmetic without overflow.
pub open spec fn glyphs_fit(b: Seq<u8>) -> bool {
    glyph_size(b) * glyph_count(b) <= u32::MAX && glyphs_end(b) <= u32::MAX && glyphs_end(b)
        <= b.len()
}

/// Whether the data is a well-formed font.
pub open spec fn valid_font(b: Seq<u8>) -> bool {
    b.len() >= HEADER_LEN && has_magic(b) && glyphs_fit(b)
}

/// Whether the header announces a translation table.
pub open spec fn has_table(b: Seq<u8>) -> bool {
    flags(b) % 2 == 1
}

/// The translation table of a well-formed font: read from the bytes after the glyph
/// bitmaps where the header announces one, empty otherwise.
pub open spec fn font_table(b: Seq<u8>) -> Map<Seq<char>, u32> {
    if has_table(b) {
        translation(b.subrange(glyphs_end(b), b.len() as int))
    } else {
        Map::empty()
    }
}

/// The bitmap of glyph `i` with the glyph width, where `i` is below the glyph count.
pub open spec fn glyph_at(b: Seq<u8>, i: u32) -> Option<(Seq<u8>, nat)> {
    if i < glyph_count(b) {
        let start = header_size(b) + i * glyph_size(b);
        Some((b.subrange(start, start + glyph_size(b)), width(b) as nat))
    } else {
        None
    }
}

/// The glyph that a key of codepoints selects.
pub open spec fn glyph_for(b: Seq<u8>, m: Map<Seq<char>, u32>, key: Seq<char>) -> Option<
    (Seq<u8>, nat),
> {
    match resolve(m, key) {
        Some(i) => glyph_at(b, i),
        None => None,
    }
}

/// What a lookup result shows of the glyph: its bitmap and width.
pub open spec fn shown(r: Option<RowIter>) -> Option<(Seq<u8>, nat)> {
    match r {
        Some(it) => Some(it@),
        None => None,
    }
}

/// In a well-formed font whose width is not zero and whose glyphs take `height` padded
/// rows of bytes each, every glyph below the glyph count yields `height` rows of `width`
/// pixels each.
pub proof fn lemma_glyph_shape(b: Seq<u8>, i: u32)
    requires
        valid_font(b),
        i < glyph_count(b),
        width(b) > 0,
        glyph_size(b) == row_bytes(width(b) as nat) * height(b),
    ensures
        glyph_at(b, i) is Some,
        rows_forward(glyph_at(b, i)->0).len() == height(b),
        forall|j: int|
            0 <= j < height(b) ==> #[trigger] rows_forward(glyph_at(b, i)->0)[j].len() == width(b),
{
    let (ii, c, s) = (i as int, glyph_count(b), glyph_size(b));
    assert(ii * s + s <= c * s) by (nonlinear_arith)
        requires
            0 <= ii < c,
            0 <= s,
    ;
    assert(s * c == c * s) by (nonlinear_arith);
    let g = glyph_at(b, i)->0;
    assert(g.0.len() == s);
    lemma_row_count(g);
    let rb = row_bytes(width(b) as nat) as int;
    assert(s == height(b) * rb) by (nonlinear_arith)
        requires
            s == rb * height(b),
    ;
    lemma_div_by_multiple(height(b), rb);
}

/// Where the table binds nothing to a single ASCII codepoint `c`, looking `c` up as a
/// codepoint selects the same glyph as looking up index `c` directly.
pub proof fn lemma_ascii_fallback(b: Seq<u8>, m: Map<Seq<char>, u32>, c: char)
    requires
        (c as u32) < 0x80,
        !m.contains_key(seq![c]),
    ensures
        glyph_for(b, m, seq![c]) == glyph_at(b, c as u32),
{
}

/// The integer stored little-endian at `at`.
fn read_u32(b: &[u8], at: usize) -> (r: u32)
    requires
        at + 4 <= b@.len(),
    ensures
        r as int == le_u32(b@, at as int),
{
    b[at] as u32 + 256 * (b[at + 1] as u32) + 65536 * (b[at + 2] as u32) + 16777216 * (
    b[at + 3] as u32)
}

/// A well-formed PSF2 font.
pub struct Font {
    data: Vec<u8>,
    unicode: GlyphTable,
}

impl Font {
    /// The header was validated and the translation table read from the data.
    #[verifier::type_invariant]
    spec fn well_formed(&self) -> bool {
        valid_font(self.data@) && self.unicode@ == font_table(self.data@)
    }

    /// The font's bytes.
    pub closed spec fn bytes(&self) -> Seq<u8> {
        self.data@
    }

    /// The font's translation table.
    pub closed spec fn table(&self) -> Map<Seq<char>, u32> {
        self.unicode@
    }

    /// Tries to read `data` as a PSF2 font.
    pub fn new(data: Vec<u8>) -> (r: Result<Font, ParseError>)
        ensures
            data@.len() < HEADER_LEN ==> r == Err::<Font, ParseError>(ParseError::UnexpectedEnd),
            data@.len() >= HEADER_LEN && !has_magic(data@) ==> r == Err::<Font, ParseError>(
                ParseError::BadMagic,
            ),
            data@.len() >= HEADER_LEN && has_magic(data@) && glyphs_end(data@) > data@.len() ==> r
                == Err::<Font, ParseError>(ParseError::UnexpectedEnd),
            data@.len() >= HEADER_LEN && has_magic(data@) && !glyphs_fit(data@) ==> r == Err::<
                Font,
                ParseError,
            >(ParseError::UnexpectedEnd),
            valid_font(data@) ==> r is Ok && r->Ok_0.bytes() == data@ && r->Ok_0.table() == font_table(
                data@,
            ),
    {
        if data.len() < HEADER_LEN {
            return Err(ParseError::UnexpectedEnd);
        }
        if data[0] != 0x72 || data[1] != 0xb5 || data[2] != 0x4a || data[3] != 0x86 {
            return Err(ParseError::BadMagic);
        }
        let bytes = data.as_slice();
        let start = read_u32(bytes, 8);
        let count = read_u32(bytes, 16);
        let size = read_u32(bytes, 20);
        let glyphs_size = match size.checked_mul(count) {
            Some(v) => v,
            None => return Err(ParseError::UnexpectedEnd),
        };
        let end = match start.checked_add(glyphs_size) {
            Some(v) => v,
            None => return Err(ParseError::UnexpectedEnd),
        };
        if end as usize > data.len() {
            return Err(ParseError::UnexpectedEnd);
        }
        let unicode = if read_u32(bytes, 12) % 2 == 1 {
            GlyphTable::parse(slice_subrange(bytes, end as usize, bytes.len()))
        } else {
            GlyphTable::new()
        };
        Ok(Font { data, unicode })
    }

    /// Offset at which the glyph bitmaps start.
    fn headersize(&self) -> (r: u32)
        ensures
            r == header_size(self.bytes()),
    {
        proof {
            use_type_invariant(self);
        }
        read_u32(self.data.as_slice(), 8)
    }

    /// Number of glyphs.
    fn length(&self) -> (r: u32)
        ensures
            r == glyph_count(self.bytes()),
    {
        proof {
            use_type_invariant(self);
        }
        read_u32(self.data.as_slice(), 16)
    }

    /// Bytes per glyph bitmap.
    fn charsize(&self) -> (r: u32)
        ensures
            r == glyph_size(self.bytes()),
    {
        proof {
            use_type_invariant(self);
        }
        read_u32(self.data.as_slice(), 20)
    }

    /// Number of rows in a glyph.
    pub fn height(&self) -> (r: u32)
        ensures
            r == height(self.bytes()),
    {
        proof {
            use_type_invariant(self);
        }
        read_u32(self.data.as_slice(), 24)
    }

    /// Number of columns in a glyph.
    pub fn width(&self) -> (r: u32)
        ensures
            r == width(self.bytes()),
    {
        proof {
            use_type_invariant(self);
        }
        read_u32(self.data.as_slice(), 28)
    }

    /// The rows of glyph `i`, if the font has that many glyphs.
    pub fn get_index(&self, i: u32) -> (r: Option<RowIter<'_>>)
        ensures
            shown(r) == glyph_at(self.bytes(), i),
    {
        proof {
            use_type_invariant(self);
        }
        let count = self.length();
        if i >= count {
            return None;
        }
        let size = self.charsize();
        let start = self.headersize();
        proof {
            let (ii, c, s) = (i as int, count as int, size as int);
            assert(ii * s + s <= c * s) by (nonlinear_arith)
                requires
                    0 <= ii < c,
                    0 <= s,
            ;
            assert(s * c == c * s) by (nonlinear_arith);
        }
        let offset = start + i * size;
        let data = slice_subrange(self.data.as_slice(), offset as usize, (offset + size) as usize);
        Some(RowIter::new(data, self.width() as usize))
    }

    /// The rows of the glyph for ASCII byte `c`, if present.
    pub fn get_ascii(&self, c: u8) -> (r: Option<RowIter<'_>>)
        ensures
            shown(r) == glyph_at(self.bytes(), c as u32),
    {
        self.get_index(c as u32)
    }

    /// The rows of the glyph for the codepoint sequence `seq`: the glyph that the
    /// translation table binds it to, else for a single ASCII codepoint the glyph of that
    /// index.
    pub fn get_unicode_composed(&self, seq: &str) -> (r: Option<RowIter<'_>>)
        ensures
            shown(r) == glyph_for(self.bytes(), self.table(), seq@),
    {
        match self.unicode.lookup(seq) {
            Some(i) => self.get_index(i),
            None => None,
        }
    }

    /// Like [`Font::get_unicode_composed`], for a single codepoint.
    pub fn get_unicode(&self, c: char) -> (r: Option<RowIter<'_>>)
        ensures
            shown(r) == glyph_for(self.bytes(), self.table(), seq![c]),
    {
        let key = char_string(c);
        self.get_unicode_composed(key.as_str())
    }
}

} // verus!
