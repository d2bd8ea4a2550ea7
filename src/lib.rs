//! Decoder for PSF2 bitmap fonts: header validation, glyph lookup by index,
//! ASCII byte, codepoint or codepoint sequence, and pixel iteration over glyph rows.

pub mod bitmap;
pub mod font;
pub mod table;

pub use bitmap::{ColumnIter, RowIter};
pub use font::{Font, ParseError};
pub use table::GlyphTable;
