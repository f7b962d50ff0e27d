//! Colors, styles and glyphs.
pub use crate::surface::{BorderKind, Color, Glyph, Rune, Style};
