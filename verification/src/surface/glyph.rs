//! Box-drawing markers, border kinds, UTF-8 runes and styled screen cells.
use vstd::prelude::*;
use vstd::utf8::encode_scalar;

use crate::surface::style::Style;

verus! {

/// Characters used to draw boxes around panes.
#[derive(Debug, Clone, Copy, PartialEq, Eq, Structural)]
pub enum BoxDraw {
    Horizontal,
    Vertical,
    TopLeft,
    TopRight,
    BottomLeft,
    BottomRight,
    Cross,
    RoundedTopLeft,
    RoundedTopRight,
    RoundedBottomLeft,
    RoundedBottomRight,
    DoubleHorizontal,
    DoubleVertical,
    DoubleTopLeft,
    DoubleTopRight,
    DoubleBottomLeft,
    DoubleBottomRight,
    DoubleCross,
}

/// The Unicode character drawn for a box-drawing marker.
pub open spec fn box_char(b: BoxDraw) -> char {
    match b {
        BoxDraw::Horizontal => '\u{2500}',
        BoxDraw::Vertical => '\u{2502}',
        BoxDraw::TopLeft => '\u{250C}',
        BoxDraw::TopRight => '\u{2510}',
        BoxDraw::BottomLeft => '\u{2514}',
        BoxDraw::BottomRight => '\u{2518}',
        BoxDraw::Cross => '\u{253C}',
        BoxDraw::RoundedTopLeft => '\u{256D}',
        BoxDraw::RoundedTopRight => '\u{256E}',
        BoxDraw::RoundedBottomLeft => '\u{2570}',
        BoxDraw::RoundedBottomRight => '\u{256F}',
        BoxDraw::DoubleHorizontal => '\u{2550}',
        BoxDraw::DoubleVertical => '\u{2551}',
        BoxDraw::DoubleTopLeft => '\u{2554}',
        BoxDraw::DoubleTopRight => '\u{2557}',
        BoxDraw::DoubleBottomLeft => '\u{255A}',
        BoxDraw::DoubleBottomRight => '\u{255D}',
        BoxDraw::DoubleCross => '\u{256C}',
    }
}

impl BoxDraw {
    /// Converts a box-drawing marker into a Unicode character.
    pub fn as_char(self) -> (c: char)
        ensures
            c == box_char(self),
    {
        match self {
            BoxDraw::Horizontal => '\u{2500}',
            BoxDraw::Vertical => '\u{2502}',
            BoxDraw::TopLeft => '\u{250C}',
            BoxDraw::TopRight => '\u{2510}',
            BoxDraw::BottomLeft => '\u{2514}',
            BoxDraw::BottomRight => '\u{2518}',
            BoxDraw::Cross => '\u{253C}',
            BoxDraw::RoundedTopLeft => '\u{256D}',
            BoxDraw::RoundedTopRight => '\u{256E}',
            BoxDraw::RoundedBottomLeft => '\u{2570}',
            BoxDraw::RoundedBottomRight => '\u{256F}',
            BoxDraw::DoubleHorizontal => '\u{2550}',
            BoxDraw::DoubleVertical => '\u{2551}',
            BoxDraw::DoubleTopLeft => '\u{2554}',
            BoxDraw::DoubleTopRight => '\u{2557}',
            BoxDraw::DoubleBottomLeft => '\u{255A}',
            BoxDraw::DoubleBottomRight => '\u{255D}',
            BoxDraw::DoubleCross => '\u{256C}',
        }
    }
}

/// Type of border to be used.
#[derive(Debug, Clone, Copy, PartialEq, Eq, Structural)]
pub enum BorderKind {
    Single,
    Rounded,
    Double,
}

impl Default for BorderKind {
    fn default() -> (k: Self)
        ensures
            k == BorderKind::Single,
    {
        BorderKind::Single
    }
}

/// The six border markers of a border kind: horizontal, vertical, top-left, top-right,
/// bottom-left, bottom-right.
pub open spec fn border_glyphs(k: BorderKind) -> (
    BoxDraw,
    BoxDraw,
    BoxDraw,
    BoxDraw,
    BoxDraw,
    BoxDraw,
) {
    match k {
        BorderKind::Single => (
            BoxDraw::Horizontal,
            BoxDraw::Vertical,
            BoxDraw::TopLeft,
            BoxDraw::TopRight,
            BoxDraw::BottomLeft,
            BoxDraw::BottomRight,
        ),
        BorderKind::Rounded => (
            BoxDraw::Horizontal,
            BoxDraw::Vertical,
            BoxDraw::RoundedTopLeft,
            BoxDraw::RoundedTopRight,
            BoxDraw::RoundedBottomLeft,
            BoxDraw::RoundedBottomRight,
        ),
        BorderKind::Double => (
            BoxDraw::DoubleHorizontal,
            BoxDraw::DoubleVertical,
            BoxDraw::DoubleTopLeft,
            BoxDraw::DoubleTopRight,
            BoxDraw::DoubleBottomLeft,
            BoxDraw::DoubleBottomRight,
        ),
    }
}

/// The crossing marker of a border kind.
pub open spec fn border_cross(k: BorderKind) -> BoxDraw {
    match k {
        BorderKind::Double => BoxDraw::DoubleCross,
        _ => BoxDraw::Cross,
    }
}

impl BorderKind {
    /// Returns the horizontal box-drawing glyph for this border kind.
    pub fn horizontal(self) -> (b: BoxDraw)
        ensures
            b == border_glyphs(self).0,
    {
        match self {
            BorderKind::Single | BorderKind::Rounded => BoxDraw::Horizontal,
            BorderKind::Double => BoxDraw::DoubleHorizontal,
        }
    }

    /// Returns the vertical box-drawing glyph for this border kind.
    pub fn vertical(self) -> (b: BoxDraw)
        ensures
            b == border_glyphs(self).1,
    {
        match self {
            BorderKind::Single | BorderKind::Rounded => BoxDraw::Vertical,
            BorderKind::Double => BoxDraw::DoubleVertical,
        }
    }

    /// Returns the top-left corner glyph for this border kind.
    pub fn top_left(self) -> (b: BoxDraw)
        ensures
            b == border_glyphs(self).2,
    {
        match self {
            BorderKind::Single => BoxDraw::TopLeft,
            BorderKind::Rounded => BoxDraw::RoundedTopLeft,
            BorderKind::Double => BoxDraw::DoubleTopLeft,
        }
    }

    /// Returns the top-right corner glyph for this border kind.
    pub fn top_right(self) -> (b: BoxDraw)
        ensures
            b == border_glyphs(self).3,
    {
        match self {
            BorderKind::Single => BoxDraw::TopRight,
            BorderKind::Rounded => BoxDraw::RoundedTopRight,
            BorderKind::Double => BoxDraw::DoubleTopRight,
        }
    }

    /// Returns the bottom-left corner glyph for this border kind.
    pub fn bottom_left(self) -> (b: BoxDraw)
        ensures
            b == border_glyphs(self).4,
    {
        match self {
            BorderKind::Single => BoxDraw::BottomLeft,
            BorderKind::Rounded => BoxDraw::RoundedBottomLeft,
            BorderKind::Double => BoxDraw::DoubleBottomLeft,
        }
    }

    /// Returns the bottom-right corner glyph for this border kind.
    pub fn bottom_right(self) -> (b: BoxDraw)
        ensures
            b == border_glyphs(self).5,
    {
        match self {
            BorderKind::Single => BoxDraw::BottomRight,
            BorderKind::Rounded => BoxDraw::RoundedBottomRight,
            BorderKind::Double => BoxDraw::DoubleBottomRight,
        }
    }

    /// Returns the crossing glyph for this border kind.
    pub fn cross(self) -> (b: BoxDraw)
        ensures
            b == border_cross(self),
    {
        match self {
            BorderKind::Double => BoxDraw::DoubleCross,
            _ => BoxDraw::Cross,
        }
    }

    /// Returns all border glyphs in the order:
    /// horizontal, vertical, top-left, top-right, bottom-left, bottom-right.
    pub fn glyphs(self) -> (g: (BoxDraw, BoxDraw, BoxDraw, BoxDraw, BoxDraw, BoxDraw))
        ensures
            g == border_glyphs(self),
    {
        (
            self.horizontal(),
            self.vertical(),
            self.top_left(),
            self.top_right(),
            self.bottom_left(),
            self.bottom_right(),
        )
    }
}

/// Represents a printable "character" to the screen: up to four UTF-8 bytes.
#[derive(Clone, Copy, PartialEq, Eq, Structural, Debug)]
pub struct Rune {
    /// First encoded byte.
    pub b0: u8,
    /// Second encoded byte (zero or padding when unused).
    pub b1: u8,
    /// Third encoded byte (zero or padding when unused).
    pub b2: u8,
    /// Fourth encoded byte (zero or padding when unused).
    pub b3: u8,
    /// Number of bytes in use.
    pub len: u8,
}

/// The rune holding the UTF-8 encoding of `c`, padded with zero bytes.
pub open spec fn rune_of(c: char) -> Rune {
    let enc = encode_scalar(c as u32);
    Rune {
        b0: enc[0],
        b1: if enc.len() > 1 { enc[1] } else { 0 },
        b2: if enc.len() > 2 { enc[2] } else { 0 },
        b3: if enc.len() > 3 { enc[3] } else { 0 },
        len: enc.len() as u8,
    }
}

impl Rune {
    /// The bytes that this rune writes to the terminal.
    pub open spec fn encoded(self) -> Seq<u8> {
        seq![self.b0, self.b1, self.b2, self.b3].subrange(0, self.len as int)
    }

    /// Well-formed runes hold between one and four bytes.
    pub open spec fn wf(self) -> bool {
        1 <= self.len <= 4
    }

    /// Encodes a Unicode scalar value into the rune buffer.
    pub fn from_char(value: char) -> (r: Self)
        ensures
            r == rune_of(value),
            r.wf(),
            r.encoded() == encode_scalar(value as u32),
    {
        let v = value as u32;
        if v <= 0x7F {
            let r = Rune { b0: (v & 0x7F) as u8, b1: 0, b2: 0, b3: 0, len: 1 };
            assert(r.encoded() =~= encode_scalar(v));
            r
        } else if v <= 0x7FF {
            let r = Rune {
                b0: 0xC0 | ((v >> 6) & 0x1F) as u8,
                b1: 0x80 | (v & 0x3F) as u8,
                b2: 0,
                b3: 0,
                len: 2,
            };
            assert(r.encoded() =~= encode_scalar(v));
            r
        } else if v <= 0xFFFF {
            let r = Rune {
                b0: 0xE0 | ((v >> 12) & 0x0F) as u8,
                b1: 0x80 | ((v >> 6) & 0x3F) as u8,
                b2: 0x80 | (v & 0x3F) as u8,
                b3: 0,
                len: 3,
            };
            assert(r.encoded() =~= encode_scalar(v));
            r
        } else {
            let r = Rune {
                b0: 0xF0 | ((v >> 18) & 0x7) as u8,
                b1: 0x80 | ((v >> 12) & 0x3F) as u8,
                b2: 0x80 | ((v >> 6) & 0x3F) as u8,
                b3: 0x80 | (v & 0x3F) as u8,
                len: 4,
            };
            assert(r.encoded() =~= encode_scalar(v));
            r
        }
    }

    /// Converts a box-drawing marker into a rune.
    pub fn from_box(value: BoxDraw) -> (r: Self)
        ensures
            r == rune_of(box_char(value)),
            r.wf(),
            r.encoded() == encode_scalar(box_char(value) as u32),
    {
        Rune::from_char(value.as_char())
    }
}

impl Default for Rune {
    /// Creates a default blank rune: a single space.
    fn default() -> (r: Self)
        ensures
            r.wf(),
            r.encoded() == seq![32u8],
            r == (Rune { b0: 32u8, b1: 32u8, b2: 32u8, b3: 32u8, len: 1 }),
    {
        let r = Rune { b0: 32u8, b1: 32u8, b2: 32u8, b3: 32u8, len: 1 };
        assert(r.encoded() =~= seq![32u8]);
        r
    }
}

/// A single screen cell that can be rendered with a rune and style.
#[derive(Debug, Clone, Copy, PartialEq, Eq, Structural)]
pub struct Glyph {
    /// Attributes that are applied such as bold, blink, underline, and color.
    pub style: Style,
    /// Rendered data.
    pub rune: Rune,
}

/// The blank cell: a space in the default style.
pub open spec fn blank_glyph() -> Glyph {
    Glyph { style: Style::spec_default(), rune: Rune { b0: 32u8, b1: 32u8, b2: 32u8, b3: 32u8, len: 1 } }
}

/// The glyph for character `c` drawn in `style`.
pub open spec fn styled_glyph(c: char, style: Style) -> Glyph {
    Glyph { style, rune: rune_of(c) }
}

impl Default for Glyph {
    /// A blank cell in the default style.
    fn default() -> (g: Self)
        ensures
            g == blank_glyph(),
            g.rune == (Rune { b0: 32u8, b1: 32u8, b2: 32u8, b3: 32u8, len: 1 }),
            g.style.spec_flags() == 0,
            g.style.spec_pair() == Style::DEFAULT_PAIR,
    {
        Glyph { style: Style::default(), rune: Rune::default() }
    }
}

impl Glyph {
    /// Constructs a default glyph.
    pub fn new() -> (g: Self)
        ensures
            g == blank_glyph(),
            g.rune == (Rune { b0: 32u8, b1: 32u8, b2: 32u8, b3: 32u8, len: 1 }),
            g.style.spec_flags() == 0,
            g.style.spec_pair() == Style::DEFAULT_PAIR,
    {
        Self::default()
    }

    /// Applies a style to the rendered glyph.
    pub fn with_style(self, style: Style) -> (g: Self)
        ensures
            g == (Glyph { style, ..self }),
    {
        Glyph { style, rune: self.rune }
    }

    /// Replaces the glyph's rune.
    pub fn with_rune(self, rune: Rune) -> (g: Self)
        ensures
            g == (Glyph { rune, ..self }),
    {
        Glyph { style: self.style, rune }
    }

    /// Creates a glyph from a character, in the default style.
    pub fn from_char(c: char) -> (g: Self)
        ensures
            g == styled_glyph(c, Style::spec_default()),
            g.rune == rune_of(c),
            g.rune.wf(),
            g.rune.encoded() == encode_scalar(c as u32),
            g.style.spec_flags() == 0,
            g.style.spec_pair() == Style::DEFAULT_PAIR,
    {
        Glyph { style: Style::default(), rune: Rune::from_char(c) }
    }

    /// Creates a glyph from a character with the given style.
    pub fn styled(c: char, style: Style) -> (g: Self)
        ensures
            g == styled_glyph(c, style),
            g.rune == rune_of(c),
            g.rune.wf(),
            g.rune.encoded() == encode_scalar(c as u32),
            g.style == style,
    {
        Glyph { style, rune: Rune::from_char(c) }
    }

    /// Creates a glyph from a box-drawing marker, in the default style.
    pub fn from_box(value: BoxDraw) -> (g: Self)
        ensures
            g.rune == rune_of(box_char(value)),
            g.rune.wf(),
            g.rune.encoded() == encode_scalar(box_char(value) as u32),
            g.style.spec_flags() == 0,
            g.style.spec_pair() == Style::DEFAULT_PAIR,
    {
        Glyph { style: Style::default(), rune: Rune::from_box(value) }
    }
}

} // verus!
