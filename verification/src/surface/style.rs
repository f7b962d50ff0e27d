//! Packed text styles (flags plus a color-pair id) and sparse style patches.
use vstd::prelude::*;

use crate::surface::color::{Color, ColorSpec, color_from_index, color_index};

verus! {

/// The flag bits of a packed style word (bits 0..7).
pub open spec fn bits_flags(b: u32) -> u32 {
    b & 0x7F
}

/// The color-pair id of a packed style word (bits 8..23).
pub open spec fn bits_pair(b: u32) -> u16 {
    ((b >> 8) & 0xFFFF) as u16
}

proof fn lemma_bits_or(b: u32, m: u32)
    by (bit_vector)
    requires
        m <= 0x7F,
    ensures
        bits_flags(b | m) == bits_flags(b) | m,
        bits_pair(b | m) == bits_pair(b),
{
}

proof fn lemma_masked(f: u32)
    by (bit_vector)
    ensures
        f & 0x7F <= 0x7F,
        (f & 0x7F) & 0x7F == f & 0x7F,
{
}

proof fn lemma_bits_set_pair(b: u32, p: u16)
    by (bit_vector)
    ensures
        bits_flags((b & !0xFFFF00u32) | ((p as u32) << 8u32)) == bits_flags(b),
        bits_pair((b & !0xFFFF00u32) | ((p as u32) << 8u32)) == p,
{
}

proof fn lemma_bits_clear(b: u32)
    by (bit_vector)
    ensures
        bits_flags(b & !0x7Fu32) == 0,
        bits_pair(b & !0x7Fu32) == bits_pair(b),
{
}

proof fn lemma_bits_pair_extract(b: u32)
    by (bit_vector)
    ensures
        (b & 0xFFFF00u32) >> 8u32 == (b >> 8u32) & 0xFFFFu32,
        (b >> 8u32) & 0xFFFFu32 <= 0xFFFF,
{
}

proof fn lemma_bits_consts()
    by (bit_vector)
    ensures
        bits_flags(80u32 << 8u32) == 0,
        bits_pair(80u32 << 8u32) == 80,
        bits_flags(0) == 0,
        forall|x: u32| #![trigger (0u32 | x)] 0u32 | x == x,
{
}

/// Packed text style state, including flags and a color-pair id.
#[derive(Clone, Copy, PartialEq, Eq, Structural, Debug)]
pub struct Style(u32);

impl Default for Style {
    /// Creates the default style.
    fn default() -> (s: Self)
        ensures
            s == Self::spec_default(),
            s.spec_flags() == 0,
            s.spec_pair() == 80,
    {
        Self::new()
    }
}

impl Style {
    /// Bold text flag.
    pub const FLAG_BOLD: u32 = 1;
    /// Dim text flag.
    pub const FLAG_DIM: u32 = 2;
    /// Italic text flag.
    pub const FLAG_ITALIC: u32 = 4;
    /// Underline text flag.
    pub const FLAG_UNDERLINE: u32 = 8;
    /// Blink text flag.
    pub const FLAG_BLINK: u32 = 16;
    /// Strikethrough text flag.
    pub const FLAG_STRIKE: u32 = 32;
    /// Inverse text flag.
    pub const FLAG_INVERSE: u32 = 64;
    /// Mask of all supported style flags.
    pub const FLAG_MASK: u32 = 0x7F;
    /// Shift of the packed pair id.
    pub const PAIR_SHIFT: u32 = 8;
    /// Mask of the packed pair id.
    pub const PAIR_MASK: u32 = 0xFFFF00;
    /// Number of inline colors reserved for builtin ANSI/default styling.
    pub const INLINE_COLOR_COUNT: u16 = 9;
    /// First pair id owned by the color atlas.
    pub const FIRST_EXTENDED_PAIR: u16 = 81;
    /// Inline pair id for terminal-default fg/bg.
    pub const DEFAULT_PAIR: u16 = 80;

    /// The default style value: no flags over the terminal-default pair.
    pub closed spec fn spec_default() -> Style {
        Style(80u32 << 8u32)
    }

    /// The style with extra flag bits `f` ORed in.
    pub closed spec fn spec_or_flags(self, f: u32) -> Style {
        Style(self.0 | f)
    }

    /// The style with its pair id replaced by `p`.
    pub closed spec fn spec_with_pair(self, p: u16) -> Style {
        Style((self.0 & !0xFFFF00u32) | ((p as u32) << 8u32))
    }

    /// The style with its foreground replaced, keeping the inline background.
    pub open spec fn spec_with_fg(self, c: Color) -> Style {
        self.spec_with_pair(Self::spec_builtin_pair_id(c, self.spec_bg()))
    }

    /// The style with bold enabled.
    pub open spec fn spec_bold(self) -> Style {
        self.spec_or_flags(Self::FLAG_BOLD)
    }

    /// The style's flag bits.
    pub closed spec fn spec_flags(self) -> u32 {
        bits_flags(self.0)
    }

    /// The style's color-pair id.
    pub closed spec fn spec_pair(self) -> u16 {
        bits_pair(self.0)
    }

    /// The inline pair id of a builtin foreground/background pair.
    pub open spec fn spec_builtin_pair_id(fg: Color, bg: Color) -> u16 {
        (color_index(bg) * 9 + color_index(fg)) as u16
    }

    /// The foreground color stored in an inline pair id.
    pub open spec fn spec_inline_fg(pair_id: u16) -> Color {
        color_from_index((pair_id % 9) as u8)
    }

    /// The background color stored in an inline pair id.
    pub open spec fn spec_inline_bg(pair_id: u16) -> Color {
        color_from_index((pair_id / 9) as u8)
    }

    /// The foreground color of the style: inline pairs give theirs, atlas pairs `Default`.
    pub open spec fn spec_fg(self) -> Color {
        if self.spec_pair() < 81 {
            Self::spec_inline_fg(self.spec_pair())
        } else {
            Color::Default
        }
    }

    /// The background color of the style: inline pairs give theirs, atlas pairs `Default`.
    pub open spec fn spec_bg(self) -> Color {
        if self.spec_pair() < 81 {
            Self::spec_inline_bg(self.spec_pair())
        } else {
            Color::Default
        }
    }

    /// The flag bits of a style lie within the flag mask.
    pub proof fn lemma_flags_masked(s: Style)
        ensures
            s.spec_flags() & Self::FLAG_MASK == s.spec_flags(),
            s.spec_flags() <= 0x7F,
            0u32 | s.spec_flags() == s.spec_flags(),
    {
        lemma_masked(s.0);
        lemma_bits_consts();
    }

    /// ORing flags into an empty flag set gives those flags.
    pub proof fn lemma_zero_or(x: u32)
        ensures
            0u32 | x == x,
    {
        lemma_bits_consts();
    }

    /// Encoding a builtin pair and decoding it gives the pair back.
    pub proof fn lemma_builtin_pair_roundtrip(fg: Color, bg: Color)
        ensures
            Self::spec_builtin_pair_id(fg, bg) < 81,
            Self::spec_inline_fg(Self::spec_builtin_pair_id(fg, bg)) == fg,
            Self::spec_inline_bg(Self::spec_builtin_pair_id(fg, bg)) == bg,
    {
        let f = color_index(fg) as int;
        let b = color_index(bg) as int;
        assert(0 <= f <= 8 && 0 <= b <= 8);
        assert((b * 9 + f) % 9 == f && (b * 9 + f) / 9 == b) by (nonlinear_arith)
            requires
                0 <= f <= 8,
                0 <= b <= 8,
        ;
    }

    /// Creates a new default style: no flags, terminal-default colors.
    pub fn new() -> (s: Self)
        ensures
            s == Self::spec_default(),
            s.spec_flags() == 0,
            s.spec_pair() == Self::DEFAULT_PAIR,
    {
        proof {
            lemma_bits_consts();
        }
        Style(80u32 << 8u32)
    }

    /// Encodes a builtin ANSI/default pair into an inline pair id.
    pub fn builtin_pair_id(fg: Color, bg: Color) -> (id: u16)
        ensures
            id == Self::spec_builtin_pair_id(fg, bg),
            id < 81,
    {
        proof {
            Self::lemma_builtin_pair_roundtrip(fg, bg);
        }
        (bg.index() as u16) * 9 + (fg.index() as u16)
    }

    /// Returns true when the pair id is stored inline.
    pub fn is_inline_pair_id(pair_id: u16) -> (b: bool)
        ensures
            b == (pair_id < 81),
    {
        pair_id < Self::FIRST_EXTENDED_PAIR
    }

    /// Decodes the inline foreground color from a builtin pair id.
    pub fn inline_fg_from_pair_id(pair_id: u16) -> (c: Color)
        ensures
            c == Self::spec_inline_fg(pair_id),
    {
        Color::from_u8((pair_id % 9) as u8)
    }

    /// Decodes the inline background color from a builtin pair id.
    pub fn inline_bg_from_pair_id(pair_id: u16) -> (c: Color)
        ensures
            c == Self::spec_inline_bg(pair_id),
    {
        Color::from_u8(#[verifier::truncate] ((pair_id / 9) as u8))
    }

    /// Sets the packed pair id.
    pub fn with_pair(self, pair_id: u16) -> (s: Self)
        ensures
            s == self.spec_with_pair(pair_id),
            s.spec_flags() == self.spec_flags(),
            s.spec_pair() == pair_id,
    {
        let mut s = self;
        s.set_pair(pair_id);
        s
    }

    /// Adds style flags (masked to the supported ones) to the style.
    pub fn with_flags(self, flags: u32) -> (s: Self)
        ensures
            s.spec_flags() == self.spec_flags() | (flags & Self::FLAG_MASK),
            s.spec_pair() == self.spec_pair(),
    {
        let mut s = self;
        s.add_flags(flags);
        s
    }

    /// Sets the foreground color, keeping the current inline background.
    ///
    /// Only meaningful for styles that use an inline pair id: an atlas pair is replaced
    /// by the inline pair of `color` over `Default`.
    pub fn with_fg(self, color: Color) -> (s: Self)
        ensures
            s == self.spec_with_fg(color),
            s.spec_flags() == self.spec_flags(),
            s.spec_pair() == Self::spec_builtin_pair_id(color, self.spec_bg()),
    {
        let mut s = self;
        s.set_fg(color);
        s
    }

    /// Sets the background color, keeping the current inline foreground.
    pub fn with_bg(self, color: Color) -> (s: Self)
        ensures
            s.spec_flags() == self.spec_flags(),
            s.spec_pair() == Self::spec_builtin_pair_id(self.spec_fg(), color),
    {
        let mut s = self;
        s.set_bg(color);
        s
    }

    /// ORs one flag into the style.
    fn or_flag(self, flag: u32) -> (s: Self)
        requires
            flag <= 0x7F,
        ensures
            s == self.spec_or_flags(flag),
            s.spec_flags() == self.spec_flags() | flag,
            s.spec_pair() == self.spec_pair(),
    {
        proof {
            lemma_bits_or(self.0, flag);
        }
        Style(self.0 | flag)
    }

    /// Enables bold.
    pub fn bold(self) -> (s: Self)
        ensures
            s == self.spec_bold(),
            s.spec_flags() == self.spec_flags() | Self::FLAG_BOLD,
            s.spec_pair() == self.spec_pair(),
    {
        self.or_flag(Self::FLAG_BOLD)
    }

    /// Enables dim text.
    pub fn dim(self) -> (s: Self)
        ensures
            s.spec_flags() == self.spec_flags() | Self::FLAG_DIM,
            s.spec_pair() == self.spec_pair(),
    {
        self.or_flag(Self::FLAG_DIM)
    }

    /// Enables italic text.
    pub fn italic(self) -> (s: Self)
        ensures
            s.spec_flags() == self.spec_flags() | Self::FLAG_ITALIC,
            s.spec_pair() == self.spec_pair(),
    {
        self.or_flag(Self::FLAG_ITALIC)
    }

    /// Enables underline text.
    pub fn underline(self) -> (s: Self)
        ensures
            s.spec_flags() == self.spec_flags() | Self::FLAG_UNDERLINE,
            s.spec_pair() == self.spec_pair(),
    {
        self.or_flag(Self::FLAG_UNDERLINE)
    }

    /// Enables blink text.
    pub fn blink(self) -> (s: Self)
        ensures
            s.spec_flags() == self.spec_flags() | Self::FLAG_BLINK,
            s.spec_pair() == self.spec_pair(),
    {
        self.or_flag(Self::FLAG_BLINK)
    }

    /// Enables strikethrough text.
    pub fn strike(self) -> (s: Self)
        ensures
            s.spec_flags() == self.spec_flags() | Self::FLAG_STRIKE,
            s.spec_pair() == self.spec_pair(),
    {
        self.or_flag(Self::FLAG_STRIKE)
    }

    /// Enables inverse text.
    pub fn inverse(self) -> (s: Self)
        ensures
            s.spec_flags() == self.spec_flags() | Self::FLAG_INVERSE,
            s.spec_pair() == self.spec_pair(),
    {
        self.or_flag(Self::FLAG_INVERSE)
    }

    /// Sets the style from flags and builtin ANSI/default colors.
    pub fn set(&mut self, flags: u32, fg: Color, bg: Color)
        ensures
            final(self).spec_flags() == flags & Self::FLAG_MASK,
            final(self).spec_pair() == Self::spec_builtin_pair_id(fg, bg),
    {
        proof {
            lemma_bits_consts();
        }
        *self = Style(0);
        self.add_flags(flags);
        self.set_pair(Self::builtin_pair_id(fg, bg));
    }

    /// Adds specific flags (masked to the supported ones) to the style.
    pub fn add_flags(&mut self, flags: u32)
        ensures
            final(self).spec_flags() == old(self).spec_flags() | (flags & Self::FLAG_MASK),
            final(self).spec_pair() == old(self).spec_pair(),
    {
        proof {
            lemma_masked(flags);
        }
        *self = self.or_flag(flags & Self::FLAG_MASK);
    }

    /// Sets the pair id in place.
    pub fn set_pair(&mut self, pair_id: u16)
        ensures
            *final(self) == old(self).spec_with_pair(pair_id),
            final(self).spec_flags() == old(self).spec_flags(),
            final(self).spec_pair() == pair_id,
    {
        proof {
            lemma_bits_set_pair(self.0, pair_id);
        }
        *self = Style((self.0 & !Self::PAIR_MASK) | ((pair_id as u32) << 8u32));
    }

    /// Sets the foreground color for inline ANSI/default pairs.
    fn set_fg(&mut self, color: Color)
        ensures
            *final(self) == old(self).spec_with_fg(color),
            final(self).spec_flags() == old(self).spec_flags(),
            final(self).spec_pair() == Self::spec_builtin_pair_id(color, old(self).spec_bg()),
    {
        let bg = self.bg();
        self.set_pair(Self::builtin_pair_id(color, bg));
    }

    /// Sets the background color for inline ANSI/default pairs.
    fn set_bg(&mut self, color: Color)
        ensures
            final(self).spec_flags() == old(self).spec_flags(),
            final(self).spec_pair() == Self::spec_builtin_pair_id(old(self).spec_fg(), color),
    {
        let fg = self.fg();
        self.set_pair(Self::builtin_pair_id(fg, color));
    }

    /// Removes all style flags while keeping the current pair id.
    pub fn clear_flags(&mut self)
        ensures
            final(self).spec_flags() == 0,
            final(self).spec_pair() == old(self).spec_pair(),
    {
        proof {
            lemma_bits_clear(self.0);
        }
        *self = Style(self.0 & !Self::FLAG_MASK);
    }

    /// Obtains the set flags.
    pub fn flags(self) -> (f: u32)
        ensures
            f == self.spec_flags(),
    {
        self.0 & Self::FLAG_MASK
    }

    /// Obtains the packed pair id.
    pub fn pair_id(self) -> (p: u16)
        ensures
            p == self.spec_pair(),
    {
        proof {
            lemma_bits_pair_extract(self.0);
        }
        ((self.0 & Self::PAIR_MASK) >> 8u32) as u16
    }

    /// Obtains the inline foreground color or `Default` for atlas-backed pairs.
    pub fn fg(self) -> (c: Color)
        ensures
            c == self.spec_fg(),
    {
        if Self::is_inline_pair_id(self.pair_id()) {
            Self::inline_fg_from_pair_id(self.pair_id())
        } else {
            Color::Default
        }
    }

    /// Obtains the inline background color or `Default` for atlas-backed pairs.
    pub fn bg(self) -> (c: Color)
        ensures
            c == self.spec_bg(),
    {
        if Self::is_inline_pair_id(self.pair_id()) {
            Self::inline_bg_from_pair_id(self.pair_id())
        } else {
            Color::Default
        }
    }
}

/// Sparse authoring-time style patch for rich widget drawing.
#[derive(Debug, Clone, Copy, PartialEq, Eq, Structural)]
pub struct StylePatch {
    /// Flags to OR into the base style.
    pub add_flags: u32,
    /// Optional foreground replacement.
    pub fg: Option<ColorSpec>,
    /// Optional background replacement.
    pub bg: Option<ColorSpec>,
}

impl Default for StylePatch {
    fn default() -> (p: Self)
        ensures
            p == (StylePatch { add_flags: 0, fg: None, bg: None }),
    {
        Self::new()
    }
}

impl StylePatch {
    /// The patch changes nothing.
    pub open spec fn spec_is_empty(self) -> bool {
        self.add_flags == 0 && self.fg is None && self.bg is None
    }

    /// Creates an empty patch.
    pub fn new() -> (p: Self)
        ensures
            p == (StylePatch { add_flags: 0, fg: None, bg: None }),
    {
        StylePatch { add_flags: 0, fg: None, bg: None }
    }

    /// Returns a copy whose added flags are `flags`.
    pub fn with_add_flags(self, flags: u32) -> (p: Self)
        ensures
            p == (StylePatch { add_flags: flags, ..self }),
    {
        StylePatch { add_flags: flags, ..self }
    }

    /// Returns a copy with a foreground replacement.
    pub fn with_fg(self, fg: ColorSpec) -> (p: Self)
        ensures
            p == (StylePatch { fg: Some(fg), ..self }),
    {
        StylePatch { fg: Some(fg), ..self }
    }

    /// Returns a copy with a background replacement.
    pub fn with_bg(self, bg: ColorSpec) -> (p: Self)
        ensures
            p == (StylePatch { bg: Some(bg), ..self }),
    {
        StylePatch { bg: Some(bg), ..self }
    }

    /// Returns `true` when the patch changes nothing.
    pub fn is_empty(&self) -> (b: bool)
        ensures
            b == self.spec_is_empty(),
    {
        self.add_flags == 0 && self.fg.is_none() && self.bg.is_none()
    }
}

} // verus!
