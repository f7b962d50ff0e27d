//! ANSI colors, renderer-facing color specs and the interning color-pair atlas.
use vstd::prelude::*;

use std::collections::HashMap;

use crate::surface::style::{Style, StylePatch};

verus! {

broadcast use vstd::std_specs::hash::group_hash_axioms;

/// Basic ANSI colors used for foreground and background styling.
#[derive(Debug, PartialEq, Eq, Structural, Copy, Clone, Hash)]
pub enum Color {
    Black,
    Red,
    Green,
    Yellow,
    Blue,
    Magenta,
    Cyan,
    White,
    Default,
}

impl Default for Color {
    fn default() -> (c: Self)
        ensures
            c == Color::Default,
    {
        Color::Default
    }
}

/// The packed number of a color: `Black` is 0 through `White` at 7, and `Default` is 8.
pub open spec fn color_index(c: Color) -> u8 {
    match c {
        Color::Black => 0,
        Color::Red => 1,
        Color::Green => 2,
        Color::Yellow => 3,
        Color::Blue => 4,
        Color::Magenta => 5,
        Color::Cyan => 6,
        Color::White => 7,
        Color::Default => 8,
    }
}

/// The color that a packed number stands for; numbers above 7 mean `Default`.
pub open spec fn color_from_index(n: u8) -> Color {
    if n == 0 {
        Color::Black
    } else if n == 1 {
        Color::Red
    } else if n == 2 {
        Color::Green
    } else if n == 3 {
        Color::Yellow
    } else if n == 4 {
        Color::Blue
    } else if n == 5 {
        Color::Magenta
    } else if n == 6 {
        Color::Cyan
    } else if n == 7 {
        Color::White
    } else {
        Color::Default
    }
}

/// Packing a color and unpacking it again gives the same color.
pub proof fn lemma_color_index_roundtrip(c: Color)
    ensures
        color_from_index(color_index(c)) == c,
        color_index(c) <= 8,
{
}

impl Color {
    /// The packed number of this color.
    pub fn index(self) -> (n: u8)
        ensures
            n == color_index(self),
    {
        match self {
            Color::Black => 0,
            Color::Red => 1,
            Color::Green => 2,
            Color::Yellow => 3,
            Color::Blue => 4,
            Color::Magenta => 5,
            Color::Cyan => 6,
            Color::White => 7,
            Color::Default => 8,
        }
    }

    /// Reconstructs a packed inline color value.
    pub fn from_u8(n: u8) -> (c: Self)
        ensures
            c == color_from_index(n),
    {
        match n {
            0 => Color::Black,
            1 => Color::Red,
            2 => Color::Green,
            3 => Color::Yellow,
            4 => Color::Blue,
            5 => Color::Magenta,
            6 => Color::Cyan,
            7 => Color::White,
            _ => Color::Default,
        }
    }

    /// Converts to a numeric foreground color (SGR parameter).
    pub fn fg_code(self) -> (code: u8)
        ensures
            code == (if self == Color::Default {
                39
            } else {
                30 + color_index(self)
            }),
    {
        match self {
            Color::Default => 39,
            _ => 30 + self.index(),
        }
    }

    /// Converts to a numeric background color (SGR parameter).
    pub fn bg_code(self) -> (code: u8)
        ensures
            code == (if self == Color::Default {
                49
            } else {
                40 + color_index(self)
            }),
    {
        match self {
            Color::Default => 49,
            _ => 40 + self.index(),
        }
    }
}

/// Extended color representation resolved only by the renderer.
#[derive(Debug, Clone, Copy, PartialEq, Eq, Structural, Hash)]
pub enum ColorSpec {
    /// Reset back to the terminal default color.
    Default,
    /// Use one of the classic ANSI 16 colors.
    Ansi16(Color),
    /// Use one of the ANSI 256 indexed colors.
    Ansi256(u8),
    /// Use an explicit 24-bit RGB color.
    Rgb(u8, u8, u8),
}

impl Default for ColorSpec {
    fn default() -> (c: Self)
        ensures
            c == ColorSpec::Default,
    {
        ColorSpec::Default
    }
}

/// The color spec that a builtin color converts to.
pub open spec fn spec_from_color(c: Color) -> ColorSpec {
    match c {
        Color::Default => ColorSpec::Default,
        other => ColorSpec::Ansi16(other),
    }
}

impl ColorSpec {
    /// Converts a builtin color into a renderer-facing color spec.
    pub fn from_color(value: Color) -> (c: Self)
        ensures
            c == spec_from_color(value),
    {
        match value {
            Color::Default => ColorSpec::Default,
            other => ColorSpec::Ansi16(other),
        }
    }

    /// True for the terminal default and the classic ANSI colors, which fit in an inline
    /// pair id.
    pub open spec fn is_builtin(self) -> bool {
        self is Default || self is Ansi16
    }

    /// The builtin color that a builtin spec stands for.
    pub open spec fn builtin_color(self) -> Color {
        match self {
            ColorSpec::Ansi16(c) => c,
            _ => Color::Default,
        }
    }
}

/// Foreground/background combination interned by the color atlas.
#[derive(Debug, Clone, Copy, PartialEq, Eq, Structural, Hash)]
pub struct ColorPair {
    /// Foreground color for the pair.
    pub fg: ColorSpec,
    /// Background color for the pair.
    pub bg: ColorSpec,
}

impl Default for ColorPair {
    fn default() -> (p: Self)
        ensures
            p == (ColorPair { fg: ColorSpec::Default, bg: ColorSpec::Default }),
    {
        ColorPair { fg: ColorSpec::Default, bg: ColorSpec::Default }
    }
}

impl ColorPair {
    /// Creates a new foreground/background pair.
    pub fn new(fg: ColorSpec, bg: ColorSpec) -> (p: Self)
        ensures
            p == (ColorPair { fg, bg }),
    {
        ColorPair { fg, bg }
    }

    /// Both colors fit in an inline pair id.
    pub open spec fn is_builtin(self) -> bool {
        self.fg.is_builtin() && self.bg.is_builtin()
    }
}

/// The pair id of the first atlas-backed (extended) pair.
pub open spec fn first_extended() -> int {
    81
}

/// The pair id that `pair` gets in an atlas holding `pairs`, if it is already known there
/// or builtin.
pub open spec fn known_pair_id(pairs: Seq<ColorPair>, pair: ColorPair) -> Option<u16> {
    if pair.is_builtin() {
        Some(Style::spec_builtin_pair_id(pair.fg.builtin_color(), pair.bg.builtin_color()))
    } else if pairs.contains(pair) {
        Some((first_extended() + pairs.index_of(pair)) as u16)
    } else {
        None
    }
}

/// The pair that a pair id resolves to in an atlas holding `pairs`.
pub open spec fn resolved_pair(pairs: Seq<ColorPair>, pair_id: u16) -> ColorPair {
    if pair_id < first_extended() {
        ColorPair {
            fg: spec_from_color(Style::spec_inline_fg(pair_id)),
            bg: spec_from_color(Style::spec_inline_bg(pair_id)),
        }
    } else if pair_id - first_extended() < pairs.len() {
        pairs[pair_id - first_extended()]
    } else {
        ColorPair { fg: ColorSpec::Default, bg: ColorSpec::Default }
    }
}

/// The number a color spec is filed under: its kind (default, ANSI 16, ANSI 256, RGB) in
/// the bits above 24, its payload below.
pub open spec fn spec_code(c: ColorSpec) -> int {
    match c {
        ColorSpec::Default => 0,
        ColorSpec::Ansi16(col) => 0x100_0000 + color_index(col),
        ColorSpec::Ansi256(n) => 0x200_0000 + n,
        ColorSpec::Rgb(r, g, b) => 0x300_0000 + r * 0x1_0000 + g * 0x100 + b,
    }
}

/// The number a pair is filed under in an atlas's lookup: the foreground's code above 32
/// bits, the background's below.
pub open spec fn pair_code(p: ColorPair) -> int {
    spec_code(p.fg) * 0x1_0000_0000 + spec_code(p.bg)
}

/// Codes of color specs fit in 32 bits, and different specs have different codes.
proof fn lemma_code_injective(a: ColorSpec, b: ColorSpec)
    ensures
        0 <= spec_code(a) < 0x1_0000_0000,
        spec_code(a) == spec_code(b) ==> a == b,
{
    lemma_color_index_bound();
    if spec_code(a) == spec_code(b) {
        match (a, b) {
            (ColorSpec::Rgb(r1, g1, b1), ColorSpec::Rgb(r2, g2, b2)) => {
                assert(r1 == r2 && g1 == g2 && b1 == b2) by (nonlinear_arith)
                    requires
                        r1 * 0x1_0000 + g1 * 0x100 + b1 == r2 * 0x1_0000 + g2 * 0x100 + b2,
                        0 <= r1 < 256, 0 <= g1 < 256, 0 <= b1 < 256,
                        0 <= r2 < 256, 0 <= g2 < 256, 0 <= b2 < 256,
                ;
            },
            (ColorSpec::Ansi16(c1), ColorSpec::Ansi16(c2)) => {
                lemma_color_index_roundtrip(c1);
                lemma_color_index_roundtrip(c2);
            },
            _ => {},
        }
    }
}

/// Every color's packed number is at most 8.
proof fn lemma_color_index_bound()
    ensures
        forall|c: Color| #[trigger] color_index(c) <= 8,
{
    assert forall|c: Color| #[trigger] color_index(c) <= 8 by {
        lemma_color_index_roundtrip(c);
    }
}

/// Different pairs have different codes, each within 64 bits.
proof fn lemma_pair_code_injective(a: ColorPair, b: ColorPair)
    ensures
        0 <= pair_code(a) <= u64::MAX,
        pair_code(a) == pair_code(b) ==> a == b,
{
    lemma_code_injective(a.fg, b.fg);
    lemma_code_injective(a.bg, b.bg);
    lemma_code_injective(b.fg, a.fg);
    lemma_code_injective(b.bg, a.bg);
    let (x1, y1, x2, y2) = (spec_code(a.fg), spec_code(a.bg), spec_code(b.fg), spec_code(b.bg));
    assert(0 <= x1 * 0x1_0000_0000 + y1 <= u64::MAX) by (nonlinear_arith)
        requires
            0 <= x1 < 0x1_0000_0000,
            0 <= y1 < 0x1_0000_0000,
    ;
    if pair_code(a) == pair_code(b) {
        assert(x1 == x2 && y1 == y2) by (nonlinear_arith)
            requires
                x1 * 0x1_0000_0000 + y1 == x2 * 0x1_0000_0000 + y2,
                0 <= y1 < 0x1_0000_0000,
                0 <= y2 < 0x1_0000_0000,
                0 <= x1,
                0 <= x2,
        ;
    }
}

impl ColorSpec {
    /// Returns the number this spec is filed under.
    fn code(self) -> (c: u64)
        ensures
            c == spec_code(self),
    {
        proof {
            lemma_code_injective(self, self);
        }
        match self {
            ColorSpec::Default => 0,
            ColorSpec::Ansi16(col) => 0x100_0000 + col.index() as u64,
            ColorSpec::Ansi256(n) => 0x200_0000 + n as u64,
            ColorSpec::Rgb(r, g, b) => 0x300_0000 + (r as u64) * 0x1_0000 + (g as u64) * 0x100 + b as u64,
        }
    }
}

impl ColorPair {
    /// Returns the number this pair is filed under.
    fn code(self) -> (c: u64)
        ensures
            c == pair_code(self),
    {
        proof {
            lemma_pair_code_injective(self, self);
            lemma_code_injective(self.fg, self.fg);
            lemma_code_injective(self.bg, self.bg);
        }
        let f = self.fg.code();
        let b = self.bg.code();
        assert(f * 0x1_0000_0000 + b <= u64::MAX);
        f * 0x1_0000_0000 + b
    }
}

/// Interns foreground/background pairs for RGB and ANSI256 rendering.
#[derive(Debug)]
pub struct ColorAtlas {
    /// Extended pairs stored out-of-line, in the order they were first interned.
    pairs: Vec<ColorPair>,
    /// Reverse lookup from a pair's code to its pair id.
    lookup: HashMap<u64, u16>,
}

impl View for ColorAtlas {
    type V = Seq<ColorPair>;

    closed spec fn view(&self) -> Seq<ColorPair> {
        self.pairs@
    }
}

impl ColorAtlas {
    /// The lookup maps exactly the codes of the interned pairs, each to its pair id.
    pub closed spec fn lookup_ok(&self) -> bool {
        &&& forall|i: int|
            0 <= i < self.pairs@.len() ==> self.lookup@.contains_key(pair_code(#[trigger] self.pairs@[i]) as u64)
                && self.lookup@[pair_code(self.pairs@[i]) as u64] == first_extended() + i
        &&& forall|k: u64| #[trigger]
            self.lookup@.contains_key(k) ==> exists|i: int|
                0 <= i < self.pairs@.len() && pair_code(#[trigger] self.pairs@[i]) == k
    }

    /// Well-formedness: the lookup finds every interned pair, and every interned pair is
    /// extended, occurs once, and has an id that fits in a `u16`.
    pub open spec fn wf(&self) -> bool {
        &&& self.lookup_ok()
        &&& self@.no_duplicates()
        &&& forall|i: int| 0 <= i < self@.len() ==> !(#[trigger] self@[i]).is_builtin()
        &&& first_extended() + self@.len() <= u16::MAX + 1
    }

    /// Interning `pair` needs no new id, or there is room for one more.
    pub open spec fn can_intern(&self, pair: ColorPair) -> bool {
        pair.is_builtin() || self@.contains(pair) || first_extended() + self@.len() <= u16::MAX
    }

    /// The atlas after interning `pair`.
    pub open spec fn interned(pairs: Seq<ColorPair>, pair: ColorPair) -> Seq<ColorPair> {
        if pair.is_builtin() || pairs.contains(pair) {
            pairs
        } else {
            pairs.push(pair)
        }
    }

    /// Creates a new empty color-pair atlas.
    pub fn new() -> (a: Self)
        ensures
            a.wf(),
            a@ == Seq::<ColorPair>::empty(),
    {
        ColorAtlas { pairs: Vec::new(), lookup: HashMap::new() }
    }

    /// Interns a pair and returns its stable pair id.
    pub fn intern_pair(&mut self, pair: ColorPair) -> (id: u16)
        requires
            old(self).wf(),
            old(self).can_intern(pair),
        ensures
            final(self).wf(),
            final(self)@ == Self::interned(old(self)@, pair),
            Some(id) == known_pair_id(final(self)@, pair),
            resolved_pair(final(self)@, id) == normalized(pair),
    {
        if pair.fg.is_default_or_ansi16() && pair.bg.is_default_or_ansi16() {
            let fg = match pair.fg {
                ColorSpec::Ansi16(color) => color,
                _ => Color::Default,
            };
            let bg = match pair.bg {
                ColorSpec::Ansi16(color) => color,
                _ => Color::Default,
            };
            let id = Style::builtin_pair_id(fg, bg);
            proof {
                Style::lemma_builtin_pair_roundtrip(fg, bg);
            }
            return id;
        }
        let code = pair.code();
        let ghost s = self@;
        match self.lookup.get(&code) {
            Some(found) => {
                let id = *found;
                proof {
                    let i = choose|i: int| 0 <= i < s.len() && pair_code(#[trigger] self.pairs@[i]) == code;
                    lemma_pair_code_injective(s[i], pair);
                    assert(s[i] == pair);
                    assert(s.contains(pair));
                    s.index_of_first_ensures(pair);
                    let k = s.index_of(pair);
                    if k != i {
                        assert(s[k] == s[i]);
                    }
                    assert(self.lookup@[pair_code(self.pairs@[i]) as u64] == first_extended() + i);
                }
                id
            },
            None => {
                proof {
                    if s.contains(pair) {
                        let i = choose|i: int| 0 <= i < s.len() && s[i] == pair;
                        assert(self.lookup@.contains_key(pair_code(self.pairs@[i]) as u64));
                    }
                }
                let idx = self.pairs.len();
                let id = 81 + idx as u16;
                let ghost m = self.lookup@;
                self.pairs.push(pair);
                self.lookup.insert(code, id);
                proof {
                    assert(self@ == s.push(pair));
                    assert forall|a: int, b: int|
                        0 <= a < self@.len() && 0 <= b < self@.len() && a != b implies self@[a]
                        != self@[b] by {
                        if a < s.len() && b < s.len() {
                            assert(s[a] != s[b]);
                        } else if a < s.len() {
                            assert(s.contains(s[a]));
                        } else if b < s.len() {
                            assert(s.contains(s[b]));
                        }
                    }
                    assert forall|i: int| 0 <= i < self.pairs@.len() implies self.lookup@.contains_key(
                        pair_code(#[trigger] self.pairs@[i]) as u64,
                    ) && self.lookup@[pair_code(self.pairs@[i]) as u64] == first_extended() + i by {
                        if i < s.len() {
                            assert(self.pairs@[i] == s[i]);
                            lemma_pair_code_injective(s[i], pair);
                            assert(m.contains_key(pair_code(s[i]) as u64));
                            lemma_pair_code_injective(pair, pair);
                            if pair_code(s[i]) as u64 == code {
                                assert(pair_code(s[i]) == pair_code(pair));
                            }
                        }
                    }
                    assert forall|k: u64| #[trigger] self.lookup@.contains_key(k) implies exists|i: int|
                        0 <= i < self.pairs@.len() && pair_code(#[trigger] self.pairs@[i]) == k by {
                        if k == code {
                            assert(self.pairs@[idx as int] == pair);
                        } else {
                            let i = choose|i: int| 0 <= i < s.len() && pair_code(#[trigger] old(self).pairs@[i]) == k;
                            assert(self.pairs@[i] == s[i]);
                        }
                    }
                    assert(self@.contains(pair)) by {
                        assert(self@[idx as int] == pair);
                    }
                    self@.index_of_first_ensures(pair);
                    let k = self@.index_of(pair);
                    if k != idx {
                        assert(self@[k] == self@[idx as int]);
                    }
                }
                id
            },
        }
    }

    /// Applies a sparse patch to an already resolved style.
    pub fn apply_patch(&mut self, base: Style, patch: StylePatch) -> (s: Style)
        requires
            old(self).wf(),
            old(self).can_intern(patched_pair(resolved_pair(old(self)@, base.spec_pair()), patch)),
        ensures
            final(self).wf(),
            patch.spec_is_empty() ==> s == base && final(self)@ == old(self)@,
            !patch.spec_is_empty() ==> {
                let pair = patched_pair(resolved_pair(old(self)@, base.spec_pair()), patch);
                &&& final(self)@ == Self::interned(old(self)@, pair)
                &&& s.spec_flags() == (base.spec_flags() | patch.add_flags) & Style::FLAG_MASK
                &&& Some(s.spec_pair()) == known_pair_id(final(self)@, pair)
                &&& resolved_pair(final(self)@, s.spec_pair()) == normalized(pair)
            },
    {
        if patch.is_empty() {
            return base;
        }
        let pair = self.resolve_pair(base.pair_id());
        let fg = match patch.fg {
            Some(c) => c,
            None => pair.fg,
        };
        let bg = match patch.bg {
            Some(c) => c,
            None => pair.bg,
        };
        self.style(base.flags() | patch.add_flags, fg, bg)
    }

    /// Resolves a pair id into a foreground/background pair.
    pub fn resolve_pair(&self, pair_id: u16) -> (p: ColorPair)
        ensures
            p == resolved_pair(self@, pair_id),
    {
        if Style::is_inline_pair_id(pair_id) {
            return ColorPair {
                fg: ColorSpec::from_color(Style::inline_fg_from_pair_id(pair_id)),
                bg: ColorSpec::from_color(Style::inline_bg_from_pair_id(pair_id)),
            };
        }
        let index = (pair_id - 81) as usize;
        if index < self.pairs.len() {
            self.pairs[index]
        } else {
            ColorPair::default()
        }
    }

    /// Creates a style from flags and a pair of renderer-facing colors.
    pub fn style(&mut self, flags: u32, fg: ColorSpec, bg: ColorSpec) -> (s: Style)
        requires
            old(self).wf(),
            old(self).can_intern(ColorPair { fg, bg }),
        ensures
            final(self).wf(),
            final(self)@ == Self::interned(old(self)@, ColorPair { fg, bg }),
            s.spec_flags() == flags & Style::FLAG_MASK,
            Some(s.spec_pair()) == known_pair_id(final(self)@, ColorPair { fg, bg }),
            resolved_pair(final(self)@, s.spec_pair()) == normalized(ColorPair { fg, bg }),
    {
        let id = self.intern_pair(ColorPair::new(fg, bg));
        let s = Style::new().with_flags(flags).with_pair(id);
        proof {
            Style::lemma_zero_or(flags & Style::FLAG_MASK);
        }
        s
    }

    /// Rebuilds a style with a new foreground while preserving flags and bg.
    pub fn with_fg(&mut self, style: Style, fg: ColorSpec) -> (s: Style)
        requires
            old(self).wf(),
            old(self).can_intern(
                ColorPair { fg, bg: resolved_pair(old(self)@, style.spec_pair()).bg },
            ),
        ensures
            final(self).wf(),
            ({
                let pair = ColorPair { fg, bg: resolved_pair(old(self)@, style.spec_pair()).bg };
                &&& final(self)@ == Self::interned(old(self)@, pair)
                &&& s.spec_flags() == style.spec_flags()
                &&& Some(s.spec_pair()) == known_pair_id(final(self)@, pair)
                &&& resolved_pair(final(self)@, s.spec_pair()) == normalized(pair)
            }),
    {
        let mut pair = self.resolve_pair(style.pair_id());
        pair.fg = fg;
        let id = self.intern_pair(pair);
        let s = Style::new().with_flags(style.flags()).with_pair(id);
        proof {
            Style::lemma_flags_masked(style);
            
        }
        s
    }

    /// Rebuilds a style with a new background while preserving flags and fg.
    pub fn with_bg(&mut self, style: Style, bg: ColorSpec) -> (s: Style)
        requires
            old(self).wf(),
            old(self).can_intern(
                ColorPair { fg: resolved_pair(old(self)@, style.spec_pair()).fg, bg },
            ),
        ensures
            final(self).wf(),
            ({
                let pair = ColorPair { fg: resolved_pair(old(self)@, style.spec_pair()).fg, bg };
                &&& final(self)@ == Self::interned(old(self)@, pair)
                &&& s.spec_flags() == style.spec_flags()
                &&& Some(s.spec_pair()) == known_pair_id(final(self)@, pair)
                &&& resolved_pair(final(self)@, s.spec_pair()) == normalized(pair)
            }),
    {
        let mut pair = self.resolve_pair(style.pair_id());
        pair.bg = bg;
        let id = self.intern_pair(pair);
        let s = Style::new().with_flags(style.flags()).with_pair(id);
        proof {
            Style::lemma_flags_masked(style);
            
        }
        s
    }
}

impl ColorSpec {
    /// True for the terminal default and the classic ANSI colors.
    pub fn is_default_or_ansi16(&self) -> (b: bool)
        ensures
            b == self.is_builtin(),
    {
        match self {
            ColorSpec::Default => true,
            ColorSpec::Ansi16(_) => true,
            _ => false,
        }
    }
}

/// The pair that resolving an interned `pair` gives back: builtin pairs come back with
/// `Ansi16(Default)` written as `Default`, extended pairs unchanged.
pub open spec fn normalized(pair: ColorPair) -> ColorPair {
    if pair.is_builtin() {
        ColorPair {
            fg: spec_from_color(pair.fg.builtin_color()),
            bg: spec_from_color(pair.bg.builtin_color()),
        }
    } else {
        pair
    }
}

/// The pair obtained by replacing the colors of `pair` that `patch` overrides.
pub open spec fn patched_pair(pair: ColorPair, patch: StylePatch) -> ColorPair {
    ColorPair {
        fg: match patch.fg {
            Some(c) => c,
            None => pair.fg,
        },
        bg: match patch.bg {
            Some(c) => c,
            None => pair.bg,
        },
    }
}

} // verus!
