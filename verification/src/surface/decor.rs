//! Pane decoration: window borders and titles, the insets they reserve, and hit-testing.
use vstd::prelude::*;

use crate::surface::color::Color;
use crate::surface::geometry::{Point, Size, min_of, min_usize};
use crate::surface::glyph::{
    BorderKind,
    BoxDraw,
    Glyph,
    blank_glyph,
    border_cross,
    border_glyphs,
    box_char,
    rune_of,
    styled_glyph,
};
use crate::surface::pane::{
    Pane,
    PaneElement,
    chars_of,
    lemma_tracks_compose,
    lemma_tracks_set,
    lemma_tracks_set_outside,
    lemma_tracks_start,
    target_set,
    target_then,
    tracks,
};
use crate::surface::style::Style;

verus! {

/// Insets reserved by pane decoration.
#[derive(Debug, Clone, Copy, PartialEq, Eq, Structural)]
pub struct Insets {
    pub left: usize,
    pub top: usize,
    pub right: usize,
    pub bottom: usize,
}

impl Default for Insets {
    fn default() -> (i: Self)
        ensures
            i == (Insets { left: 0, top: 0, right: 0, bottom: 0 }),
    {
        Insets::zero()
    }
}

impl Insets {
    /// No insets at all.
    pub fn zero() -> (i: Self)
        ensures
            i == (Insets { left: 0, top: 0, right: 0, bottom: 0 }),
    {
        Insets { left: 0, top: 0, right: 0, bottom: 0 }
    }
}

/// The glyph of a box-drawing marker in a style.
pub open spec fn box_glyph(b: BoxDraw, st: Style) -> Glyph {
    Glyph { style: st, rune: rune_of(box_char(b)) }
}

/// The style of a border: red and bold when focused.
pub open spec fn border_style_for(st: Style, focused: bool) -> Style {
    if focused {
        st.spec_with_fg(Color::Red).spec_bold()
    } else {
        st
    }
}

/// The style of a title: red and bold when focused, bold otherwise.
pub open spec fn title_style_for(st: Style, focused: bool) -> Style {
    if focused {
        st.spec_with_fg(Color::Red).spec_bold()
    } else {
        st.spec_bold()
    }
}

/// The border of a `w` by `h` pane after the corners, the top and bottom edges up to
/// column `kx`, and the side edges up to row `ky` have been drawn.
pub open spec fn border_target(
    kind: BorderKind,
    st: Style,
    resize: bool,
    w: int,
    h: int,
    kx: int,
    ky: int,
) -> spec_fn(int, int) -> Option<Glyph> {
    |x: int, y: int|
        {
            let g = border_glyphs(kind);
            let br = if resize {
                border_cross(kind)
            } else {
                g.5
            };
            if x == 0 && y == 0 {
                Some(box_glyph(g.2, st))
            } else if x == w - 1 && y == 0 {
                Some(box_glyph(g.3, st))
            } else if x == 0 && y == h - 1 {
                Some(box_glyph(g.4, st))
            } else if x == w - 1 && y == h - 1 {
                Some(box_glyph(br, st))
            } else if (y == 0 || y == h - 1) && 1 <= x < kx {
                Some(box_glyph(g.0, st))
            } else if (x == 0 || x == w - 1) && 1 <= y < ky {
                Some(box_glyph(g.1, st))
            } else {
                None
            }
        }
}

/// The header row of a `w` by `h` pane cleared to blanks.
pub open spec fn header_target(w: int, h: int) -> spec_fn(int, int) -> Option<Glyph> {
    |x: int, y: int|
        if y == 0 && 0 <= x < w && h > 0 {
            Some(blank_glyph())
        } else {
            None
        }
}

/// The first `k` title characters drawn from column `start` of the header row.
pub open spec fn title_target(
    chars: Seq<char>,
    st: Style,
    start: int,
    k: int,
) -> spec_fn(int, int) -> Option<Glyph> {
    |x: int, y: int|
        if y == 0 && start <= x < start + k {
            Some(styled_glyph(chars[x - start], st))
        } else {
            None
        }
}

/// Decorations that may be applied to a pane.
pub enum PaneDecor {
    Plain,
    Window(WindowDecor),
}

impl Default for PaneDecor {
    fn default() -> (d: Self)
        ensures
            d matches PaneDecor::Window(w) && w.border is None && w.title is None && w.style
                == Style::spec_default().spec_with_fg(Color::White),
    {
        PaneDecor::Window(WindowDecor::default())
    }
}

impl PaneDecor {
    /// The insets the decoration reserves.
    pub open spec fn spec_insets(&self) -> Insets {
        match self {
            PaneDecor::Plain => Insets { left: 0, top: 0, right: 0, bottom: 0 },
            PaneDecor::Window(w) => w.spec_insets(),
        }
    }

    /// The smallest outer size the decoration allows.
    pub open spec fn spec_min_outer_size(&self) -> Size {
        match self {
            PaneDecor::Plain => Size { width: 1, height: 1 },
            PaneDecor::Window(w) => w.spec_min_outer_size(),
        }
    }

    /// The cells that rendering the decoration on a `w` by `h` pane draws.
    pub open spec fn render_target(&self, w: int, h: int, focused: bool, resize: bool) -> spec_fn(
        int,
        int,
    ) -> Option<Glyph> {
        match self {
            PaneDecor::Plain => |x: int, y: int| None::<Glyph>,
            PaneDecor::Window(win) => win.render_target(w, h, focused, resize),
        }
    }

    /// The element of a `w` by `h` pane at pane-local `local`.
    pub open spec fn spec_hit_test(&self, w: int, h: int, local: Point) -> PaneElement {
        match self {
            PaneDecor::Plain => PaneElement::Content,
            PaneDecor::Window(win) => win.spec_hit_test(w, h, local),
        }
    }

    /// The title, for decorations that have one.
    pub open spec fn spec_title(&self) -> Option<Seq<char>> {
        match self {
            PaneDecor::Plain => None,
            PaneDecor::Window(win) => win.spec_title(),
        }
    }

    /// Returns the insets contributed by the decoration.
    pub fn insets(&self) -> (i: Insets)
        ensures
            i == self.spec_insets(),
            i.left <= 1 && i.top <= 1 && i.right <= 1 && i.bottom <= 1,
    {
        match self {
            PaneDecor::Plain => Insets::zero(),
            PaneDecor::Window(window) => window.insets(),
        }
    }

    /// Returns the minimum outer size contributed by the decoration.
    pub fn min_outer_size(&self) -> (s: Size)
        ensures
            s == self.spec_min_outer_size(),
            s.width >= 1 && s.height >= 1,
    {
        match self {
            PaneDecor::Plain => Size { width: 1, height: 1 },
            PaneDecor::Window(window) => window.min_outer_size(),
        }
    }

    /// Renders the decoration into the pane.
    pub fn render(&self, pane: &mut Pane, focused: bool, resize: bool)
        requires
            old(pane).wf(),
        ensures
            tracks(
                *final(pane),
                *old(pane),
                self.render_target(
                    old(pane).spec_rect().width as int,
                    old(pane).spec_rect().height as int,
                    focused,
                    resize,
                ),
            ),
    {
        match self {
            PaneDecor::Plain => {
                proof {
                    lemma_tracks_start(*pane);
                }
            },
            PaneDecor::Window(window) => window.render(pane, focused, resize),
        }
    }

    /// Hit-tests a pane-local position against the decoration.
    pub fn hit_test(&self, pane: &Pane, local: Point) -> (e: PaneElement)
        ensures
            e == self.spec_hit_test(
                pane.spec_rect().width as int,
                pane.spec_rect().height as int,
                local,
            ),
    {
        match self {
            PaneDecor::Plain => PaneElement::Content,
            PaneDecor::Window(window) => window.hit_test(pane, local),
        }
    }

    /// Sets the title when supported by the decoration and changed; returns whether it
    /// changed.
    pub fn set_title(&mut self, title: Option<String>) -> (changed: bool)
        ensures
            match *old(self) {
                PaneDecor::Plain => !changed && *final(self) == *old(self),
                PaneDecor::Window(w) => {
                    &&& changed == (w.spec_title() != title_view(title))
                    &&& !changed ==> *final(self) == *old(self)
                    &&& *final(self) matches PaneDecor::Window(w2)
                    &&& w2.border == w.border
                    &&& w2.style == w.style
                    &&& w2.spec_title() == (if changed {
                        title_view(title)
                    } else {
                        w.spec_title()
                    })
                },
            },
    {
        match self {
            PaneDecor::Plain => false,
            PaneDecor::Window(window) => window.set_title(title),
        }
    }
}

/// The characters of an optional title.
pub open spec fn title_view(t: Option<String>) -> Option<Seq<char>> {
    match t {
        Some(s) => Some(s@),
        None => None,
    }
}

/// Default window-like decoration used by the crate.
pub struct WindowDecor {
    pub border: Option<BorderKind>,
    pub style: Style,
    pub title: Option<String>,
}

impl Default for WindowDecor {
    fn default() -> (d: Self)
        ensures
            d.border is None,
            d.title is None,
            d.style == Style::spec_default().spec_with_fg(Color::White),
    {
        WindowDecor { border: None, style: Style::default().with_fg(Color::White), title: None }
    }
}

impl WindowDecor {
    /// The title's characters, if there is a title.
    pub open spec fn spec_title(&self) -> Option<Seq<char>> {
        title_view(self.title)
    }

    /// The title's characters, or nothing.
    pub open spec fn title_chars(&self) -> Seq<char> {
        match self.title {
            Some(t) => t@,
            None => Seq::empty(),
        }
    }

    /// The first column and the number of title cells on a `w` by `h` pane.
    pub open spec fn title_span(&self, w: int, h: int) -> (int, int) {
        if self.title is None || w == 0 || h == 0 {
            (0, 0)
        } else if self.border is Some {
            if w <= 2 {
                (1, 0)
            } else {
                (1, min_of(self.title_chars().len() as int, w - 2))
            }
        } else {
            (0, min_of(self.title_chars().len() as int, w))
        }
    }

    /// The cells that rendering draws on a `w` by `h` pane.
    pub open spec fn render_target(&self, w: int, h: int, focused: bool, resize: bool) -> spec_fn(
        int,
        int,
    ) -> Option<Glyph> {
        let span = self.title_span(w, h);
        let title = title_target(
            self.title_chars(),
            title_style_for(self.style, focused),
            span.0,
            span.1,
        );
        let base = match self.border {
            Some(kind) => if w >= 2 && h >= 2 {
                border_target(kind, border_style_for(self.style, focused), resize, w, h, w - 1, h - 1)
            } else {
                |x: int, y: int| None::<Glyph>
            },
            None => header_target(w, h),
        };
        target_then(base, title)
    }

    /// The insets the decoration reserves.
    pub open spec fn spec_insets(&self) -> Insets {
        if self.title is Some && self.border is None {
            Insets { left: 0, top: 1, right: 0, bottom: 0 }
        } else if self.border is Some {
            Insets { left: 1, top: 1, right: 1, bottom: 1 }
        } else {
            Insets { left: 0, top: 0, right: 0, bottom: 0 }
        }
    }

    /// The smallest outer size the decoration allows.
    pub open spec fn spec_min_outer_size(&self) -> Size {
        if self.border is Some {
            Size { width: 2, height: 2 }
        } else {
            Size { width: 1, height: 1 }
        }
    }

    /// The element of a `w` by `h` pane at pane-local `local`.
    pub open spec fn spec_hit_test(&self, w: int, h: int, local: Point) -> PaneElement {
        if w == 0 || h == 0 {
            PaneElement::Content
        } else if self.border is None {
            if self.title is Some && local.y == 0 {
                PaneElement::Title
            } else {
                PaneElement::Content
            }
        } else if local.x == w - 1 && local.y == h - 1 {
            PaneElement::Resize
        } else if local.y == 0 {
            PaneElement::Title
        } else if local.x == 0 || local.x == w - 1 || local.y == h - 1 {
            PaneElement::Border
        } else {
            PaneElement::Content
        }
    }

    /// Creates a new instance of WindowDecor with default behavior.
    pub fn new() -> (d: Self)
        ensures
            d.border is None,
            d.title is None,
            d.style == Style::spec_default().spec_with_fg(Color::White),
    {
        Self::default()
    }

    /// Attach or remove a border from the decor on creation.
    pub fn with_border(self, border: Option<BorderKind>) -> (d: Self)
        ensures
            d.border == border,
            d.style == self.style,
            d.title == self.title,
    {
        WindowDecor { border, style: self.style, title: self.title }
    }

    /// Change the default style for the decor on creation.
    pub fn with_style(self, style: Style) -> (d: Self)
        ensures
            d.border == self.border,
            d.style == style,
            d.title == self.title,
    {
        WindowDecor { border: self.border, style, title: self.title }
    }

    /// Attach or remove title from the decor on creation.
    pub fn with_title(self, title: Option<String>) -> (d: Self)
        ensures
            d.border == self.border,
            d.style == self.style,
            d.title == title,
    {
        WindowDecor { border: self.border, style: self.style, title }
    }

    /// Returns the insets reserved by the window decoration.
    pub fn insets(&self) -> (i: Insets)
        ensures
            i == self.spec_insets(),
    {
        if self.title.is_some() && self.border.is_none() {
            return Insets { left: 0, top: 1, right: 0, bottom: 0 };
        }
        match self.border {
            Some(_) => Insets { left: 1, top: 1, right: 1, bottom: 1 },
            None => Insets::zero(),
        }
    }

    /// Returns the minimum outer size for the window decoration.
    pub fn min_outer_size(&self) -> (s: Size)
        ensures
            s == self.spec_min_outer_size(),
    {
        match self.border {
            Some(_) => Size { width: 2, height: 2 },
            None => Size { width: 1, height: 1 },
        }
    }

    /// Sets the title when it has changed; returns whether it changed.
    pub fn set_title(&mut self, title: Option<String>) -> (changed: bool)
        ensures
            changed == (old(self).spec_title() != title_view(title)),
            !changed ==> *final(self) == *old(self),
            final(self).border == old(self).border,
            final(self).style == old(self).style,
            final(self).spec_title() == (if changed {
                title_view(title)
            } else {
                old(self).spec_title()
            }),
    {
        let same = match (&self.title, &title) {
            (Some(a), Some(b)) => *a == *b,
            (None, None) => true,
            _ => false,
        };
        if same {
            return false;
        }
        self.title = title;
        true
    }

    /// Renders the decoration into the pane.
    pub fn render(&self, pane: &mut Pane, focused: bool, resize: bool)
        requires
            old(pane).wf(),
        ensures
            tracks(
                *final(pane),
                *old(pane),
                self.render_target(
                    old(pane).spec_rect().width as int,
                    old(pane).spec_rect().height as int,
                    focused,
                    resize,
                ),
            ),
    {
        let ghost p0 = *pane;
        let w = pane.width();
        let h = pane.height();
        if self.border.is_some() {
            self.draw_border(pane, focused, resize);
        } else {
            self.clear_header_row(pane);
        }
        let ghost p1 = *pane;
        self.draw_title(pane, focused);
        proof {
            let span = self.title_span(w as int, h as int);
            let title = title_target(
                self.title_chars(),
                title_style_for(self.style, focused),
                span.0,
                span.1,
            );
            let base = match self.border {
                Some(kind) => if w >= 2 && h >= 2 {
                    border_target(
                        kind,
                        border_style_for(self.style, focused),
                        resize,
                        w as int,
                        h as int,
                        w - 1,
                        h - 1,
                    )
                } else {
                    |x: int, y: int| None::<Glyph>
                },
                None => header_target(w as int, h as int),
            };
            lemma_tracks_compose(p1, *pane, p0, base, title);
        }
    }

    /// Hit-tests a pane-local position against the window decoration.
    pub fn hit_test(&self, pane: &Pane, local: Point) -> (e: PaneElement)
        ensures
            e == self.spec_hit_test(
                pane.spec_rect().width as int,
                pane.spec_rect().height as int,
                local,
            ),
    {
        let r = pane.rect();
        let width = r.width;
        let height = r.height;
        if width == 0 || height == 0 {
            return PaneElement::Content;
        }
        if self.border.is_none() {
            if self.title.is_some() && local.y == 0 {
                return PaneElement::Title;
            }
            return PaneElement::Content;
        }
        let last_x = width - 1;
        let last_y = height - 1;
        if local.x == last_x && local.y == last_y {
            return PaneElement::Resize;
        }
        if local.y == 0 {
            return PaneElement::Title;
        }
        if local.x == 0 || local.y == 0 || local.x == last_x || local.y == last_y {
            return PaneElement::Border;
        }
        PaneElement::Content
    }

    /// Clears the header row before title rendering.
    fn clear_header_row(&self, pane: &mut Pane)
        requires
            old(pane).wf(),
        ensures
            tracks(
                *final(pane),
                *old(pane),
                header_target(
                    old(pane).spec_rect().width as int,
                    old(pane).spec_rect().height as int,
                ),
            ),
    {
        let ghost p0 = *pane;
        let width = pane.width();
        let height = pane.height();
        proof {
            lemma_tracks_start(*pane);
        }
        if width == 0 || height == 0 {
            proof {
                assert(header_target(width as int, height as int) =~= (|x: int, y: int| None::<Glyph>));
            }
            return;
        }
        let blank = Glyph::default();
        let mut x: usize = 0;
        proof {
            assert(header_target(width as int, 0) =~= (|x: int, y: int| None::<Glyph>));
        }
        while x < width
            invariant
                x <= width,
                width == p0.spec_rect().width,
                height == p0.spec_rect().height,
                height > 0,
                blank == blank_glyph(),
                tracks(*pane, p0, header_target(x as int, height as int)),
            decreases width - x,
        {
            let ghost pre = *pane;
            pane.decor_raw_set(Point::new(x, 0), blank);
            proof {
                lemma_tracks_set(pre, *pane, p0, header_target(x as int, height as int), Point { x, y: 0 }, blank);
                assert(target_set(header_target(x as int, height as int), x as int, 0, blank)
                    =~= header_target(x + 1, height as int));
            }
            x += 1;
        }
    }

    /// Draws the border around the pane.
    fn draw_border(&self, pane: &mut Pane, focused: bool, resize: bool)
        requires
            old(pane).wf(),
            self.border is Some,
        ensures
            tracks(
                *final(pane),
                *old(pane),
                if old(pane).spec_rect().width >= 2 && old(pane).spec_rect().height >= 2 {
                    border_target(
                        self.border.unwrap(),
                        border_style_for(self.style, focused),
                        resize,
                        old(pane).spec_rect().width as int,
                        old(pane).spec_rect().height as int,
                        old(pane).spec_rect().width - 1,
                        old(pane).spec_rect().height - 1,
                    )
                } else {
                    |x: int, y: int| None::<Glyph>
                },
            ),
    {
        let ghost p0 = *pane;
        proof {
            lemma_tracks_start(*pane);
        }
        let kind = match self.border {
            Some(k) => k,
            None => {
                return;
            },
        };
        let width = pane.width();
        let height = pane.height();
        if width < 2 || height < 2 {
            return;
        }
        let style = if focused {
            self.style.with_fg(Color::Red).bold()
        } else {
            self.style
        };
        let (hz, vt, tl, tr, bl, br) = kind.glyphs();
        let br = if resize {
            kind.cross()
        } else {
            br
        };
        let ghost w = width as int;
        let ghost hh = height as int;
        let ghost t0 = |x: int, y: int| None::<Glyph>;
        let g_tl = Glyph::from_box(tl).with_style(style);
        let g_tr = Glyph::from_box(tr).with_style(style);
        let g_bl = Glyph::from_box(bl).with_style(style);
        let g_br = Glyph::from_box(br).with_style(style);
        let g_h = Glyph::from_box(hz).with_style(style);
        let g_v = Glyph::from_box(vt).with_style(style);
        let ghost pa = *pane;
        pane.decor_raw_set(Point::new(0, 0), g_tl);
        let ghost pb = *pane;
        proof {
            lemma_tracks_set(pa, pb, p0, t0, Point { x: 0, y: 0 }, g_tl);
        }
        let ghost t1 = target_set(t0, 0, 0, g_tl);
        pane.decor_raw_set(Point::new(width - 1, 0), g_tr);
        let ghost pc = *pane;
        proof {
            lemma_tracks_set(pb, pc, p0, t1, Point { x: (width - 1) as usize, y: 0 }, g_tr);
        }
        let ghost t2 = target_set(t1, w - 1, 0, g_tr);
        pane.decor_raw_set(Point::new(0, height - 1), g_bl);
        let ghost pd = *pane;
        proof {
            lemma_tracks_set(pc, pd, p0, t2, Point { x: 0, y: (height - 1) as usize }, g_bl);
        }
        let ghost t3 = target_set(t2, 0, hh - 1, g_bl);
        pane.decor_raw_set(Point::new(width - 1, height - 1), g_br);
        let ghost pe = *pane;
        proof {
            lemma_tracks_set(
                pd,
                pe,
                p0,
                t3,
                Point { x: (width - 1) as usize, y: (height - 1) as usize },
                g_br,
            );
        }
        let ghost bs = border_style_for(self.style, focused);
        proof {
            assert(style == bs);
            assert(target_set(t3, w - 1, hh - 1, g_br) =~= border_target(
                kind,
                bs,
                resize,
                w,
                hh,
                1,
                1,
            ));
        }
        let mut x: usize = 1;
        while x < width - 1
            invariant
                1 <= x <= width - 1,
                width == p0.spec_rect().width,
                height == p0.spec_rect().height,
                width >= 2,
                height >= 2,
                w == width,
                hh == height,
                g_h == box_glyph(border_glyphs(kind).0, bs),
                tracks(*pane, p0, border_target(kind, bs, resize, w, hh, x as int, 1)),
            decreases width - 1 - x,
        {
            let ghost pre = *pane;
            let ghost tb = border_target(kind, bs, resize, w, hh, x as int, 1);
            pane.decor_raw_set(Point::new(x, 0), g_h);
            let ghost mid = *pane;
            proof {
                lemma_tracks_set(pre, mid, p0, tb, Point { x, y: 0 }, g_h);
            }
            let ghost tm = target_set(tb, x as int, 0, g_h);
            pane.decor_raw_set(Point::new(x, height - 1), g_h);
            proof {
                lemma_tracks_set(mid, *pane, p0, tm, Point { x, y: (height - 1) as usize }, g_h);
                assert(target_set(tm, x as int, hh - 1, g_h) =~= border_target(
                    kind,
                    bs,
                    resize,
                    w,
                    hh,
                    x + 1,
                    1,
                ));
            }
            x += 1;
        }
        let mut y: usize = 1;
        while y < height - 1
            invariant
                1 <= y <= height - 1,
                width == p0.spec_rect().width,
                height == p0.spec_rect().height,
                width >= 2,
                height >= 2,
                w == width,
                hh == height,
                g_v == box_glyph(border_glyphs(kind).1, bs),
                tracks(*pane, p0, border_target(kind, bs, resize, w, hh, w - 1, y as int)),
            decreases height - 1 - y,
        {
            let ghost pre = *pane;
            let ghost tb = border_target(kind, bs, resize, w, hh, w - 1, y as int);
            pane.decor_raw_set(Point::new(0, y), g_v);
            let ghost mid = *pane;
            proof {
                lemma_tracks_set(pre, mid, p0, tb, Point { x: 0, y }, g_v);
            }
            let ghost tm = target_set(tb, 0, y as int, g_v);
            pane.decor_raw_set(Point::new(width - 1, y), g_v);
            proof {
                lemma_tracks_set(mid, *pane, p0, tm, Point { x: (width - 1) as usize, y }, g_v);
                assert(target_set(tm, w - 1, y as int, g_v) =~= border_target(
                    kind,
                    bs,
                    resize,
                    w,
                    hh,
                    w - 1,
                    y + 1,
                ));
            }
            y += 1;
        }
    }

    /// Draws the title into the header area.
    fn draw_title(&self, pane: &mut Pane, focused: bool)
        requires
            old(pane).wf(),
        ensures
            ({
                let span = self.title_span(
                    old(pane).spec_rect().width as int,
                    old(pane).spec_rect().height as int,
                );
                tracks(
                    *final(pane),
                    *old(pane),
                    title_target(
                        self.title_chars(),
                        title_style_for(self.style, focused),
                        span.0,
                        span.1,
                    ),
                )
            }),
    {
        let ghost p0 = *pane;
        let ghost chars = self.title_chars();
        let ghost st = title_style_for(self.style, focused);
        proof {
            lemma_tracks_start(*pane);
        }
        let width = pane.width();
        let height = pane.height();
        let ghost span = self.title_span(width as int, height as int);
        proof {
            assert(title_target(chars, st, span.0, 0) =~= (|x: int, y: int| None::<Glyph>));
        }
        let title = match &self.title {
            Some(t) => t,
            None => {
                return;
            },
        };
        if width == 0 {
            return;
        }
        let style = if focused {
            self.style.with_fg(Color::Red).bold()
        } else {
            self.style.bold()
        };
        let (start_x, max_len) = if self.border.is_some() {
            if width <= 2 {
                return;
            }
            (1usize, width - 2)
        } else {
            (0usize, width)
        };
        let cs = chars_of(title.as_str());
        let n = min_usize(cs.len(), max_len);
        let ghost n_eff: int = if height == 0 {
            0
        } else {
            n as int
        };
        proof {
            assert(style == st);
            assert(span.1 == n_eff);
            assert(height > 0 ==> span.0 == start_x);
        }
        let mut dx: usize = 0;
        while dx < n
            invariant
                dx <= n,
                n <= cs@.len(),
                start_x + n <= width,
                width == p0.spec_rect().width,
                height == p0.spec_rect().height,
                cs@ == chars,
                style == st,
                tracks(*pane, p0, title_target(chars, st, start_x as int, if height == 0 {
                    0
                } else {
                    dx as int
                })),
            decreases n - dx,
        {
            let ghost pre = *pane;
            let ghost tb = title_target(chars, st, start_x as int, if height == 0 {
                0
            } else {
                dx as int
            });
            let g = Glyph::styled(cs[dx], style);
            pane.decor_raw_set(Point::new(start_x + dx, 0), g);
            proof {
                if height > 0 {
                    lemma_tracks_set(pre, *pane, p0, tb, Point { x: (start_x + dx) as usize, y: 0 }, g);
                    assert(target_set(tb, start_x + dx, 0, g) =~= title_target(
                        chars,
                        st,
                        start_x as int,
                        dx + 1,
                    ));
                } else {
                    lemma_tracks_set_outside(pre, *pane, p0, tb, Point { x: (start_x + dx) as usize, y: 0 }, g);
                }
            }
            dx += 1;
        }
        proof {
            assert(title_target(chars, st, start_x as int, if height == 0 {
                0
            } else {
                n as int
            }) =~= title_target(chars, st, span.0, span.1));
        }
    }
}

/// Hit-testing a bordered window: the bottom-right cell is the resize corner, the rest of
/// the top row is the title bar, the rest of the outer ring is the border, and every cell
/// inside the ring is content.
pub proof fn lemma_bordered_hit_regions(win: WindowDecor, w: int, h: int, local: Point)
    requires
        win.border is Some,
        w >= 1,
        h >= 1,
        local.x < w,
        local.y < h,
    ensures
        (win.spec_hit_test(w, h, local) == PaneElement::Resize) <==> (local.x == w - 1 && local.y == h - 1),
        (win.spec_hit_test(w, h, local) == PaneElement::Title) <==> (local.y == 0 && !(local.x == w - 1
            && local.y == h - 1)),
        (win.spec_hit_test(w, h, local) == PaneElement::Content) <==> (0 < local.x < w - 1 && 0 < local.y
            < h - 1),
        (win.spec_hit_test(w, h, local) == PaneElement::Border) <==> (0 < local.y && !(local.x == w - 1
            && local.y == h - 1) && (local.x == 0 || local.x == w - 1 || local.y == h - 1)),
{
}

/// Hit-testing a window without a border: its top row is the title bar when it has a
/// title, and everything else is content.
pub proof fn lemma_unbordered_hit_regions(win: WindowDecor, w: int, h: int, local: Point)
    requires
        win.border is None,
        local.x < w,
        local.y < h,
    ensures
        win.spec_hit_test(w, h, local) == (if win.title is Some && local.y == 0 {
            PaneElement::Title
        } else {
            PaneElement::Content
        }),
{
}

/// A hit on a pane's decoration lands on content exactly inside the insets that the
/// decoration leaves around the content.
pub proof fn lemma_hit_content_within_insets(d: PaneDecor, w: int, h: int, local: Point)
    requires
        local.x < w,
        local.y < h,
    ensures
        (d.spec_hit_test(w, h, local) == PaneElement::Content) <==> ({
            let i = d.spec_insets();
            &&& i.left <= local.x < w - i.right
            &&& i.top <= local.y < h - i.bottom
        }),
{
}

} // verus!
