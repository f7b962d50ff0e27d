//! Composition of panes into frames, and the diffing renderer that turns frames into
//! terminal output.
use vstd::prelude::*;

use crate::surface::damage::{DamagedRow, Span, covered, rows_wf};
use crate::surface::geometry::{Point, Rect, add_sat, max_usize, min_of, min_usize, sat_add};
use crate::surface::glyph::{Glyph, Rune, blank_glyph};
use crate::surface::grid::{lemma_cell_index, lemma_row_range};
use crate::surface::pane::{Pane, filled};
use crate::surface::style::Style;
use crate::surface::color::{Color, color_from_index, color_index};

verus! {

/// Rendering order of panes and widgets: higher layers are drawn on top.
#[derive(Debug, Clone, Copy, PartialEq, Eq, Structural, PartialOrd, Ord, Hash)]
pub struct Layer(pub u16);

impl Default for Layer {
    /// The bottom layer, `0`.
    fn default() -> (l: Self)
        ensures
            l == Layer(0),
    {
        Layer(0)
    }
}

impl Layer {
    /// Creates a layer from its number.
    pub fn new(z: u16) -> (l: Self)
        ensures
            l == Layer(z),
    {
        Layer(z)
    }
}


/// The glyph shown at canvas cell `(x, y)` when `panes` are stacked in order over a
/// background of `clear`: the last visible pane covering the cell wins.
pub open spec fn composed(clear: Glyph, panes: Seq<Pane>, x: int, y: int) -> Glyph
    decreases panes.len(),
{
    if panes.len() == 0 {
        clear
    } else {
        let p = panes.last();
        if p.spec_visible() && p.spec_rect().spec_contains(x, y) {
            p.cell(x - p.spec_rect().x, y - p.spec_rect().y)
        } else {
            composed(clear, panes.drop_last(), x, y)
        }
    }
}

/// Snapshot of a full output.
pub struct Frame {
    width: usize,
    height: usize,
    data: Vec<Glyph>,
}

impl Frame {
    /// Frame width.
    pub closed spec fn spec_width(&self) -> int {
        self.width as int
    }

    /// Frame height.
    pub closed spec fn spec_height(&self) -> int {
        self.height as int
    }

    /// Frame cells, row by row.
    pub closed spec fn cells(&self) -> Seq<Glyph> {
        self.data@
    }

    /// The glyph at `(x, y)`.
    pub open spec fn cell(&self, x: int, y: int) -> Glyph {
        self.cells()[y * self.spec_width() + x]
    }

    /// Storage matches the dimensions.
    pub open spec fn wf(&self) -> bool {
        self.cells().len() == self.spec_width() * self.spec_height()
    }

    /// Initializes a new `Frame` filled with `g`.
    fn new(width: usize, height: usize, g: Glyph) -> (f: Self)
        requires
            width * height <= usize::MAX,
        ensures
            f.wf(),
            f.spec_width() == width,
            f.spec_height() == height,
            forall|x: int, y: int|
                0 <= x < width && 0 <= y < height ==> #[trigger] f.cell(x, y) == g,
    {
        let f = Frame { width, height, data: filled(g, width * height) };
        proof {
            assert forall|x: int, y: int| 0 <= x < width && 0 <= y < height implies #[trigger] f.cell(
                x,
                y,
            ) == g by {
                lemma_cell_index(x, y, width as int, height as int);
            }
        }
        f
    }
}

/// Composes `Panes` onto a `Frame`.
pub struct Compositor {
    back: Frame,
}

impl Compositor {
    /// The composed frame.
    pub closed spec fn spec_back(&self) -> Frame {
        self.back
    }

    /// The composed frame matches its dimensions.
    pub open spec fn wf(&self) -> bool {
        self.spec_back().wf()
    }

    /// Initializes a new `Compositor` whose frame is blank.
    pub fn new(width: usize, height: usize) -> (c: Self)
        requires
            width * height <= usize::MAX,
        ensures
            c.wf(),
            c.spec_back().spec_width() == width,
            c.spec_back().spec_height() == height,
            forall|x: int, y: int|
                0 <= x < width && 0 <= y < height ==> #[trigger] c.spec_back().cell(x, y)
                    == blank_glyph(),
    {
        Compositor { back: Frame::new(width, height, Glyph::default()) }
    }

    /// Width (in columns).
    pub fn width(&self) -> (w: usize)
        ensures
            w == self.spec_back().spec_width(),
    {
        self.back.width
    }

    /// Height (in rows).
    pub fn height(&self) -> (h: usize)
        ensures
            h == self.spec_back().spec_height(),
    {
        self.back.height
    }

    /// Copies the part of `pane` that covers columns `[x0, x1)` of row `y` into the frame.
    fn overlay_pane(back: &mut Vec<Glyph>, width: usize, y: usize, x0: usize, x1: usize, pane: &Pane)
        requires
            pane.wf(),
            x0 < x1 <= width,
            old(back)@.len() >= y * width + width,
        ensures
            final(back)@.len() == old(back)@.len(),
            forall|i: int|
                0 <= i < old(back)@.len() ==> #[trigger] final(back)@[i] == (if y * width + x0 <= i
                    < y * width + x1 && pane.spec_visible() && pane.spec_rect().spec_contains(
                    i - y * width,
                    y as int,
                ) {
                    pane.cell(i - y * width - pane.spec_rect().x, y - pane.spec_rect().y)
                } else {
                    old(back)@[i]
                }),
    {
        if !pane.is_visible() {
            return;
        }
        let r = pane.rect();
        let py0 = r.y;
        let py1 = add_sat(py0, r.height);
        if y < py0 || y >= py1 {
            return;
        }
        let px0 = r.x;
        let px1 = add_sat(px0, r.width);
        let sx0 = max_usize(x0, px0);
        let sx1 = min_usize(min_usize(x1, px1), width);
        if sx0 >= sx1 {
            return;
        }
        let src_y = y - py0;
        let src_x = sx0 - px0;
        let len = sx1 - sx0;
        let pw = r.width;
        let data = pane.data();
        let dn = data.len();
        let bn = back.len();
        proof {
            lemma_cell_index(src_x as int, src_y as int, pw as int, r.height as int);
            lemma_cell_index(0, y as int, width as int, y as int + 1);
        }
        let src_idx = src_y * pw + src_x;
        let dst_idx = y * width + sx0;
        let ghost ob = back@;
        let mut k: usize = 0;
        while k < len
            invariant
                k <= len,
                src_idx + len <= data@.len(),
                dst_idx + len <= ob.len(),
                data@.len() == dn,
                ob.len() == bn,
                back@.len() == ob.len(),
                forall|i: int|
                    0 <= i < ob.len() ==> #[trigger] back@[i] == (if dst_idx <= i < dst_idx + k {
                        data@[src_idx + (i - dst_idx)]
                    } else {
                        ob[i]
                    }),
            decreases len - k,
        {
            back.set(dst_idx + k, data[src_idx + k]);
            k += 1;
        }
        proof {
            assert forall|i: int| 0 <= i < ob.len() implies #[trigger] back@[i] == (if y * width + x0
                <= i < y * width + x1 && pane.spec_visible() && pane.spec_rect().spec_contains(
                i - y * width,
                y as int,
            ) {
                pane.cell(i - y * width - pane.spec_rect().x, y - pane.spec_rect().y)
            } else {
                ob[i]
            }) by {
                if dst_idx <= i < dst_idx + len {
                    let cx = i - y * width - px0;
                    assert(src_idx + (i - dst_idx) == src_y * pw + cx);
                }
            }
        }
    }

    /// Fills columns `[x0, x1)` of row `y` with the stacked panes over `clear`.
    fn compose_span(
        back: &mut Vec<Glyph>,
        width: usize,
        y: usize,
        x0: usize,
        x1: usize,
        clear: Glyph,
        panes: &[Pane],
    )
        requires
            forall|i: int| 0 <= i < panes@.len() ==> (#[trigger] panes@[i]).wf(),
            x0 < x1 <= width,
            old(back)@.len() >= y * width + width,
        ensures
            final(back)@.len() == old(back)@.len(),
            forall|i: int|
                0 <= i < old(back)@.len() ==> #[trigger] final(back)@[i] == (if y * width + x0 <= i
                    < y * width + x1 {
                    composed(clear, panes@, i - y * width, y as int)
                } else {
                    old(back)@[i]
                }),
    {
        let bn = back.len();
        proof {
            lemma_cell_index(0, y as int, width as int, y as int + 1);
        }
        let start = y * width + x0;
        let end = y * width + x1;
        let ghost ob = back@;
        let mut i = start;
        while i < end
            invariant
                start <= i <= end,
                start == y * width + x0,
                end == y * width + x1,
                end <= ob.len(),
                back@.len() == ob.len(),
                forall|j: int|
                    0 <= j < ob.len() ==> #[trigger] back@[j] == (if start <= j < i {
                        clear
                    } else {
                        ob[j]
                    }),
            decreases end - i,
        {
            back.set(i, clear);
            i += 1;
        }
        let mut k: usize = 0;
        while k < panes.len()
            invariant
                k <= panes@.len(),
                forall|i: int| 0 <= i < panes@.len() ==> (#[trigger] panes@[i]).wf(),
                x0 < x1 <= width,
                start == y * width + x0,
                end == y * width + x1,
                end <= ob.len(),
                ob.len() >= y * width + width,
                back@.len() == ob.len(),
                forall|j: int|
                    0 <= j < ob.len() ==> #[trigger] back@[j] == (if start <= j < end {
                        composed(clear, panes@.take(k as int), j - y * width, y as int)
                    } else {
                        ob[j]
                    }),
            decreases panes@.len() - k,
        {
            let ghost before = back@;
            Self::overlay_pane(back, width, y, x0, x1, &panes[k]);
            proof {
                assert forall|j: int| 0 <= j < ob.len() implies #[trigger] back@[j] == (if start <= j
                    < end {
                    composed(clear, panes@.take(k + 1), j - y * width, y as int)
                } else {
                    ob[j]
                }) by {
                    let t = panes@.take(k + 1);
                    assert(t.drop_last() =~= panes@.take(k as int));
                    assert(t.last() == panes@[k as int]);
                    assert(before[j] == (if start <= j < end {
                        composed(clear, panes@.take(k as int), j - y * width, y as int)
                    } else {
                        ob[j]
                    }));
                }
            }
            k += 1;
        }
        proof {
            assert(panes@.take(panes@.len() as int) =~= panes@);
        }
    }

    /// Recomposes every damaged cell of the frame from `panes` stacked over `clear`; cells
    /// outside the damage keep their glyph.
    pub fn flatten(&mut self, clear: Glyph, panes: &[Pane], spans: &[DamagedRow])
        requires
            old(self).wf(),
            forall|i: int| 0 <= i < panes@.len() ==> (#[trigger] panes@[i]).wf(),
            rows_wf(spans@),
        ensures
            final(self).wf(),
            final(self).spec_back().spec_width() == old(self).spec_back().spec_width(),
            final(self).spec_back().spec_height() == old(self).spec_back().spec_height(),
            forall|x: int, y: int|
                0 <= x < old(self).spec_back().spec_width() && 0 <= y
                    < old(self).spec_back().spec_height() ==> #[trigger] final(self).spec_back().cell(
                    x,
                    y,
                ) == (if y < spans@.len() && spans@[y].is_marked(x) {
                    composed(clear, panes@, x, y)
                } else {
                    old(self).spec_back().cell(x, y)
                }),
    {
        let width = self.back.width;
        let height = self.back.height;
        let rows = min_usize(spans.len(), height);
        let ghost od = self.back.data@;
        let mut y: usize = 0;
        while y < rows
            invariant
                y <= rows,
                rows <= height,
                rows <= spans@.len(),
                width == self.back.width,
                height == self.back.height,
                self.back.data@.len() == od.len(),
                od.len() == width * height,
                od == old(self).spec_back().cells(),
                forall|i: int| 0 <= i < panes@.len() ==> (#[trigger] panes@[i]).wf(),
                forall|x: int, yy: int|
                    0 <= x < width && 0 <= yy < height ==> #[trigger] self.back.data@[yy * width + x]
                        == (if yy < y && spans@[yy].is_marked(x) {
                        composed(clear, panes@, x, yy)
                    } else {
                        od[yy * width + x]
                    }),
            decreases rows - y,
        {
            let row_spans = spans[y].spans();
            let ghost rs = row_spans@;
            let ghost row_start = self.back.data@;
            let mut j: usize = 0;
            while j < row_spans.len()
                invariant
                    j <= rs.len(),
                    rs == row_spans@,
                    rs == spans@[y as int].spans_view(),
                    y < rows,
                    rows <= height,
                    width == self.back.width,
                    height == self.back.height,
                    self.back.data@.len() == od.len(),
                    od.len() == width * height,
                    forall|i: int| 0 <= i < panes@.len() ==> (#[trigger] panes@[i]).wf(),
                    forall|x: int, yy: int|
                        0 <= x < width && 0 <= yy < height ==> #[trigger] self.back.data@[yy * width
                            + x] == (if yy == y && covered(rs.take(j as int), x) {
                            composed(clear, panes@, x, yy)
                        } else {
                            row_start[yy * width + x]
                        }),
                decreases rs.len() - j,
            {
                let span = row_spans[j];
                let x0 = min_usize(span.start, width);
                let x1 = min_usize(span.end, width);
                let ghost before = self.back.data@;
                if x0 < x1 {
                    proof {
                        lemma_cell_index(0, y as int, width as int, height as int);
                    }
                    Self::compose_span(&mut self.back.data, width, y, x0, x1, clear, panes);
                }
                proof {
                    assert forall|x: int, yy: int| 0 <= x < width && 0 <= yy < height implies #[trigger] self.back.data@[
                    yy * width + x] == (if yy == y && covered(rs.take(j + 1), x) {
                        composed(clear, panes@, x, yy)
                    } else {
                        row_start[yy * width + x]
                    }) by {
                        lemma_cell_index(x, yy, width as int, height as int);
                        if x0 < x1 {
                            lemma_row_range(x, yy, width as int, y as int, x0 as int, x1 as int);
                        }
                        assert(rs.take(j + 1) =~= rs.take(j as int) + seq![span]);
                        crate::surface::damage::lemma_covered_concat(rs.take(j as int), seq![span], x);
                        crate::surface::damage::lemma_covered_single(span, x);
                        assert(before[yy * width + x] == (if yy == y && covered(rs.take(j as int), x) {
                            composed(clear, panes@, x, yy)
                        } else {
                            row_start[yy * width + x]
                        }));
                    }
                }
                j += 1;
            }
            proof {
                assert(rs.take(rs.len() as int) =~= rs);
                assert forall|x: int, yy: int| 0 <= x < width && 0 <= yy < height implies #[trigger] self.back.data@[
                yy * width + x] == (if yy < y + 1 && spans@[yy].is_marked(x) {
                    composed(clear, panes@, x, yy)
                } else {
                    od[yy * width + x]
                }) by {
                    assert(row_start[yy * width + x] == (if yy < y && spans@[yy].is_marked(x) {
                        composed(clear, panes@, x, yy)
                    } else {
                        od[yy * width + x]
                    }));
                }
            }
            y += 1;
        }
    }
}


/// The decimal digits of `n`, most significant first.
pub open spec fn decimal(n: nat) -> Seq<u8>
    decreases n,
{
    if n < 10 {
        seq![(48 + n) as u8]
    } else {
        decimal(n / 10).push((48 + n % 10) as u8)
    }
}

/// SGR parameters joined by `;`.
pub open spec fn sgr_params(codes: Seq<u8>) -> Seq<u8>
    decreases codes.len(),
{
    if codes.len() == 0 {
        Seq::empty()
    } else if codes.len() == 1 {
        decimal(codes[0] as nat)
    } else {
        sgr_params(codes.drop_last()) + seq![59u8] + decimal(codes.last() as nat)
    }
}

/// The SGR foreground number of a color.
pub open spec fn spec_fg_code(c: Color) -> u8 {
    if c == Color::Default {
        39
    } else {
        (30 + color_index(c)) as u8
    }
}

/// The SGR background number of a color.
pub open spec fn spec_bg_code(c: Color) -> u8 {
    if c == Color::Default {
        49
    } else {
        (40 + color_index(c)) as u8
    }
}

/// Flag `f` is set in `flags` and not in `other`.
pub open spec fn gains(flags: u32, other: u32, f: u32) -> bool {
    flags & f != 0 && other & f == 0
}

/// `code` if `cond`, else nothing.
pub open spec fn code_if(cond: bool, code: u8) -> Seq<u8> {
    if cond {
        seq![code]
    } else {
        Seq::empty()
    }
}

/// Bold or dim is set in `pf` and not in `nf`: both are reset together (SGR 22).
pub open spec fn drops_intensity(pf: u32, nf: u32) -> bool {
    gains(pf, nf, 1) || gains(pf, nf, 2)
}

/// Attributes that `pf` has and `nf` lacks are turned off (bold and dim together).
pub open spec fn sgr_off_codes(pf: u32, nf: u32) -> Seq<u8> {
    code_if(drops_intensity(pf, nf), 22) + code_if(gains(pf, nf, 4), 23) + code_if(
        gains(pf, nf, 8),
        24,
    ) + code_if(gains(pf, nf, 16), 25) + code_if(gains(pf, nf, 32), 29) + code_if(gains(pf, nf, 64), 27)
}

/// Attributes that `nf` adds are turned on, and bold and dim that `nf` keeps are turned
/// back on after an intensity reset.
pub open spec fn sgr_on_codes(pf: u32, nf: u32) -> Seq<u8> {
    code_if(nf & 1 != 0 && (pf & 1 == 0 || drops_intensity(pf, nf)), 1) + code_if(
        nf & 2 != 0 && (pf & 2 == 0 || drops_intensity(pf, nf)),
        2,
    ) + code_if(gains(nf, pf, 4), 3)
        + code_if(gains(nf, pf, 8), 4) + code_if(gains(nf, pf, 16), 5) + code_if(
        gains(nf, pf, 32),
        9,
    ) + code_if(gains(nf, pf, 64), 7)
}

/// Changed inline colors are set.
pub open spec fn sgr_color_codes(prev: Style, new: Style) -> Seq<u8> {
    code_if(prev.spec_fg() != new.spec_fg(), spec_fg_code(new.spec_fg())) + code_if(
        prev.spec_bg() != new.spec_bg(),
        spec_bg_code(new.spec_bg()),
    )
}

/// The SGR parameters that switch the terminal from `prev` to `new`: attributes that
/// `prev` had and `new` lacks are turned off (bold and dim together, after which those
/// of the two that `new` keeps are turned on again), attributes that `new` adds are
/// turned on, and changed inline colors are set.
pub open spec fn sgr_codes(prev: Style, new: Style) -> Seq<u8> {
    sgr_off_codes(prev.spec_flags(), new.spec_flags()) + sgr_on_codes(
        prev.spec_flags(),
        new.spec_flags(),
    ) + sgr_color_codes(prev, new)
}

/// What a terminal keeps of its pen between writes: the seven attributes and the two
/// basic colors.
pub struct SgrState {
    pub bold: bool,
    pub dim: bool,
    pub italic: bool,
    pub underline: bool,
    pub blink: bool,
    pub strike: bool,
    pub inverse: bool,
    pub fg: Color,
    pub bg: Color,
}

/// The pen a terminal has once it draws in `s`.
pub open spec fn sgr_state(s: Style) -> SgrState {
    let f = s.spec_flags();
    SgrState {
        bold: f & 1 != 0,
        dim: f & 2 != 0,
        italic: f & 4 != 0,
        underline: f & 8 != 0,
        blink: f & 16 != 0,
        strike: f & 32 != 0,
        inverse: f & 64 != 0,
        fg: s.spec_fg(),
        bg: s.spec_bg(),
    }
}

/// The pen after the terminal reads SGR parameter `c`: 22 clears bold and dim, 23, 24,
/// 25, 29 and 27 clear italic, underline, blink, strike and inverse, 1, 2, 3, 4, 5, 9
/// and 7 set them, 30 to 37 and 39 set the foreground, 40 to 47 and 49 the background.
pub open spec fn apply_sgr(st: SgrState, c: u8) -> SgrState {
    if c == 22 {
        SgrState { bold: false, dim: false, ..st }
    } else if c == 23 {
        SgrState { italic: false, ..st }
    } else if c == 24 {
        SgrState { underline: false, ..st }
    } else if c == 25 {
        SgrState { blink: false, ..st }
    } else if c == 29 {
        SgrState { strike: false, ..st }
    } else if c == 27 {
        SgrState { inverse: false, ..st }
    } else if c == 1 {
        SgrState { bold: true, ..st }
    } else if c == 2 {
        SgrState { dim: true, ..st }
    } else if c == 3 {
        SgrState { italic: true, ..st }
    } else if c == 4 {
        SgrState { underline: true, ..st }
    } else if c == 5 {
        SgrState { blink: true, ..st }
    } else if c == 9 {
        SgrState { strike: true, ..st }
    } else if c == 7 {
        SgrState { inverse: true, ..st }
    } else if 30 <= c <= 37 {
        SgrState { fg: color_from_index((c - 30) as u8), ..st }
    } else if c == 39 {
        SgrState { fg: Color::Default, ..st }
    } else if 40 <= c <= 47 {
        SgrState { bg: color_from_index((c - 40) as u8), ..st }
    } else if c == 49 {
        SgrState { bg: Color::Default, ..st }
    } else {
        st
    }
}

/// The pen after the terminal reads the parameters `codes` in order.
pub open spec fn apply_sgrs(st: SgrState, codes: Seq<u8>) -> SgrState
    decreases codes.len(),
{
    if codes.len() == 0 {
        st
    } else {
        apply_sgr(apply_sgrs(st, codes.drop_last()), codes.last())
    }
}

/// Parameters in a row compose.
pub proof fn lemma_apply_sgrs_concat(st: SgrState, a: Seq<u8>, b: Seq<u8>)
    ensures
        apply_sgrs(st, a + b) == apply_sgrs(apply_sgrs(st, a), b),
    decreases b.len(),
{
    if b.len() == 0 {
        assert(a + b =~= a);
    } else {
        lemma_apply_sgrs_concat(st, a, b.drop_last());
        assert((a + b).drop_last() =~= a + b.drop_last());
        assert((a + b).last() == b.last());
    }
}

/// A parameter present when `cond` holds.
pub proof fn lemma_apply_sgr_if(st: SgrState, a: Seq<u8>, cond: bool, c: u8)
    ensures
        apply_sgrs(st, a + code_if(cond, c)) == if cond {
            apply_sgr(apply_sgrs(st, a), c)
        } else {
            apply_sgrs(st, a)
        },
{
    lemma_apply_sgrs_concat(st, a, code_if(cond, c));
    let s = apply_sgrs(st, a);
    if cond {
        assert(code_if(cond, c).drop_last() =~= Seq::<u8>::empty());
        assert(apply_sgrs(s, Seq::<u8>::empty()) == s);
    }
}

/// The turning-off parameters clear what `pf` has and `nf` lacks (bold and dim together).
proof fn lemma_sgr_off(st: SgrState, pf: u32, nf: u32)
    ensures
        apply_sgrs(st, sgr_off_codes(pf, nf)) == (SgrState {
            bold: st.bold && !drops_intensity(pf, nf),
            dim: st.dim && !drops_intensity(pf, nf),
            italic: st.italic && !gains(pf, nf, 4),
            underline: st.underline && !gains(pf, nf, 8),
            blink: st.blink && !gains(pf, nf, 16),
            strike: st.strike && !gains(pf, nf, 32),
            inverse: st.inverse && !gains(pf, nf, 64),
            ..st
        }),
{
    let e = Seq::<u8>::empty();
    let d = drops_intensity(pf, nf);
    lemma_apply_sgr_if(st, e, d, 22);
    assert(e + code_if(d, 22) =~= code_if(d, 22));
    let o1 = code_if(d, 22);
    lemma_apply_sgr_if(st, o1, gains(pf, nf, 4), 23);
    let o2 = o1 + code_if(gains(pf, nf, 4), 23);
    lemma_apply_sgr_if(st, o2, gains(pf, nf, 8), 24);
    let o3 = o2 + code_if(gains(pf, nf, 8), 24);
    lemma_apply_sgr_if(st, o3, gains(pf, nf, 16), 25);
    let o4 = o3 + code_if(gains(pf, nf, 16), 25);
    lemma_apply_sgr_if(st, o4, gains(pf, nf, 32), 29);
    let o5 = o4 + code_if(gains(pf, nf, 32), 29);
    lemma_apply_sgr_if(st, o5, gains(pf, nf, 64), 27);
}

/// The turning-on parameters set what `nf` adds, and bold and dim again after a reset.
#[verifier::rlimit(60)]
proof fn lemma_sgr_on(st: SgrState, pf: u32, nf: u32)
    ensures
        apply_sgrs(st, sgr_on_codes(pf, nf)) == (SgrState {
            bold: st.bold || (nf & 1 != 0 && (pf & 1 == 0 || drops_intensity(pf, nf))),
            dim: st.dim || (nf & 2 != 0 && (pf & 2 == 0 || drops_intensity(pf, nf))),
            italic: st.italic || gains(nf, pf, 4),
            underline: st.underline || gains(nf, pf, 8),
            blink: st.blink || gains(nf, pf, 16),
            strike: st.strike || gains(nf, pf, 32),
            inverse: st.inverse || gains(nf, pf, 64),
            ..st
        }),
{
    let e = Seq::<u8>::empty();
    let d = drops_intensity(pf, nf);
    let b1 = nf & 1 != 0 && (pf & 1 == 0 || d);
    let b2 = nf & 2 != 0 && (pf & 2 == 0 || d);
    lemma_apply_sgr_if(st, e, b1, 1);
    assert(e + code_if(b1, 1) =~= code_if(b1, 1));
    let n1 = code_if(b1, 1);
    lemma_apply_sgr_if(st, n1, b2, 2);
    let n2 = n1 + code_if(b2, 2);
    lemma_apply_sgr_if(st, n2, gains(nf, pf, 4), 3);
    let n3 = n2 + code_if(gains(nf, pf, 4), 3);
    lemma_apply_sgr_if(st, n3, gains(nf, pf, 8), 4);
    let n4 = n3 + code_if(gains(nf, pf, 8), 4);
    lemma_apply_sgr_if(st, n4, gains(nf, pf, 16), 5);
    let n5 = n4 + code_if(gains(nf, pf, 16), 5);
    lemma_apply_sgr_if(st, n5, gains(nf, pf, 32), 9);
    let n6 = n5 + code_if(gains(nf, pf, 32), 9);
    lemma_apply_sgr_if(st, n6, gains(nf, pf, 64), 7);
}

/// The color parameters set the colors that changed.
proof fn lemma_sgr_colors(st: SgrState, prev: Style, new: Style)
    ensures
        apply_sgrs(st, sgr_color_codes(prev, new)) == (SgrState {
            fg: if prev.spec_fg() != new.spec_fg() {
                new.spec_fg()
            } else {
                st.fg
            },
            bg: if prev.spec_bg() != new.spec_bg() {
                new.spec_bg()
            } else {
                st.bg
            },
            ..st
        }),
{
    let e = Seq::<u8>::empty();
    let fgc = prev.spec_fg() != new.spec_fg();
    let bgc = prev.spec_bg() != new.spec_bg();
    let fc = spec_fg_code(new.spec_fg());
    let bc = spec_bg_code(new.spec_bg());
    crate::surface::color::lemma_color_index_roundtrip(new.spec_fg());
    crate::surface::color::lemma_color_index_roundtrip(new.spec_bg());
    lemma_apply_sgr_if(st, e, fgc, fc);
    assert(e + code_if(fgc, fc) =~= code_if(fgc, fc));
    lemma_apply_sgr_if(st, code_if(fgc, fc), bgc, bc);
}

/// The parameters that switch from `prev` to `new` take a terminal drawing in `prev` to
/// drawing in `new`: every attribute and both colors end as `new` has them.
pub proof fn lemma_sgr_codes_switch(prev: Style, new: Style)
    ensures
        apply_sgrs(sgr_state(prev), sgr_codes(prev, new)) == sgr_state(new),
{
    let pf = prev.spec_flags();
    let nf = new.spec_flags();
    let s0 = sgr_state(prev);
    let off = sgr_off_codes(pf, nf);
    let on = sgr_on_codes(pf, nf);
    let col = sgr_color_codes(prev, new);
    lemma_sgr_off(s0, pf, nf);
    let s1 = apply_sgrs(s0, off);
    lemma_sgr_on(s1, pf, nf);
    let s2 = apply_sgrs(s1, on);
    lemma_sgr_colors(s2, prev, new);
    lemma_apply_sgrs_concat(s0, off, on);
    lemma_apply_sgrs_concat(s0, off + on, col);
}

/// Appends `code` to `codes` when `cond` holds.
fn push_code_if(codes: &mut Vec<u8>, cond: bool, code: u8)
    ensures
        final(codes)@ == old(codes)@ + code_if(cond, code),
{
    if cond {
        codes.push(code);
    }
    assert(codes@ =~= old(codes)@ + code_if(cond, code));
}

/// The codes that turn attributes off.
fn sgr_off_list(pf: u32, nf: u32) -> (codes: Vec<u8>)
    ensures
        codes@ == sgr_off_codes(pf, nf),
{
    let mut codes: Vec<u8> = Vec::new();
    let drops = ((pf & 1) != 0 && (nf & 1) == 0) || ((pf & 2) != 0 && (nf & 2) == 0);
    push_code_if(&mut codes, drops, 22);
    let ghost a = codes@;
    push_code_if(&mut codes, (pf & 4) != 0 && (nf & 4) == 0, 23);
    let ghost b = codes@;
    push_code_if(&mut codes, (pf & 8) != 0 && (nf & 8) == 0, 24);
    let ghost c = codes@;
    push_code_if(&mut codes, (pf & 16) != 0 && (nf & 16) == 0, 25);
    let ghost d = codes@;
    push_code_if(&mut codes, (pf & 32) != 0 && (nf & 32) == 0, 29);
    push_code_if(&mut codes, (pf & 64) != 0 && (nf & 64) == 0, 27);
    proof {
        assert(a =~= code_if(drops_intensity(pf, nf), 22));
    }
    codes
}

/// The codes that turn attributes on.
fn sgr_on_list(pf: u32, nf: u32) -> (codes: Vec<u8>)
    ensures
        codes@ == sgr_on_codes(pf, nf),
{
    let mut codes: Vec<u8> = Vec::new();
    let drops = ((pf & 1) != 0 && (nf & 1) == 0) || ((pf & 2) != 0 && (nf & 2) == 0);
    push_code_if(&mut codes, (nf & 1) != 0 && ((pf & 1) == 0 || drops), 1);
    let ghost a = codes@;
    push_code_if(&mut codes, (nf & 2) != 0 && ((pf & 2) == 0 || drops), 2);
    push_code_if(&mut codes, (nf & 4) != 0 && (pf & 4) == 0, 3);
    push_code_if(&mut codes, (nf & 8) != 0 && (pf & 8) == 0, 4);
    push_code_if(&mut codes, (nf & 16) != 0 && (pf & 16) == 0, 5);
    push_code_if(&mut codes, (nf & 32) != 0 && (pf & 32) == 0, 9);
    push_code_if(&mut codes, (nf & 64) != 0 && (pf & 64) == 0, 7);
    proof {
        assert(a =~= code_if(nf & 1 != 0 && (pf & 1 == 0 || drops_intensity(pf, nf)), 1));
    }
    codes
}

/// The codes that set changed colors.
fn sgr_color_list(prev: Style, new: Style) -> (codes: Vec<u8>)
    ensures
        codes@ == sgr_color_codes(prev, new),
{
    let mut codes: Vec<u8> = Vec::new();
    let prev_fg = prev.fg();
    let new_fg = new.fg();
    push_code_if(&mut codes, prev_fg != new_fg, new_fg.fg_code());
    let ghost a = codes@;
    let prev_bg = prev.bg();
    let new_bg = new.bg();
    push_code_if(&mut codes, prev_bg != new_bg, new_bg.bg_code());
    proof {
        assert(a =~= code_if(prev.spec_fg() != new.spec_fg(), spec_fg_code(new.spec_fg())));
    }
    codes
}

/// The SGR parameters for switching from `prev` to `new`.
fn sgr_code_list(prev: Style, new: Style) -> (codes: Vec<u8>)
    ensures
        codes@ == sgr_codes(prev, new),
{
    let pf = prev.flags();
    let nf = new.flags();
    let mut codes = sgr_off_list(pf, nf);
    let mut on = sgr_on_list(pf, nf);
    codes.append(&mut on);
    let mut col = sgr_color_list(prev, new);
    codes.append(&mut col);
    codes
}

/// The control sequence introducer `ESC [`.
pub open spec fn csi() -> Seq<u8> {
    seq![27u8, 91u8]
}

/// The bytes that switch the terminal style from `prev` to `new`: nothing when they are
/// equal or no parameter is needed; otherwise one complete sequence, `ESC [`, the
/// parameters joined by `;`, and a final `m`.
pub open spec fn style_switch(prev: Style, new: Style) -> Seq<u8> {
    let codes = sgr_codes(prev, new);
    if prev == new || codes.len() == 0 {
        Seq::empty()
    } else {
        csi() + sgr_params(codes) + seq![109u8]
    }
}

/// The bytes that move the terminal cursor to zero-based `(x, y)`.
pub open spec fn move_to(x: nat, y: nat) -> Seq<u8> {
    csi() + decimal(y + 1) + seq![59u8] + decimal(x + 1) + seq![72u8]
}

/// The bytes a rune writes: its used bytes, at most four.
pub open spec fn rune_bytes(r: Rune) -> Seq<u8> {
    seq![r.b0, r.b1, r.b2, r.b3].take(min_of(r.len as int, 4))
}

/// `ESC [ 0 m`: reset all attributes.
pub open spec fn reset_style_bytes() -> Seq<u8> {
    seq![27u8, 91u8, 48u8, 109u8]
}

/// `ESC [ ? 25 l`: hide the cursor.
pub open spec fn hide_cursor_bytes() -> Seq<u8> {
    seq![27u8, 91u8, 63u8, 50u8, 53u8, 108u8]
}

/// `ESC [ ? 25 h`: show the cursor.
pub open spec fn show_cursor_bytes() -> Seq<u8> {
    seq![27u8, 91u8, 63u8, 50u8, 53u8, 104u8]
}

/// A growing buffer of terminal output bytes.
pub struct AnsiBuffer {
    bytes: Vec<u8>,
}

impl View for AnsiBuffer {
    type V = Seq<u8>;

    closed spec fn view(&self) -> Seq<u8> {
        self.bytes@
    }
}

impl AnsiBuffer {
    /// An empty buffer.
    pub fn new() -> (b: Self)
        ensures
            b@ == Seq::<u8>::empty(),
    {
        AnsiBuffer { bytes: Vec::new() }
    }

    /// Removes all bytes.
    pub fn clear(&mut self)
        ensures
            final(self)@ == Seq::<u8>::empty(),
    {
        self.bytes.clear();
    }

    /// Appends `slice`.
    pub fn extend(&mut self, slice: &[u8])
        ensures
            final(self)@ == old(self)@ + slice@,
    {
        let mut i: usize = 0;
        while i < slice.len()
            invariant
                i <= slice@.len(),
                self@ == old(self)@ + slice@.take(i as int),
            decreases slice@.len() - i,
        {
            self.bytes.push(slice[i]);
            i += 1;
            proof {
                assert(slice@.take(i as int) =~= slice@.take(i - 1).push(slice@[i - 1]));
                assert(self@ =~= old(self)@ + slice@.take(i as int));
            }
        }
        proof {
            assert(slice@.take(slice@.len() as int) =~= slice@);
        }
    }

    /// Appends one byte.
    fn push(&mut self, b: u8)
        ensures
            final(self)@ == old(self)@.push(b),
    {
        self.bytes.push(b);
    }

    /// Takes the bytes out of the buffer.
    pub fn into_bytes(self) -> (v: Vec<u8>)
        ensures
            v@ == self@,
    {
        self.bytes
    }

    /// Appends a decimal `usize`.
    pub fn push_usize(&mut self, n: usize)
        ensures
            final(self)@ == old(self)@ + decimal(n as nat),
        decreases n,
    {
        if n >= 10 {
            self.push_usize(n / 10);
        }
        self.bytes.push(48u8 + (n % 10) as u8);
        proof {
            if n >= 10 {
                assert(self@ =~= old(self)@ + decimal(n as nat));
            } else {
                assert(self@ =~= old(self)@ + decimal(n as nat));
            }
        }
    }

    /// Appends SGR parameters joined by `;`.
    fn push_params(&mut self, codes: &Vec<u8>)
        ensures
            final(self)@ == old(self)@ + sgr_params(codes@),
    {
        let ghost base = self@;
        let mut i: usize = 0;
        while i < codes.len()
            invariant
                i <= codes@.len(),
                self@ == base + sgr_params(codes@.take(i as int)),
                base == old(self)@,
            decreases codes@.len() - i,
        {
            if i > 0 {
                self.bytes.push(59u8);
            }
            self.push_usize(codes[i] as usize);
            i += 1;
            proof {
                let t = codes@.take(i as int);
                assert(t.drop_last() =~= codes@.take(i - 1));
                if i == 1 {
                    assert(codes@.take(0) =~= Seq::<u8>::empty());
                }
                assert(self@ =~= base + sgr_params(t));
            }
        }
        proof {
            assert(codes@.take(codes@.len() as int) =~= codes@);
        }
    }

    /// Emits the minimal SGR sequence needed to transition from `prev` to `new`.
    pub fn push_style(&mut self, prev: Style, new: Style)
        ensures
            final(self)@ == old(self)@ + style_switch(prev, new),
    {
        if prev == new {
            assert(self@ =~= old(self)@ + style_switch(prev, new));
            return;
        }
        let codes = sgr_code_list(prev, new);
        if codes.len() == 0 {
            assert(self@ =~= old(self)@ + style_switch(prev, new));
            return;
        }
        self.bytes.push(27u8);
        self.bytes.push(91u8);
        self.push_params(&codes);
        self.bytes.push(109u8);
        assert(self@ =~= old(self)@ + style_switch(prev, new));
    }

    /// Appends the bytes of a rune.
    pub fn push_rune(&mut self, rune: &Rune)
        ensures
            final(self)@ == old(self)@ + rune_bytes(*rune),
    {
        let n = min_usize(rune.len as usize, 4);
        if n > 0 {
            self.bytes.push(rune.b0);
        }
        if n > 1 {
            self.bytes.push(rune.b1);
        }
        if n > 2 {
            self.bytes.push(rune.b2);
        }
        if n > 3 {
            self.bytes.push(rune.b3);
        }
        assert(self@ =~= old(self)@ + rune_bytes(*rune));
    }

    /// Moves the cursor to a zero-based position (written as a one-based CUP sequence).
    pub fn push_move_sequence(&mut self, x: usize, y: usize)
        requires
            x < usize::MAX,
            y < usize::MAX,
        ensures
            final(self)@ == old(self)@ + move_to(x as nat, y as nat),
    {
        self.bytes.push(27u8);
        self.bytes.push(91u8);
        self.push_usize(y + 1);
        self.bytes.push(59u8);
        self.push_usize(x + 1);
        self.bytes.push(72u8);
        assert(self@ =~= old(self)@ + move_to(x as nat, y as nat));
    }
}


/// One operation of the byte stream the renderer writes: a cursor move, a change of the
/// pen style from one style to another, or a rune put at the cursor.
pub enum TermOp {
    MoveTo(nat, nat),
    Pen(Style, Style),
    Put(Rune),
}

/// The bytes of one operation.
pub open spec fn op_bytes(op: TermOp) -> Seq<u8> {
    match op {
        TermOp::MoveTo(x, y) => move_to(x, y),
        TermOp::Pen(from, to) => style_switch(from, to),
        TermOp::Put(r) => rune_bytes(r),
    }
}

/// The bytes of a sequence of operations.
pub open spec fn ops_bytes(ops: Seq<TermOp>) -> Seq<u8>
    decreases ops.len(),
{
    if ops.len() == 0 {
        Seq::empty()
    } else {
        ops_bytes(ops.drop_last()) + op_bytes(ops.last())
    }
}

/// A terminal's cursor column and row and pen style after `op`: a move places the
/// cursor, a pen change sets the pen, and a put advances the cursor by one column.
pub open spec fn step(op: TermOp, st: (int, int, Style)) -> (int, int, Style) {
    match op {
        TermOp::MoveTo(x, y) => (x as int, y as int, st.2),
        TermOp::Pen(_, to) => (st.0, st.1, to),
        TermOp::Put(_) => (st.0 + 1, st.1, st.2),
    }
}

/// Cursor and pen after `ops`, starting from `st`.
pub open spec fn run_ops(ops: Seq<TermOp>, st: (int, int, Style)) -> (int, int, Style)
    decreases ops.len(),
{
    if ops.len() == 0 {
        st
    } else {
        step(ops.last(), run_ops(ops.drop_last(), st))
    }
}

/// Every pen change of `ops`, starting from `st`, starts from the pen the terminal has.
pub open spec fn valid_ops(ops: Seq<TermOp>, st: (int, int, Style)) -> bool
    decreases ops.len(),
{
    ops.len() == 0 || (valid_ops(ops.drop_last(), st) && match ops.last() {
        TermOp::Pen(from, _) => from == run_ops(ops.drop_last(), st).2,
        _ => true,
    })
}

/// The glyph that `ops`, starting from `st`, last put at cell `(x, y)`: the rune in the
/// pen style of the moment; `None` when they put nothing there.
pub open spec fn painted(ops: Seq<TermOp>, st: (int, int, Style), x: int, y: int) -> Option<Glyph>
    decreases ops.len(),
{
    if ops.len() == 0 {
        None
    } else {
        let s = run_ops(ops.drop_last(), st);
        match ops.last() {
            TermOp::Put(r) => if s.0 == x && s.1 == y {
                Some(Glyph { style: s.2, rune: r })
            } else {
                painted(ops.drop_last(), st, x, y)
            },
            _ => painted(ops.drop_last(), st, x, y),
        }
    }
}

/// The operations start with a cursor move (or there are none), so where the cursor
/// was before does not matter.
pub open spec fn moves_first(ops: Seq<TermOp>) -> bool {
    ops.len() == 0 || ops[0] is MoveTo
}

/// Where a sequence of operations stands after `op` from phase `s`: phase 0 follows a put
/// (or nothing), 1 a cursor move, 2 a pen change, and -1 marks a break of the rules that a
/// move comes only after a put, and a move or pen change only right before a put (with at
/// most a pen change between a move and its put).
pub open spec fn next_phase(s: int, op: TermOp) -> int {
    if s < 0 {
        -1
    } else {
        match op {
            TermOp::MoveTo(_, _) => if s == 0 {
                1
            } else {
                -1
            },
            TermOp::Pen(_, _) => if s <= 1 {
                2
            } else {
                -1
            },
            TermOp::Put(_) => 0,
        }
    }
}

/// The phase after `ops`, starting from phase `s`.
pub open spec fn phase(ops: Seq<TermOp>, s: int) -> int
    decreases ops.len(),
{
    if ops.len() == 0 {
        s
    } else {
        next_phase(phase(ops.drop_last(), s), ops.last())
    }
}

/// Every cursor move and every pen change of `ops` leads straight to a put: nothing is
/// written that does not serve a rune.
pub open spec fn tight(ops: Seq<TermOp>) -> bool {
    phase(ops, 0) == 0
}

/// The phase of a sequence with one more operation.
pub proof fn lemma_phase_push(ops: Seq<TermOp>, op: TermOp, s: int)
    ensures
        phase(ops.push(op), s) == next_phase(phase(ops, s), op),
{
    assert(ops.push(op).drop_last() =~= ops);
}

/// Phases compose over sequences in a row.
pub proof fn lemma_phase_concat(a: Seq<TermOp>, b: Seq<TermOp>, s: int)
    ensures
        phase(a + b, s) == phase(b, phase(a, s)),
    decreases b.len(),
{
    if b.len() == 0 {
        assert(a + b =~= a);
    } else {
        lemma_phase_concat(a, b.drop_last(), s);
        assert((a + b).drop_last() =~= a + b.drop_last());
        assert((a + b).last() == b.last());
    }
}

/// Operations that end in phase 0 and are not empty end with a put, which paints the cell
/// the cursor was at.
pub proof fn lemma_tight_paints(ops: Seq<TermOp>, s: int, st: (int, int, Style))
    requires
        phase(ops, s) == 0,
        ops.len() > 0,
    ensures
        painted(
            ops,
            st,
            run_ops(ops.drop_last(), st).0,
            run_ops(ops.drop_last(), st).1,
        ) is Some,
{
    assert(ops.last() is Put);
}

/// Appending one operation: its bytes follow, it steps the terminal, and a put paints
/// the cell under the cursor.
pub proof fn lemma_ops_push(ops: Seq<TermOp>, op: TermOp, st: (int, int, Style))
    ensures
        ops_bytes(ops.push(op)) == ops_bytes(ops) + op_bytes(op),
        run_ops(ops.push(op), st) == step(op, run_ops(ops, st)),
        valid_ops(ops.push(op), st) == (valid_ops(ops, st) && match op {
            TermOp::Pen(from, _) => from == run_ops(ops, st).2,
            _ => true,
        }),
        forall|x: int, y: int|
            #[trigger] painted(ops.push(op), st, x, y) == match op {
                TermOp::Put(r) => if run_ops(ops, st).0 == x && run_ops(ops, st).1 == y {
                    Some(Glyph { style: run_ops(ops, st).2, rune: r })
                } else {
                    painted(ops, st, x, y)
                },
                _ => painted(ops, st, x, y),
            },
{
    assert(ops.push(op).drop_last() =~= ops);
    assert(ops.push(op).last() == op);
}

/// Operations in a row compose.
pub proof fn lemma_ops_concat(a: Seq<TermOp>, b: Seq<TermOp>, st: (int, int, Style))
    ensures
        ops_bytes(a + b) == ops_bytes(a) + ops_bytes(b),
        run_ops(a + b, st) == run_ops(b, run_ops(a, st)),
        valid_ops(a + b, st) == (valid_ops(a, st) && valid_ops(b, run_ops(a, st))),
        forall|x: int, y: int|
            #[trigger] painted(a + b, st, x, y) == match painted(b, run_ops(a, st), x, y) {
                Some(g) => Some(g),
                None => painted(a, st, x, y),
            },
    decreases b.len(),
{
    if b.len() == 0 {
        assert(a + b =~= a);
        assert(ops_bytes(b) =~= Seq::<u8>::empty());
        assert(ops_bytes(a) + ops_bytes(b) =~= ops_bytes(a));
    } else {
        let b1 = b.drop_last();
        let o = b.last();
        lemma_ops_concat(a, b1, st);
        assert(b1.push(o) =~= b);
        assert((a + b1).push(o) =~= a + b);
        lemma_ops_push(a + b1, o, st);
        lemma_ops_push(b1, o, run_ops(a, st));
        assert(ops_bytes(a + b) =~= ops_bytes(a) + ops_bytes(b));
    }
}

/// A cursor move followed by `run` after `ops`: the bytes, cursor, pen and painted cells
/// are those of `run` from the moved cursor, on top of those of `ops`.
pub proof fn lemma_move_then(
    ops: Seq<TermOp>,
    mx: nat,
    my: nat,
    run: Seq<TermOp>,
    st: (int, int, Style),
)
    ensures
        ops_bytes(ops.push(TermOp::MoveTo(mx, my)) + run) == ops_bytes(ops) + move_to(mx, my)
            + ops_bytes(run),
        moves_first(ops) ==> moves_first(ops.push(TermOp::MoveTo(mx, my)) + run),
        valid_ops(ops.push(TermOp::MoveTo(mx, my)) + run, st) == (valid_ops(ops, st) && valid_ops(
            run,
            (mx as int, my as int, run_ops(ops, st).2),
        )),
        run_ops(ops.push(TermOp::MoveTo(mx, my)) + run, st) == run_ops(
            run,
            (mx as int, my as int, run_ops(ops, st).2),
        ),
        forall|x: int, y: int|
            #[trigger] painted(ops.push(TermOp::MoveTo(mx, my)) + run, st, x, y) == match painted(
                run,
                (mx as int, my as int, run_ops(ops, st).2),
                x,
                y,
            ) {
                Some(g) => Some(g),
                None => painted(ops, st, x, y),
            },
{
    let mv = TermOp::MoveTo(mx, my);
    let p = ops.push(mv);
    lemma_ops_push(ops, mv, st);
    lemma_ops_concat(p, run, st);
    assert((p + run)[0] == p[0]);
    assert(ops_bytes(p + run) =~= ops_bytes(ops) + move_to(mx, my) + ops_bytes(run));
}

/// Operations that start with a move, after `ops` that leave the pen at `pen`: they act as
/// they would from the origin with that pen, on top of `ops`.
pub proof fn lemma_then_moving(
    ops: Seq<TermOp>,
    more: Seq<TermOp>,
    st: (int, int, Style),
    pen: Style,
)
    requires
        moves_first(more),
        run_ops(ops, st).2 == pen,
    ensures
        ops_bytes(ops + more) == ops_bytes(ops) + ops_bytes(more),
        moves_first(ops) ==> moves_first(ops + more),
        valid_ops(ops + more, st) == (valid_ops(ops, st) && valid_ops(more, (0, 0, pen))),
        run_ops(ops + more, st).2 == run_ops(more, (0, 0, pen)).2,
        forall|x: int, y: int|
            #[trigger] painted(ops + more, st, x, y) == match painted(more, (0, 0, pen), x, y) {
                Some(g) => Some(g),
                None => painted(ops, st, x, y),
            },
{
    lemma_ops_concat(ops, more, st);
    lemma_moves_first(more, run_ops(ops, st), (0, 0, pen));
    if more.len() == 0 {
        assert(ops + more =~= ops);
        assert(run_ops(more, (0int, 0int, pen)) == (0int, 0int, pen));
    } else {
        assert((ops + more)[0] == if ops.len() > 0 { ops[0] } else { more[0] });
    }
}

/// Cursor, pen, validity and painted cells of operations that start with a move do not
/// depend on where the cursor started.
pub proof fn lemma_moves_first(ops: Seq<TermOp>, s1: (int, int, Style), s2: (int, int, Style))
    requires
        moves_first(ops),
        s1.2 == s2.2,
    ensures
        ops.len() > 0 ==> run_ops(ops, s1) == run_ops(ops, s2),
        valid_ops(ops, s1) == valid_ops(ops, s2),
        forall|x: int, y: int| #[trigger] painted(ops, s1, x, y) == painted(ops, s2, x, y),
    decreases ops.len(),
{
    if ops.len() > 0 {
        let d = ops.drop_last();
        let o = ops.last();
        assert(d.push(o) =~= ops);
        lemma_ops_push(d, o, s1);
        lemma_ops_push(d, o, s2);
        if d.len() > 0 {
            assert(d[0] == ops[0]);
            lemma_moves_first(d, s1, s2);
        } else {
            assert(o is MoveTo);
            assert(run_ops(d, s1) == s1);
            assert(run_ops(d, s2) == s2);
            assert(valid_ops(d, s1) && valid_ops(d, s2));
            assert forall|x: int, y: int| #[trigger] painted(ops, s1, x, y) == painted(ops, s2, x, y) by {
                assert(painted(d, s1, x, y) is None);
                assert(painted(d, s2, x, y) is None);
            }
        }
    }
}

/// Cell `(x, y)` is damaged according to the per-row damage `spans`.
pub open spec fn damaged_at(spans: Seq<DamagedRow>, x: int, y: int) -> bool {
    0 <= y < spans.len() && spans[y].is_marked(x)
}

/// Some row of `spans` has damage.
pub open spec fn any_damage(spans: Seq<DamagedRow>) -> bool {
    exists|y: int| 0 <= y < spans.len() && (#[trigger] spans[y]).spans_view().len() > 0
}

/// The bytes that end every rendered update: reset the style, then place and show the
/// cursor, or hide it.
pub open spec fn cursor_tail(cursor: Option<Point>) -> Seq<u8> {
    reset_style_bytes() + match cursor {
        Some(p) => move_to(p.x as nat, p.y as nat) + show_cursor_bytes(),
        None => hide_cursor_bytes(),
    }
}

/// `ops`, written to a terminal that shows `before` with the pen in the default style,
/// start with a cursor move, move the cursor and change the pen only right before a rune,
/// change the pen only from the pen the terminal has, paint only cells of the frame, and
/// leave the terminal showing `after`.
pub open spec fn paints_over(ops: Seq<TermOp>, before: Frame, after: Frame) -> bool {
    &&& moves_first(ops)
    &&& tight(ops)
    &&& valid_ops(ops, (0, 0, Style::spec_default()))
    &&& forall|x: int, y: int|
        #[trigger] painted(ops, (0, 0, Style::spec_default()), x, y) is Some ==> 0 <= x
            < before.spec_width() && 0 <= y < before.spec_height()
    &&& forall|x: int, y: int|
        0 <= x < before.spec_width() && 0 <= y < before.spec_height() ==> after.cell(x, y)
            == match #[trigger] painted(ops, (0, 0, Style::spec_default()), x, y) {
            Some(g) => g,
            None => before.cell(x, y),
        }
}

/// `ops` paint over `before` to give `after`, and each cell they paint is damaged in
/// `spans`, takes its glyph in `back`, and showed another glyph before: cells that
/// already show the right glyph are not written.
pub open spec fn redraws(
    ops: Seq<TermOp>,
    before: Frame,
    back: Frame,
    spans: Seq<DamagedRow>,
    after: Frame,
) -> bool {
    &&& paints_over(ops, before, after)
    &&& forall|x: int, y: int|
        #[trigger] painted(ops, (0, 0, Style::spec_default()), x, y) matches Some(g) ==> damaged_at(
            spans,
            x,
            y,
        ) && g == back.cell(x, y) && before.cell(x, y) != g
}

/// The bytes that end a rendered update are never empty.
pub proof fn lemma_cursor_tail_nonempty(cursor: Option<Point>)
    ensures
        cursor_tail(cursor).len() > 0,
{
    assert(reset_style_bytes().len() > 0);
}

/// Returns `true` if any row has damage.
pub fn has_damage(spans: &[DamagedRow]) -> (b: bool)
    requires
        rows_wf(spans@),
    ensures
        b == any_damage(spans@),
{
    let mut i: usize = 0;
    while i < spans.len()
        invariant
            i <= spans@.len(),
            rows_wf(spans@),
            forall|y: int| 0 <= y < i ==> (#[trigger] spans@[y]).spans_view().len() == 0,
        decreases spans@.len() - i,
    {
        if spans[i].is_damaged() {
            return true;
        }
        i += 1;
    }
    false
}

/// Compares frames by calculating differences and produces terminal output.
pub struct Renderer {
    front: Frame,
    cursor: Option<Point>,
}

impl Renderer {
    /// The frame currently shown on the terminal.
    pub closed spec fn spec_front(&self) -> Frame {
        self.front
    }

    /// The last rendered cursor position.
    pub closed spec fn spec_cursor(&self) -> Option<Point> {
        self.cursor
    }

    /// The front frame matches its dimensions.
    pub open spec fn wf(&self) -> bool {
        self.spec_front().wf()
    }

    /// Initializes a renderer whose front frame is blank, or filled with NUL cells when
    /// `clear` is set so that the first render redraws everything.
    pub fn new(width: usize, height: usize, clear: bool) -> (r: Self)
        requires
            width * height <= usize::MAX,
        ensures
            r.wf(),
            r.spec_front().spec_width() == width,
            r.spec_front().spec_height() == height,
            r.spec_cursor() is None,
            forall|x: int, y: int|
                0 <= x < width && 0 <= y < height ==> #[trigger] r.spec_front().cell(x, y) == (if clear {
                    crate::surface::glyph::styled_glyph('\0', Style::spec_default())
                } else {
                    blank_glyph()
                }),
    {
        let g = if clear {
            Glyph::from_char('\0')
        } else {
            Glyph::default()
        };
        Renderer { front: Frame::new(width, height, g), cursor: None }
    }

    /// Width (in columns).
    pub fn width(&self) -> (w: usize)
        ensures
            w == self.spec_front().spec_width(),
    {
        self.front.width
    }

    /// Height (in rows).
    pub fn height(&self) -> (h: usize)
        ensures
            h == self.spec_front().spec_height(),
    {
        self.front.height
    }

    /// Diffs the compositor frame against the front frame and returns the bytes that bring
    /// the terminal up to date. Nothing is produced when there is no damage and the cursor
    /// did not move. Otherwise every damaged cell of the front frame takes the composed
    /// glyph, only the damaged cells that differ are written (each cursor move and pen
    /// change leads straight to a rune), and the bytes end with a style reset and the
    /// cursor placement.
    #[verifier::spinoff_prover]
    #[verifier::rlimit(40)]
    pub fn render(&mut self, compositor: &Compositor, spans: &[DamagedRow], cursor: Option<
        Point,
    >) -> (bytes: Vec<u8>)
        requires
            old(self).wf(),
            compositor.wf(),
            rows_wf(spans@),
            compositor.spec_back().spec_width() == old(self).spec_front().spec_width(),
            compositor.spec_back().spec_height() == old(self).spec_front().spec_height(),
            cursor matches Some(p) ==> p.x < usize::MAX && p.y < usize::MAX,
        ensures
            final(self).wf(),
            final(self).spec_front().spec_width() == old(self).spec_front().spec_width(),
            final(self).spec_front().spec_height() == old(self).spec_front().spec_height(),
            !any_damage(spans@) && old(self).spec_cursor() == cursor ==> bytes@.len() == 0
                && final(self).spec_front() == old(self).spec_front() && final(self).spec_cursor()
                == old(self).spec_cursor(),
            any_damage(spans@) || old(self).spec_cursor() != cursor ==> {
                &&& final(self).spec_cursor() == cursor
                &&& (forall|x: int, y: int|
                    0 <= x < old(self).spec_front().spec_width() && 0 <= y < old(
                        self,
                    ).spec_front().spec_height() && damaged_at(spans@, x, y) ==> old(self).spec_front().cell(x, y)
                        == compositor.spec_back().cell(x, y)) ==> bytes@ == cursor_tail(cursor)
                &&& bytes@.len() >= cursor_tail(cursor).len()
                &&& bytes@.subrange(bytes@.len() - cursor_tail(cursor).len(), bytes@.len() as int)
                    == cursor_tail(cursor)
                &&& exists|ops: Seq<TermOp>|
                    bytes@ == ops_bytes(ops) + cursor_tail(cursor) && redraws(
                        ops,
                        old(self).spec_front(),
                        compositor.spec_back(),
                        spans@,
                        final(self).spec_front(),
                    )
                &&& forall|x: int, y: int|
                    0 <= x < old(self).spec_front().spec_width() && 0 <= y < old(
                        self,
                    ).spec_front().spec_height() ==> #[trigger] final(self).spec_front().cell(x, y)
                        == (if damaged_at(spans@, x, y) {
                        compositor.spec_back().cell(x, y)
                    } else {
                        old(self).spec_front().cell(x, y)
                    })
            },
    {
        let damage = has_damage(spans);
        let cursor_changed = !same_cursor(self.cursor, cursor);
        if !damage && !cursor_changed {
            return Vec::new();
        }
        let mut buf = AnsiBuffer::new();
        let ghost front0 = self.front;
        let ghost mut ops: Seq<TermOp> = Seq::empty();
        if damage {
            let drawn = Self::diff_damaged(&mut self.front, &compositor.back, spans, &mut buf);
            proof {
                ops = drawn@;
            }
        } else {
            proof {
                assert forall|x: int, y: int|
                    0 <= x < self.front.width && 0 <= y < self.front.height implies !damaged_at(spans@, x, y) by {
                    if damaged_at(spans@, x, y) {
                        assert(spans@[y].spans_view().len() > 0);
                    }
                }
            }
        }
        let ghost d = buf@;
        buf.extend(&[27u8, 91u8, 48u8, 109u8]);
        match cursor {
            Some(p) => {
                buf.push_move_sequence(p.x, p.y);
                buf.extend(&[27u8, 91u8, 63u8, 50u8, 53u8, 104u8]);
            },
            None => {
                buf.extend(&[27u8, 91u8, 63u8, 50u8, 53u8, 108u8]);
            },
        }
        self.cursor = cursor;
        proof {
            assert(ops_bytes(Seq::<TermOp>::empty()) =~= Seq::<u8>::empty());
            assert(d =~= ops_bytes(ops));
            assert(buf@ =~= ops_bytes(ops) + cursor_tail(cursor));
            assert(buf@.subrange(buf@.len() - cursor_tail(cursor).len(), buf@.len() as int) =~= cursor_tail(cursor));
            assert(redraws(ops, front0, compositor.spec_back(), spans@, self.front));
            if ops.len() > 0 {
                lemma_tight_paints(ops, 0, (0, 0, Style::spec_default()));
            }
        }
        buf.into_bytes()
    }

    /// Compares only damaged cells of `front` and `back`, emits cursor moves, style changes
    /// and runes for each run of differing cells, and updates `front` to match `back`. The
    /// pen starts in the default style; the operations written are returned.
    fn diff_damaged(front: &mut Frame, back: &Frame, spans: &[DamagedRow], out: &mut AnsiBuffer) -> (ops: Ghost<Seq<TermOp>>)
        requires
            old(front).wf(),
            back.wf(),
            rows_wf(spans@),
            back.spec_width() == old(front).spec_width(),
            back.spec_height() == old(front).spec_height(),
        ensures
            final(front).wf(),
            final(front).spec_width() == old(front).spec_width(),
            final(front).spec_height() == old(front).spec_height(),
            forall|x: int, y: int|
                0 <= x < old(front).spec_width() && 0 <= y < old(front).spec_height()
                    ==> #[trigger] final(front).cell(x, y) == (if damaged_at(spans@, x, y) {
                    back.cell(x, y)
                } else {
                    old(front).cell(x, y)
                }),
            final(out)@ == old(out)@ + ops_bytes(ops@),
            moves_first(ops@),
            tight(ops@),
            (forall|x: int, y: int|
                0 <= x < old(front).spec_width() && 0 <= y < old(front).spec_height() && damaged_at(
                    spans@,
                    x,
                    y,
                ) ==> old(front).cell(x, y) == back.cell(x, y)) ==> ops@.len() == 0,
            valid_ops(ops@, (0, 0, Style::spec_default())),
            forall|x: int, y: int|
                #[trigger] painted(ops@, (0, 0, Style::spec_default()), x, y) matches Some(g) ==> 0 <= x
                    < old(front).spec_width() && 0 <= y < old(front).spec_height() && damaged_at(
                    spans@,
                    x,
                    y,
                ) && g == back.cell(x, y) && old(front).cell(x, y) != back.cell(x, y),
            forall|x: int, y: int|
                0 <= x < old(front).spec_width() && 0 <= y < old(front).spec_height()
                    ==> final(front).cell(x, y) == match #[trigger] painted(
                    ops@,
                    (0, 0, Style::spec_default()),
                    x,
                    y,
                ) {
                    Some(g) => g,
                    None => old(front).cell(x, y),
                },
    {
        let mut current_style = Style::default();
        let ghost st0 = (0int, 0int, current_style);
        let ghost out0 = out@;
        let ghost mut ops: Seq<TermOp> = Seq::empty();
        proof {
            assert(ops_bytes(ops) =~= Seq::<u8>::empty());
            assert(out@ =~= out0 + ops_bytes(ops));
        }
        let width = front.width;
        let height = front.height;
        if width == 0 || height == 0 {
            return Ghost(ops);
        }
        let rows = min_usize(spans.len(), height);
        let ghost fd = front.data@;
        let n = front.data.len();
        let mut y: usize = 0;
        while y < rows
            invariant
                y <= rows,
                rows <= height,
                rows <= spans@.len(),
                rows_wf(spans@),
                width == front.width,
                height == front.height,
                width == back.width,
                height == back.height,
                width > 0,
                fd.len() == n,
                n == width * height,
                front.data@.len() == n,
                back.data@.len() == n,
                fd == old(front).data@,
                forall|x: int, yy: int|
                    0 <= x < width && 0 <= yy < height ==> #[trigger] front.data@[yy * width + x] == (
                    if yy < y && spans@[yy].is_marked(x) {
                        back.data@[yy * width + x]
                    } else {
                        fd[yy * width + x]
                    }),
                out@ == out0 + ops_bytes(ops),
                moves_first(ops),
                tight(ops),
                valid_ops(ops, st0),
                run_ops(ops, st0).2 == current_style,
                forall|x: int, yy: int|
                    #[trigger] painted(ops, st0, x, yy) matches Some(g) ==> 0 <= x < width && 0 <= yy
                        < y && spans@[yy].is_marked(x) && g == back.data@[yy * width + x]
                        && fd[yy * width + x] != back.data@[yy * width + x],
                forall|x: int, yy: int|
                    0 <= x < width && 0 <= yy < height ==> front.data@[yy * width + x] == match #[trigger] painted(
                        ops,
                        st0,
                        x,
                        yy,
                    ) {
                        Some(g) => g,
                        None => fd[yy * width + x],
                    },
            decreases rows - y,
        {
            proof {
                lemma_cell_index(0, y as int, width as int, height as int);
            }
            let row_start = y * width;
            let ghost before = front.data@;
            let ghost pen = current_style;
            let ghost prev = ops;
            let more = Self::diff_row(&mut front.data, &back.data, &spans[y], row_start, width, y, &mut current_style, out);
            proof {
                lemma_then_moving(prev, more@, st0, pen);
                lemma_phase_concat(prev, more@, 0);
                ops = prev + more@;
                assert forall|xx: int, yy: int|
                    0 <= xx < width && 0 <= yy < height implies #[trigger] front.data@[yy * width + xx]
                    == (if yy < y + 1 && spans@[yy].is_marked(xx) {
                    back.data@[yy * width + xx]
                } else {
                    fd[yy * width + xx]
                }) by {
                    lemma_cell_index(xx, yy, width as int, height as int);
                    lemma_row_range(xx, yy, width as int, y as int, 0, width as int);
                    if yy == y {
                        assert(yy * width + xx - row_start == xx);
                    }
                }
                assert forall|xx: int, yy: int|
                    #[trigger] painted(ops, st0, xx, yy) is Some implies 0 <= xx < width && 0 <= yy < y + 1
                        && spans@[yy].is_marked(xx) && painted(ops, st0, xx, yy)->0 == back.data@[yy * width
                        + xx] && fd[yy * width + xx] != back.data@[yy * width + xx] by {
                    if painted(more@, (0, 0, pen), xx, yy) is Some {
                        assert(yy == y);
                        assert(row_start + xx == yy * width + xx);
                        lemma_cell_index(xx, yy, width as int, height as int);
                        assert(before[yy * width + xx] == fd[yy * width + xx]);
                    } else {
                        assert(painted(prev, st0, xx, yy) is Some);
                    }
                }
                assert forall|xx: int, yy: int|
                    0 <= xx < width && 0 <= yy < height implies front.data@[yy * width + xx] == match #[trigger] painted(
                        ops,
                        st0,
                        xx,
                        yy,
                    ) {
                        Some(g) => g,
                        None => fd[yy * width + xx],
                    } by {
                    lemma_cell_index(xx, yy, width as int, height as int);
                    lemma_row_range(xx, yy, width as int, y as int, 0, width as int);
                    assert(before[yy * width + xx] == match painted(prev, st0, xx, yy) {
                        Some(g) => g,
                        None => fd[yy * width + xx],
                    });
                    if yy == y {
                        assert(row_start + xx == yy * width + xx);
                        assert(painted(prev, st0, xx, yy) is None);
                        assert(front.data@[row_start + xx] == match painted(more@, (0, 0, pen), xx, y as int) {
                            Some(g) => g,
                            None => before[row_start + xx],
                        });
                    } else {
                        assert(painted(more@, (0, 0, pen), xx, yy) is None);
                        assert(front.data@[yy * width + xx] == before[yy * width + xx]);
                    }
                }
            }
            y += 1;
        }
        proof {
            assert forall|xx: int, yy: int|
                0 <= xx < width && 0 <= yy < height implies #[trigger] front.cell(xx, yy) == (if damaged_at(spans@, xx, yy) {
                back.cell(xx, yy)
            } else {
                old(front).cell(xx, yy)
            }) by {
                if yy >= rows {
                    assert(yy >= spans@.len());
                }
            }
            assert forall|xx: int, yy: int|
                #[trigger] painted(ops, st0, xx, yy) is Some implies 0 <= xx < width && 0 <= yy < height
                    && damaged_at(spans@, xx, yy) && painted(ops, st0, xx, yy)->0 == back.cell(xx, yy)
                    && old(front).cell(xx, yy) != back.cell(xx, yy) by {
                assert(yy < rows);
            }
        }
        proof {
            if ops.len() > 0 {
                lemma_tight_paints(ops, 0, st0);
            }
        }
        Ghost(ops)
    }

    /// Brings the damaged cells of one row, which starts at `row_start` and is row `y` of
    /// the screen, up to date. The operations written are returned.
    fn diff_row(
        front: &mut Vec<Glyph>,
        back: &Vec<Glyph>,
        row: &DamagedRow,
        row_start: usize,
        width: usize,
        y: usize,
        current_style: &mut Style,
        out: &mut AnsiBuffer,
    ) -> (ops: Ghost<Seq<TermOp>>)
        requires
            old(front)@.len() == back@.len(),
            row_start + width <= back@.len(),
            row.wf(),
            y < usize::MAX,
        ensures
            final(front)@.len() == old(front)@.len(),
            forall|k: int|
                0 <= k < old(front)@.len() ==> #[trigger] final(front)@[k] == (if row_start <= k
                    < row_start + width && row.is_marked(k - row_start) {
                    back@[k]
                } else {
                    old(front)@[k]
                }),
            final(out)@ == old(out)@ + ops_bytes(ops@),
            moves_first(ops@),
            tight(ops@),
            valid_ops(ops@, (0, 0, *old(current_style))),
            run_ops(ops@, (0, 0, *old(current_style))).2 == *final(current_style),
            forall|x: int, yy: int|
                #[trigger] painted(ops@, (0, 0, *old(current_style)), x, yy) matches Some(g) ==> yy
                    == y && 0 <= x < width && row.is_marked(x) && g == back@[row_start + x]
                    && old(front)@[row_start + x] != back@[row_start + x],
            forall|x: int|
                0 <= x < width ==> final(front)@[row_start + x] == match #[trigger] painted(
                    ops@,
                    (0, 0, *old(current_style)),
                    x,
                    y as int,
                ) {
                    Some(g) => g,
                    None => old(front)@[row_start + x],
                },
    {
        let ghost st0 = (0int, 0int, *current_style);
        let ghost out0 = out@;
        let ghost mut ops: Seq<TermOp> = Seq::empty();
        proof {
            assert(ops_bytes(ops) =~= Seq::<u8>::empty());
            assert(out@ =~= out0 + ops_bytes(ops));
        }
        let row_spans = row.spans();
        let ghost rs = row_spans@;
        let mut j: usize = 0;
        while j < row_spans.len()
            invariant
                j <= rs.len(),
                rs == row_spans@,
                rs == row.spans_view(),
                old(front)@.len() == back@.len(),
                row_start + width <= back@.len(),
                front@.len() == back@.len(),
                y < usize::MAX,
                forall|k: int|
                    0 <= k < front@.len() ==> #[trigger] front@[k] == (if row_start <= k < row_start
                        + width && covered(rs.take(j as int), k - row_start) {
                        back@[k]
                    } else {
                        old(front)@[k]
                    }),
                out@ == out0 + ops_bytes(ops),
                moves_first(ops),
                tight(ops),
                valid_ops(ops, st0),
                run_ops(ops, st0).2 == *current_style,
                forall|x: int, yy: int|
                    #[trigger] painted(ops, st0, x, yy) matches Some(g) ==> yy == y && 0 <= x < width
                        && covered(rs.take(j as int), x) && g == back@[row_start + x]
                        && old(front)@[row_start + x] != back@[row_start + x],
                forall|x: int|
                    0 <= x < width ==> front@[row_start + x] == match #[trigger] painted(
                        ops,
                        st0,
                        x,
                        y as int,
                    ) {
                        Some(g) => g,
                        None => old(front)@[row_start + x],
                    },
            decreases rs.len() - j,
        {
            let span = row_spans[j];
            let x0 = min_usize(span.start, width);
            let end = min_usize(span.end, width);
            let ghost before = front@;
            let ghost pen = *current_style;
            let ghost prev = ops;
            proof {
                assert(rs.take(j + 1) =~= rs.take(j as int) + seq![span]);
            }
            if x0 < end {
                let more = Self::diff_span(front, back, row_start, y, x0, end, current_style, out);
                proof {
                    lemma_then_moving(prev, more@, st0, pen);
                    lemma_phase_concat(prev, more@, 0);
                    ops = prev + more@;
                    assert forall|x: int, yy: int|
                        #[trigger] painted(ops, st0, x, yy) is Some implies yy == y && 0 <= x < width
                            && covered(rs.take(j + 1), x) && painted(ops, st0, x, yy)->0 == back@[row_start
                            + x] && old(front)@[row_start + x] != back@[row_start + x] by {
                        crate::surface::damage::lemma_covered_concat(rs.take(j as int), seq![span], x);
                        crate::surface::damage::lemma_covered_single(span, x);
                        if painted(more@, (0, 0, pen), x, yy) is None {
                            assert(painted(prev, st0, x, yy) is Some);
                        } else {
                            assert(before[row_start + x] != back@[row_start + x]);
                            assert(before[row_start + x] == (if row_start <= row_start + x < row_start + width
                                && covered(rs.take(j as int), x) {
                                back@[row_start + x]
                            } else {
                                old(front)@[row_start + x]
                            }));
                        }
                    }
                    assert forall|x: int| 0 <= x < width implies front@[row_start + x] == match #[trigger] painted(
                        ops,
                        st0,
                        x,
                        y as int,
                    ) {
                        Some(g) => g,
                        None => old(front)@[row_start + x],
                    } by {
                        assert(painted(ops, st0, x, y as int) == match painted(more@, (0, 0, pen), x, y as int) {
                            Some(g) => Some(g),
                            None => painted(prev, st0, x, y as int),
                        });
                        assert(before[row_start + x] == match painted(prev, st0, x, y as int) {
                            Some(g) => g,
                            None => old(front)@[row_start + x],
                        });
                        if x0 <= x < end {
                            assert(front@[row_start + x] == back@[row_start + x]);
                        } else {
                            assert(front@[row_start + x] == before[row_start + x]);
                            assert(painted(more@, (0, 0, pen), x, y as int) is None);
                        }
                    }
                }
            } else {
                proof {
                    assert forall|x: int, yy: int|
                        #[trigger] painted(ops, st0, x, yy) is Some implies covered(rs.take(j + 1), x) by {
                        crate::surface::damage::lemma_covered_concat(rs.take(j as int), seq![span], x);
                    }
                }
            }
            proof {
                assert forall|k: int| 0 <= k < front@.len() implies #[trigger] front@[k] == (if row_start
                    <= k < row_start + width && covered(rs.take(j + 1), k - row_start) {
                    back@[k]
                } else {
                    old(front)@[k]
                }) by {
                    crate::surface::damage::lemma_covered_concat(rs.take(j as int), seq![span], k - row_start);
                    crate::surface::damage::lemma_covered_single(span, k - row_start);
                    assert(before[k] == (if row_start <= k < row_start + width && covered(
                        rs.take(j as int),
                        k - row_start,
                    ) {
                        back@[k]
                    } else {
                        old(front)@[k]
                    }));
                }
            }
            j += 1;
        }
        proof {
            assert(rs.take(rs.len() as int) =~= rs);
        }
        Ghost(ops)
    }

    /// Brings the cells `[x0, end)` of the row at `row_start`, which is row `y` of the
    /// screen, up to date: cells that already match are skipped, and each run of differing
    /// cells gets one cursor move. The operations written are returned.
    fn diff_span(
        front: &mut Vec<Glyph>,
        back: &Vec<Glyph>,
        row_start: usize,
        y: usize,
        x0: usize,
        end: usize,
        current_style: &mut Style,
        out: &mut AnsiBuffer,
    ) -> (ops: Ghost<Seq<TermOp>>)
        requires
            old(front)@.len() == back@.len(),
            x0 <= end,
            row_start + end <= back@.len(),
            y < usize::MAX,
        ensures
            final(front)@.len() == old(front)@.len(),
            forall|k: int|
                0 <= k < old(front)@.len() ==> #[trigger] final(front)@[k] == (if row_start + x0 <= k
                    < row_start + end {
                    back@[k]
                } else {
                    old(front)@[k]
                }),
            final(out)@ == old(out)@ + ops_bytes(ops@),
            moves_first(ops@),
            tight(ops@),
            valid_ops(ops@, (0, 0, *old(current_style))),
            run_ops(ops@, (0, 0, *old(current_style))).2 == *final(current_style),
            forall|x: int, yy: int|
                #[trigger] painted(ops@, (0, 0, *old(current_style)), x, yy) matches Some(g) ==> yy
                    == y && x0 <= x < end && g == back@[row_start + x] && old(front)@[row_start + x]
                    != back@[row_start + x],
            forall|x: int|
                x0 <= x < end ==> back@[row_start + x] == match #[trigger] painted(
                    ops@,
                    (0, 0, *old(current_style)),
                    x,
                    y as int,
                ) {
                    Some(g) => g,
                    None => old(front)@[row_start + x],
                },
    {
        let ghost st0 = (0int, 0int, *current_style);
        let ghost out0 = out@;
        let ghost mut ops: Seq<TermOp> = Seq::empty();
        proof {
            assert(ops_bytes(ops) =~= Seq::<u8>::empty());
            assert(out@ =~= out0 + ops_bytes(ops));
        }
        let n = back.len();
        let mut x = x0;
        while x < end
            invariant
                x0 <= x <= end,
                n == back@.len(),
                old(front)@.len() == n,
                row_start + end <= back@.len(),
                front@.len() == back@.len(),
                y < usize::MAX,
                forall|k: int|
                    0 <= k < front@.len() ==> #[trigger] front@[k] == (if row_start + x0 <= k
                        < row_start + x {
                        back@[k]
                    } else {
                        old(front)@[k]
                    }),
                out@ == out0 + ops_bytes(ops),
                moves_first(ops),
                tight(ops),
                valid_ops(ops, st0),
                run_ops(ops, st0).2 == *current_style,
                forall|xx: int, yy: int|
                    #[trigger] painted(ops, st0, xx, yy) matches Some(g) ==> yy == y && x0 <= xx < x
                        && g == back@[row_start + xx] && old(front)@[row_start + xx] != back@[row_start + xx],
                forall|xx: int|
                    x0 <= xx < x ==> back@[row_start + xx] == match #[trigger] painted(
                        ops,
                        st0,
                        xx,
                        y as int,
                    ) {
                        Some(g) => g,
                        None => old(front)@[row_start + xx],
                    },
            decreases end - x,
        {
            if front[row_start + x] == back[row_start + x] {
                assert(front@[row_start + x] == old(front)@[row_start + x]);
                assert(painted(ops, st0, x as int, y as int) is None);
                x += 1;
            } else {
                let run_start = x;
                let ghost fb = front@;
                x += 1;
                while x < end && front[row_start + x] != back[row_start + x]
                    invariant
                        run_start < x <= end,
                        n == back@.len(),
                        row_start + end <= back@.len(),
                        front@.len() == back@.len(),
                        front@ == fb,
                        forall|k: int| run_start <= k < x ==> #[trigger] front@[row_start + k] != back@[row_start + k],
                    decreases end - x,
                {
                    x += 1;
                }
                let ghost pen = *current_style;
                out.push_move_sequence(run_start, y);
                let run = Self::draw_run(front, back, row_start, y, run_start, x, current_style, out);
                proof {
                    lemma_move_then(ops, run_start as nat, y as nat, run@, st0);
                    lemma_phase_push(ops, TermOp::MoveTo(run_start as nat, y as nat), 0);
                    lemma_phase_concat(ops.push(TermOp::MoveTo(run_start as nat, y as nat)), run@, 0);
                    let prev = ops;
                    ops = ops.push(TermOp::MoveTo(run_start as nat, y as nat)) + run@;
                    assert forall|xx: int, yy: int|
                        #[trigger] painted(ops, st0, xx, yy) is Some implies yy == y && x0 <= xx < x
                            && painted(ops, st0, xx, yy)->0 == back@[row_start + xx] && old(front)@[row_start
                            + xx] != back@[row_start + xx] by {
                        if painted(run@, (run_start as int, y as int, pen), xx, yy) is Some {
                            assert(fb[row_start + xx] != back@[row_start + xx]);
                            assert(fb[row_start + xx] == old(front)@[row_start + xx]);
                        } else {
                            assert(painted(prev, st0, xx, yy) is Some);
                        }
                    }
                    assert(out@ =~= out0 + ops_bytes(ops));
                }
            }
        }
        Ghost(ops)
    }

    /// Writes the cells `[start, stop)` of the row at `row_start`, which is row `y` of the
    /// screen, from `back` into `front`, with one style change per run of cells that share
    /// a style. The cursor is at `(start, y)`; the operations written are returned.
    fn draw_run(
        front: &mut Vec<Glyph>,
        back: &Vec<Glyph>,
        row_start: usize,
        y: usize,
        start: usize,
        stop: usize,
        current_style: &mut Style,
        out: &mut AnsiBuffer,
    ) -> (ops: Ghost<Seq<TermOp>>)
        requires
            old(front)@.len() == back@.len(),
            start <= stop,
            row_start + stop <= back@.len(),
        ensures
            final(front)@.len() == old(front)@.len(),
            forall|k: int|
                0 <= k < old(front)@.len() ==> #[trigger] final(front)@[k] == (if row_start + start
                    <= k < row_start + stop {
                    back@[k]
                } else {
                    old(front)@[k]
                }),
            final(out)@ == old(out)@ + ops_bytes(ops@),
            valid_ops(ops@, (start as int, y as int, *old(current_style))),
            run_ops(ops@, (start as int, y as int, *old(current_style))) == (
                stop as int,
                y as int,
                *final(current_style),
            ),
            forall|x: int, yy: int|
                #[trigger] painted(ops@, (start as int, y as int, *old(current_style)), x, yy) == (
                if yy == y && start <= x < stop {
                    Some(back@[row_start + x])
                } else {
                    None
                }),
            phase(ops@, 1) == if start < stop {
                0int
            } else {
                1int
            },
    {
        let ghost st0 = (start as int, y as int, *current_style);
        let ghost out0 = out@;
        let ghost mut ops: Seq<TermOp> = Seq::empty();
        let n = back.len();
        let mut dx = start;
        proof {
            assert(ops_bytes(ops) =~= Seq::<u8>::empty());
            assert(out@ =~= out0 + ops_bytes(ops));
        }
        while dx < stop
            invariant
                start <= dx <= stop,
                n == back@.len(),
                old(front)@.len() == n,
                row_start + stop <= back@.len(),
                front@.len() == back@.len(),
                forall|k: int|
                    0 <= k < front@.len() ==> #[trigger] front@[k] == (if row_start + start <= k
                        < row_start + dx {
                        back@[k]
                    } else {
                        old(front)@[k]
                    }),
                out@ == out0 + ops_bytes(ops),
                valid_ops(ops, st0),
                run_ops(ops, st0) == (dx as int, y as int, *current_style),
                forall|x: int, yy: int|
                    #[trigger] painted(ops, st0, x, yy) == (if yy == y && start <= x < dx {
                        Some(back@[row_start + x])
                    } else {
                        None
                    }),
                phase(ops, 1) == if dx == start {
                    1int
                } else {
                    0int
                },
            decreases stop - dx,
        {
            let style = back[row_start + dx].style;
            if style != *current_style {
                proof {
                    lemma_ops_push(ops, TermOp::Pen(*current_style, style), st0);
                    lemma_phase_push(ops, TermOp::Pen(*current_style, style), 1);
                    ops = ops.push(TermOp::Pen(*current_style, style));
                }
                out.push_style(*current_style, style);
                *current_style = style;
            }
            let style_start = dx;
            let ghost ps = phase(ops, 1);
            dx += 1;
            while dx < stop && back[row_start + dx].style == style
                invariant
                    style_start < dx <= stop,
                    n == back@.len(),
                    row_start + stop <= back@.len(),
                    forall|k: int| style_start <= k < dx ==> (#[trigger] back@[row_start + k]).style == style,
                decreases stop - dx,
            {
                dx += 1;
            }
            let mut i = style_start;
            while i < dx
                invariant
                    start <= style_start <= i <= dx,
                    style_start < dx,
                    0 <= ps <= 2,
                    phase(ops, 1) == if i == style_start {
                        ps
                    } else {
                        0int
                    },
                    dx <= stop,
                    n == back@.len(),
                    old(front)@.len() == n,
                    row_start + stop <= back@.len(),
                    front@.len() == back@.len(),
                    forall|k: int| style_start <= k < dx ==> (#[trigger] back@[row_start + k]).style == style,
                    *current_style == style,
                    forall|k: int|
                        0 <= k < front@.len() ==> #[trigger] front@[k] == (if row_start + start <= k
                            < row_start + i {
                            back@[k]
                        } else {
                            old(front)@[k]
                        }),
                    out@ == out0 + ops_bytes(ops),
                    valid_ops(ops, st0),
                    run_ops(ops, st0) == (i as int, y as int, *current_style),
                    forall|x: int, yy: int|
                        #[trigger] painted(ops, st0, x, yy) == (if yy == y && start <= x < i {
                            Some(back@[row_start + x])
                        } else {
                            None
                        }),
                decreases dx - i,
            {
                let cell = back[row_start + i];
                proof {
                    lemma_ops_push(ops, TermOp::Put(cell.rune), st0);
                    lemma_phase_push(ops, TermOp::Put(cell.rune), 1);
                    assert(back@[row_start + i as int].style == style);
                    assert(Glyph { style: style, rune: cell.rune } == cell);
                    ops = ops.push(TermOp::Put(cell.rune));
                }
                out.push_rune(&cell.rune);
                front.set(row_start + i, cell);
                i += 1;
            }
        }
        Ghost(ops)
    }
}

/// Two optional cursor positions are the same.
fn same_cursor(a: Option<Point>, b: Option<Point>) -> (r: bool)
    ensures
        r == (a == b),
{
    match (a, b) {
        (Some(p), Some(q)) => p == q,
        (None, None) => true,
        _ => false,
    }
}

} // verus!
