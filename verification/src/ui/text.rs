//! Styled text: spans, lines, their layout into rows, and the text widget.
use vstd::prelude::*;

use crate::surface::geometry::{Rect, min_of, min_usize};
use crate::surface::glyph::{Glyph, styled_glyph};
use crate::surface::pane::{Pane, styled_glyphs, styled_text};
use crate::surface::style::Style;
use crate::ui::draw::{draw_rows, rows_drawn};
use crate::ui::state::{InteractionStyle, WidgetState};

verus! {

/// A styled run of text within a line.
#[derive(Debug, Clone, PartialEq, Eq)]
pub struct StyledSpan {
    text: String,
    style: Style,
}

impl StyledSpan {
    /// The span's characters.
    pub closed spec fn spec_text(&self) -> Seq<char> {
        self.text@
    }

    /// The span's style.
    pub closed spec fn spec_style(&self) -> Style {
        self.style
    }

    /// Creates a span with default styling.
    pub fn new(text: String) -> (s: Self)
        ensures
            s.spec_text() == text@,
            s.spec_style() == Style::spec_default(),
    {
        StyledSpan { text, style: Style::default() }
    }

    /// Creates a span with the provided styling.
    pub fn with_style(text: String, style: Style) -> (s: Self)
        ensures
            s.spec_text() == text@,
            s.spec_style() == style,
    {
        StyledSpan { text, style }
    }

    /// Replaces the span text.
    pub fn text(self, text: String) -> (s: Self)
        ensures
            s.spec_text() == text@,
            s.spec_style() == self.spec_style(),
    {
        StyledSpan { text, style: self.style }
    }

    /// Replaces the span style.
    pub fn style(self, style: Style) -> (s: Self)
        ensures
            s.spec_text() == self.spec_text(),
            s.spec_style() == style,
    {
        StyledSpan { text: self.text, style }
    }

    /// Returns the number of characters in the span.
    pub fn len_chars(&self) -> (n: usize)
        ensures
            n == self.spec_text().len(),
    {
        self.text.as_str().unicode_len()
    }

    /// Collects the span into styled glyphs.
    pub fn glyphs(&self) -> (v: Vec<Glyph>)
        ensures
            v@ == styled_text(self.spec_text(), self.spec_style()),
    {
        styled_glyphs(self.text.as_str(), self.style)
    }

    /// Appends the span's styled glyphs into `out`.
    pub fn extend_glyphs(&self, out: &mut Vec<Glyph>)
        ensures
            final(out)@ == old(out)@ + styled_text(self.spec_text(), self.spec_style()),
    {
        self.extend_glyphs_styled(out, self.style);
    }

    /// Appends the span's characters into `out`, drawn in `style`.
    fn extend_glyphs_styled(&self, out: &mut Vec<Glyph>, style: Style)
        ensures
            final(out)@ == old(out)@ + styled_text(self.spec_text(), style),
    {
        let mut g = styled_glyphs(self.text.as_str(), style);
        out.append(&mut g);
    }
}

/// The style a span is drawn in: an interaction style other than the default overrides
/// the span's own style.
pub open spec fn span_style(over: Style, own: Style) -> Style {
    if over == Style::spec_default() {
        own
    } else {
        over
    }
}

/// The glyphs of a line's spans, each in the style `span_style` gives it.
pub open spec fn line_glyphs(spans: Seq<StyledSpan>, over: Style) -> Seq<Glyph>
    decreases spans.len(),
{
    if spans.len() == 0 {
        Seq::empty()
    } else {
        line_glyphs(spans.drop_last(), over) + styled_text(
            spans.last().spec_text(),
            span_style(over, spans.last().spec_style()),
        )
    }
}

/// The glyphs of a line's spans, each in its own style.
pub open spec fn line_own_glyphs(spans: Seq<StyledSpan>) -> Seq<Glyph>
    decreases spans.len(),
{
    if spans.len() == 0 {
        Seq::empty()
    } else {
        line_own_glyphs(spans.drop_last()) + styled_text(
            spans.last().spec_text(),
            spans.last().spec_style(),
        )
    }
}

/// Total number of characters of a line's spans.
pub open spec fn line_chars(spans: Seq<StyledSpan>) -> nat
    decreases spans.len(),
{
    if spans.len() == 0 {
        0
    } else {
        line_chars(spans.drop_last()) + spans.last().spec_text().len()
    }
}

/// A line of text composed of styled spans.
#[derive(Debug, Clone, PartialEq, Eq)]
pub struct StyledLine {
    spans: Vec<StyledSpan>,
}

impl StyledLine {
    /// The spans of the line.
    pub closed spec fn spec_spans(&self) -> Seq<StyledSpan> {
        self.spans@
    }

    /// Creates an empty styled line.
    pub fn new() -> (l: Self)
        ensures
            l.spec_spans() == Seq::<StyledSpan>::empty(),
    {
        StyledLine { spans: Vec::new() }
    }

    /// Returns a line with `span` appended.
    pub fn with_span(self, span: StyledSpan) -> (l: Self)
        ensures
            l.spec_spans() == self.spec_spans().push(span),
    {
        let mut spans = self.spans;
        spans.push(span);
        StyledLine { spans }
    }

    /// Creates a line from the provided spans.
    pub fn with_spans(spans: Vec<StyledSpan>) -> (l: Self)
        ensures
            l.spec_spans() == spans@,
    {
        StyledLine { spans }
    }

    /// Appends a span to the line.
    pub fn push(&mut self, span: StyledSpan)
        ensures
            final(self).spec_spans() == old(self).spec_spans().push(span),
    {
        self.spans.push(span);
    }

    /// Appends unstyled text to the line.
    pub fn push_text(&mut self, text: String)
        ensures
            final(self).spec_spans().len() == old(self).spec_spans().len() + 1,
            final(self).spec_spans().drop_last() == old(self).spec_spans(),
            final(self).spec_spans().last().spec_text() == text@,
            final(self).spec_spans().last().spec_style() == Style::spec_default(),
    {
        self.spans.push(StyledSpan::new(text));
        assert(self.spec_spans().drop_last() =~= old(self).spec_spans());
    }

    /// Appends styled text to the line.
    pub fn push_styled(&mut self, text: String, style: Style)
        ensures
            final(self).spec_spans().len() == old(self).spec_spans().len() + 1,
            final(self).spec_spans().drop_last() == old(self).spec_spans(),
            final(self).spec_spans().last().spec_text() == text@,
            final(self).spec_spans().last().spec_style() == style,
    {
        self.spans.push(StyledSpan::with_style(text, style));
        assert(self.spec_spans().drop_last() =~= old(self).spec_spans());
    }

    /// Returns the spans in this line.
    pub fn spans(&self) -> (s: &[StyledSpan])
        ensures
            s@ == self.spec_spans(),
    {
        self.spans.as_slice()
    }

    /// Returns `true` if the line has no spans.
    pub fn is_empty(&self) -> (b: bool)
        ensures
            b == (self.spec_spans().len() == 0),
    {
        self.spans.len() == 0
    }

    /// Returns the number of spans in the line.
    pub fn len(&self) -> (n: usize)
        ensures
            n == self.spec_spans().len(),
    {
        self.spans.len()
    }

    /// Returns the total character count across all spans.
    pub fn len_chars(&self) -> (n: usize)
        requires
            line_chars(self.spec_spans()) <= usize::MAX,
        ensures
            n == line_chars(self.spec_spans()),
    {
        let mut total: usize = 0;
        let mut i: usize = 0;
        while i < self.spans.len()
            invariant
                i <= self.spec_spans().len(),
                total == line_chars(self.spec_spans().take(i as int)),
                line_chars(self.spec_spans()) <= usize::MAX,
            decreases self.spec_spans().len() - i,
        {
            proof {
                assert(self.spec_spans().take(i + 1).drop_last() =~= self.spec_spans().take(i as int));
                lemma_line_chars_prefix(self.spec_spans(), i + 1);
            }
            total = total + self.spans[i].len_chars();
            i += 1;
        }
        proof {
            assert(self.spec_spans().take(i as int) =~= self.spec_spans());
        }
        total
    }

    /// Collects the line into styled glyphs.
    pub fn glyphs(&self) -> (v: Vec<Glyph>)
        ensures
            v@ == line_own_glyphs(self.spec_spans()),
    {
        let mut v: Vec<Glyph> = Vec::new();
        self.extend_glyphs(&mut v);
        v
    }

    /// Appends the line's styled glyphs into `out`.
    pub fn extend_glyphs(&self, out: &mut Vec<Glyph>)
        ensures
            final(out)@ == old(out)@ + line_own_glyphs(self.spec_spans()),
    {
        let mut i: usize = 0;
        while i < self.spans.len()
            invariant
                i <= self.spec_spans().len(),
                out@ == old(out)@ + line_own_glyphs(self.spec_spans().take(i as int)),
            decreases self.spec_spans().len() - i,
        {
            proof {
                assert(self.spec_spans().take(i + 1).drop_last() =~= self.spec_spans().take(i as int));
            }
            self.spans[i].extend_glyphs(out);
            i += 1;
        }
        proof {
            assert(self.spec_spans().take(i as int) =~= self.spec_spans());
        }
    }

    /// The line's glyphs with each span drawn in `span_style(over, ..)`.
    fn glyphs_over(&self, over: Style) -> (v: Vec<Glyph>)
        ensures
            v@ == line_glyphs(self.spec_spans(), over),
    {
        let mut v: Vec<Glyph> = Vec::new();
        let mut i: usize = 0;
        while i < self.spans.len()
            invariant
                i <= self.spec_spans().len(),
                v@ == line_glyphs(self.spec_spans().take(i as int), over),
            decreases self.spec_spans().len() - i,
        {
            proof {
                assert(self.spec_spans().take(i + 1).drop_last() =~= self.spec_spans().take(i as int));
            }
            let s = &self.spans[i];
            let style = if over == Style::default() {
                s.style
            } else {
                over
            };
            s.extend_glyphs_styled(&mut v, style);
            i += 1;
        }
        proof {
            assert(self.spec_spans().take(i as int) =~= self.spec_spans());
        }
        v
    }
}

/// Character counts of prefixes of a line add up.
proof fn lemma_line_chars_prefix(spans: Seq<StyledSpan>, k: int)
    requires
        0 < k <= spans.len(),
    ensures
        line_chars(spans.take(k)) == line_chars(spans.take(k - 1)) + spans[k - 1].spec_text().len(),
        line_chars(spans.take(k)) <= line_chars(spans),
    decreases spans.len() - k,
{
    assert(spans.take(k).drop_last() =~= spans.take(k - 1));
    if k < spans.len() {
        lemma_line_chars_prefix(spans, k + 1);
    } else {
        assert(spans.take(k) =~= spans);
    }
}


/// A line of glyphs cut into rows of `w`: one row when it fits (or when `w` is `0`), else a
/// full row followed by the rows of the rest.
pub open spec fn wrap_rows(g: Seq<Glyph>, w: nat) -> Seq<Seq<Glyph>>
    decreases g.len(),
{
    if w == 0 || g.len() <= w {
        seq![g]
    } else {
        seq![g.take(w as int)] + wrap_rows(g.skip(w as int), w)
    }
}

/// The rows a line of glyphs takes at width `w`: wrapped, or cut to one row.
pub open spec fn line_rows(g: Seq<Glyph>, w: nat, wrap: bool) -> Seq<Seq<Glyph>> {
    if wrap {
        wrap_rows(g, w)
    } else if g.len() <= w {
        seq![g]
    } else {
        seq![g.take(w as int)]
    }
}

/// The rows that `lines` take at width `w`, in order, with spans drawn in
/// `span_style(over, ..)`.
pub open spec fn layout(lines: Seq<StyledLine>, w: nat, wrap: bool, over: Style) -> Seq<Seq<Glyph>>
    decreases lines.len(),
{
    if lines.len() == 0 {
        Seq::empty()
    } else {
        layout(lines.drop_last(), w, wrap, over) + line_rows(
            line_glyphs(lines.last().spec_spans(), over),
            w,
            wrap,
        )
    }
}

/// The views of a vector of rows.
pub open spec fn rows_view(rows: Seq<Vec<Glyph>>) -> Seq<Seq<Glyph>> {
    rows.map_values(|r: Vec<Glyph>| r@)
}

/// Glyphs `[a, b)` of `g`.
fn glyph_range(g: &Vec<Glyph>, a: usize, b: usize) -> (v: Vec<Glyph>)
    requires
        a <= b <= g@.len(),
    ensures
        v@ == g@.subrange(a as int, b as int),
{
    let mut v: Vec<Glyph> = Vec::new();
    let mut i = a;
    while i < b
        invariant
            a <= i <= b,
            b <= g@.len(),
            v@ == g@.subrange(a as int, i as int),
        decreases b - i,
    {
        v.push(g[i]);
        i += 1;
        proof {
            assert(v@ =~= g@.subrange(a as int, i as int));
        }
    }
    v
}

/// Appends the rows that a line of glyphs takes at width `width` to `rows`.
fn push_line_rows(rows: &mut Vec<Vec<Glyph>>, g: Vec<Glyph>, width: usize, wrap: bool)
    requires
        width > 0,
    ensures
        rows_view(final(rows)@) == rows_view(old(rows)@) + line_rows(g@, width as nat, wrap),
        final(rows)@.len() >= old(rows)@.len(),
        forall|i: int| 0 <= i < old(rows)@.len() ==> #[trigger] final(rows)@[i] == old(rows)@[i],
        forall|i: int|
            old(rows)@.len() <= i < final(rows)@.len() ==> (#[trigger] final(rows)@[i])@.len() <= width,
{
    let ghost r0 = rows_view(rows@);
    if !wrap {
        if g.len() <= width {
            rows.push(g);
        } else {
            let row = glyph_range(&g, 0, width);
            rows.push(row);
            assert(g@.subrange(0, width as int) =~= g@.take(width as int));
        }
        assert(rows_view(rows@) =~= r0 + line_rows(g@, width as nat, wrap));
        return;
    }
    let n = g.len();
    let mut start: usize = 0;
    assert(g@.skip(0) =~= g@);
    while n - start > width
        invariant
            start <= n,
            n == g@.len(),
            width > 0,
            rows_view(rows@) + wrap_rows(g@.skip(start as int), width as nat) == r0 + wrap_rows(
                g@,
                width as nat,
            ),
            rows@.len() >= old(rows)@.len(),
            forall|i: int| 0 <= i < old(rows)@.len() ==> #[trigger] rows@[i] == old(rows)@[i],
            forall|i: int| old(rows)@.len() <= i < rows@.len() ==> (#[trigger] rows@[i])@.len() <= width,
        decreases n - start,
    {
        let row = glyph_range(&g, start, start + width);
        let ghost rest = g@.skip(start as int);
        proof {
            assert(rest.take(width as int) =~= row@);
            assert(rest.skip(width as int) =~= g@.skip(start + width));
        }
        let ghost before = rows_view(rows@);
        rows.push(row);
        proof {
            assert(rows_view(rows@) =~= before.push(row@));
            assert(wrap_rows(rest, width as nat) == seq![rest.take(width as int)] + wrap_rows(
                rest.skip(width as int),
                width as nat,
            ));
            assert(before.push(row@) + wrap_rows(g@.skip(start + width), width as nat) =~= before
                + wrap_rows(rest, width as nat));
        }
        start = start + width;
    }
    let last = glyph_range(&g, start, n);
    let ghost before = rows_view(rows@);
    rows.push(last);
    proof {
        assert(g@.skip(start as int) =~= last@);
        assert(rows_view(rows@) =~= before.push(last@));
        assert(wrap_rows(last@, width as nat) == seq![last@]);
        assert(before.push(last@) =~= before + wrap_rows(g@.skip(start as int), width as nat));
    }
}

/// Lays `lines` out into rows of at most `width` glyphs.
pub fn layout_rows(lines: &[StyledLine], width: usize, wrap: bool, over: Style) -> (rows: Vec<
    Vec<Glyph>,
>)
    requires
        width > 0,
    ensures
        rows_view(rows@) == layout(lines@, width as nat, wrap, over),
        forall|i: int| 0 <= i < rows@.len() ==> (#[trigger] rows@[i])@.len() <= width,
{
    let mut rows: Vec<Vec<Glyph>> = Vec::new();
    let mut i: usize = 0;
    while i < lines.len()
        invariant
            i <= lines@.len(),
            width > 0,
            rows_view(rows@) == layout(lines@.take(i as int), width as nat, wrap, over),
            forall|k: int| 0 <= k < rows@.len() ==> (#[trigger] rows@[k])@.len() <= width,
        decreases lines@.len() - i,
    {
        proof {
            assert(lines@.take(i + 1).drop_last() =~= lines@.take(i as int));
        }
        let g = lines[i].glyphs_over(over);
        push_line_rows(&mut rows, g, width, wrap);
        i += 1;
    }
    proof {
        assert(lines@.take(i as int) =~= lines@);
    }
    rows
}


/// The glyph a widget's area is cleared with before drawing, in style `st`.
pub open spec fn clear_glyph_for(st: Style) -> Glyph {
    styled_glyph(' ', st)
}

/// Draws the first rows of `rows` (at most the rectangle's height) into `rect`, after
/// clearing it with blanks in style `st`.
pub fn draw_top_rows(pane: &mut Pane, rect: Rect, rows: &Vec<Vec<Glyph>>, st: Style)
    requires
        old(pane).wf(),
        rect.x + rect.width <= usize::MAX,
        rect.y + rect.height <= usize::MAX,
        forall|i: int| 0 <= i < rows@.len() ==> (#[trigger] rows@[i])@.len() <= rect.width,
    ensures
        rows_drawn(
            *final(pane),
            *old(pane),
            rect,
            rows_view(rows@).take(min_of(rows@.len() as int, rect.height as int)),
            0,
            clear_glyph_for(st),
        ),
{
    let count = min_usize(rows.len(), rect.height);
    draw_rows(pane, rect, rows, 0, count, 0, Glyph::from_char(' ').with_style(st));
    assert(rows@.subrange(0, count as int).map_values(|r: Vec<Glyph>| r@) =~= rows_view(rows@).take(
        count as int,
    ));
}

/// A text widget that renders styled lines with optional wrapping.
pub struct TextWidget {
    state: WidgetState,
    /// Styles applied during widget interaction.
    pub interaction: InteractionStyle,
    lines: Vec<StyledLine>,
    wrap: bool,
}

impl TextWidget {
    /// The widget's interaction state.
    pub closed spec fn spec_state(&self) -> WidgetState {
        self.state
    }

    /// The widget's lines.
    pub closed spec fn spec_lines(&self) -> Seq<StyledLine> {
        self.lines@
    }

    /// Long lines wrap onto following rows.
    pub closed spec fn spec_wrap(&self) -> bool {
        self.wrap
    }

    /// The widget's interaction styles.
    pub closed spec fn spec_interaction(&self) -> InteractionStyle {
        self.interaction
    }

    /// The widget's interaction state.
    pub fn state(&self) -> (s: &WidgetState)
        ensures
            *s == self.spec_state(),
    {
        &self.state
    }

    /// The widget's interaction state, for changing it; whatever it becomes takes its place.
    pub fn state_mut(&mut self) -> (s: &mut WidgetState)
        ensures
            *s == old(self).spec_state(),
            final(self).spec_state() == *final(s),
            final(self).spec_lines() == old(self).spec_lines(),
            final(self).spec_wrap() == old(self).spec_wrap(),
            final(self).spec_interaction() == old(self).spec_interaction(),
    {
        &mut self.state
    }

    /// The interaction styles.
    pub fn interaction(&self) -> (i: InteractionStyle)
        ensures
            i == self.spec_interaction(),
    {
        self.interaction
    }

    /// Replaces the interaction styles and marks the widget as damaged.
    pub fn set_interaction(&mut self, interaction: InteractionStyle)
        ensures
            final(self).spec_interaction() == interaction,
            final(self).spec_state().spec_damaged(),
            final(self).spec_state().spec_hovered() == old(self).spec_state().spec_hovered(),
            final(self).spec_state().spec_pressed() == old(self).spec_state().spec_pressed(),
            final(self).spec_state().spec_focused() == old(self).spec_state().spec_focused(),
            final(self).spec_lines() == old(self).spec_lines(),
            final(self).spec_wrap() == old(self).spec_wrap(),
    {
        self.interaction = interaction;
        self.state.set_damaged(true);
    }

    /// Creates an empty text widget.
    pub fn new() -> (t: Self)
        ensures
            t.spec_lines() == Seq::<StyledLine>::empty(),
            !t.spec_wrap(),
            t.spec_state().spec_damaged(),
            !t.spec_state().spec_hovered() && !t.spec_state().spec_pressed() && !t.spec_state().spec_focused(),
            t.spec_interaction() == InteractionStyle::default_spec(),
    {
        TextWidget {
            state: WidgetState::default(),
            interaction: InteractionStyle::default(),
            lines: Vec::new(),
            wrap: false,
        }
    }

    /// Creates a text widget from the provided lines.
    pub fn with_lines(lines: Vec<StyledLine>) -> (t: Self)
        ensures
            t.spec_lines() == lines@,
            !t.spec_wrap(),
            t.spec_state().spec_damaged(),
            !t.spec_state().spec_hovered() && !t.spec_state().spec_pressed() && !t.spec_state().spec_focused(),
            t.spec_interaction() == InteractionStyle::default_spec(),
    {
        TextWidget {
            state: WidgetState::default(),
            interaction: InteractionStyle::default(),
            lines,
            wrap: false,
        }
    }

    /// Enables or disables line wrapping.
    pub fn with_wrap(self, wrap: bool) -> (t: Self)
        ensures
            t.spec_wrap() == wrap,
            t.spec_lines() == self.spec_lines(),
            t.spec_state() == self.spec_state(),
            t.spec_interaction() == self.spec_interaction(),
    {
        TextWidget { wrap, ..self }
    }

    /// Appends a new unstyled line to the widget.
    pub fn push(&mut self, text: String)
        ensures
            final(self).spec_lines().len() == old(self).spec_lines().len() + 1,
            final(self).spec_lines().drop_last() == old(self).spec_lines(),
            final(self).spec_lines().last().spec_spans().len() == 1,
            final(self).spec_lines().last().spec_spans()[0].spec_text() == text@,
            final(self).spec_lines().last().spec_spans()[0].spec_style() == Style::spec_default(),
            final(self).spec_state().spec_damaged(),
            final(self).spec_wrap() == old(self).spec_wrap(),
            final(self).spec_interaction() == old(self).spec_interaction(),
    {
        let mut spans: Vec<StyledSpan> = Vec::new();
        spans.push(StyledSpan::new(text));
        self.lines.push(StyledLine::with_spans(spans));
        self.state.set_damaged(true);
        assert(self.spec_lines().drop_last() =~= old(self).spec_lines());
    }

    /// Appends a styled line to the widget.
    pub fn push_line(&mut self, line: StyledLine)
        ensures
            final(self).spec_lines() == old(self).spec_lines().push(line),
            final(self).spec_state().spec_damaged(),
            final(self).spec_wrap() == old(self).spec_wrap(),
            final(self).spec_interaction() == old(self).spec_interaction(),
    {
        self.lines.push(line);
        self.state.set_damaged(true);
    }

    /// Replaces the widget contents with the provided lines.
    pub fn set_lines(&mut self, lines: Vec<StyledLine>)
        ensures
            final(self).spec_lines() == lines@,
            final(self).spec_state().spec_damaged(),
            final(self).spec_wrap() == old(self).spec_wrap(),
            final(self).spec_interaction() == old(self).spec_interaction(),
    {
        self.lines = lines;
        self.state.set_damaged(true);
    }

    /// Removes all lines from the widget.
    pub fn clear(&mut self)
        ensures
            final(self).spec_lines() == Seq::<StyledLine>::empty(),
            final(self).spec_state().spec_damaged(),
            final(self).spec_wrap() == old(self).spec_wrap(),
            final(self).spec_interaction() == old(self).spec_interaction(),
    {
        self.lines = Vec::new();
        self.state.set_damaged(true);
    }

    /// Returns the widget's styled lines.
    pub fn lines(&self) -> (l: &[StyledLine])
        ensures
            l@ == self.spec_lines(),
    {
        self.lines.as_slice()
    }

    /// Returns the number of lines in the widget.
    pub fn len_lines(&self) -> (n: usize)
        ensures
            n == self.spec_lines().len(),
    {
        self.lines.len()
    }

    /// Returns `true` if the widget has no lines.
    pub fn is_empty(&self) -> (b: bool)
        ensures
            b == (self.spec_lines().len() == 0),
    {
        self.lines.len() == 0
    }

    /// Redraws the widget into `rect` (content-local) of `pane` when it is damaged: the
    /// area is cleared in the interaction style and the laid-out rows are drawn from the
    /// top, as many as fit.
    pub fn render(&mut self, pane: &mut Pane, rect: Rect)
        requires
            old(pane).wf(),
            rect.x + rect.width <= usize::MAX,
            rect.y + rect.height <= usize::MAX,
        ensures
            final(self).spec_lines() == old(self).spec_lines(),
            final(self).spec_wrap() == old(self).spec_wrap(),
            final(self).spec_interaction() == old(self).spec_interaction(),
            !final(self).spec_state().spec_damaged(),
            final(self).spec_state().spec_hovered() == old(self).spec_state().spec_hovered(),
            final(self).spec_state().spec_pressed() == old(self).spec_state().spec_pressed(),
            final(self).spec_state().spec_focused() == old(self).spec_state().spec_focused(),
            !old(self).spec_state().spec_damaged() || rect.width == 0 || rect.height == 0
                ==> *final(pane) == *old(pane),
            old(self).spec_state().spec_damaged() && rect.width > 0 && rect.height > 0 ==> {
                let st = old(self).spec_interaction().spec_style(old(self).spec_state());
                let rows = layout(old(self).spec_lines(), rect.width as nat, old(self).spec_wrap(), st);
                rows_drawn(
                    *final(pane),
                    *old(pane),
                    rect,
                    rows.take(min_of(rows.len() as int, rect.height as int)),
                    0,
                    clear_glyph_for(st),
                )
            },
    {
        if !self.state.is_damaged() {
            return;
        }
        if rect.width == 0 || rect.height == 0 {
            self.state.set_damaged(false);
            return;
        }
        let st = self.interaction.style(&self.state);
        let rows = layout_rows(self.lines.as_slice(), rect.width, self.wrap, st);
        draw_top_rows(pane, rect, &rows, st);
        self.state.set_damaged(false);
    }
}


/// The first `width` characters of `text` (all of them when shorter), drawn in `style`.
pub open spec fn row_of(text: Seq<char>, style: Style, width: nat) -> Seq<Glyph> {
    styled_text(text.take(min_of(text.len() as int, width as int)), style)
}

/// Builds styled glyphs for a single row of text, cut to `width`.
pub fn glyph_row(text: &str, style: Style, width: usize) -> (v: Vec<Glyph>)
    ensures
        v@ == row_of(text@, style, width as nat),
        v@.len() <= width,
{
    let all = styled_glyphs(text, style);
    if all.len() <= width {
        assert(text@.take(text@.len() as int) =~= text@);
        all
    } else {
        let v = glyph_range(&all, 0, width);
        assert(v@ =~= row_of(text@, style, width as nat));
        v
    }
}

/// Draws one row at the top of `rect`, after clearing it with blanks in style `st`.
pub fn draw_single_row(pane: &mut Pane, rect: Rect, row: Vec<Glyph>, st: Style)
    requires
        old(pane).wf(),
        rect.x + rect.width <= usize::MAX,
        rect.y + rect.height <= usize::MAX,
        rect.height > 0,
        row@.len() <= rect.width,
    ensures
        rows_drawn(*final(pane), *old(pane), rect, seq![row@], 0, clear_glyph_for(st)),
{
    let ghost r = row@;
    let mut rows: Vec<Vec<Glyph>> = Vec::new();
    rows.push(row);
    draw_top_rows(pane, rect, &rows, st);
    assert(rows_view(rows@).take(1) =~= seq![r]);
}


/// Builds styled glyphs for a single row of characters, cut to `width`.
pub fn chars_row(chars: &Vec<char>, style: Style, width: usize) -> (v: Vec<Glyph>)
    ensures
        v@ == row_of(chars@, style, width as nat),
        v@.len() <= width,
{
    let n = min_usize(chars.len(), width);
    let mut v: Vec<Glyph> = Vec::new();
    let mut i: usize = 0;
    while i < n
        invariant
            i <= n,
            n <= chars@.len(),
            v@ == styled_text(chars@.take(i as int), style),
        decreases n - i,
    {
        v.push(Glyph::styled(chars[i], style));
        i += 1;
        proof {
            assert(v@ =~= styled_text(chars@.take(i as int), style));
        }
    }
    v
}

} // verus!
