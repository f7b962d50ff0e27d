//! A scroll-like log of styled lines.
use vstd::prelude::*;

use crate::surface::geometry::{Rect, min_of, min_usize, sat_sub};
use crate::surface::glyph::Glyph;
use crate::surface::pane::Pane;
use crate::surface::style::Style;
use crate::ui::draw::{draw_rows, rows_drawn};
use crate::ui::state::{InteractionStyle, WidgetState};
use crate::ui::text::{StyledLine, StyledSpan, clear_glyph_for, layout, layout_rows, rows_view};

verus! {

/// `lines` cut to its last `max` entries when `max` is not `0`.
pub open spec fn retained(lines: Seq<StyledLine>, max: nat) -> Seq<StyledLine> {
    if max > 0 && lines.len() > max {
        lines.skip(lines.len() - max)
    } else {
        lines
    }
}

/// The rows of a log shown in a rectangle of `height` rows: the newest ones when
/// `ascending`, else the oldest.
pub open spec fn shown_rows(rows: Seq<Seq<Glyph>>, height: nat, ascending: bool) -> Seq<Seq<Glyph>> {
    let n = min_of(rows.len() as int, height as int);
    if ascending {
        rows.subrange(rows.len() - n, rows.len() as int)
    } else {
        rows.take(n)
    }
}

/// The row of the rectangle the first shown row of a log is drawn on: shown rows sit at
/// the bottom when `ascending`.
pub open spec fn shown_top(rows: Seq<Seq<Glyph>>, height: nat, ascending: bool) -> int {
    if ascending {
        height - min_of(rows.len() as int, height as int)
    } else {
        0
    }
}

/// Where the laid-out `rows` of a log land in a rectangle `height` rows high: as many rows
/// as fit are shown, in order, from line `shown_top`. An ascending log shows its newest
/// rows, the last one on the bottom line; otherwise the oldest rows show from the top.
pub proof fn lemma_log_placement(rows: Seq<Seq<Glyph>>, height: nat, ascending: bool)
    ensures
        ({
            let shown = shown_rows(rows, height, ascending);
            let top = shown_top(rows, height, ascending);
            &&& shown.len() == min_of(rows.len() as int, height as int)
            &&& 0 <= top && top + shown.len() <= height
            &&& ascending ==> top + shown.len() == height
            &&& ascending ==> forall|k: int|
                0 <= k < shown.len() ==> #[trigger] shown[shown.len() - 1 - k] == rows[rows.len() - 1 - k]
            &&& !ascending ==> top == 0 && forall|k: int| 0 <= k < shown.len() ==> #[trigger] shown[k] == rows[k]
        }),
{
}

/// Renders a scroll-like log.
pub struct LogWidget {
    state: WidgetState,
    /// Styles applied during widget interaction.
    pub interaction: InteractionStyle,
    lines: Vec<StyledLine>,
    wrap: bool,
    ascending: bool,
    max_entries: usize,
}

impl LogWidget {
    /// The widget's interaction state.
    pub closed spec fn spec_state(&self) -> WidgetState {
        self.state
    }

    /// The stored lines, oldest first.
    pub closed spec fn spec_lines(&self) -> Seq<StyledLine> {
        self.lines@
    }

    /// Long lines wrap onto following rows.
    pub closed spec fn spec_wrap(&self) -> bool {
        self.wrap
    }

    /// The newest rows are anchored at the bottom.
    pub closed spec fn spec_ascending(&self) -> bool {
        self.ascending
    }

    /// The number of lines kept (`0` keeps all).
    pub closed spec fn spec_max_entries(&self) -> nat {
        self.max_entries as nat
    }

    /// The widget's interaction styles.
    pub closed spec fn spec_interaction(&self) -> InteractionStyle {
        self.interaction
    }

    /// Everything but the lines and the damage flag is the same.
    pub open spec fn same_config(&self, other: &LogWidget) -> bool {
        &&& self.spec_wrap() == other.spec_wrap()
        &&& self.spec_ascending() == other.spec_ascending()
        &&& self.spec_max_entries() == other.spec_max_entries()
        &&& self.spec_interaction() == other.spec_interaction()
        &&& self.spec_state().spec_hovered() == other.spec_state().spec_hovered()
        &&& self.spec_state().spec_pressed() == other.spec_state().spec_pressed()
        &&& self.spec_state().spec_focused() == other.spec_state().spec_focused()
    }

    /// The widget's interaction state.
    pub fn state(&self) -> (s: &WidgetState)
        ensures
            *s == self.spec_state(),
    {
        &self.state
    }

    /// The widget's interaction state, for changing it; whatever it becomes takes its place.
    pub fn state_mut(&mut self) -> (s: &mut WidgetState)
        ensures
            *s == old(self).spec_state(),
            final(self).spec_state() == *final(s),
            final(self).spec_lines() == old(self).spec_lines(),
            final(self).spec_wrap() == old(self).spec_wrap(),
            final(self).spec_ascending() == old(self).spec_ascending(),
            final(self).spec_max_entries() == old(self).spec_max_entries(),
            final(self).spec_interaction() == old(self).spec_interaction(),
    {
        &mut self.state
    }

    /// The interaction styles, for changing them; whatever they become take their place.
    pub fn interaction_mut(&mut self) -> (i: &mut InteractionStyle)
        ensures
            *i == old(self).spec_interaction(),
            final(self).spec_interaction() == *final(i),
            final(self).spec_state() == old(self).spec_state(),
            final(self).spec_lines() == old(self).spec_lines(),
            final(self).spec_wrap() == old(self).spec_wrap(),
            final(self).spec_ascending() == old(self).spec_ascending(),
            final(self).spec_max_entries() == old(self).spec_max_entries(),
    {
        &mut self.interaction
    }

    /// The interaction styles.
    pub fn interaction(&self) -> (i: InteractionStyle)
        ensures
            i == self.spec_interaction(),
    {
        self.interaction
    }

    /// Replaces the interaction styles and marks the widget as damaged.
    pub fn set_interaction(&mut self, interaction: InteractionStyle)
        ensures
            final(self).spec_interaction() == interaction,
            final(self).spec_state().spec_damaged(),
            final(self).spec_state().spec_hovered() == old(self).spec_state().spec_hovered(),
            final(self).spec_state().spec_pressed() == old(self).spec_state().spec_pressed(),
            final(self).spec_state().spec_focused() == old(self).spec_state().spec_focused(),
            final(self).spec_lines() == old(self).spec_lines(),
            final(self).spec_wrap() == old(self).spec_wrap(),
            final(self).spec_ascending() == old(self).spec_ascending(),
            final(self).spec_max_entries() == old(self).spec_max_entries(),
    {
        self.interaction = interaction;
        self.state.set_damaged(true);
    }

    /// Creates an empty log that keeps at most `max_entries` lines (all when `0`), with
    /// the newest rows at the bottom when `ascending`.
    pub fn new(ascending: bool, max_entries: usize) -> (l: Self)
        ensures
            l.spec_lines() == Seq::<StyledLine>::empty(),
            l.spec_ascending() == ascending,
            l.spec_max_entries() == max_entries,
            !l.spec_wrap(),
            l.spec_state().spec_damaged(),
            !l.spec_state().spec_hovered() && !l.spec_state().spec_pressed() && !l.spec_state().spec_focused(),
            l.spec_interaction() == InteractionStyle::default_spec(),
    {
        LogWidget {
            state: WidgetState::default(),
            interaction: InteractionStyle::default(),
            lines: Vec::new(),
            wrap: false,
            ascending,
            max_entries,
        }
    }

    /// Builds a log preloaded with styled lines, keeping all of them, oldest at the top.
    pub fn with_lines(lines: Vec<StyledLine>) -> (l: Self)
        ensures
            l.spec_lines() == lines@,
            !l.spec_ascending(),
            l.spec_max_entries() == 0,
            !l.spec_wrap(),
            l.spec_state().spec_damaged(),
            !l.spec_state().spec_hovered() && !l.spec_state().spec_pressed() && !l.spec_state().spec_focused(),
            l.spec_interaction() == InteractionStyle::default_spec(),
    {
        LogWidget {
            state: WidgetState::default(),
            interaction: InteractionStyle::default(),
            lines,
            wrap: false,
            ascending: false,
            max_entries: 0,
        }
    }

    /// Enables or disables line wrapping.
    pub fn with_wrap(self, wrap: bool) -> (l: Self)
        ensures
            l.spec_wrap() == wrap,
            l.spec_lines() == self.spec_lines(),
            l.spec_state() == self.spec_state(),
            l.spec_ascending() == self.spec_ascending(),
            l.spec_max_entries() == self.spec_max_entries(),
            l.spec_interaction() == self.spec_interaction(),
    {
        LogWidget { wrap, ..self }
    }

    /// Drops the oldest lines beyond the retention limit.
    fn trim(&mut self)
        ensures
            final(self).spec_lines() == retained(old(self).spec_lines(), old(self).spec_max_entries()),
            final(self).spec_state() == old(self).spec_state(),
            final(self).same_config(old(self)),
    {
        if self.max_entries > 0 && self.lines.len() > self.max_entries {
            let overflow = self.lines.len() - self.max_entries;
            let kept = self.lines.split_off(overflow);
            self.lines = kept;
        }
    }

    /// Appends a plain text line, dropping the oldest lines beyond the retention limit.
    pub fn push(&mut self, text: String)
        ensures
            final(self).spec_lines().len() > 0,
            final(self).spec_lines() == retained(
                old(self).spec_lines().push(final(self).spec_lines().last()),
                old(self).spec_max_entries(),
            ),
            final(self).spec_lines().last().spec_spans().len() == 1,
            final(self).spec_lines().last().spec_spans()[0].spec_text() == text@,
            final(self).spec_lines().last().spec_spans()[0].spec_style() == Style::spec_default(),
            final(self).spec_state().spec_damaged(),
            final(self).same_config(old(self)),
    {
        let mut spans: Vec<StyledSpan> = Vec::new();
        spans.push(StyledSpan::new(text));
        let line = StyledLine::with_spans(spans);
        let ghost l = line;
        self.lines.push(line);
        self.trim();
        self.state.set_damaged(true);
        assert(l.spec_spans().len() == 1);
        assert(self.spec_lines().last() == l);
    }

    /// Appends a styled line, dropping the oldest lines beyond the retention limit.
    pub fn push_line(&mut self, line: StyledLine)
        ensures
            final(self).spec_lines() == retained(old(self).spec_lines().push(line), old(self).spec_max_entries()),
            final(self).spec_state().spec_damaged(),
            final(self).same_config(old(self)),
    {
        self.lines.push(line);
        self.trim();
        self.state.set_damaged(true);
    }

    /// Replaces all current log contents with a new line set, keeping only the newest
    /// lines within the retention limit.
    pub fn set_lines(&mut self, lines: Vec<StyledLine>)
        ensures
            final(self).spec_lines() == retained(lines@, old(self).spec_max_entries()),
            final(self).spec_state().spec_damaged(),
            final(self).same_config(old(self)),
    {
        self.lines = lines;
        self.trim();
        self.state.set_damaged(true);
    }

    /// Removes every stored line from the log.
    pub fn clear(&mut self)
        ensures
            final(self).spec_lines() == Seq::<StyledLine>::empty(),
            final(self).spec_state().spec_damaged(),
            final(self).same_config(old(self)),
    {
        self.lines = Vec::new();
        self.state.set_damaged(true);
    }

    /// Returns all stored logical lines.
    pub fn lines(&self) -> (l: &[StyledLine])
        ensures
            l@ == self.spec_lines(),
    {
        self.lines.as_slice()
    }

    /// Returns the count of stored logical lines.
    pub fn len_lines(&self) -> (n: usize)
        ensures
            n == self.spec_lines().len(),
    {
        self.lines.len()
    }

    /// Returns true when the log has no lines.
    pub fn is_empty(&self) -> (b: bool)
        ensures
            b == (self.spec_lines().len() == 0),
    {
        self.lines.len() == 0
    }

    /// Redraws the log into `rect` (content-local) of `pane` when it is damaged: the area
    /// is cleared in the interaction style and as many laid-out rows as fit are drawn, the
    /// newest at the bottom when ascending, else the oldest from the top.
    pub fn render(&mut self, pane: &mut Pane, rect: Rect)
        requires
            old(pane).wf(),
            rect.x + rect.width <= usize::MAX,
            rect.y + rect.height <= usize::MAX,
        ensures
            final(self).spec_lines() == old(self).spec_lines(),
            final(self).same_config(old(self)),
            !final(self).spec_state().spec_damaged(),
            !old(self).spec_state().spec_damaged() || rect.width == 0 || rect.height == 0
                ==> *final(pane) == *old(pane),
            old(self).spec_state().spec_damaged() && rect.width > 0 && rect.height > 0 ==> {
                let st = old(self).spec_interaction().spec_style(old(self).spec_state());
                let rows = layout(old(self).spec_lines(), rect.width as nat, old(self).spec_wrap(), st);
                rows_drawn(
                    *final(pane),
                    *old(pane),
                    rect,
                    shown_rows(rows, rect.height as nat, old(self).spec_ascending()),
                    shown_top(rows, rect.height as nat, old(self).spec_ascending()),
                    clear_glyph_for(st),
                )
            },
    {
        if !self.state.is_damaged() {
            return;
        }
        if rect.width == 0 || rect.height == 0 {
            self.state.set_damaged(false);
            return;
        }
        let st = self.interaction.style(&self.state);
        let rows = layout_rows(self.lines.as_slice(), rect.width, self.wrap, st);
        let visible = min_usize(rows.len(), rect.height);
        let start = if self.ascending {
            rows.len() - visible
        } else {
            0
        };
        let top = if self.ascending {
            rect.height - visible
        } else {
            0
        };
        draw_rows(pane, rect, &rows, start, visible, top, Glyph::from_char(' ').with_style(st));
        proof {
            let v = rows_view(rows@);
            assert(rows@.subrange(start as int, start + visible).map_values(|r: Vec<Glyph>| r@)
                =~= shown_rows(v, rect.height as nat, self.ascending));
        }
        self.state.set_damaged(false);
    }
}

} // verus!
