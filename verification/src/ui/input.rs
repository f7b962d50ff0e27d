//! A single-field text input with an optional label and placeholder.
use vstd::prelude::*;

use crate::surface::geometry::{Point, Rect, add_sat, min_of, min_usize, sat_add, sat_sub, sub_sat};
use crate::surface::glyph::{Glyph, styled_glyph};
use crate::surface::pane::{Pane, chars_of, styled_text};
use crate::surface::style::Style;
use crate::ui::checkbox::label_view;
use crate::ui::draw::rows_drawn;
use crate::ui::event::KeyCode;
use crate::ui::state::{InteractionStyle, WidgetAction, WidgetState};
use crate::ui::text::{chars_row, clear_glyph_for, draw_top_rows, row_of, rows_view, span_style};

verus! {

/// Appends `c` to `s` with `String::push`: the characters of `s` afterwards are the
/// earlier ones followed by `c`.
#[verifier::external_body]
fn push_char(s: &mut String, c: char)
    ensures
        final(s)@ == old(s)@.push(c),
{
    s.push(c)
}

/// A string holding `chars`.
fn string_of(chars: &Vec<char>) -> (s: String)
    ensures
        s@ == chars@,
{
    let mut s = String::new();
    let mut i: usize = 0;
    while i < chars.len()
        invariant
            i <= chars@.len(),
            s@ == chars@.take(i as int),
        decreases chars@.len() - i,
    {
        push_char(&mut s, chars[i]);
        i += 1;
        proof {
            assert(s@ =~= chars@.take(i as int));
        }
    }
    assert(chars@.take(i as int) =~= chars@);
    s
}

/// The text an input shows: its value, or the placeholder while the value is empty.
pub open spec fn shown_text(value: Seq<char>, placeholder: Option<Seq<char>>) -> Seq<char> {
    if value.len() == 0 {
        match placeholder {
            Some(p) => p,
            None => Seq::empty(),
        }
    } else {
        value
    }
}

/// The rows an input draws in a `w` by `h` rectangle: on one row, `label: ` in the label
/// style followed by the text; on several, the label on the first row (if any) and the
/// text on the next; everything cut to the width.
pub open spec fn input_rows(
    label: Option<Seq<char>>,
    label_st: Style,
    text: Seq<char>,
    text_st: Style,
    w: nat,
    h: nat,
) -> Seq<Seq<Glyph>> {
    if h > 1 {
        match label {
            Some(l) => seq![row_of(l, label_st, w), row_of(text, text_st, w)],
            None => seq![row_of(text, text_st, w)],
        }
    } else {
        let prefix = match label {
            Some(l) => styled_text(l + seq![':', ' '], label_st),
            None => Seq::empty(),
        };
        let line = prefix + styled_text(text, text_st);
        seq![line.take(min_of(line.len() as int, w as int))]
    }
}

/// A widget that allows text entry.
pub struct InputWidget {
    state: WidgetState,
    interaction: InteractionStyle,
    label: Option<String>,
    label_style: Style,
    style: Style,
    placeholder: Option<String>,
    buffer: String,
    cursor: usize,
}

impl InputWidget {

    /// The widget's interaction state.
    pub closed spec fn spec_state(&self) -> WidgetState {
        self.state
    }

    /// The widget's interaction styles.
    pub closed spec fn spec_interaction(&self) -> InteractionStyle {
        self.interaction
    }

    /// The label, if any.
    pub closed spec fn spec_label(&self) -> Option<Seq<char>> {
        label_view(self.label)
    }

    /// The placeholder, if any.
    pub closed spec fn spec_placeholder(&self) -> Option<Seq<char>> {
        label_view(self.placeholder)
    }

    /// The style of the label.
    pub closed spec fn spec_label_style(&self) -> Style {
        self.label_style
    }

    /// The style of the text.
    pub closed spec fn spec_text_style(&self) -> Style {
        self.style
    }

    /// The entered text.
    pub closed spec fn spec_value(&self) -> Seq<char> {
        self.buffer@
    }

    /// The cursor, as a number of characters before it.
    pub closed spec fn spec_cursor(&self) -> nat {
        self.cursor as nat
    }

    /// The cursor stays within the text.
    pub open spec fn wf(&self) -> bool {
        self.spec_cursor() <= self.spec_value().len()
    }

    /// Labels, placeholder, styles and interaction state other than damage are the same.
    pub open spec fn same_config(&self, other: &InputWidget) -> bool {
        &&& self.spec_label() == other.spec_label()
        &&& self.spec_placeholder() == other.spec_placeholder()
        &&& self.spec_label_style() == other.spec_label_style()
        &&& self.spec_text_style() == other.spec_text_style()
        &&& self.spec_interaction() == other.spec_interaction()
        &&& self.spec_state().spec_hovered() == other.spec_state().spec_hovered()
        &&& self.spec_state().spec_pressed() == other.spec_state().spec_pressed()
        &&& self.spec_state().spec_focused() == other.spec_state().spec_focused()
    }

    /// Creates an empty input with an optional label and placeholder; the text is drawn
    /// underlined.
    pub fn new(label: Option<String>, placeholder: Option<String>) -> (w: Self)
        ensures
            w.spec_label() == label_view(label),
            w.spec_placeholder() == label_view(placeholder),
            w.wf(),
            w.spec_value() == Seq::<char>::empty(),
            w.spec_cursor() == 0,
            w.spec_label_style() == Style::spec_default(),
            w.spec_text_style().spec_flags() == Style::FLAG_UNDERLINE,
            w.spec_text_style().spec_pair() == Style::DEFAULT_PAIR,
            w.spec_state().spec_damaged(),
            !w.spec_state().spec_hovered() && !w.spec_state().spec_pressed() && !w.spec_state().spec_focused(),
            w.spec_interaction() == InteractionStyle::default_spec(),
    {
        proof {
            Style::lemma_zero_or(Style::FLAG_UNDERLINE);
        }
        InputWidget {
            state: WidgetState::default(),
            interaction: InteractionStyle::default(),
            label,
            label_style: Style::default(),
            style: Style::new().underline(),
            placeholder,
            buffer: String::new(),
            cursor: 0,
        }
    }

    /// Sets the style the label is drawn in.
    pub fn with_label_style(self, style: Style) -> (w: Self)
        requires
            self.wf(),
        ensures
            w.wf(),
            w.spec_label_style() == style,
            w.spec_state().spec_damaged(),
            w.spec_value() == self.spec_value(),
            w.spec_cursor() == self.spec_cursor(),
            w.spec_label() == self.spec_label(),
            w.spec_placeholder() == self.spec_placeholder(),
            w.spec_text_style() == self.spec_text_style(),
            w.spec_interaction() == self.spec_interaction(),
    {
        let mut w = self;
        w.label_style = style;
        w.state.set_damaged(true);
        w
    }

    /// Sets the style the text is drawn in.
    pub fn with_style(self, style: Style) -> (w: Self)
        requires
            self.wf(),
        ensures
            w.wf(),
            w.spec_text_style() == style,
            w.spec_state().spec_damaged(),
            w.spec_value() == self.spec_value(),
            w.spec_cursor() == self.spec_cursor(),
            w.spec_label() == self.spec_label(),
            w.spec_placeholder() == self.spec_placeholder(),
            w.spec_label_style() == self.spec_label_style(),
            w.spec_interaction() == self.spec_interaction(),
    {
        let mut w = self;
        w.style = style;
        w.state.set_damaged(true);
        w
    }

    /// The widget's interaction state.
    pub fn state(&self) -> (s: &WidgetState)
        ensures
            *s == self.spec_state(),
    {
        &self.state
    }

    /// Sets the hovered, pressed, focused and damaged flags to those of `s`.
    pub fn set_state(&mut self, s: WidgetState)
        requires
            old(self).wf(),
        ensures
            final(self).wf(),
            final(self).spec_state() == s,
            final(self).spec_value() == old(self).spec_value(),
            final(self).spec_cursor() == old(self).spec_cursor(),
            final(self).spec_label() == old(self).spec_label(),
            final(self).spec_placeholder() == old(self).spec_placeholder(),
            final(self).spec_label_style() == old(self).spec_label_style(),
            final(self).spec_text_style() == old(self).spec_text_style(),
            final(self).spec_interaction() == old(self).spec_interaction(),
    {
        self.state = s;
    }

    /// Replaces the interaction styles and marks the widget as damaged.
    pub fn set_interaction(&mut self, interaction: InteractionStyle)
        requires
            old(self).wf(),
        ensures
            final(self).wf(),
            final(self).spec_interaction() == interaction,
            final(self).spec_state().spec_damaged(),
            final(self).spec_state().spec_hovered() == old(self).spec_state().spec_hovered(),
            final(self).spec_state().spec_pressed() == old(self).spec_state().spec_pressed(),
            final(self).spec_state().spec_focused() == old(self).spec_state().spec_focused(),
            final(self).spec_value() == old(self).spec_value(),
            final(self).spec_cursor() == old(self).spec_cursor(),
            final(self).spec_label() == old(self).spec_label(),
            final(self).spec_placeholder() == old(self).spec_placeholder(),
            final(self).spec_label_style() == old(self).spec_label_style(),
            final(self).spec_text_style() == old(self).spec_text_style(),
    {
        self.interaction = interaction;
        self.state.set_damaged(true);
    }

    /// The interaction styles.
    pub fn interaction(&self) -> (i: InteractionStyle)
        ensures
            i == self.spec_interaction(),
    {
        self.interaction
    }

    /// Returns the current input text.
    pub fn value(&self) -> (s: &str)
        ensures
            s@ == self.spec_value(),
    {
        self.buffer.as_str()
    }

    /// Inserts a character at the cursor and moves the cursor past it.
    pub fn insert_char(&mut self, ch: char)
        requires
            old(self).wf(),
        ensures
            final(self).wf(),
            final(self).spec_value() == old(self).spec_value().insert(old(self).spec_cursor() as int, ch),
            final(self).spec_cursor() == old(self).spec_cursor() + 1,
            final(self).spec_state().spec_damaged(),
            final(self).same_config(old(self)),
    {
        let mut chars = chars_of(self.buffer.as_str());
        chars.insert(self.cursor, ch);
        let n = chars.len();
        self.buffer = string_of(&chars);
        self.cursor = self.cursor + 1;
        self.state.set_damaged(true);
    }

    /// Removes the character before the cursor, if any.
    pub fn backspace(&mut self)
        requires
            old(self).wf(),
        ensures
            final(self).wf(),
            old(self).spec_cursor() == 0 ==> *final(self) == *old(self),
            old(self).spec_cursor() > 0 ==> {
                &&& final(self).spec_value() == old(self).spec_value().remove(old(self).spec_cursor() - 1)
                &&& final(self).spec_cursor() == old(self).spec_cursor() - 1
                &&& final(self).spec_state().spec_damaged()
            },
            final(self).same_config(old(self)),
    {
        if self.cursor == 0 {
            return;
        }
        let at = self.cursor - 1;
        self.cursor = at;
        let mut chars = chars_of(self.buffer.as_str());
        chars.remove(at);
        self.buffer = string_of(&chars);
        self.state.set_damaged(true);
    }

    /// Moves the cursor left by one character.
    pub fn move_left(&mut self)
        requires
            old(self).wf(),
        ensures
            final(self).wf(),
            old(self).spec_cursor() == 0 ==> *final(self) == *old(self),
            old(self).spec_cursor() > 0 ==> final(self).spec_cursor() == old(self).spec_cursor() - 1
                && final(self).spec_state().spec_damaged(),
            final(self).spec_value() == old(self).spec_value(),
            final(self).same_config(old(self)),
    {
        if self.cursor == 0 {
            return;
        }
        self.cursor = self.cursor - 1;
        self.state.set_damaged(true);
    }

    /// Moves the cursor right by one character.
    pub fn move_right(&mut self)
        requires
            old(self).wf(),
        ensures
            final(self).wf(),
            old(self).spec_cursor() >= old(self).spec_value().len() ==> *final(self) == *old(self),
            old(self).spec_cursor() < old(self).spec_value().len() ==> final(self).spec_cursor()
                == old(self).spec_cursor() + 1 && final(self).spec_state().spec_damaged(),
            final(self).spec_value() == old(self).spec_value(),
            final(self).same_config(old(self)),
    {
        if self.cursor >= self.buffer.as_str().unicode_len() {
            return;
        }
        self.cursor = self.cursor + 1;
        self.state.set_damaged(true);
    }

    /// Takes the current text out, leaving the input empty.
    pub fn submit(&mut self) -> (s: String)
        requires
            old(self).wf(),
        ensures
            final(self).wf(),
            s@ == old(self).spec_value(),
            final(self).spec_value() == Seq::<char>::empty(),
            final(self).spec_cursor() == 0,
            final(self).spec_state().spec_damaged(),
            final(self).same_config(old(self)),
    {
        self.cursor = 0;
        self.state.set_damaged(true);
        let mut taken = String::new();
        std::mem::swap(&mut taken, &mut self.buffer);
        taken
    }

    /// The number of columns an inline label takes: its characters and `": "`.
    pub open spec fn spec_inline_label_width(&self) -> nat {
        match self.spec_label() {
            Some(l) => sat_add(l.len() as int, 2) as nat,
            None => 0,
        }
    }

    /// The screen position of the cursor for the widget drawn at `rect` of `pane`'s
    /// content: after the inline label on one row, or on the text row below the label on
    /// several, never past the last column; `None` for an empty rectangle.
    pub open spec fn cursor_point(&self, pane: Pane, rect: Rect) -> Option<Point> {
        if rect.width == 0 || rect.height == 0 {
            None
        } else {
            let label_cols = if rect.height > 1 {
                0
            } else {
                self.spec_inline_label_width() as int
            };
            let col = min_of(sat_add(label_cols, self.spec_cursor() as int), rect.width - 1);
            let row = if rect.height > 1 && self.spec_label() is Some {
                1int
            } else {
                0
            };
            let c = pane.spec_content();
            Some(
                Point {
                    x: sat_add(sat_add(c.x as int, rect.x as int), col) as usize,
                    y: sat_add(sat_add(c.y as int, rect.y as int), row) as usize,
                },
            )
        }
    }

    /// Returns the screen position of the cursor for the widget drawn at `rect` of `pane`'s
    /// content: after the inline label on one row, or on the text row below the label on
    /// several, never past the last column; `None` for an empty rectangle.
    pub fn cursor_pos(&self, pane: &Pane, rect: Rect) -> (p: Option<Point>)
        requires
            self.wf(),
        ensures
            p == self.cursor_point(*pane, rect),
    {
        if rect.width == 0 || rect.height == 0 {
            return None;
        }
        let label_cols: usize = if rect.height > 1 {
            0
        } else {
            match &self.label {
                Some(l) => add_sat(l.as_str().unicode_len(), 2),
                None => 0,
            }
        };
        let col = min_usize(add_sat(label_cols, self.cursor), rect.width - 1);
        let row: usize = if rect.height > 1 && self.label.is_some() {
            1
        } else {
            0
        };
        let c = pane.content_rect();
        Some(Point::new(add_sat(add_sat(c.x, rect.x), col), add_sat(add_sat(c.y, rect.y), row)))
    }
}


impl InputWidget {
    /// The cursor sits in the text, never on the label: on a one-row rectangle it comes
    /// after the inline label and its `": "`, on a taller one in the text row (below the
    /// label when there is one), `cursor` columns into the text and at most at the last
    /// column. Where it lands, the input draws the character it stands before, and with the
    /// cursor at the end of the text it stands just past the last character drawn.
    pub proof fn lemma_cursor_in_text(&self, st: Style, pane: Pane, rect: Rect)
        requires
            self.wf(),
            rect.width > 0,
            rect.height > 0,
            pane.spec_content().x + rect.x + rect.width <= usize::MAX,
            pane.spec_content().y + rect.y + rect.height <= usize::MAX,
        ensures
            ({
                let c = pane.spec_content();
                let lead: int = if rect.height == 1 {
                    match self.spec_label() {
                        Some(l) => l.len() + 2int,
                        None => 0,
                    }
                } else {
                    0
                };
                let text_row: int = if rect.height > 1 && self.spec_label() is Some {
                    1
                } else {
                    0
                };
                let rows = self.spec_rows(st, rect.width as nat, rect.height as nat);
                let v = self.spec_value();
                let k = self.spec_cursor() as int;
                &&& self.cursor_point(pane, rect) is Some
                &&& self.cursor_point(pane, rect)->0.x == c.x + rect.x + min_of(lead + k, rect.width - 1)
                &&& self.cursor_point(pane, rect)->0.y == c.y + rect.y + text_row
                &&& 0 <= text_row < rows.len()
                &&& v.len() > 0 && k < v.len() && lead + k < rect.width ==> rows[text_row][lead + k]
                    == styled_glyph(v[k], span_style(st, self.spec_text_style()))
                &&& v.len() > 0 && k == v.len() && lead + k < rect.width ==> rows[text_row].len() == lead + k
            }),
    {
    }

    /// The rows the input draws into a `w` by `h` rectangle while in interaction style
    /// `st`.
    pub open spec fn spec_rows(&self, st: Style, w: nat, h: nat) -> Seq<Seq<Glyph>> {
        input_rows(
            self.spec_label(),
            span_style(st, self.spec_label_style()),
            shown_text(self.spec_value(), self.spec_placeholder()),
            span_style(st, self.spec_text_style()),
            w,
            h,
        )
    }

    /// The characters the input shows in its text field.
    fn shown_chars(&self) -> (v: Vec<char>)
        ensures
            v@ == shown_text(self.spec_value(), self.spec_placeholder()),
    {
        if self.buffer.as_str().unicode_len() == 0 {
            match &self.placeholder {
                Some(p) => chars_of(p.as_str()),
                None => Vec::new(),
            }
        } else {
            chars_of(self.buffer.as_str())
        }
    }

    /// The rows the input draws into a `width` by `height` rectangle.
    fn rows(&self, st: Style, width: usize, height: usize) -> (rows: Vec<Vec<Glyph>>)
        ensures
            rows_view(rows@) == self.spec_rows(st, width as nat, height as nat),
            forall|i: int| 0 <= i < rows@.len() ==> (#[trigger] rows@[i])@.len() <= width,
    {
        let label_st = if st == Style::default() {
            self.label_style
        } else {
            st
        };
        let text_st = if st == Style::default() {
            self.style
        } else {
            st
        };
        let text = self.shown_chars();
        let mut rows: Vec<Vec<Glyph>> = Vec::new();
        if height > 1 {
            match &self.label {
                Some(l) => {
                    let lc = chars_of(l.as_str());
                    rows.push(chars_row(&lc, label_st, width));
                },
                None => {},
            }
            rows.push(chars_row(&text, text_st, width));
            assert(rows_view(rows@) =~= self.spec_rows(st, width as nat, height as nat));
        } else {
            let mut line: Vec<char> = Vec::new();
            let mut styles_split: usize = 0;
            match &self.label {
                Some(l) => {
                    line = chars_of(l.as_str());
                    line.push(':');
                    line.push(' ');
                    styles_split = line.len();
                },
                None => {},
            }
            let ghost prefix_chars = line@;
            let mut rest = text;
            line.append(&mut rest);
            let n = min_usize(line.len(), width);
            let mut row: Vec<Glyph> = Vec::new();
            let mut i: usize = 0;
            while i < n
                invariant
                    i <= n,
                    n <= line@.len(),
                    n <= width,
                    styles_split == prefix_chars.len(),
                    line@ == prefix_chars + shown_text(self.spec_value(), self.spec_placeholder()),
                    row@ == (styled_text(prefix_chars, label_st) + styled_text(
                        shown_text(self.spec_value(), self.spec_placeholder()),
                        text_st,
                    )).take(i as int),
                decreases n - i,
            {
                let g = if i < styles_split {
                    Glyph::styled(line[i], label_st)
                } else {
                    Glyph::styled(line[i], text_st)
                };
                row.push(g);
                i += 1;
                proof {
                    assert(row@ =~= (styled_text(prefix_chars, label_st) + styled_text(
                        shown_text(self.spec_value(), self.spec_placeholder()),
                        text_st,
                    )).take(i as int));
                }
            }
            rows.push(row);
            proof {
                let prefix = match self.spec_label() {
                    Some(l) => styled_text(l + seq![':', ' '], label_st),
                    None => Seq::empty(),
                };
                assert(prefix =~= styled_text(prefix_chars, label_st));
                assert(rows_view(rows@) =~= self.spec_rows(st, width as nat, height as nat));
            }
        }
        rows
    }

    /// Redraws the input into `rect` when it is damaged: the area is cleared in the
    /// interaction style and the label and text (or placeholder) are drawn.
    pub fn render(&mut self, pane: &mut Pane, rect: Rect)
        requires
            old(self).wf(),
            old(pane).wf(),
            rect.x + rect.width <= usize::MAX,
            rect.y + rect.height <= usize::MAX,
        ensures
            final(self).wf(),
            final(self).same_config(old(self)),
            final(self).spec_value() == old(self).spec_value(),
            final(self).spec_cursor() == old(self).spec_cursor(),
            !final(self).spec_state().spec_damaged(),
            !old(self).spec_state().spec_damaged() || rect.width == 0 || rect.height == 0
                ==> *final(pane) == *old(pane),
            old(self).spec_state().spec_damaged() && rect.width > 0 && rect.height > 0 ==> {
                let st = old(self).spec_interaction().spec_style(old(self).spec_state());
                let rows = old(self).spec_rows(st, rect.width as nat, rect.height as nat);
                rows_drawn(
                    *final(pane),
                    *old(pane),
                    rect,
                    rows.take(min_of(rows.len() as int, rect.height as int)),
                    0,
                    clear_glyph_for(st),
                )
            },
    {
        if !self.state.is_damaged() {
            return;
        }
        if rect.width == 0 || rect.height == 0 {
            self.state.set_damaged(false);
            return;
        }
        let st = self.interaction.style(&self.state);
        let rows = self.rows(st, rect.width, rect.height);
        draw_top_rows(pane, rect, &rows, st);
        self.state.set_damaged(false);
    }

    /// Keyboard activation submits the text.
    pub fn activate_action<A>(&mut self) -> (a: WidgetAction<A>)
        requires
            old(self).wf(),
        ensures
            final(self).wf(),
            a matches WidgetAction::InputSubmitted(s) && s@ == old(self).spec_value(),
            final(self).spec_value() == Seq::<char>::empty(),
            final(self).spec_cursor() == 0,
            final(self).spec_state().spec_damaged(),
            final(self).same_config(old(self)),
    {
        WidgetAction::InputSubmitted(self.submit())
    }

    /// Edits the text for a key: characters are inserted, Backspace removes, Left and Right
    /// move the cursor, and each of these reports a change; other keys do nothing.
    pub fn key_action<A>(&mut self, key: KeyCode) -> (a: WidgetAction<A>)
        requires
            old(self).wf(),
        ensures
            final(self).wf(),
            final(self).same_config(old(self)),
            match key {
                KeyCode::Char(c) => a == WidgetAction::<A>::InputChanged && final(self).spec_value()
                    == old(self).spec_value().insert(old(self).spec_cursor() as int, c)
                    && final(self).spec_cursor() == old(self).spec_cursor() + 1,
                KeyCode::Backspace => a == WidgetAction::<A>::InputChanged && (if old(self).spec_cursor() > 0 {
                    final(self).spec_value() == old(self).spec_value().remove(old(self).spec_cursor() - 1)
                        && final(self).spec_cursor() == old(self).spec_cursor() - 1
                } else {
                    *final(self) == *old(self)
                }),
                KeyCode::Left => a == WidgetAction::<A>::InputChanged && final(self).spec_value()
                    == old(self).spec_value() && final(self).spec_cursor() == (if old(self).spec_cursor() > 0 {
                    old(self).spec_cursor() - 1
                } else {
                    old(self).spec_cursor() as int
                }),
                KeyCode::Right => a == WidgetAction::<A>::InputChanged && final(self).spec_value()
                    == old(self).spec_value() && final(self).spec_cursor() == (if old(self).spec_cursor()
                    < old(self).spec_value().len() {
                    old(self).spec_cursor() + 1
                } else {
                    old(self).spec_cursor()
                }),
                _ => a == WidgetAction::<A>::NoOp && *final(self) == *old(self),
            },
    {
        match key {
            KeyCode::Char(c) => self.insert_char(c),
            KeyCode::Backspace => self.backspace(),
            KeyCode::Left => self.move_left(),
            KeyCode::Right => self.move_right(),
            _ => {
                return WidgetAction::NoOp;
            },
        }
        WidgetAction::InputChanged
    }
}

} // verus!
