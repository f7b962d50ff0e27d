//! A checkbox with an optional label.
use vstd::prelude::*;

use crate::surface::geometry::Rect;
use crate::surface::pane::{Pane, chars_of};
use crate::ui::draw::rows_drawn;
use crate::ui::state::{InteractionStyle, WidgetAction, WidgetState};
use crate::ui::text::{chars_row, clear_glyph_for, draw_single_row, row_of};

verus! {

/// The text a checkbox shows: its box, `[x]` or `[ ]`, with the label before it
/// (`label: [x]`) or after it (`[x]: label`).
pub open spec fn checkbox_text(label: Option<Seq<char>>, label_left: bool, checked: bool) -> Seq<char> {
    let mark = if checked {
        'x'
    } else {
        ' '
    };
    let boxed = seq!['[', mark, ']'];
    match label {
        Some(l) => if label_left {
            l + seq![':', ' '] + boxed
        } else {
            boxed + seq![':', ' '] + l
        },
        None => boxed,
    }
}

/// The characters of an optional label.
pub open spec fn label_view(label: Option<String>) -> Option<Seq<char>> {
    match label {
        Some(s) => Some(s@),
        None => None,
    }
}

/// A checkbox widget.
pub struct CheckboxWidget {
    state: WidgetState,
    interaction: InteractionStyle,
    label: Option<String>,
    label_left: bool,
    checked: bool,
}

impl CheckboxWidget {
    /// The widget's interaction state.
    pub closed spec fn spec_state(&self) -> WidgetState {
        self.state
    }

    /// The widget's interaction styles.
    pub closed spec fn spec_interaction(&self) -> InteractionStyle {
        self.interaction
    }

    /// The label, if any.
    pub closed spec fn spec_label(&self) -> Option<Seq<char>> {
        label_view(self.label)
    }

    /// The label is drawn left of the box.
    pub closed spec fn spec_label_left(&self) -> bool {
        self.label_left
    }

    /// The box is checked.
    pub closed spec fn spec_checked(&self) -> bool {
        self.checked
    }

    /// Everything but the checked flag and the damage flag is the same.
    pub open spec fn same_config(&self, other: &CheckboxWidget) -> bool {
        &&& self.spec_label() == other.spec_label()
        &&& self.spec_label_left() == other.spec_label_left()
        &&& self.spec_interaction() == other.spec_interaction()
        &&& self.spec_state().spec_hovered() == other.spec_state().spec_hovered()
        &&& self.spec_state().spec_pressed() == other.spec_state().spec_pressed()
        &&& self.spec_state().spec_focused() == other.spec_state().spec_focused()
    }

    /// Creates a new `CheckboxWidget`.
    pub fn new(label: Option<String>, label_left: bool, checked: bool) -> (c: Self)
        ensures
            c.spec_label() == label_view(label),
            c.spec_label_left() == label_left,
            c.spec_checked() == checked,
            c.spec_state().spec_damaged(),
            !c.spec_state().spec_hovered() && !c.spec_state().spec_pressed() && !c.spec_state().spec_focused(),
            c.spec_interaction() == InteractionStyle::default_spec(),
    {
        CheckboxWidget {
            state: WidgetState::default(),
            interaction: InteractionStyle::default(),
            label,
            label_left,
            checked,
        }
    }

    /// The widget's interaction state.
    pub fn state(&self) -> (s: &WidgetState)
        ensures
            *s == self.spec_state(),
    {
        &self.state
    }

    /// The widget's interaction state, for changing it; whatever it becomes takes its place.
    pub fn state_mut(&mut self) -> (s: &mut WidgetState)
        ensures
            *s == old(self).spec_state(),
            final(self).spec_state() == *final(s),
            final(self).spec_label() == old(self).spec_label(),
            final(self).spec_label_left() == old(self).spec_label_left(),
            final(self).spec_checked() == old(self).spec_checked(),
            final(self).spec_interaction() == old(self).spec_interaction(),
    {
        &mut self.state
    }

    /// The interaction styles, for changing them; whatever they become take their place.
    pub fn interaction_mut(&mut self) -> (i: &mut InteractionStyle)
        ensures
            *i == old(self).spec_interaction(),
            final(self).spec_interaction() == *final(i),
            final(self).spec_state() == old(self).spec_state(),
            final(self).spec_label() == old(self).spec_label(),
            final(self).spec_label_left() == old(self).spec_label_left(),
            final(self).spec_checked() == old(self).spec_checked(),
    {
        &mut self.interaction
    }

    /// Replaces the interaction styles and marks the widget as damaged.
    pub fn set_interaction(&mut self, interaction: InteractionStyle)
        ensures
            final(self).spec_interaction() == interaction,
            final(self).spec_state().spec_damaged(),
            final(self).spec_state().spec_hovered() == old(self).spec_state().spec_hovered(),
            final(self).spec_state().spec_pressed() == old(self).spec_state().spec_pressed(),
            final(self).spec_state().spec_focused() == old(self).spec_state().spec_focused(),
            final(self).spec_label() == old(self).spec_label(),
            final(self).spec_label_left() == old(self).spec_label_left(),
            final(self).spec_checked() == old(self).spec_checked(),
    {
        self.interaction = interaction;
        self.state.set_damaged(true);
    }

    /// The interaction styles.
    pub fn interaction(&self) -> (i: InteractionStyle)
        ensures
            i == self.spec_interaction(),
    {
        self.interaction
    }

    /// Gets the status of the checkbox.
    pub fn checked(&self) -> (b: bool)
        ensures
            b == self.spec_checked(),
    {
        self.checked
    }

    /// Sets the value of the checkbox; a change marks it as damaged.
    pub fn set_checked(&mut self, value: bool)
        ensures
            final(self).spec_checked() == value,
            final(self).same_config(old(self)),
            final(self).spec_state().spec_damaged() == (old(self).spec_state().spec_damaged()
                || old(self).spec_checked() != value),
    {
        if self.checked != value {
            self.checked = value;
            self.state.set_damaged(true);
        }
    }

    /// Toggles the status of the checkbox and returns the new one.
    pub fn toggle(&mut self) -> (b: bool)
        ensures
            b == !old(self).spec_checked(),
            final(self).spec_checked() == b,
            final(self).same_config(old(self)),
            final(self).spec_state().spec_damaged(),
    {
        self.checked = !self.checked;
        self.state.set_damaged(true);
        self.checked
    }

    /// The characters the checkbox shows.
    fn text(&self) -> (v: Vec<char>)
        ensures
            v@ == checkbox_text(self.spec_label(), self.spec_label_left(), self.spec_checked()),
    {
        let mark = if self.checked {
            'x'
        } else {
            ' '
        };
        let mut boxed: Vec<char> = Vec::new();
        boxed.push('[');
        boxed.push(mark);
        boxed.push(']');
        match &self.label {
            Some(l) => {
                let mut chars = chars_of(l.as_str());
                if self.label_left {
                    chars.push(':');
                    chars.push(' ');
                    chars.append(&mut boxed);
                    assert(chars@ =~= checkbox_text(self.spec_label(), self.spec_label_left(), self.spec_checked()));
                    chars
                } else {
                    boxed.push(':');
                    boxed.push(' ');
                    boxed.append(&mut chars);
                    assert(boxed@ =~= checkbox_text(self.spec_label(), self.spec_label_left(), self.spec_checked()));
                    boxed
                }
            },
            None => {
                assert(boxed@ =~= checkbox_text(self.spec_label(), self.spec_label_left(), self.spec_checked()));
                boxed
            },
        }
    }

    /// Redraws the checkbox into `rect` when it is damaged: the area is cleared and its
    /// text, cut to the width, is drawn on the first row, all in the interaction style.
    pub fn render(&mut self, pane: &mut Pane, rect: Rect)
        requires
            old(pane).wf(),
            rect.x + rect.width <= usize::MAX,
            rect.y + rect.height <= usize::MAX,
        ensures
            final(self).same_config(old(self)),
            final(self).spec_checked() == old(self).spec_checked(),
            !final(self).spec_state().spec_damaged(),
            !old(self).spec_state().spec_damaged() || rect.width == 0 || rect.height == 0
                ==> *final(pane) == *old(pane),
            old(self).spec_state().spec_damaged() && rect.width > 0 && rect.height > 0 ==> {
                let st = old(self).spec_interaction().spec_style(old(self).spec_state());
                rows_drawn(
                    *final(pane),
                    *old(pane),
                    rect,
                    seq![
                        row_of(
                            checkbox_text(old(self).spec_label(), old(self).spec_label_left(), old(self).spec_checked()),
                            st,
                            rect.width as nat,
                        ),
                    ],
                    0,
                    clear_glyph_for(st),
                )
            },
    {
        if !self.state.is_damaged() {
            return;
        }
        if rect.width == 0 || rect.height == 0 {
            self.state.set_damaged(false);
            return;
        }
        let st = self.interaction.style(&self.state);
        let chars = self.text();
        let row = chars_row(&chars, st, rect.width);
        draw_single_row(pane, rect, row, st);
        self.state.set_damaged(false);
    }

    /// Keyboard activation toggles the checkbox.
    pub fn activate_action<A>(&mut self) -> (a: WidgetAction<A>)
        ensures
            a == WidgetAction::<A>::CheckboxChanged(!old(self).spec_checked()),
            final(self).spec_checked() == !old(self).spec_checked(),
            final(self).same_config(old(self)),
            final(self).spec_state().spec_damaged(),
    {
        WidgetAction::CheckboxChanged(self.toggle())
    }

    /// Releasing the pointer toggles a focused checkbox; otherwise it is a plain release.
    pub fn release_action<A>(&mut self, focused: bool) -> (a: WidgetAction<A>)
        ensures
            focused ==> a == WidgetAction::<A>::CheckboxChanged(!old(self).spec_checked())
                && final(self).spec_checked() == !old(self).spec_checked()
                && final(self).spec_state().spec_damaged(),
            !focused ==> a == WidgetAction::<A>::Released && *final(self) == *old(self),
            final(self).same_config(old(self)),
    {
        if focused {
            WidgetAction::CheckboxChanged(self.toggle())
        } else {
            WidgetAction::Released
        }
    }
}

} // verus!
