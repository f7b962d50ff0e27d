//! A clickable button.
use vstd::prelude::*;

use crate::surface::geometry::Rect;
use crate::surface::pane::Pane;
use crate::ui::draw::rows_drawn;
use crate::ui::state::{InteractionStyle, WidgetAction, WidgetState};
use crate::ui::text::{clear_glyph_for, draw_single_row, glyph_row, row_of};

verus! {

/// A clickable widget.
pub struct ButtonWidget {
    state: WidgetState,
    interaction: InteractionStyle,
    label: String,
}

impl ButtonWidget {
    /// The widget's interaction state.
    pub closed spec fn spec_state(&self) -> WidgetState {
        self.state
    }

    /// The widget's interaction styles.
    pub closed spec fn spec_interaction(&self) -> InteractionStyle {
        self.interaction
    }

    /// The button's label.
    pub closed spec fn spec_label(&self) -> Seq<char> {
        self.label@
    }

    /// Creates a new `ButtonWidget`.
    pub fn new(label: String) -> (b: Self)
        ensures
            b.spec_label() == label@,
            b.spec_state().spec_damaged(),
            !b.spec_state().spec_hovered() && !b.spec_state().spec_pressed() && !b.spec_state().spec_focused(),
            b.spec_interaction() == InteractionStyle::default_spec(),
    {
        ButtonWidget { state: WidgetState::default(), interaction: InteractionStyle::default(), label }
    }

    /// The widget's interaction state.
    pub fn state(&self) -> (s: &WidgetState)
        ensures
            *s == self.spec_state(),
    {
        &self.state
    }

    /// The widget's interaction state, for changing it; whatever it becomes takes its place.
    pub fn state_mut(&mut self) -> (s: &mut WidgetState)
        ensures
            *s == old(self).spec_state(),
            final(self).spec_state() == *final(s),
            final(self).spec_label() == old(self).spec_label(),
            final(self).spec_interaction() == old(self).spec_interaction(),
    {
        &mut self.state
    }

    /// The interaction styles, for changing them; whatever they become take their place.
    pub fn interaction_mut(&mut self) -> (i: &mut InteractionStyle)
        ensures
            *i == old(self).spec_interaction(),
            final(self).spec_interaction() == *final(i),
            final(self).spec_state() == old(self).spec_state(),
            final(self).spec_label() == old(self).spec_label(),
    {
        &mut self.interaction
    }

    /// Replaces the interaction styles and marks the widget as damaged.
    pub fn set_interaction(&mut self, interaction: InteractionStyle)
        ensures
            final(self).spec_interaction() == interaction,
            final(self).spec_state().spec_damaged(),
            final(self).spec_state().spec_hovered() == old(self).spec_state().spec_hovered(),
            final(self).spec_state().spec_pressed() == old(self).spec_state().spec_pressed(),
            final(self).spec_state().spec_focused() == old(self).spec_state().spec_focused(),
            final(self).spec_label() == old(self).spec_label(),
    {
        self.interaction = interaction;
        self.state.set_damaged(true);
    }

    /// The interaction styles.
    pub fn interaction(&self) -> (i: InteractionStyle)
        ensures
            i == self.spec_interaction(),
    {
        self.interaction
    }

    /// Redraws the button into `rect` when it is damaged: the area is cleared and the label,
    /// cut to the width, is drawn on the first row, all in the interaction style.
    pub fn render(&mut self, pane: &mut Pane, rect: Rect)
        requires
            old(pane).wf(),
            rect.x + rect.width <= usize::MAX,
            rect.y + rect.height <= usize::MAX,
        ensures
            final(self).spec_label() == old(self).spec_label(),
            final(self).spec_interaction() == old(self).spec_interaction(),
            !final(self).spec_state().spec_damaged(),
            final(self).spec_state().spec_hovered() == old(self).spec_state().spec_hovered(),
            final(self).spec_state().spec_pressed() == old(self).spec_state().spec_pressed(),
            final(self).spec_state().spec_focused() == old(self).spec_state().spec_focused(),
            !old(self).spec_state().spec_damaged() || rect.width == 0 || rect.height == 0
                ==> *final(pane) == *old(pane),
            old(self).spec_state().spec_damaged() && rect.width > 0 && rect.height > 0 ==> {
                let st = old(self).spec_interaction().spec_style(old(self).spec_state());
                rows_drawn(
                    *final(pane),
                    *old(pane),
                    rect,
                    seq![row_of(old(self).spec_label(), st, rect.width as nat)],
                    0,
                    clear_glyph_for(st),
                )
            },
    {
        if !self.state.is_damaged() {
            return;
        }
        if rect.width == 0 || rect.height == 0 {
            self.state.set_damaged(false);
            return;
        }
        let st = self.interaction.style(&self.state);
        let row = glyph_row(self.label.as_str(), st, rect.width);
        draw_single_row(pane, rect, row, st);
        self.state.set_damaged(false);
    }

    /// Keyboard activation clicks the button.
    pub fn activate_action<A>(&mut self) -> (a: WidgetAction<A>)
        ensures
            a == WidgetAction::<A>::Clicked,
            *final(self) == *old(self),
    {
        WidgetAction::Clicked
    }
}

} // verus!
