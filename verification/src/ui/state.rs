//! Interaction state of widgets and the styles picked from it.
use vstd::prelude::*;

use crate::surface::style::{Style, StylePatch};

verus! {

/// Current interaction and damage state for a widget.
#[derive(Debug, Clone, Copy, PartialEq, Eq, Structural)]
pub struct WidgetState {
    hovered: bool,
    focused: bool,
    pressed: bool,
    damaged: bool,
}

impl Default for WidgetState {
    /// Idle, and damaged so that the widget is drawn the first time.
    fn default() -> (s: Self)
        ensures
            !s.spec_hovered(),
            !s.spec_focused(),
            !s.spec_pressed(),
            s.spec_damaged(),
    {
        WidgetState { hovered: false, focused: false, pressed: false, damaged: true }
    }
}

impl WidgetState {
    /// The pointer is over the widget.
    pub closed spec fn spec_hovered(&self) -> bool {
        self.hovered
    }

    /// The widget has keyboard focus.
    pub closed spec fn spec_focused(&self) -> bool {
        self.focused
    }

    /// The widget is held down.
    pub closed spec fn spec_pressed(&self) -> bool {
        self.pressed
    }

    /// The widget needs to be redrawn.
    pub closed spec fn spec_damaged(&self) -> bool {
        self.damaged
    }

    /// Sets the hovered state; a change marks the widget as damaged.
    pub fn set_hovered(&mut self, value: bool)
        ensures
            final(self).spec_hovered() == value,
            final(self).spec_focused() == old(self).spec_focused(),
            final(self).spec_pressed() == old(self).spec_pressed(),
            final(self).spec_damaged() == (old(self).spec_damaged() || old(self).spec_hovered() != value),
    {
        if self.hovered != value {
            self.hovered = value;
            self.set_damaged(true);
        }
    }

    /// Sets the pressed state; a change marks the widget as damaged.
    pub fn set_pressed(&mut self, value: bool)
        ensures
            final(self).spec_pressed() == value,
            final(self).spec_hovered() == old(self).spec_hovered(),
            final(self).spec_focused() == old(self).spec_focused(),
            final(self).spec_damaged() == (old(self).spec_damaged() || old(self).spec_pressed() != value),
    {
        if self.pressed != value {
            self.pressed = value;
            self.set_damaged(true);
        }
    }

    /// Sets the focused state; a change marks the widget as damaged.
    pub fn set_focused(&mut self, value: bool)
        ensures
            final(self).spec_focused() == value,
            final(self).spec_hovered() == old(self).spec_hovered(),
            final(self).spec_pressed() == old(self).spec_pressed(),
            final(self).spec_damaged() == (old(self).spec_damaged() || old(self).spec_focused() != value),
    {
        if self.focused != value {
            self.focused = value;
            self.set_damaged(true);
        }
    }

    /// Sets the damaged state.
    pub fn set_damaged(&mut self, value: bool)
        ensures
            final(self).spec_damaged() == value,
            final(self).spec_hovered() == old(self).spec_hovered(),
            final(self).spec_focused() == old(self).spec_focused(),
            final(self).spec_pressed() == old(self).spec_pressed(),
    {
        if self.damaged != value {
            self.damaged = value;
        }
    }

    /// Returns `true` when the widget is hovered.
    pub fn is_hovered(&self) -> (b: bool)
        ensures
            b == self.spec_hovered(),
    {
        self.hovered
    }

    /// Returns `true` when the widget is pressed.
    pub fn is_pressed(&self) -> (b: bool)
        ensures
            b == self.spec_pressed(),
    {
        self.pressed
    }

    /// Returns `true` when the widget is focused.
    pub fn is_focused(&self) -> (b: bool)
        ensures
            b == self.spec_focused(),
    {
        self.focused
    }

    /// Returns `true` when the widget needs redraw.
    pub fn is_damaged(&self) -> (b: bool)
        ensures
            b == self.spec_damaged(),
    {
        self.damaged
    }
}

/// Fully resolved interaction styles for simple widgets.
#[derive(Debug, Clone, Copy, PartialEq, Eq, Structural)]
pub struct InteractionStyle {
    /// Style used when the widget is idle.
    pub normal: Style,
    /// Style used while the widget is hovered.
    pub hover: Style,
    /// Style used while the widget is pressed.
    pub pressed: Style,
    /// Style used while the widget is focused.
    pub focused: Style,
}

impl Default for InteractionStyle {
    /// The default style in every state.
    fn default() -> (s: Self)
        ensures
            s == InteractionStyle::default_spec(),
    {
        InteractionStyle {
            normal: Style::default(),
            hover: Style::default(),
            pressed: Style::default(),
            focused: Style::default(),
        }
    }
}

impl InteractionStyle {
    /// The default style in every state.
    pub open spec fn default_spec() -> InteractionStyle {
        InteractionStyle {
            normal: Style::spec_default(),
            hover: Style::spec_default(),
            pressed: Style::spec_default(),
            focused: Style::spec_default(),
        }
    }

    /// The style for a state: pressed wins over hovered, which wins over focused.
    pub open spec fn spec_style(&self, state: WidgetState) -> Style {
        if state.spec_pressed() {
            self.pressed
        } else if state.spec_hovered() {
            self.hover
        } else if state.spec_focused() {
            self.focused
        } else {
            self.normal
        }
    }

    /// Returns the resolved style for the provided widget state.
    pub fn style(&self, state: &WidgetState) -> (s: Style)
        ensures
            s == self.spec_style(*state),
    {
        if state.is_pressed() {
            self.pressed
        } else if state.is_hovered() {
            self.hover
        } else if state.is_focused() {
            self.focused
        } else {
            self.normal
        }
    }
}

/// State-driven sparse interaction patches for rich widgets.
#[derive(Debug, Clone, Copy, PartialEq, Eq, Structural)]
pub struct RichInteractionStyle {
    /// Patch used when the widget is idle.
    pub normal: StylePatch,
    /// Patch used while the widget is hovered.
    pub hover: StylePatch,
    /// Patch used while the widget is pressed.
    pub pressed: StylePatch,
    /// Patch used while the widget is focused.
    pub focused: StylePatch,
}

impl Default for RichInteractionStyle {
    /// The empty patch in every state.
    fn default() -> (s: Self)
        ensures
            s.normal.spec_is_empty(),
            s.hover.spec_is_empty(),
            s.pressed.spec_is_empty(),
            s.focused.spec_is_empty(),
    {
        RichInteractionStyle {
            normal: StylePatch::new(),
            hover: StylePatch::new(),
            pressed: StylePatch::new(),
            focused: StylePatch::new(),
        }
    }
}

impl RichInteractionStyle {
    /// The patch for a state: pressed wins over hovered, which wins over focused.
    pub open spec fn spec_patch(&self, state: WidgetState) -> StylePatch {
        if state.spec_pressed() {
            self.pressed
        } else if state.spec_hovered() {
            self.hover
        } else if state.spec_focused() {
            self.focused
        } else {
            self.normal
        }
    }

    /// Returns the sparse patch for the provided widget state.
    pub fn patch(&self, state: &WidgetState) -> (p: StylePatch)
        ensures
            p == self.spec_patch(*state),
    {
        if state.is_pressed() {
            self.pressed
        } else if state.is_hovered() {
            self.hover
        } else if state.is_focused() {
            self.focused
        } else {
            self.normal
        }
    }
}

/// High-level actions emitted by widgets during input handling; `A` is the payload of
/// actions of application-defined widgets.
#[derive(Debug, Clone, PartialEq, Eq)]
pub enum WidgetAction<A> {
    NoOp,
    Clicked,
    Released,
    CheckboxChanged(bool),
    InputChanged,
    InputSubmitted(String),
    Custom(A),
}

} // verus!
