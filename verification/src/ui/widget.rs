//! The widgets a store holds: the built-in ones and an application-defined kind.
use vstd::prelude::*;

use crate::surface::geometry::{Point, Rect, min_of};
use crate::surface::glyph::Glyph;
use crate::surface::pane::{Pane, edit_tracked};
use crate::surface::style::Style;
use crate::ui::button::ButtonWidget;
use crate::ui::checkbox::{CheckboxWidget, checkbox_text};
use crate::ui::draw::rows_drawn;
use crate::ui::event::KeyCode;
use crate::ui::input::InputWidget;
use crate::ui::log::{LogWidget, shown_rows, shown_top};
use crate::ui::state::{InteractionStyle, WidgetAction, WidgetState};
use crate::ui::text::{TextWidget, clear_glyph_for, layout, row_of};

verus! {

/// A pane that a widget drew into: well-formed, same frame, and every changed cell marked.
pub open spec fn drawn_into(new: Pane, old: Pane) -> bool {
    &&& new.wf()
    &&& new.same_frame(&old)
    &&& edit_tracked(new, old)
}

/// Behavior of an application-defined widget.
///
/// How the widget answers input is its own, named by the `spec_*_action` functions; the
/// interaction state (hovered, pressed, focused, damaged) is the store's, and changing it
/// does not change those answers.
pub trait CustomWidget {
    /// The payload of the widget's own actions.
    type Action;

    /// The widget's interaction state.
    spec fn spec_state(&self) -> WidgetState;

    /// Returns the widget's interaction state.
    fn state(&self) -> (s: WidgetState)
        ensures
            s == self.spec_state(),
    ;

    /// Replaces the widget's interaction state; the widget answers input as before.
    fn set_state(&mut self, s: WidgetState)
        ensures
            final(self).spec_state() == s,
            final(self).spec_activate_action() == old(self).spec_activate_action(),
            forall|k: KeyCode| #[trigger] final(self).spec_key_action(k) == old(self).spec_key_action(k),
            forall|x: usize, w: usize|
                #[trigger] final(self).spec_drag_action(x, w) == old(self).spec_drag_action(x, w),
            forall|f: bool| #[trigger] final(self).spec_release_action(f) == old(self).spec_release_action(f),
    ;

    /// Draws the widget into `rect` of `pane`'s content when it is damaged.
    fn render(&mut self, pane: &mut Pane, rect: Rect)
        requires
            old(pane).wf(),
        ensures
            drawn_into(*final(pane), *old(pane)),
            !final(self).spec_state().spec_damaged(),
    ;

    /// Where the widget puts the cursor in `rect` of `pane` when it is focused.
    spec fn spec_cursor_pos(&self, pane: Pane, rect: Rect) -> Option<Point>;

    /// Where the cursor goes when the widget is focused.
    fn cursor_pos(&self, pane: &Pane, rect: Rect) -> (p: Option<Point>)
        ensures
            p == self.spec_cursor_pos(*pane, rect),
    ;

    /// The action the widget answers keyboard activation with.
    spec fn spec_activate_action(&self) -> WidgetAction<Self::Action>;

    /// The action for keyboard activation.
    fn activate_action(&mut self) -> (a: WidgetAction<Self::Action>)
        ensures
            a == old(self).spec_activate_action(),
    ;

    /// The action the widget answers `key` with.
    spec fn spec_key_action(&self, key: KeyCode) -> WidgetAction<Self::Action>;

    /// The action for a key.
    fn key_action(&mut self, key: KeyCode) -> (a: WidgetAction<Self::Action>)
        ensures
            a == old(self).spec_key_action(key),
    ;

    /// The action the widget answers a drag (or press) at column `local_x` of a widget
    /// `width` wide with.
    spec fn spec_drag_action(&self, local_x: usize, width: usize) -> WidgetAction<Self::Action>;

    /// The action for a drag (or press) at column `local_x` of a widget `width` wide.
    fn drag_action(&mut self, local_x: usize, width: usize) -> (a: WidgetAction<Self::Action>)
        ensures
            a == old(self).spec_drag_action(local_x, width),
    ;

    /// The action the widget answers a release over it with, `focused` telling whether it
    /// holds the focus.
    spec fn spec_release_action(&self, focused: bool) -> WidgetAction<Self::Action>;

    /// The action for a release over the widget.
    fn release_action(&mut self, focused: bool) -> (a: WidgetAction<Self::Action>)
        ensures
            a == old(self).spec_release_action(focused),
    ;
}

/// Two application-defined widgets answer every input alike.
pub open spec fn answers_alike<C: CustomWidget>(a: C, b: C) -> bool {
    &&& a.spec_activate_action() == b.spec_activate_action()
    &&& forall|k: KeyCode| #[trigger] a.spec_key_action(k) == b.spec_key_action(k)
    &&& forall|x: usize, w: usize| #[trigger] a.spec_drag_action(x, w) == b.spec_drag_action(x, w)
    &&& forall|f: bool| #[trigger] a.spec_release_action(f) == b.spec_release_action(f)
}

/// A widget held by a store.
pub enum Widget<C> {
    Text(TextWidget),
    Log(LogWidget),
    Button(ButtonWidget),
    Checkbox(CheckboxWidget),
    Input(InputWidget),
    Custom(C),
}

impl<C: CustomWidget> Widget<C> {
    /// The widget's interaction state.
    pub open spec fn spec_state(&self) -> WidgetState {
        match self {
            Widget::Text(w) => w.spec_state(),
            Widget::Log(w) => w.spec_state(),
            Widget::Button(w) => w.spec_state(),
            Widget::Checkbox(w) => w.spec_state(),
            Widget::Input(w) => w.spec_state(),
            Widget::Custom(w) => w.spec_state(),
        }
    }

    /// The widgets are of the same kind and hold the same content and styles; only their
    /// interaction state may differ (application-defined widgets answer input alike).
    pub open spec fn same_content(&self, other: &Widget<C>) -> bool {
        match (self, other) {
            (Widget::Text(a), Widget::Text(b)) => a.spec_lines() == b.spec_lines() && a.spec_wrap()
                == b.spec_wrap() && a.spec_interaction() == b.spec_interaction(),
            (Widget::Log(a), Widget::Log(b)) => a.spec_lines() == b.spec_lines() && a.spec_wrap()
                == b.spec_wrap() && a.spec_ascending() == b.spec_ascending() && a.spec_max_entries()
                == b.spec_max_entries() && a.spec_interaction() == b.spec_interaction(),
            (Widget::Button(a), Widget::Button(b)) => a.spec_label() == b.spec_label()
                && a.spec_interaction() == b.spec_interaction(),
            (Widget::Checkbox(a), Widget::Checkbox(b)) => a.spec_label() == b.spec_label()
                && a.spec_label_left() == b.spec_label_left() && a.spec_checked() == b.spec_checked()
                && a.spec_interaction() == b.spec_interaction(),
            (Widget::Input(a), Widget::Input(b)) => a.spec_value() == b.spec_value()
                && a.spec_cursor() == b.spec_cursor() && a.spec_label() == b.spec_label()
                && a.spec_placeholder() == b.spec_placeholder() && a.spec_label_style()
                == b.spec_label_style() && a.spec_text_style() == b.spec_text_style()
                && a.spec_interaction() == b.spec_interaction(),
            (Widget::Custom(a), Widget::Custom(b)) => answers_alike(*a, *b),
            _ => false,
        }
    }

    /// The style a built-in widget draws in: its interaction style for its state.
    pub open spec fn draw_style(&self) -> Style {
        match self {
            Widget::Text(w) => w.spec_interaction().spec_style(w.spec_state()),
            Widget::Log(w) => w.spec_interaction().spec_style(w.spec_state()),
            Widget::Button(w) => w.spec_interaction().spec_style(w.spec_state()),
            Widget::Checkbox(w) => w.spec_interaction().spec_style(w.spec_state()),
            Widget::Input(w) => w.spec_interaction().spec_style(w.spec_state()),
            Widget::Custom(_) => Style::spec_default(),
        }
    }

    /// The rows a built-in widget draws into a `width` by `height` area, and the row of the
    /// area the first of them goes to: text wraps its lines from the top, a log shows its
    /// newest rows, a button and a checkbox draw one row, and an input its label and value.
    pub open spec fn drawn_rows(&self, width: nat, height: nat) -> (Seq<Seq<Glyph>>, int) {
        let st = self.draw_style();
        match self {
            Widget::Text(w) => {
                let rows = layout(w.spec_lines(), width, w.spec_wrap(), st);
                (rows.take(min_of(rows.len() as int, height as int)), 0)
            },
            Widget::Log(w) => {
                let rows = layout(w.spec_lines(), width, w.spec_wrap(), st);
                (shown_rows(rows, height, w.spec_ascending()), shown_top(rows, height, w.spec_ascending()))
            },
            Widget::Button(w) => (seq![row_of(w.spec_label(), st, width)], 0),
            Widget::Checkbox(w) => (
                seq![row_of(checkbox_text(w.spec_label(), w.spec_label_left(), w.spec_checked()), st, width)],
                0,
            ),
            Widget::Input(w) => {
                let rows = w.spec_rows(st, width, height);
                (rows.take(min_of(rows.len() as int, height as int)), 0)
            },
            Widget::Custom(_) => (Seq::empty(), 0),
        }
    }

    /// Widgets with the same content and the same hovered, pressed and focused flags draw
    /// the same rows in the same style.
    pub proof fn lemma_same_drawing(&self, other: &Widget<C>, width: nat, height: nat)
        requires
            self.same_content(other),
            self.spec_state().spec_hovered() == other.spec_state().spec_hovered(),
            self.spec_state().spec_pressed() == other.spec_state().spec_pressed(),
            self.spec_state().spec_focused() == other.spec_state().spec_focused(),
        ensures
            self.draw_style() == other.draw_style(),
            self.drawn_rows(width, height) == other.drawn_rows(width, height),
    {
    }

    /// The interaction styles of a built-in widget (the default ones for an
    /// application-defined widget, which keeps its own).
    pub open spec fn spec_interaction(&self) -> InteractionStyle {
        match self {
            Widget::Text(w) => w.spec_interaction(),
            Widget::Log(w) => w.spec_interaction(),
            Widget::Button(w) => w.spec_interaction(),
            Widget::Checkbox(w) => w.spec_interaction(),
            Widget::Input(w) => w.spec_interaction(),
            Widget::Custom(_) => InteractionStyle::default_spec(),
        }
    }

    /// `self` is `other` with new interaction styles: the same kind, the same content, and
    /// the same hovered, pressed and focused flags.
    pub open spec fn restyled_from(&self, other: &Widget<C>) -> bool {
        &&& self.spec_state().spec_hovered() == other.spec_state().spec_hovered()
        &&& self.spec_state().spec_pressed() == other.spec_state().spec_pressed()
        &&& self.spec_state().spec_focused() == other.spec_state().spec_focused()
        &&& match (self, other) {
            (Widget::Text(a), Widget::Text(b)) => a.spec_lines() == b.spec_lines() && a.spec_wrap()
                == b.spec_wrap(),
            (Widget::Log(a), Widget::Log(b)) => a.spec_lines() == b.spec_lines() && a.spec_wrap()
                == b.spec_wrap() && a.spec_ascending() == b.spec_ascending() && a.spec_max_entries()
                == b.spec_max_entries(),
            (Widget::Button(a), Widget::Button(b)) => a.spec_label() == b.spec_label(),
            (Widget::Checkbox(a), Widget::Checkbox(b)) => a.spec_label() == b.spec_label()
                && a.spec_label_left() == b.spec_label_left() && a.spec_checked() == b.spec_checked(),
            (Widget::Input(a), Widget::Input(b)) => a.spec_value() == b.spec_value()
                && a.spec_cursor() == b.spec_cursor() && a.spec_label() == b.spec_label()
                && a.spec_placeholder() == b.spec_placeholder() && a.spec_label_style()
                == b.spec_label_style() && a.spec_text_style() == b.spec_text_style(),
            _ => false,
        }
    }

    /// The widget is well-formed (an input's cursor lies within its text).
    pub open spec fn wf(&self) -> bool {
        match self {
            Widget::Input(w) => w.wf(),
            _ => true,
        }
    }

    /// Returns the widget's interaction state.
    pub fn state(&self) -> (s: WidgetState)
        ensures
            s == self.spec_state(),
    {
        match self {
            Widget::Text(w) => *w.state(),
            Widget::Log(w) => *w.state(),
            Widget::Button(w) => *w.state(),
            Widget::Checkbox(w) => *w.state(),
            Widget::Input(w) => *w.state(),
            Widget::Custom(w) => w.state(),
        }
    }

    /// Replaces the widget's interaction state, keeping its kind.
    pub fn set_state(&mut self, s: WidgetState)
        requires
            old(self).wf(),
        ensures
            final(self).wf(),
            final(self).spec_state() == s,
            final(self).same_content(old(self)),
    {
        match self {
            Widget::Text(w) => {
                *w.state_mut() = s;
            },
            Widget::Log(w) => {
                *w.state_mut() = s;
            },
            Widget::Button(w) => {
                *w.state_mut() = s;
            },
            Widget::Checkbox(w) => {
                *w.state_mut() = s;
            },
            Widget::Input(w) => w.set_state(s),
            Widget::Custom(w) => w.set_state(s),
        }
    }

    /// Sets the hovered state; a change marks the widget as damaged.
    pub fn set_hovered(&mut self, value: bool)
        requires
            old(self).wf(),
        ensures
            final(self).wf(),
            final(self).same_content(old(self)),
            final(self).spec_state().spec_hovered() == value,
            final(self).spec_state().spec_pressed() == old(self).spec_state().spec_pressed(),
            final(self).spec_state().spec_focused() == old(self).spec_state().spec_focused(),
            final(self).spec_state().spec_damaged() == (old(self).spec_state().spec_damaged()
                || old(self).spec_state().spec_hovered() != value),
    {
        let mut s = self.state();
        s.set_hovered(value);
        self.set_state(s);
    }

    /// Sets the pressed state; a change marks the widget as damaged.
    pub fn set_pressed(&mut self, value: bool)
        requires
            old(self).wf(),
        ensures
            final(self).wf(),
            final(self).same_content(old(self)),
            final(self).spec_state().spec_pressed() == value,
            final(self).spec_state().spec_hovered() == old(self).spec_state().spec_hovered(),
            final(self).spec_state().spec_focused() == old(self).spec_state().spec_focused(),
            final(self).spec_state().spec_damaged() == (old(self).spec_state().spec_damaged()
                || old(self).spec_state().spec_pressed() != value),
    {
        let mut s = self.state();
        s.set_pressed(value);
        self.set_state(s);
    }

    /// Sets the focused state; a change marks the widget as damaged.
    pub fn set_focused(&mut self, value: bool)
        requires
            old(self).wf(),
        ensures
            final(self).wf(),
            final(self).same_content(old(self)),
            final(self).spec_state().spec_focused() == value,
            final(self).spec_state().spec_hovered() == old(self).spec_state().spec_hovered(),
            final(self).spec_state().spec_pressed() == old(self).spec_state().spec_pressed(),
            final(self).spec_state().spec_damaged() == (old(self).spec_state().spec_damaged()
                || old(self).spec_state().spec_focused() != value),
    {
        let mut s = self.state();
        s.set_focused(value);
        self.set_state(s);
    }

    /// Sets the damaged state.
    pub fn set_damaged(&mut self, value: bool)
        requires
            old(self).wf(),
        ensures
            final(self).wf(),
            final(self).same_content(old(self)),
            final(self).spec_state().spec_damaged() == value,
            final(self).spec_state().spec_hovered() == old(self).spec_state().spec_hovered(),
            final(self).spec_state().spec_pressed() == old(self).spec_state().spec_pressed(),
            final(self).spec_state().spec_focused() == old(self).spec_state().spec_focused(),
    {
        let mut s = self.state();
        s.set_damaged(value);
        self.set_state(s);
    }

    /// The interaction styles of a built-in widget.
    pub fn interaction(&self) -> (i: InteractionStyle)
        requires
            !(*self is Custom),
        ensures
            i == self.spec_interaction(),
    {
        match self {
            Widget::Text(w) => w.interaction(),
            Widget::Log(w) => w.interaction(),
            Widget::Button(w) => w.interaction(),
            Widget::Checkbox(w) => w.interaction(),
            Widget::Input(w) => w.interaction(),
            Widget::Custom(_) => InteractionStyle::default(),
        }
    }

    /// The built-in widget with `interaction` as its styles, marked for redraw.
    pub fn with_interaction(self, interaction: InteractionStyle) -> (w: Self)
        requires
            self.wf(),
            !(self is Custom),
        ensures
            w.wf(),
            w.restyled_from(&self),
            w.spec_interaction() == interaction,
            w.spec_state().spec_damaged(),
    {
        let mut w = self;
        match &mut w {
            Widget::Text(t) => t.set_interaction(interaction),
            Widget::Log(t) => t.set_interaction(interaction),
            Widget::Button(t) => t.set_interaction(interaction),
            Widget::Checkbox(t) => t.set_interaction(interaction),
            Widget::Input(t) => t.set_interaction(interaction),
            Widget::Custom(_) => {},
        }
        w
    }

    /// The built-in widget with `style` when idle, marked for redraw.
    pub fn with_normal_interaction_style(self, style: Style) -> (w: Self)
        requires
            self.wf(),
            !(self is Custom),
        ensures
            w.wf(),
            w.restyled_from(&self),
            w.spec_interaction() == (InteractionStyle { normal: style, ..self.spec_interaction() }),
            w.spec_state().spec_damaged(),
    {
        let i = self.interaction();
        self.with_interaction(InteractionStyle { normal: style, ..i })
    }

    /// The built-in widget with `style` while hovered, marked for redraw.
    pub fn with_hover_interaction_style(self, style: Style) -> (w: Self)
        requires
            self.wf(),
            !(self is Custom),
        ensures
            w.wf(),
            w.restyled_from(&self),
            w.spec_interaction() == (InteractionStyle { hover: style, ..self.spec_interaction() }),
            w.spec_state().spec_damaged(),
    {
        let i = self.interaction();
        self.with_interaction(InteractionStyle { hover: style, ..i })
    }

    /// The built-in widget with `style` while pressed, marked for redraw.
    pub fn with_pressed_interaction_style(self, style: Style) -> (w: Self)
        requires
            self.wf(),
            !(self is Custom),
        ensures
            w.wf(),
            w.restyled_from(&self),
            w.spec_interaction() == (InteractionStyle { pressed: style, ..self.spec_interaction() }),
            w.spec_state().spec_damaged(),
    {
        let i = self.interaction();
        self.with_interaction(InteractionStyle { pressed: style, ..i })
    }

    /// The built-in widget with `style` while focused, marked for redraw.
    pub fn with_focus_interaction_style(self, style: Style) -> (w: Self)
        requires
            self.wf(),
            !(self is Custom),
        ensures
            w.wf(),
            w.restyled_from(&self),
            w.spec_interaction() == (InteractionStyle { focused: style, ..self.spec_interaction() }),
            w.spec_state().spec_damaged(),
    {
        let i = self.interaction();
        self.with_interaction(InteractionStyle { focused: style, ..i })
    }

    /// Returns `true` for text inputs.
    pub fn is_input(&self) -> (b: bool)
        ensures
            b == (*self) is Input,
    {
        match self {
            Widget::Input(_) => true,
            _ => false,
        }
    }

    /// Draws the widget into `rect` of `pane`'s content when it is damaged, and clears its
    /// damage.
    pub fn render(&mut self, pane: &mut Pane, rect: Rect)
        requires
            old(self).wf(),
            old(pane).wf(),
            rect.x + rect.width <= usize::MAX,
            rect.y + rect.height <= usize::MAX,
        ensures
            final(self).wf(),
            drawn_into(*final(pane), *old(pane)),
            !final(self).spec_state().spec_damaged(),
            (*final(self) is Input) == (*old(self) is Input),
            (*final(self) is Custom) == (*old(self) is Custom),
            !(*old(self) is Custom) ==> final(self).same_content(old(self)),
            !(*old(self) is Custom) ==> final(self).spec_state().spec_hovered() == old(self).spec_state().spec_hovered()
                && final(self).spec_state().spec_pressed() == old(self).spec_state().spec_pressed()
                && final(self).spec_state().spec_focused() == old(self).spec_state().spec_focused(),
            !(*old(self) is Custom) && (!old(self).spec_state().spec_damaged() || rect.width == 0
                || rect.height == 0) ==> *final(pane) == *old(pane),
            !(*old(self) is Custom) && old(self).spec_state().spec_damaged() && rect.width > 0
                && rect.height > 0 ==> rows_drawn(
                *final(pane),
                *old(pane),
                rect,
                old(self).drawn_rows(rect.width as nat, rect.height as nat).0,
                old(self).drawn_rows(rect.width as nat, rect.height as nat).1,
                clear_glyph_for(old(self).draw_style()),
            ),
    {
        match self {
            Widget::Text(w) => w.render(pane, rect),
            Widget::Log(w) => w.render(pane, rect),
            Widget::Button(w) => w.render(pane, rect),
            Widget::Checkbox(w) => w.render(pane, rect),
            Widget::Input(w) => w.render(pane, rect),
            Widget::Custom(w) => w.render(pane, rect),
        }
    }

    /// Where the cursor goes when the widget is focused: inside inputs, wherever an
    /// application-defined widget puts it, and `None` for the others.
    pub fn cursor_pos(&self, pane: &Pane, rect: Rect) -> (p: Option<Point>)
        requires
            self.wf(),
        ensures
            !((*self) is Input || (*self) is Custom) ==> p is None,
            (*self) matches Widget::Input(w) ==> p == w.cursor_point(*pane, rect),
            (*self) matches Widget::Custom(w) ==> p == w.spec_cursor_pos(*pane, rect),
    {
        match self {
            Widget::Input(w) => w.cursor_pos(pane, rect),
            Widget::Custom(w) => w.cursor_pos(pane, rect),
            _ => None,
        }
    }

    /// The action for keyboard activation: buttons click, checkboxes toggle, inputs
    /// submit; text and logs do nothing.
    pub fn activate_action(&mut self) -> (a: WidgetAction<C::Action>)
        requires
            old(self).wf(),
        ensures
            final(self).wf(),
            (*final(self) is Custom) == (*old(self) is Custom),
            answered(*old(self), WidgetRequest::Activate, a),
            changed_by(*old(self), WidgetRequest::Activate, *final(self)),
            *old(self) matches Widget::Custom(c) ==> a == c.spec_activate_action(),
    {
        match self {
            Widget::Button(w) => w.activate_action(),
            Widget::Checkbox(w) => w.activate_action(),
            Widget::Input(w) => w.activate_action(),
            Widget::Custom(w) => w.activate_action(),
            _ => WidgetAction::NoOp,
        }
    }

    /// The action for a key: inputs edit their text; other built-in widgets do nothing.
    pub fn key_action(&mut self, key: KeyCode) -> (a: WidgetAction<C::Action>)
        requires
            old(self).wf(),
        ensures
            final(self).wf(),
            (*final(self) is Custom) == (*old(self) is Custom),
            answered(*old(self), WidgetRequest::Key(key), a),
            changed_by(*old(self), WidgetRequest::Key(key), *final(self)),
            *old(self) matches Widget::Custom(c) ==> a == c.spec_key_action(key),
    {
        match self {
            Widget::Input(w) => w.key_action(key),
            Widget::Custom(w) => w.key_action(key),
            _ => WidgetAction::NoOp,
        }
    }

    /// The action for a drag (or press) at column `local_x`: only custom widgets react.
    pub fn drag_action(&mut self, local_x: usize, width: usize) -> (a: WidgetAction<C::Action>)
        requires
            old(self).wf(),
        ensures
            final(self).wf(),
            (*final(self) is Custom) == (*old(self) is Custom),
            answered(*old(self), WidgetRequest::Drag { local_x, width }, a),
            changed_by(*old(self), WidgetRequest::Drag { local_x, width }, *final(self)),
            !(*old(self) is Custom) ==> *final(self) == *old(self),
            *old(self) matches Widget::Custom(c) ==> a == c.spec_drag_action(local_x, width),
    {
        match self {
            Widget::Custom(w) => w.drag_action(local_x, width),
            _ => WidgetAction::NoOp,
        }
    }

    /// The action for a release over the widget: a focused checkbox toggles; other
    /// built-in widgets report a click when focused and a release otherwise.
    pub fn release_action(&mut self, focused: bool) -> (a: WidgetAction<C::Action>)
        requires
            old(self).wf(),
        ensures
            final(self).wf(),
            (*final(self) is Custom) == (*old(self) is Custom),
            answered(*old(self), WidgetRequest::Release { focused }, a),
            changed_by(*old(self), WidgetRequest::Release { focused }, *final(self)),
            *old(self) matches Widget::Custom(c) ==> a == c.spec_release_action(focused),
    {
        match self {
            Widget::Checkbox(w) => w.release_action(focused),
            Widget::Custom(w) => w.release_action(focused),
            _ => if focused {
                WidgetAction::Clicked
            } else {
                WidgetAction::Released
            },
        }
    }
}


/// An input a widget is asked to answer.
#[derive(Debug, Clone, Copy, PartialEq, Eq)]
pub enum WidgetRequest {
    /// Keyboard activation (Enter, or Space on a widget that is not an input).
    Activate,
    /// Any other key.
    Key(KeyCode),
    /// A press or drag at column `local_x` of a widget `width` wide.
    Drag { local_x: usize, width: usize },
    /// A release over the widget.
    Release { focused: bool },
}

/// The action that widget `w` answers `req` with: the built-in widgets' fixed answers, and
/// for an application-defined widget the answer its `spec_*_action` functions name.
pub open spec fn answered<C: CustomWidget>(w: Widget<C>, req: WidgetRequest, a: WidgetAction<C::Action>) -> bool {
    match w {
        Widget::Custom(c) => match req {
            WidgetRequest::Activate => a == c.spec_activate_action(),
            WidgetRequest::Key(k) => a == c.spec_key_action(k),
            WidgetRequest::Drag { local_x, width } => a == c.spec_drag_action(local_x, width),
            WidgetRequest::Release { focused } => a == c.spec_release_action(focused),
        },
        Widget::Text(_) | Widget::Log(_) => match req {
            WidgetRequest::Release { focused } => a == if focused {
                WidgetAction::<C::Action>::Clicked
            } else {
                WidgetAction::<C::Action>::Released
            },
            _ => a == WidgetAction::<C::Action>::NoOp,
        },
        Widget::Button(_) => match req {
            WidgetRequest::Activate => a == WidgetAction::<C::Action>::Clicked,
            WidgetRequest::Release { focused } => a == if focused {
                WidgetAction::<C::Action>::Clicked
            } else {
                WidgetAction::<C::Action>::Released
            },
            _ => a == WidgetAction::<C::Action>::NoOp,
        },
        Widget::Checkbox(c) => match req {
            WidgetRequest::Activate => a == WidgetAction::<C::Action>::CheckboxChanged(!c.spec_checked()),
            WidgetRequest::Release { focused } => a == if focused {
                WidgetAction::<C::Action>::CheckboxChanged(!c.spec_checked())
            } else {
                WidgetAction::<C::Action>::Released
            },
            _ => a == WidgetAction::<C::Action>::NoOp,
        },
        Widget::Input(i) => match req {
            WidgetRequest::Activate => a matches WidgetAction::InputSubmitted(s) && s@ == i.spec_value(),
            WidgetRequest::Key(k) => a == if k is Char || k is Backspace || k is Left || k is Right {
                WidgetAction::<C::Action>::InputChanged
            } else {
                WidgetAction::<C::Action>::NoOp
            },
            WidgetRequest::Drag { .. } => a == WidgetAction::<C::Action>::NoOp,
            WidgetRequest::Release { focused } => a == if focused {
                WidgetAction::<C::Action>::Clicked
            } else {
                WidgetAction::<C::Action>::Released
            },
        },
    }
}

/// The text and cursor of an input with text `v` and cursor `k` after it answers `req`:
/// submission empties it, a character goes in at the cursor, Backspace removes the
/// character before the cursor, Left and Right move the cursor within the text, and
/// anything else leaves both as they were.
pub open spec fn input_edit(v: Seq<char>, k: nat, req: WidgetRequest) -> (Seq<char>, nat) {
    match req {
        WidgetRequest::Activate => (Seq::empty(), 0),
        WidgetRequest::Key(key) => match key {
            KeyCode::Char(c) => (v.insert(k as int, c), k + 1),
            KeyCode::Backspace => if k > 0 {
                (v.remove(k - 1), (k - 1) as nat)
            } else {
                (v, k)
            },
            KeyCode::Left => (v, if k > 0 {
                (k - 1) as nat
            } else {
                k
            }),
            KeyCode::Right => (v, if k < v.len() {
                k + 1
            } else {
                k
            }),
            _ => (v, k),
        },
        _ => (v, k),
    }
}

/// What answering `req` does to the content of widget `w0`, giving `w1` (interaction state
/// aside): a checkbox toggles on activation and on a release while focused, an input
/// edits its text as `input_edit` says, an application-defined widget stays one, and the
/// other widgets keep their content.
pub open spec fn changed_by<C: CustomWidget>(w0: Widget<C>, req: WidgetRequest, w1: Widget<C>) -> bool {
    match w0 {
        Widget::Checkbox(a) => w1 matches Widget::Checkbox(b) && b.spec_label() == a.spec_label()
            && b.spec_label_left() == a.spec_label_left() && b.spec_interaction() == a.spec_interaction()
            && b.spec_checked() == (if req == WidgetRequest::Activate || req == (WidgetRequest::Release {
            focused: true,
        }) {
            !a.spec_checked()
        } else {
            a.spec_checked()
        }),
        Widget::Input(a) => w1 matches Widget::Input(b) && b.spec_label() == a.spec_label()
            && b.spec_placeholder() == a.spec_placeholder() && b.spec_label_style() == a.spec_label_style()
            && b.spec_text_style() == a.spec_text_style() && b.spec_interaction() == a.spec_interaction()
            && (b.spec_value(), b.spec_cursor()) == input_edit(a.spec_value(), a.spec_cursor(), req),
        Widget::Custom(_) => w1 is Custom,
        _ => w1.same_content(&w0),
    }
}

/// A widget with the same content as one that answered `req` stands for the same change.
pub proof fn lemma_changed_then_same<C: CustomWidget>(
    w0: Widget<C>,
    req: WidgetRequest,
    w1: Widget<C>,
    w2: Widget<C>,
)
    requires
        changed_by(w0, req, w1),
        w2.same_content(&w1),
    ensures
        changed_by(w0, req, w2),
{
}

/// Widgets with the same content change alike.
pub proof fn lemma_changed_from_same<C: CustomWidget>(
    w0: Widget<C>,
    w1: Widget<C>,
    req: WidgetRequest,
    w2: Widget<C>,
)
    requires
        w1.same_content(&w0),
        changed_by(w1, req, w2),
    ensures
        changed_by(w0, req, w2),
{
}

/// Widgets with the same content answer alike.
pub proof fn lemma_answered_same_content<C: CustomWidget>(
    w1: Widget<C>,
    w0: Widget<C>,
    req: WidgetRequest,
    a: WidgetAction<C::Action>,
)
    requires
        w1.same_content(&w0),
    ensures
        answered(w1, req, a) == answered(w0, req, a),
{
}

impl<C: CustomWidget> Widget<C> {
    /// Answers an input request with the matching action.
    pub fn respond(&mut self, req: WidgetRequest) -> (a: WidgetAction<C::Action>)
        requires
            old(self).wf(),
        ensures
            final(self).wf(),
            (*final(self) is Custom) == (*old(self) is Custom),
            answered(*old(self), req, a),
            changed_by(*old(self), req, *final(self)),
    {
        match req {
            WidgetRequest::Activate => self.activate_action(),
            WidgetRequest::Key(k) => self.key_action(k),
            WidgetRequest::Drag { local_x, width } => self.drag_action(local_x, width),
            WidgetRequest::Release { focused } => self.release_action(focused),
        }
    }
}

} // verus!
