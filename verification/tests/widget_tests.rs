use quilltty::surface::geometry::Rect;
use quilltty::surface::glyph::Glyph;
use quilltty::surface::pane::{Pane, PaneId};
use quilltty::surface::backend::Layer;
use quilltty::surface::style::Style;
use quilltty::ui::bar::{progress_cells, slider_slot, track_layout};
use quilltty::ui::button::ButtonWidget;
use quilltty::ui::checkbox::CheckboxWidget;
use quilltty::ui::event::KeyCode;
use quilltty::ui::input::InputWidget;
use quilltty::ui::log::LogWidget;
use quilltty::ui::state::{InteractionStyle, WidgetAction, WidgetState};
use quilltty::ui::widget::{CustomWidget, Widget};
use quilltty::surface::geometry::Point;
use quilltty::ui::text::{StyledLine, StyledSpan, TextWidget, layout_rows};

fn chars_of_row(row: &[Glyph]) -> String {
    row.iter().map(|g| g.rune.b0 as char).collect()
}

#[test]
fn styled_line_counts_chars() {
    let mut line = StyledLine::new().with_span(StyledSpan::new("ab".to_string()));
    line.push_text("cde".to_string());
    assert_eq!(line.len(), 2);
    assert_eq!(line.len_chars(), 5);
    assert_eq!(line.glyphs().len(), 5);
    assert!(!line.is_empty());
    assert!(StyledLine::new().is_empty());
}

#[test]
fn layout_wraps_long_lines() {
    let lines = vec![StyledLine::new().with_span(StyledSpan::new("abcdefg".to_string()))];
    let rows = layout_rows(&lines, 3, true, Style::new());
    assert_eq!(rows.len(), 3);
    assert_eq!(chars_of_row(&rows[0]), "abc");
    assert_eq!(chars_of_row(&rows[2]), "g");
    let cut = layout_rows(&lines, 3, false, Style::new());
    assert_eq!(cut.len(), 1);
    assert_eq!(chars_of_row(&cut[0]), "abc");
}

#[test]
fn text_widget_push_and_clear() {
    let mut t = TextWidget::new();
    assert!(t.is_empty());
    t.push("hello".to_string());
    t.push_line(StyledLine::new());
    assert_eq!(t.len_lines(), 2);
    t.clear();
    assert_eq!(t.len_lines(), 0);
}

#[test]
fn log_keeps_newest_entries() {
    let mut log = LogWidget::new(false, 2);
    log.push("one".to_string());
    log.push("two".to_string());
    log.push("three".to_string());
    assert_eq!(log.len_lines(), 2);
    assert_eq!(log.lines()[0].len_chars(), 3);
    assert_eq!(log.lines()[1].len_chars(), 5);
    let mut all = LogWidget::new(true, 0);
    for _ in 0..10 {
        all.push("x".to_string());
    }
    assert_eq!(all.len_lines(), 10);
}

#[test]
fn input_editing_keys() {
    let mut input = InputWidget::new(Some("Name".to_string()), None);
    let a: WidgetAction<()> = input.key_action(KeyCode::Char('a'));
    assert_eq!(a, WidgetAction::InputChanged);
    let _: WidgetAction<()> = input.key_action(KeyCode::Char('c'));
    let _: WidgetAction<()> = input.key_action(KeyCode::Left);
    let _: WidgetAction<()> = input.key_action(KeyCode::Char('b'));
    assert_eq!(input.value(), "abc");
    let _: WidgetAction<()> = input.key_action(KeyCode::Backspace);
    assert_eq!(input.value(), "ac");
    let none: WidgetAction<()> = input.key_action(KeyCode::Esc);
    assert_eq!(none, WidgetAction::NoOp);
    let sub: WidgetAction<()> = input.activate_action();
    assert_eq!(sub, WidgetAction::InputSubmitted("ac".to_string()));
    assert_eq!(input.value(), "");
}

#[test]
fn input_backspace_at_start_does_nothing() {
    let mut input = InputWidget::new(None, Some("type".to_string()));
    input.backspace();
    assert_eq!(input.value(), "");
    input.insert_char('z');
    input.move_left();
    input.backspace();
    assert_eq!(input.value(), "z");
    input.move_right();
    input.move_right();
    input.backspace();
    assert_eq!(input.value(), "");
}

#[test]
fn checkbox_toggles_on_focused_release() {
    let mut cb = CheckboxWidget::new(Some("Opt".to_string()), false, false);
    let r: WidgetAction<()> = cb.release_action(false);
    assert_eq!(r, WidgetAction::Released);
    assert!(!cb.checked());
    let c: WidgetAction<()> = cb.release_action(true);
    assert_eq!(c, WidgetAction::CheckboxChanged(true));
    assert!(cb.checked());
    assert!(!cb.toggle());
}

#[test]
fn button_activation_clicks() {
    let mut b = ButtonWidget::new("Go".to_string());
    let a: WidgetAction<()> = b.activate_action();
    assert_eq!(a, WidgetAction::Clicked);
    assert!(b.state().is_damaged());
}

#[test]
fn button_render_clears_damage() {
    let mut pane = Pane::create(PaneId(0), Rect { x: 0, y: 0, width: 10, height: 1 }, Layer(0), true);
    let mut b = ButtonWidget::new("Go".to_string());
    b.render(&mut pane, Rect { x: 0, y: 0, width: 10, height: 1 });
    assert!(!b.state().is_damaged());
    let row: String = pane.data().iter().map(|g| g.rune.b0 as char).collect();
    assert!(row.contains("Go"));
}

#[test]
fn widget_state_flags_mark_damage() {
    let mut s = WidgetState::default();
    assert!(s.is_damaged());
    s.set_damaged(false);
    s.set_hovered(false);
    assert!(!s.is_damaged());
    s.set_hovered(true);
    assert!(s.is_hovered() && s.is_damaged());
}

#[test]
fn bar_track_layout_and_cells() {
    assert_eq!(track_layout("Vol", 10), (3, 5));
    assert_eq!(track_layout("Volume", 4), (4, 0));
    let cells = progress_cells(4, 2, Glyph::from_char('#'));
    assert_eq!(chars_of_row(&cells), "##  ");
    assert_eq!(slider_slot("ab", 10, 3), Some((0, 6)));
    assert_eq!(slider_slot("ab", 10, 20), Some((5, 6)));
    assert_eq!(slider_slot("ab", 4, 1), None);
}

#[test]
fn log_set_lines_keeps_newest_within_limit() {
    let mut log = LogWidget::new(true, 2);
    let a = StyledLine::new().with_span(StyledSpan::new("a".to_string()));
    let b = StyledLine::new().with_span(StyledSpan::new("bb".to_string()));
    let c = StyledLine::new().with_span(StyledSpan::new("ccc".to_string()));
    log.set_lines(vec![a, b, c]);
    assert_eq!(log.len_lines(), 2);
    assert_eq!(log.lines()[0].len_chars(), 2);
    assert_eq!(log.lines()[1].len_chars(), 3);
}

#[test]
fn widget_style_builders_set_each_state_style() {
    let bold = Style::new().bold();
    let dim = Style::new().dim();
    let w: Widget<NoCustom> = Widget::Button(ButtonWidget::new("OK".to_string()))
        .with_hover_interaction_style(bold)
        .with_focus_interaction_style(dim);
    let i = w.interaction();
    assert_eq!(i.hover, bold);
    assert_eq!(i.focused, dim);
    assert_eq!(i.normal, Style::new());
    assert!(w.state().is_damaged());
    let all = InteractionStyle { normal: dim, hover: dim, pressed: bold, focused: bold };
    let t: Widget<NoCustom> = Widget::Text(TextWidget::new()).with_interaction(all);
    assert_eq!(t.interaction(), all);
    let n: Widget<NoCustom> = Widget::Text(TextWidget::new()).with_normal_interaction_style(bold);
    assert_eq!(n.interaction().normal, bold);
    let p: Widget<NoCustom> = Widget::Text(TextWidget::new()).with_pressed_interaction_style(dim);
    assert_eq!(p.interaction().pressed, dim);
}

struct NoCustom {
    state: WidgetState,
}

impl CustomWidget for NoCustom {
    type Action = ();

    fn spec_state(&self) -> WidgetState {
        self.state
    }

    fn state(&self) -> WidgetState {
        self.state
    }

    fn set_state(&mut self, s: WidgetState) {
        self.state = s;
    }

    fn render(&mut self, _pane: &mut Pane, _rect: Rect) {
        self.state.set_damaged(false);
    }

    fn spec_cursor_pos(&self, _pane: Pane, _rect: Rect) -> Option<Point> {
        None
    }

    fn cursor_pos(&self, _pane: &Pane, _rect: Rect) -> Option<Point> {
        None
    }

    fn spec_activate_action(&self) -> WidgetAction<()> {
        WidgetAction::NoOp
    }

    fn activate_action(&mut self) -> WidgetAction<()> {
        WidgetAction::NoOp
    }

    fn spec_key_action(&self, _key: KeyCode) -> WidgetAction<()> {
        WidgetAction::NoOp
    }

    fn key_action(&mut self, _key: KeyCode) -> WidgetAction<()> {
        WidgetAction::NoOp
    }

    fn spec_drag_action(&self, _local_x: usize, _width: usize) -> WidgetAction<()> {
        WidgetAction::NoOp
    }

    fn drag_action(&mut self, _local_x: usize, _width: usize) -> WidgetAction<()> {
        WidgetAction::NoOp
    }

    fn spec_release_action(&self, _focused: bool) -> WidgetAction<()> {
        WidgetAction::Released
    }

    fn release_action(&mut self, _focused: bool) -> WidgetAction<()> {
        WidgetAction::Released
    }
}
