use quilltty::surface::geometry::{Point, Rect};
use quilltty::surface::glyph::BorderKind;
use quilltty::surface::pane::{Pane, PaneId};
use quilltty::surface::style::Style;
use quilltty::ui::button::ButtonWidget;
use quilltty::ui::checkbox::CheckboxWidget;
use quilltty::ui::event::{Event, KeyCode, KeyEvent, MouseButton, MouseEvent, MouseEventKind};
use quilltty::ui::input::InputWidget;
use quilltty::ui::runtime::{PaneDragKind, PointerDrag, Ui, UiEvent};
use quilltty::ui::state::{WidgetAction, WidgetState};
use quilltty::ui::store::{WidgetId, WidgetLayout};
use quilltty::ui::text::TextWidget;
use quilltty::ui::widget::{CustomWidget, Widget};

struct Dial {
    state: WidgetState,
    value: usize,
}

impl CustomWidget for Dial {
    type Action = usize;

    fn spec_state(&self) -> WidgetState {
        self.state
    }

    fn state(&self) -> WidgetState {
        self.state
    }

    fn set_state(&mut self, s: WidgetState) {
        self.state = s;
    }

    fn render(&mut self, _pane: &mut Pane, _rect: Rect) {
        self.state.set_damaged(false);
    }

    fn spec_cursor_pos(&self, _pane: Pane, rect: Rect) -> Option<Point> {
        Some(Point::new(rect.x, rect.y))
    }

    fn cursor_pos(&self, _pane: &Pane, rect: Rect) -> Option<Point> {
        Some(Point::new(rect.x, rect.y))
    }

    fn spec_activate_action(&self) -> WidgetAction<usize> {
        WidgetAction::Custom(100)
    }

    fn activate_action(&mut self) -> WidgetAction<usize> {
        WidgetAction::Custom(100)
    }

    fn spec_key_action(&self, key: KeyCode) -> WidgetAction<usize> {
        match key {
            KeyCode::Char(_) => WidgetAction::Custom(200),
            _ => WidgetAction::NoOp,
        }
    }

    fn key_action(&mut self, key: KeyCode) -> WidgetAction<usize> {
        match key {
            KeyCode::Char(_) => WidgetAction::Custom(200),
            _ => WidgetAction::NoOp,
        }
    }

    fn spec_drag_action(&self, local_x: usize, _width: usize) -> WidgetAction<usize> {
        WidgetAction::Custom(local_x)
    }

    fn drag_action(&mut self, local_x: usize, _width: usize) -> WidgetAction<usize> {
        self.value = local_x;
        WidgetAction::Custom(local_x)
    }

    fn spec_release_action(&self, focused: bool) -> WidgetAction<usize> {
        WidgetAction::Custom(if focused { 1 } else { 0 })
    }

    fn release_action(&mut self, focused: bool) -> WidgetAction<usize> {
        WidgetAction::Custom(if focused { 1 } else { 0 })
    }
}

fn ui_with_pane() -> (Ui<Dial>, PaneId, Rect) {
    let mut ui: Ui<Dial> = Ui::new(30, 12, None);
    let b = ui.add_pane().rect(Rect { x: 2, y: 1, width: 20, height: 8 }).border(Some(BorderKind::Single));
    let pane_id = ui.build_pane(b);
    let content = ui.pane(pane_id).unwrap().content_rect();
    (ui, pane_id, content)
}

fn at(content: Rect, x: usize, y: usize) -> Point {
    Point::new(content.x + x, content.y + y)
}

#[test]
fn first_render_then_nothing_left() {
    let (mut ui, _, _) = ui_with_pane();
    let bytes = ui.render_bytes();
    assert!(!bytes.is_empty());
    let again = ui.render_bytes();
    assert!(again.is_empty());
}

#[test]
fn click_on_button_reports_click() {
    let (mut ui, pane_id, content) = ui_with_pane();
    let id = ui.add_widget(
        pane_id,
        Widget::Button(ButtonWidget::new("OK".to_string())),
        WidgetLayout::Fixed(Rect { x: 1, y: 1, width: 6, height: 1 }),
    );
    assert_eq!(id, WidgetId(0));
    match ui.mouse_down(at(content, 2, 1)) {
        UiEvent::WidgetPressed(hit) => {
            assert_eq!(hit.widget_id, id);
            assert_eq!(hit.local, Point::new(1, 0));
        }
        other => panic!("unexpected {:?}", other),
    }
    assert_eq!(ui.focused_widget(), Some(id));
    assert_eq!(ui.focused_pane(), Some(pane_id));
    match ui.mouse_up(at(content, 2, 1)) {
        UiEvent::WidgetClicked(hit) => assert_eq!(hit.widget_id, id),
        other => panic!("unexpected {:?}", other),
    }
}

#[test]
fn press_on_empty_content_reports_pane_press() {
    let (mut ui, pane_id, content) = ui_with_pane();
    match ui.mouse_down(at(content, 5, 5)) {
        UiEvent::PanePressed { pane_id: p, hit } => {
            assert_eq!(p, pane_id);
            assert_eq!(hit.content_local, Some(Point::new(5, 5)));
        }
        other => panic!("unexpected {:?}", other),
    }
    assert_eq!(ui.focused_widget(), None);
}

#[test]
fn press_on_background_clears_focus() {
    let (mut ui, pane_id, content) = ui_with_pane();
    let _ = ui.add_widget(pane_id, Widget::Button(ButtonWidget::new("B".to_string())), WidgetLayout::Fill);
    let _ = ui.mouse_down(at(content, 0, 0));
    assert!(ui.focused_widget().is_some());
    let e = ui.mouse_down(Point::new(28, 11));
    assert_eq!(e, UiEvent::NoOp);
    assert_eq!(ui.focused_widget(), None);
    assert_eq!(ui.focused_pane(), None);
}

#[test]
fn checkbox_click_toggles() {
    let (mut ui, pane_id, content) = ui_with_pane();
    let id = ui.add_widget(
        pane_id,
        Widget::Checkbox(CheckboxWidget::new(Some("Opt".to_string()), false, false)),
        WidgetLayout::Line { left: 0, top: 0, right: 0 },
    );
    let _ = ui.mouse_down(at(content, 0, 0));
    assert_eq!(ui.mouse_up(at(content, 0, 0)), UiEvent::CheckboxChanged { widget_id: id, checked: true });
}

#[test]
fn typing_into_focused_input() {
    let (mut ui, pane_id, content) = ui_with_pane();
    let id = ui.add_widget(
        pane_id,
        Widget::Input(InputWidget::new(None, None)),
        WidgetLayout::Line { left: 0, top: 2, right: 0 },
    );
    let _ = ui.mouse_down(at(content, 0, 2));
    let _ = ui.mouse_up(at(content, 0, 2));
    assert_eq!(ui.key(KeyEvent { code: KeyCode::Char('h') }), UiEvent::InputChanged { widget_id: id });
    assert_eq!(ui.key(KeyEvent { code: KeyCode::Char(' ') }), UiEvent::InputChanged { widget_id: id });
    assert_eq!(
        ui.key(KeyEvent { code: KeyCode::Enter }),
        UiEvent::InputSubmitted { widget_id: id, value: "h ".to_string() }
    );
}

#[test]
fn key_without_focus_does_nothing() {
    let (mut ui, _, _) = ui_with_pane();
    assert_eq!(ui.key(KeyEvent { code: KeyCode::Enter }), UiEvent::NoOp);
}

#[test]
fn enter_on_focused_button_clicks() {
    let (mut ui, pane_id, _) = ui_with_pane();
    let id = ui.add_widget(pane_id, Widget::Button(ButtonWidget::new("B".to_string())), WidgetLayout::Fill);
    ui.focus_widget(Some(id));
    match ui.key(KeyEvent { code: KeyCode::Enter }) {
        UiEvent::WidgetClicked(hit) => assert_eq!((hit.widget_id, hit.local), (id, Point::new(0, 0))),
        other => panic!("unexpected {:?}", other),
    }
}

#[test]
fn hover_follows_pointer() {
    let (mut ui, pane_id, content) = ui_with_pane();
    let id = ui.add_widget(
        pane_id,
        Widget::Text(TextWidget::new()),
        WidgetLayout::Fixed(Rect { x: 0, y: 0, width: 3, height: 1 }),
    );
    match ui.mouse_move(at(content, 1, 0)) {
        UiEvent::WidgetHovered(hit) => assert_eq!(hit.widget_id, id),
        other => panic!("unexpected {:?}", other),
    }
    assert_eq!(ui.widgets().hovered(), Some(id));
    assert_eq!(ui.mouse_move(at(content, 5, 5)), UiEvent::NoOp);
    assert_eq!(ui.widgets().hovered(), None);
}

#[test]
fn title_drag_moves_pane() {
    let mut ui: Ui<Dial> = Ui::new(30, 12, None);
    let b = ui.add_pane().rect(Rect { x: 2, y: 1, width: 10, height: 5 }).title("Win".to_string());
    let pane_id = ui.build_pane(b);
    match ui.mouse_down(Point::new(4, 1)) {
        UiEvent::PaneDragStart { pane_id: p, kind } => {
            assert_eq!(p, pane_id);
            assert_eq!(kind, PaneDragKind::Move);
        }
        other => panic!("unexpected {:?}", other),
    }
    assert_eq!(
        ui.mouse_drag(Point::new(8, 4)),
        UiEvent::PaneDragged { pane_id, kind: PaneDragKind::Move }
    );
    let r = ui.pane_rect(pane_id).unwrap();
    assert_eq!((r.x, r.y), (6, 4));
    assert_eq!(ui.mouse_up(Point::new(8, 4)), UiEvent::PaneReleased { pane_id, kind: PaneDragKind::Move });
    assert_eq!(ui.active_pointer_drag(), None);
}

#[test]
fn content_drag_reports_anchor_and_ticks() {
    let (mut ui, pane_id, content) = ui_with_pane();
    let anchor = at(content, 1, 1);
    assert_eq!(
        ui.begin_content_drag(pane_id, anchor, MouseButton::Right),
        UiEvent::PaneContentDragStart { pane_id, anchor, current: anchor }
    );
    let next = at(content, 3, 2);
    assert_eq!(
        ui.mouse_drag(next),
        UiEvent::PaneContentDragged { pane_id, anchor, previous: anchor, current: next }
    );
    assert_eq!(
        ui.tick(16),
        UiEvent::PaneContentHeld { pane_id, anchor, current: next, dt_millis: 16 }
    );
    match ui.active_pointer_drag() {
        Some(PointerDrag::Content { button, .. }) => assert_eq!(button, MouseButton::Right),
        other => panic!("unexpected {:?}", other),
    }
    assert_eq!(ui.mouse_up(next), UiEvent::PaneContentDragEnd { pane_id, anchor, current: next });
    assert_eq!(ui.tick(16), UiEvent::NoOp);
}

#[test]
fn content_drag_outside_pane_is_refused() {
    let (mut ui, pane_id, _) = ui_with_pane();
    assert_eq!(ui.begin_content_drag(pane_id, Point::new(29, 11), MouseButton::Left), UiEvent::NoOp);
    assert_eq!(ui.active_pointer_drag(), None);
}

#[test]
fn custom_widget_answers_press() {
    let (mut ui, pane_id, content) = ui_with_pane();
    let id = ui.add_widget(
        pane_id,
        Widget::Custom(Dial { state: WidgetState::default(), value: 0 }),
        WidgetLayout::Fixed(Rect { x: 2, y: 0, width: 8, height: 1 }),
    );
    assert_eq!(ui.mouse_down(at(content, 5, 0)), UiEvent::WidgetCustom { widget_id: id, payload: 3 });
    assert_eq!(
        ui.mouse_drag(at(content, 7, 0)),
        UiEvent::WidgetCustom { widget_id: id, payload: 5 }
    );
}

#[test]
fn custom_widget_answers_keys_release_and_places_cursor() {
    let (mut ui, pane_id, content) = ui_with_pane();
    let id = ui.add_widget(
        pane_id,
        Widget::Custom(Dial { state: WidgetState::default(), value: 0 }),
        WidgetLayout::Fixed(Rect { x: 2, y: 0, width: 8, height: 1 }),
    );
    ui.focus_widget(Some(id));
    let _ = ui.render_bytes();
    assert_eq!(ui.canvas().cursor(), Some(Point::new(2, 0)));
    assert_eq!(ui.key(KeyEvent { code: KeyCode::Enter }), UiEvent::WidgetCustom { widget_id: id, payload: 100 });
    assert_eq!(ui.key(KeyEvent { code: KeyCode::Char(' ') }), UiEvent::WidgetCustom { widget_id: id, payload: 100 });
    assert_eq!(ui.key(KeyEvent { code: KeyCode::Char('a') }), UiEvent::WidgetCustom { widget_id: id, payload: 200 });
    assert_eq!(ui.key(KeyEvent { code: KeyCode::Left }), UiEvent::NoOp);
    assert_eq!(ui.mouse_down(at(content, 5, 0)), UiEvent::WidgetCustom { widget_id: id, payload: 3 });
    assert_eq!(ui.mouse_up(at(content, 5, 0)), UiEvent::WidgetCustom { widget_id: id, payload: 1 });
}

#[test]
fn mouse_event_dispatch() {
    let (mut ui, pane_id, content) = ui_with_pane();
    let id = ui.add_widget(pane_id, Widget::Button(ButtonWidget::new("B".to_string())), WidgetLayout::Fill);
    let p = at(content, 0, 0);
    let down = MouseEvent { kind: MouseEventKind::Down(MouseButton::Left), column: p.x as u16, row: p.y as u16 };
    match ui.handle_event(Event::Mouse(down)) {
        UiEvent::WidgetPressed(hit) => assert_eq!(hit.widget_id, id),
        other => panic!("unexpected {:?}", other),
    }
    let right = MouseEvent { kind: MouseEventKind::Down(MouseButton::Right), column: 0, row: 0 };
    assert_eq!(ui.mouse(right), UiEvent::NoOp);
    assert_eq!(ui.handle_event(Event::Other), UiEvent::NoOp);
}

#[test]
fn hiding_pane_clears_its_focus() {
    let (mut ui, pane_id, content) = ui_with_pane();
    let _ = ui.add_widget(pane_id, Widget::Button(ButtonWidget::new("B".to_string())), WidgetLayout::Fill);
    let _ = ui.mouse_down(at(content, 0, 0));
    assert!(ui.hide_pane(pane_id));
    assert_eq!(ui.focused_widget(), None);
    assert_ne!(ui.focused_pane(), Some(pane_id));
    assert!(!ui.hide_pane(pane_id));
    assert!(ui.show_pane(pane_id));
}

#[test]
fn removing_widget_forgets_it() {
    let (mut ui, pane_id, _) = ui_with_pane();
    let id = ui.add_widget(pane_id, Widget::Button(ButtonWidget::new("B".to_string())), WidgetLayout::Fill);
    assert_eq!(ui.widget_pane(id), Some(pane_id));
    assert!(ui.remove_widget(id));
    assert!(ui.widget(id).is_none());
    assert!(!ui.remove_widget(id));
}

#[test]
fn widget_rect_follows_layout() {
    let (mut ui, pane_id, content) = ui_with_pane();
    let id = ui.add_widget(
        pane_id,
        Widget::Text(TextWidget::new()),
        WidgetLayout::Inset { left: 1, top: 1, right: 1, bottom: 1 },
    );
    assert_eq!(
        ui.widget_rect(id),
        Some(Rect { x: 1, y: 1, width: content.width - 2, height: content.height - 2 })
    );
    assert!(ui.resize_pane(pane_id, 10, 6));
    let c2 = ui.pane(pane_id).unwrap().content_rect();
    assert_eq!(ui.widget_rect(id), Some(Rect { x: 1, y: 1, width: c2.width - 2, height: c2.height - 2 }));
}

#[test]
fn removing_pane_drops_widgets_and_drag() {
    let (mut ui, pane_id, content) = ui_with_pane();
    let id = ui.add_widget(pane_id, Widget::Button(ButtonWidget::new("B".to_string())), WidgetLayout::Fill);
    let _ = ui.mouse_down(at(content, 0, 0));
    let _ = ui.begin_content_drag(pane_id, at(content, 1, 1), MouseButton::Left);
    assert!(ui.active_pointer_drag().is_some());
    assert!(ui.remove_pane(pane_id));
    assert!(ui.widget(id).is_none());
    assert!(ui.pane(pane_id).is_none());
    assert_eq!(ui.active_pointer_drag(), None);
    assert!(!ui.remove_pane(pane_id));
    let bytes = ui.render_bytes();
    assert!(!bytes.is_empty());
}

#[test]
fn drawing_into_a_pane_reaches_the_terminal() {
    let (mut ui, pane_id, _content) = ui_with_pane();
    let _ = ui.render_bytes();
    {
        let pane = ui.pane_mut(pane_id).unwrap();
        pane.write_str(Point::new(1, 1), "zq", Style::new());
    }
    let bytes = ui.render_bytes();
    let text = String::from_utf8_lossy(&bytes).to_string();
    assert!(text.contains("zq"));
    assert!(ui.pane_mut(PaneId(9)).is_none());
    assert_eq!(ui.canvas_mut().focused(), None);
    assert!(!ui.widgets_mut().has_damage());
}

#[test]
fn cursor_stays_with_focused_input_when_another_widget_redraws() {
    let (mut ui, pane_id, content) = ui_with_pane();
    let input = ui.add_widget(
        pane_id,
        Widget::Input(InputWidget::new(None, None)),
        WidgetLayout::Fixed(Rect { x: 0, y: 0, width: 10, height: 1 }),
    );
    let text = ui.add_widget(
        pane_id,
        Widget::Text(TextWidget::new()),
        WidgetLayout::Fixed(Rect { x: 0, y: 3, width: 10, height: 1 }),
    );
    ui.focus_widget(Some(input));
    let _ = ui.render_bytes();
    let expected = Some(Point::new(content.x, content.y));
    assert_eq!(ui.canvas().cursor(), expected);
    ui.invalidate_widget(text);
    let _ = ui.render_bytes();
    assert_eq!(ui.canvas().cursor(), expected);
}

#[test]
fn title_drag_start_clears_widget_focus() {
    let mut ui: Ui<Dial> = Ui::new(30, 12, None);
    let b = ui.add_pane().rect(Rect { x: 2, y: 1, width: 10, height: 5 }).title("Win".to_string());
    let pane_id = ui.build_pane(b);
    let w = ui.add_widget(pane_id, Widget::Button(ButtonWidget::new("B".to_string())), WidgetLayout::Fill);
    ui.focus_widget(Some(w));
    assert_eq!(ui.focused_widget(), Some(w));
    match ui.mouse_down(Point::new(4, 1)) {
        UiEvent::PaneDragStart { pane_id: p, kind } => {
            assert_eq!(p, pane_id);
            assert_eq!(kind, PaneDragKind::Move);
        }
        other => panic!("unexpected {:?}", other),
    }
    assert_eq!(ui.focused_widget(), None);
    assert_eq!(ui.active_pointer_drag().is_some(), true);
}
