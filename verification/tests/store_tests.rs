use quilltty::surface::canvas::Canvas;
use quilltty::surface::geometry::{Point, Rect, Size};
use quilltty::surface::pane::{Pane, PaneId};
use quilltty::ui::button::ButtonWidget;
use quilltty::ui::event::KeyCode;
use quilltty::ui::state::{WidgetAction, WidgetState};
use quilltty::ui::store::{WidgetId, WidgetLayout, WidgetStore};
use quilltty::ui::text::TextWidget;
use quilltty::ui::widget::{CustomWidget, Widget, WidgetRequest};
use quilltty::surface::backend::Layer;
use quilltty::ui::builder::WidgetBuilder;

struct Plain {
    state: WidgetState,
}

impl CustomWidget for Plain {
    type Action = ();

    fn spec_state(&self) -> WidgetState {
        self.state
    }

    fn state(&self) -> WidgetState {
        self.state
    }

    fn set_state(&mut self, s: WidgetState) {
        self.state = s;
    }

    fn render(&mut self, _pane: &mut Pane, _rect: Rect) {
        self.state.set_damaged(false);
    }

    fn spec_cursor_pos(&self, _pane: Pane, _rect: Rect) -> Option<Point> {
        None
    }

    fn cursor_pos(&self, _pane: &Pane, _rect: Rect) -> Option<Point> {
        None
    }

    fn spec_activate_action(&self) -> WidgetAction<()> {
        WidgetAction::NoOp
    }

    fn activate_action(&mut self) -> WidgetAction<()> {
        WidgetAction::NoOp
    }

    fn spec_key_action(&self, _key: KeyCode) -> WidgetAction<()> {
        WidgetAction::NoOp
    }

    fn key_action(&mut self, _key: KeyCode) -> WidgetAction<()> {
        WidgetAction::NoOp
    }

    fn spec_drag_action(&self, _local_x: usize, _width: usize) -> WidgetAction<()> {
        WidgetAction::NoOp
    }

    fn drag_action(&mut self, _local_x: usize, _width: usize) -> WidgetAction<()> {
        WidgetAction::NoOp
    }

    fn spec_release_action(&self, _focused: bool) -> WidgetAction<()> {
        WidgetAction::Released
    }

    fn release_action(&mut self, _focused: bool) -> WidgetAction<()> {
        WidgetAction::Released
    }
}

fn canvas_with_pane() -> (Canvas, PaneId) {
    let mut canvas = Canvas::new(Size::new(20, 10), None);
    let id = canvas.create_pane().rect(Rect { x: 0, y: 0, width: 20, height: 10 }).build(&mut canvas);
    (canvas, id)
}

fn button(label: &str) -> Widget<Plain> {
    Widget::Button(ButtonWidget::new(label.to_string()))
}

#[test]
fn ids_are_sequential_and_found() {
    let mut store: WidgetStore<Plain> = WidgetStore::new();
    let a = store.add_widget(PaneId(0), button("a"), WidgetLayout::Fill);
    let b = store.add_widget(PaneId(0), button("b"), WidgetLayout::Fill);
    assert_eq!((a, b), (WidgetId(0), WidgetId(1)));
    assert_eq!(store.pane_id_of(b), Some(PaneId(0)));
    assert!(store.get(WidgetId(9)).is_none());
    assert!(store.has_damage());
}

#[test]
fn builder_inserts_with_its_settings() {
    let (canvas, pane) = canvas_with_pane();
    let mut store: WidgetStore<Plain> = WidgetStore::new();
    let top = WidgetBuilder::new(pane, button("top")).layout(WidgetLayout::Fill).layer(Layer(3)).build(&mut store);
    let hidden = WidgetBuilder::new(pane, button("hidden"))
        .layout(WidgetLayout::Fill)
        .layer(Layer(9))
        .visible(false)
        .build(&mut store);
    let off = WidgetBuilder::new(pane, button("off"))
        .layout(WidgetLayout::Fixed(Rect { x: 0, y: 5, width: 4, height: 1 }))
        .enabled(false)
        .build(&mut store);
    assert_eq!((top, hidden, off), (WidgetId(0), WidgetId(1), WidgetId(2)));
    assert_eq!(store.pane_id_of(off), Some(pane));
    assert_eq!(store.widget_at(&canvas, pane, Point::new(1, 1)).unwrap().widget_id, top);
    assert_eq!(store.widget_at(&canvas, pane, Point::new(1, 5)).unwrap().widget_id, top);
}

#[test]
fn topmost_widget_wins_the_hit() {
    let (canvas, pane) = canvas_with_pane();
    let mut store: WidgetStore<Plain> = WidgetStore::new();
    let low = store.insert_widget(pane, Layer(1), true, true, button("low"), WidgetLayout::Fill);
    let high = store.insert_widget(pane, Layer(2), true, true, button("high"), WidgetLayout::Fill);
    let _bottom = store.insert_widget(pane, Layer(0), true, true, button("bottom"), WidgetLayout::Fill);
    let hit = store.widget_at(&canvas, pane, Point::new(3, 2)).unwrap();
    assert_eq!(hit.widget_id, high);
    assert_eq!(hit.local, Point::new(3, 2));
    let hidden = store.insert_widget(pane, Layer(5), false, true, button("hidden"), WidgetLayout::Fill);
    assert_ne!(store.widget_at(&canvas, pane, Point::new(3, 2)).unwrap().widget_id, hidden);
    assert!(store.remove_widget(high));
    assert_eq!(store.widget_at(&canvas, pane, Point::new(3, 2)).unwrap().widget_id, low);
    assert!(store.widget_at(&canvas, PaneId(4), Point::new(3, 2)).is_none());
}

#[test]
fn press_focus_and_release() {
    let (canvas, pane) = canvas_with_pane();
    let mut store: WidgetStore<Plain> = WidgetStore::new();
    let a = store.add_widget(pane, button("a"), WidgetLayout::Fixed(Rect { x: 0, y: 0, width: 5, height: 1 }));
    let b = store.add_widget(pane, button("b"), WidgetLayout::Fixed(Rect { x: 0, y: 1, width: 5, height: 1 }));
    let hit = store.mouse_down(&canvas, pane, Point::new(1, 0)).unwrap();
    assert_eq!(hit.widget_id, a);
    assert_eq!((store.pressed(), store.focused()), (Some(a), Some(a)));
    assert!(store.get(a).unwrap().state().is_pressed());
    let up = store.mouse_up(&canvas, pane, Point::new(1, 1));
    assert_eq!(up.unwrap().widget_id, b);
    assert_eq!(store.pressed(), None);
    assert!(!store.get(a).unwrap().state().is_pressed());
    assert!(!store.get(a).unwrap().state().is_hovered());
    assert!(store.mouse_down(&canvas, pane, Point::new(10, 5)).is_none());
    assert_eq!(store.focused(), Some(a));
}

#[test]
fn hover_moves_between_widgets() {
    let (canvas, pane) = canvas_with_pane();
    let mut store: WidgetStore<Plain> = WidgetStore::new();
    let a = store.add_widget(pane, button("a"), WidgetLayout::Fixed(Rect { x: 0, y: 0, width: 5, height: 1 }));
    let b = store.add_widget(pane, button("b"), WidgetLayout::Fixed(Rect { x: 0, y: 1, width: 5, height: 1 }));
    store.hover(&canvas, pane, Point::new(0, 0));
    assert_eq!(store.hovered(), Some(a));
    store.hover(&canvas, pane, Point::new(0, 1));
    assert_eq!(store.hovered(), Some(b));
    assert!(!store.get(a).unwrap().state().is_hovered());
    assert!(store.get(b).unwrap().state().is_hovered());
    store.clear_hover();
    assert_eq!(store.hovered(), None);
    assert!(!store.get(b).unwrap().state().is_hovered());
}

#[test]
fn remove_pane_drops_its_widgets() {
    let mut store: WidgetStore<Plain> = WidgetStore::new();
    let a = store.add_widget(PaneId(0), button("a"), WidgetLayout::Fill);
    let b = store.add_widget(PaneId(1), button("b"), WidgetLayout::Fill);
    store.focus(Some(a));
    assert!(store.remove_pane(PaneId(0)));
    assert!(store.get(a).is_none());
    assert!(store.get(b).is_some());
    assert_eq!(store.focused(), None);
    assert!(!store.remove_pane(PaneId(0)));
}

#[test]
fn render_flushes_damage() {
    let (mut canvas, pane) = canvas_with_pane();
    let mut store: WidgetStore<Plain> = WidgetStore::new();
    let a = store.add_widget(pane, button("ok"), WidgetLayout::Fill);
    let _orphan = store.add_widget(PaneId(7), button("x"), WidgetLayout::Fill);
    store.render_into(&mut canvas);
    assert!(!store.get(a).unwrap().state().is_damaged());
    assert!(store.has_damage());
    store.invalidate_widget(a);
    assert!(store.get(a).unwrap().state().is_damaged());
}

#[test]
fn act_answers_for_the_widget() {
    let mut store: WidgetStore<Plain> = WidgetStore::new();
    let a = store.add_widget(PaneId(0), Widget::Text(TextWidget::new()), WidgetLayout::Fill);
    assert_eq!(store.act(a, WidgetRequest::Activate), Some(WidgetAction::NoOp));
    assert_eq!(store.act(a, WidgetRequest::Release { focused: true }), Some(WidgetAction::Clicked));
    assert_eq!(store.act(WidgetId(3), WidgetRequest::Activate), None);
}

#[test]
fn clear_pressed_reports_press() {
    let (canvas, pane) = canvas_with_pane();
    let mut store: WidgetStore<Plain> = WidgetStore::new();
    let _a = store.add_widget(pane, button("a"), WidgetLayout::Fill);
    assert!(!store.clear_pressed());
    let _ = store.mouse_down(&canvas, pane, Point::new(0, 0));
    assert!(store.clear_pressed());
    assert_eq!(store.pressed(), None);
}
