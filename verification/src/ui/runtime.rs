//! The interaction runtime: panes, widgets, focus, hover and pointer drags over one canvas,
//! turning input events into high-level UI events and the canvas into terminal bytes.
use vstd::prelude::*;

use crate::surface::backend::{
    Compositor, Layer, Renderer, TermOp, cursor_tail, lemma_cursor_tail_nonempty, lemma_tight_paints, ops_bytes, painted, run_ops,
    paints_over,
};
use crate::surface::style::Style;
use crate::surface::canvas::{
    Canvas, HitTarget, PaneBuilder, PaneHit, cells_fit, content_for, frames_kept, lemma_consistency_kept, lemma_covers_trans,
    lemma_pane_edit_covered, lemma_panes_update, lemma_same_ids_index, title_changes, topmost, lemma_topmost,
    lemma_forced_consistent, lemma_same_view_covered, moved_rect, redrawn, resized_rect,
};
use crate::surface::decor::{PaneDecor, title_view};
use crate::surface::geometry::{Point, Rect, Size, add_sat, max_of, sat_add, sat_sub, sub_sat};
use crate::surface::glyph::Glyph;
use crate::surface::pane::{Pane, PaneElement, PaneId, edit_tracked, lemma_with_content, resize_post, with_frame};
use crate::surface::policy::PaneAction;
use crate::ui::event::{Event, KeyCode, KeyEvent, MouseButton, MouseEvent, MouseEventKind};
use crate::ui::state::WidgetAction;
use crate::ui::store::{WidgetEntry, WidgetHit, WidgetId, WidgetLayout, WidgetStore, hit_index, lemma_hit_index, others};
use crate::ui::widget::{CustomWidget, Widget, WidgetRequest, answered, changed_by, lemma_answered_same_content, lemma_changed_from_same};

verus! {

/// Describes the kind of pane drag currently in progress.
#[derive(Debug, Clone, Copy, PartialEq, Eq, Structural)]
pub enum PaneDragKind {
    /// The pane is being repositioned.
    Move,
    /// The pane is being resized from the bottom-right.
    Resize,
}

/// A pointer drag captured by the UI.
#[derive(Debug, Clone, Copy, PartialEq, Eq, Structural)]
pub enum PointerDrag {
    /// A pane is being moved; `grab_offset` is the pointer's offset in the pane at the press.
    PaneMove { pane_id: PaneId, grab_offset: Point },
    /// A pane is being resized.
    PaneResize { pane_id: PaneId },
    /// A pane's content owns the drag.
    Content { pane_id: PaneId, button: MouseButton, anchor: Point, previous: Point, current: Point },
}

/// High-level UI events handed back to the application; `A` is the payload of the actions
/// of application-defined widgets.
#[derive(Debug, Clone, PartialEq, Eq)]
pub enum UiEvent<A> {
    /// No UI action occurred.
    NoOp,
    /// Mouse pressed pane content with no widget hit, or a pane decoration that starts no drag.
    PanePressed { pane_id: PaneId, hit: PaneHit },
    /// A pane drag has started.
    PaneDragStart { pane_id: PaneId, kind: PaneDragKind },
    /// A pane is being dragged.
    PaneDragged { pane_id: PaneId, kind: PaneDragKind },
    /// A pane drag has ended.
    PaneReleased { pane_id: PaneId, kind: PaneDragKind },
    /// A content drag has started.
    PaneContentDragStart { pane_id: PaneId, anchor: Point, current: Point },
    /// A content drag moved.
    PaneContentDragged { pane_id: PaneId, anchor: Point, previous: Point, current: Point },
    /// A content drag is still held; `dt_millis` is the tick duration in milliseconds.
    PaneContentHeld { pane_id: PaneId, anchor: Point, current: Point, dt_millis: u64 },
    /// A content drag has ended.
    PaneContentDragEnd { pane_id: PaneId, anchor: Point, current: Point },
    /// The pointer moved over a widget.
    WidgetHovered(WidgetHit),
    /// A widget received a mouse press.
    WidgetPressed(WidgetHit),
    /// A widget received a release without activation.
    WidgetReleased(WidgetHit),
    /// A widget was activated by a click.
    WidgetClicked(WidgetHit),
    /// A checkbox toggled.
    CheckboxChanged { widget_id: WidgetId, checked: bool },
    /// An input's text changed.
    InputChanged { widget_id: WidgetId },
    /// An input was submitted.
    InputSubmitted { widget_id: WidgetId, value: String },
    /// An application-defined widget's action.
    WidgetCustom { widget_id: WidgetId, payload: A },
}

/// The event for a widget's action; a click or release without a pointer hit is reported
/// at the widget's origin.
pub open spec fn spec_map_widget_action<A>(widget_id: WidgetId, hit: Option<WidgetHit>, action: WidgetAction<A>) -> UiEvent<A> {
    let at = match hit {
        Some(h) => h,
        None => WidgetHit { widget_id, local: Point { x: 0, y: 0 } },
    };
    match action {
        WidgetAction::NoOp => UiEvent::NoOp,
        WidgetAction::Clicked => UiEvent::WidgetClicked(at),
        WidgetAction::Released => UiEvent::WidgetReleased(at),
        WidgetAction::CheckboxChanged(checked) => UiEvent::CheckboxChanged { widget_id, checked },
        WidgetAction::InputChanged => UiEvent::InputChanged { widget_id },
        WidgetAction::InputSubmitted(value) => UiEvent::InputSubmitted { widget_id, value },
        WidgetAction::Custom(payload) => UiEvent::WidgetCustom { widget_id, payload },
    }
}

/// Converts a widget action into the matching UI event.
pub fn map_widget_action<A>(widget_id: WidgetId, hit: Option<WidgetHit>, action: WidgetAction<A>) -> (e: UiEvent<A>)
    ensures
        e == spec_map_widget_action(widget_id, hit, action),
{
    let at = match hit {
        Some(h) => h,
        None => WidgetHit { widget_id, local: Point::zero() },
    };
    match action {
        WidgetAction::NoOp => UiEvent::NoOp,
        WidgetAction::Clicked => UiEvent::WidgetClicked(at),
        WidgetAction::Released => UiEvent::WidgetReleased(at),
        WidgetAction::CheckboxChanged(checked) => UiEvent::CheckboxChanged { widget_id, checked },
        WidgetAction::InputChanged => UiEvent::InputChanged { widget_id },
        WidgetAction::InputSubmitted(value) => UiEvent::InputSubmitted { widget_id, value },
        WidgetAction::Custom(payload) => UiEvent::WidgetCustom { widget_id, payload },
    }
}

/// Coordinates pane rendering, widget state, and pointer-driven pane actions.
pub struct Ui<C> {
    canvas: Canvas,
    compositor: Compositor,
    renderer: Renderer,
    widgets: WidgetStore<C>,
    drag: Option<PointerDrag>,
}

impl<C: CustomWidget> Ui<C> {
    /// The canvas holding the panes.
    pub closed spec fn spec_canvas(&self) -> Canvas {
        self.canvas
    }

    /// The widget store.
    pub closed spec fn spec_widgets(&self) -> WidgetStore<C> {
        self.widgets
    }

    /// The active pointer drag.
    pub closed spec fn spec_drag(&self) -> Option<PointerDrag> {
        self.drag
    }

    /// What the terminal shows, as far as this UI knows.
    pub closed spec fn spec_front(&self) -> crate::surface::backend::Frame {
        self.renderer.spec_front()
    }

    /// The canvas and the widget store are well-formed, the composition and terminal frames
    /// have the canvas's size, and the terminal shows the canvas wherever nothing is to be
    /// redrawn.
    pub closed spec fn wf(&self) -> bool {
        &&& self.canvas.wf()
        &&& self.widgets.wf()
        &&& self.compositor.wf()
        &&& self.renderer.wf()
        &&& self.compositor.spec_back().spec_width() == self.canvas.spec_size().width
        &&& self.compositor.spec_back().spec_height() == self.canvas.spec_size().height
        &&& self.canvas.consistent_with(self.renderer.spec_front())
    }

    /// In a well-formed UI the terminal shows the canvas at every cell that is not queued
    /// for redraw: every operation keeps what the terminal shows right, or marks it.
    pub proof fn lemma_terminal_consistent(&self)
        requires
            self.wf(),
        ensures
            self.spec_canvas().consistent_with(self.spec_front()),
    {
    }

    /// A UI whose canvas changed by `canvas`, covering its changes, and whose widgets
    /// became `widgets`, is well-formed.
    proof fn lemma_wf_step(&self, canvas: Canvas, widgets: WidgetStore<C>, new: Ui<C>)
        requires
            self.wf(),
            canvas.wf(),
            widgets.wf(),
            canvas.covers_changes(&self.canvas),
            new.canvas == canvas,
            new.widgets == widgets,
            new.compositor == self.compositor,
            new.renderer == self.renderer,
        ensures
            new.wf(),
    {
        lemma_consistency_kept(self.canvas, canvas, self.renderer.spec_front());
    }

    /// Creates a UI of the given size; uncovered cells show `bg`, or a blank when it is
    /// `None`. The first render draws every cell.
    pub fn new(width: usize, height: usize, bg: Option<Glyph>) -> (ui: Self)
        requires
            width > 0 || height > 0,
            cells_fit(Size { width, height }),
        ensures
            ui.wf(),
            ui.spec_canvas().spec_size() == (Size { width, height }),
            ui.spec_canvas().spec_panes().len() == 0,
            ui.spec_widgets().spec_entries().len() == 0,
            ui.spec_widgets().spec_next_id() == 0,
            ui.spec_widgets().spec_focused() is None,
            ui.spec_drag() is None,
    {
        assert(width * height <= max_of(width as int, 2) * max_of(height as int, 2)) by (nonlinear_arith)
            requires
                width <= max_of(width as int, 2),
                height <= max_of(height as int, 2),
        ;
        let canvas = Canvas::new(Size { width, height }, bg);
        let compositor = Compositor::new(width, height);
        let renderer = Renderer::new(width, height, true);
        proof {
            lemma_forced_consistent(canvas, renderer.spec_front());
        }
        Ui { canvas, compositor, renderer, widgets: WidgetStore::new(), drag: None }
    }

    /// Renders the queued widgets into their panes, then returns the bytes that bring the
    /// terminal up to date with the composed canvas. Afterwards the terminal shows the
    /// canvas at every cell and nothing is left to redraw.
    pub fn render_bytes(&mut self) -> (bytes: Vec<u8>)
        requires
            old(self).wf(),
        ensures
            final(self).wf(),
            final(self).spec_drag() == old(self).spec_drag(),
            forall|x: int, y: int|
                final(self).spec_canvas().in_canvas(x, y) ==> #[trigger] final(self).spec_front().cell(x, y)
                    == final(self).spec_canvas().shown(x, y),
            forall|x: int, y: int| !#[trigger] final(self).spec_canvas().pending(x, y),
            bytes@.len() == 0 ==> forall|x: int, y: int|
                final(self).spec_canvas().in_canvas(x, y) ==> #[trigger] final(self).spec_front().cell(x, y)
                    == old(self).spec_front().cell(x, y),
            bytes@.len() > 0 && (forall|x: int, y: int|
                final(self).spec_canvas().in_canvas(x, y) ==> old(self).spec_front().cell(x, y)
                    == final(self).spec_canvas().shown(x, y)) ==> bytes@ == cursor_tail(
                final(self).spec_canvas().spec_cursor(),
            ),
            bytes@.len() > 0 ==> exists|ops: Seq<TermOp>|
                bytes@ == ops_bytes(ops) + cursor_tail(final(self).spec_canvas().spec_cursor())
                    && paints_over(ops, old(self).spec_front(), final(self).spec_front()) && forall|x: int, y: int|
                    #[trigger] painted(ops, (0, 0, Style::spec_default()), x, y) matches Some(g) ==> g
                        == final(self).spec_canvas().shown(x, y) && old(self).spec_front().cell(x, y) != g,
    {
        let ghost c0 = self.canvas;
        self.widgets.render_into(&mut self.canvas);
        proof {
            lemma_consistency_kept(c0, self.canvas, self.renderer.spec_front());
        }
        let off = match self.canvas.cursor() {
            Some(p) => p.x == usize::MAX || p.y == usize::MAX,
            None => false,
        };
        if off {
            let ghost c1 = self.canvas;
            self.canvas.set_cursor(None);
            proof {
                lemma_same_view_covered(c1, self.canvas);
                lemma_consistency_kept(c1, self.canvas, self.renderer.spec_front());
            }
        }
        let ghost c2 = self.canvas;
        let bytes = self.canvas.render(&mut self.compositor, &mut self.renderer);
        proof {
            lemma_cursor_tail_nonempty(c2.spec_cursor());
            if bytes@.len() > 0 {
                let ops = choose|ops: Seq<TermOp>|
                    bytes@ == ops_bytes(ops) + cursor_tail(c2.spec_cursor()) && paints_over(
                        ops,
                        old(self).spec_front(),
                        self.spec_front(),
                    ) && forall|x: int, y: int|
                        #[trigger] painted(ops, (0, 0, Style::spec_default()), x, y) matches Some(g)
                            ==> c2.pending(x, y) && g == c2.shown(x, y) && old(self).spec_front().cell(x, y) != g;
                if ops.len() > 0 {
                    lemma_tight_paints(ops, 0, (0, 0, Style::spec_default()));
                    let px = run_ops(ops.drop_last(), (0, 0, Style::spec_default())).0;
                    let py = run_ops(ops.drop_last(), (0, 0, Style::spec_default())).1;
                    assert(self.canvas.shown(px, py) == c2.shown(px, py));
                }
                assert forall|x: int, y: int|
                    #[trigger] painted(ops, (0, 0, Style::spec_default()), x, y) is Some implies painted(
                        ops,
                        (0, 0, Style::spec_default()),
                        x,
                        y,
                    )->0 == self.spec_canvas().shown(x, y) && old(self).spec_front().cell(x, y) != painted(
                        ops,
                        (0, 0, Style::spec_default()),
                        x,
                        y,
                    )->0 by {
                    assert(self.canvas.shown(x, y) == c2.shown(x, y));
                }
            }
        }
        bytes
    }
}

impl<C: CustomWidget> Ui<C> {
    /// The UI after a step that changed only the canvas (covering its changes) and the
    /// widget store is well-formed; this packages `lemma_wf_step` for callers in this file.
    proof fn lemma_wf_after(old: Ui<C>, new: Ui<C>)
        requires
            old.wf(),
            new.canvas.wf(),
            new.widgets.wf(),
            new.canvas.covers_changes(&old.canvas),
            new.compositor == old.compositor,
            new.renderer == old.renderer,
        ensures
            new.wf(),
    {
        old.lemma_wf_step(new.canvas, new.widgets, new);
    }

    /// Returns a builder for a new pane covering the whole canvas, to be added with
    /// `build_pane`.
    pub fn add_pane(&self) -> (b: PaneBuilder)
        ensures
            b.rect == self.spec_canvas().spec_rect(),
            b.visible,
    {
        self.canvas.create_pane()
    }

    /// Adds the pane that `builder` describes and returns its identifier.
    pub fn build_pane(&mut self, builder: PaneBuilder) -> (id: PaneId)
        requires
            old(self).wf(),
            builder.rect.width > 0 || builder.rect.height > 0,
            builder.rect.width * builder.rect.height <= usize::MAX,
            old(self).spec_canvas().spec_panes().len() < 0x1_0000_0000,
        ensures
            final(self).wf(),
            id == (if old(self).spec_canvas().spec_freed().len() > 0 {
                old(self).spec_canvas().spec_freed().last()
            } else {
                PaneId(old(self).spec_canvas().spec_panes().len() as u32)
            }),
            !old(self).spec_canvas().has_pane(id),
            final(self).spec_canvas().has_pane(id),
            final(self).spec_canvas().content_synced(id),
            final(self).spec_widgets() == old(self).spec_widgets(),
            final(self).spec_drag() == old(self).spec_drag(),
    {
        let ghost u0 = *self;
        let id = builder.build(&mut self.canvas);
        proof {
            Self::lemma_wf_after(u0, *self);
        }
        id
    }

    /// Removes a pane and every widget it holds, with the hover, press, focus and drag they
    /// held. Returns `false` when the pane does not exist (its widgets, if any, are still
    /// removed).
    pub fn remove_pane(&mut self, pane_id: PaneId) -> (removed: bool)
        requires
            old(self).wf(),
        ensures
            final(self).wf(),
            removed == old(self).spec_canvas().has_pane(pane_id),
            !final(self).spec_canvas().has_pane(pane_id),
            final(self).spec_widgets().spec_entries() == others(old(self).spec_widgets().spec_entries(), pane_id),
            final(self).spec_widgets().spec_focused() == old(self).spec_widgets().cleared(
                old(self).spec_widgets().spec_focused(),
                pane_id,
            ),
            final(self).spec_widgets().spec_hovered() == old(self).spec_widgets().cleared(
                old(self).spec_widgets().spec_hovered(),
                pane_id,
            ),
            final(self).spec_widgets().spec_pressed() == old(self).spec_widgets().cleared(
                old(self).spec_widgets().spec_pressed(),
                pane_id,
            ),
            final(self).spec_drag() == (if old(self).spec_drag_targets_pane(pane_id) {
                None
            } else {
                old(self).spec_drag()
            }),
            removed ==> final(self).spec_canvas().spec_panes() == old(self).spec_canvas().spec_panes().remove(
                old(self).spec_canvas().index_of(pane_id),
            ),
    {
        let ghost u0 = *self;
        if self.drag_targets_pane(pane_id) {
            self.drag = None;
        }
        self.widgets.remove_pane(pane_id);
        let removed = self.canvas.remove_pane(pane_id);
        proof {
            if !removed {
                lemma_same_view_covered(u0.canvas, self.canvas);
            }
            Self::lemma_wf_after(u0, *self);
        }
        removed
    }

    /// Creates a widget inside the given pane, on the bottom layer, shown and enabled.
    pub fn add_widget(&mut self, pane_id: PaneId, widget: Widget<C>, layout: WidgetLayout) -> (id: WidgetId)
        requires
            old(self).wf(),
            widget.wf(),
            old(self).spec_widgets().spec_next_id() < u32::MAX,
        ensures
            final(self).wf(),
            id == WidgetId(old(self).spec_widgets().spec_next_id()),
            !old(self).spec_widgets().has_widget(id),
            final(self).spec_widgets().has_widget(id),
            ({
                let w0 = old(self).spec_widgets();
                let w1 = final(self).spec_widgets();
                let k = w1.index_of(id);
                &&& 0 <= k <= w0.spec_entries().len()
                &&& w1.spec_entries() == w0.spec_entries().insert(
                    k,
                    WidgetEntry { id, pane_id, layout, z_layer: Layer(0), visible: true, enabled: true, widget },
                )
                &&& forall|j: int| 0 <= j < k ==> (#[trigger] w0.spec_entries()[j]).z_layer.0 == 0
                &&& forall|j: int| k <= j < w0.spec_entries().len() ==> (#[trigger] w0.spec_entries()[j]).z_layer.0 > 0
                &&& w1.spec_next_id() == w0.spec_next_id() + 1
                &&& w1.spec_full() == w0.spec_full().push(pane_id)
                &&& w1.spec_damaged() == w0.spec_damaged().push(id)
                &&& w1.spec_hovered() == w0.spec_hovered()
                &&& w1.spec_pressed() == w0.spec_pressed()
                &&& w1.spec_focused() == w0.spec_focused()
            }),
            final(self).spec_canvas() == old(self).spec_canvas(),
            final(self).spec_drag() == old(self).spec_drag(),
    {
        let ghost u0 = *self;
        let id = self.widgets.add_widget(pane_id, widget, layout);
        proof {
            lemma_same_view_covered(u0.canvas, self.canvas);
            Self::lemma_wf_after(u0, *self);
        }
        id
    }

    /// Removes a widget; when it was focused in the focused pane, the cursor is hidden.
    /// Returns `false`, changing nothing, for an unknown widget.
    pub fn remove_widget(&mut self, widget_id: WidgetId) -> (b: bool)
        requires
            old(self).wf(),
        ensures
            final(self).wf(),
            b == old(self).spec_widgets().has_widget(widget_id),
            !b ==> *final(self) == *old(self),
            b ==> old(self).spec_widgets().widget_removed(final(self).spec_widgets(), widget_id),
            final(self).spec_drag() == old(self).spec_drag(),
            b && old(self).spec_widgets().spec_focused() == Some(widget_id) && old(self).spec_canvas().spec_focused()
                == Some(old(self).spec_widgets().entry_of(widget_id).pane_id) ==> final(self).spec_canvas().spec_cursor() is None,
            final(self).spec_canvas().spec_panes() == old(self).spec_canvas().spec_panes(),
            final(self).spec_canvas().spec_focused() == old(self).spec_canvas().spec_focused(),
            !(b && old(self).spec_widgets().spec_focused() == Some(widget_id) && old(self).spec_canvas().spec_focused()
                == Some(old(self).spec_widgets().entry_of(widget_id).pane_id)) ==> final(self).spec_canvas() == old(
                self,
            ).spec_canvas(),
    {
        let ghost u0 = *self;
        let pane_id = self.widgets.pane_id_of(widget_id);
        let was_focused = match self.widgets.focused() {
            Some(f) => f == widget_id,
            None => false,
        };
        let removed = self.widgets.remove_widget(widget_id);
        if !removed {
            return false;
        }
        let same_pane = match (self.canvas.focused(), pane_id) {
            (Some(a), Some(b)) => a == b,
            _ => false,
        };
        if was_focused && same_pane {
            self.canvas.set_cursor(None);
        }
        proof {
            lemma_same_view_covered(u0.canvas, self.canvas);
            Self::lemma_wf_after(u0, *self);
        }
        true
    }

    /// Focuses a pane and queues the widgets of the old and new focused pane for redraw.
    /// Focusing the focused pane changes nothing.
    pub fn focus_pane(&mut self, pane_id: PaneId)
        requires
            old(self).wf(),
        ensures
            final(self).wf(),
            final(self).spec_drag() == old(self).spec_drag(),
            final(self).spec_canvas().spec_focused() == (if old(self).spec_canvas().has_pane(pane_id) {
                Some(pane_id)
            } else {
                old(self).spec_canvas().spec_focused()
            }),
            final(self).spec_widgets().spec_entries() == old(self).spec_widgets().spec_entries(),
            final(self).spec_widgets().same_pointer(&old(self).spec_widgets()),
            frames_kept(final(self).spec_canvas().spec_panes(), old(self).spec_canvas().spec_panes()),
            forall|q: PaneId|
                old(self).spec_canvas().has_pane(q) && old(self).spec_canvas().content_synced(q)
                    ==> #[trigger] final(self).spec_canvas().pane_of(q).spec_content() == old(
                    self,
                ).spec_canvas().pane_of(q).spec_content(),
    {
        let ghost u0 = *self;
        let old_pane = self.canvas.focused();
        let same = match old_pane {
            Some(p) => p == pane_id,
            None => false,
        };
        if same {
            return;
        }
        self.canvas.focus(Some(pane_id));
        match old_pane {
            Some(op) => self.widgets.invalidate_pane(op),
            None => {},
        }
        self.widgets.invalidate_pane(pane_id);
        proof {
            Self::lemma_wf_after(u0, *self);
        }
    }

    /// Focuses a widget (`None` clears widget focus): the canvas focuses its pane, or
    /// clears focus and hides the cursor when there is none, and the widgets of the old
    /// and new pane are queued for redraw.
    pub fn focus_widget(&mut self, widget_id: Option<WidgetId>)
        requires
            old(self).wf(),
        ensures
            final(self).wf(),
            final(self).spec_drag() == old(self).spec_drag(),
            final(self).spec_widgets().spec_focused() == widget_id,
            final(self).spec_widgets().spec_hovered() == old(self).spec_widgets().spec_hovered(),
            final(self).spec_widgets().spec_pressed() == old(self).spec_widgets().spec_pressed(),
            (match widget_id {
                Some(w) => old(self).spec_widgets().has_widget(w),
                None => false,
            }) ==> {
                let p = old(self).spec_widgets().entry_of(widget_id->0).pane_id;
                final(self).spec_canvas().spec_focused() == (if old(self).spec_canvas().has_pane(p) {
                    Some(p)
                } else {
                    old(self).spec_canvas().spec_focused()
                })
            },
            !(match widget_id {
                Some(w) => old(self).spec_widgets().has_widget(w),
                None => false,
            }) ==> final(self).spec_canvas().spec_focused() is None && final(self).spec_canvas().spec_cursor() is None,
    {
        let ghost u0 = *self;
        let old_widget = self.widgets.focused();
        let old_pane = match old_widget {
            Some(id) => self.widgets.pane_id_of(id),
            None => None,
        };
        let new_pane = match widget_id {
            Some(id) => self.widgets.pane_id_of(id),
            None => None,
        };
        let ghost w0 = self.widgets;
        self.widgets.focus(widget_id);
        let ghost c0 = self.canvas;
        match new_pane {
            Some(p) => {
                self.canvas.focus(Some(p));
            },
            None => {
                self.canvas.focus(None);
                let ghost c1 = self.canvas;
                self.canvas.set_cursor(None);
                proof {
                    lemma_same_view_covered(c1, self.canvas);
                    lemma_covers_trans(c0, c1, self.canvas);
                }
            },
        }
        match old_pane {
            Some(p) => self.widgets.invalidate_pane(p),
            None => {},
        }
        match new_pane {
            Some(p) => self.widgets.invalidate_pane(p),
            None => {},
        }
        proof {
            Self::lemma_wf_after(u0, *self);
        }
    }

    /// Returns the currently focused pane.
    pub fn focused_pane(&self) -> (p: Option<PaneId>)
        ensures
            p == self.spec_canvas().spec_focused(),
    {
        self.canvas.focused()
    }

    /// Returns the currently focused widget.
    pub fn focused_widget(&self) -> (w: Option<WidgetId>)
        ensures
            w == self.spec_widgets().spec_focused(),
    {
        self.widgets.focused()
    }

    /// Clears the hovered widget, if any.
    pub fn clear_hover(&mut self)
        requires
            old(self).wf(),
        ensures
            final(self).wf(),
            final(self).spec_drag() == old(self).spec_drag(),
            final(self).spec_canvas() == old(self).spec_canvas(),
            final(self).spec_widgets().spec_hovered() is None,
            final(self).spec_widgets().spec_focused() == old(self).spec_widgets().spec_focused(),
            final(self).spec_widgets().spec_pressed() == old(self).spec_widgets().spec_pressed(),
    {
        let ghost u0 = *self;
        self.widgets.clear_hover();
        proof {
            lemma_same_view_covered(u0.canvas, self.canvas);
            Self::lemma_wf_after(u0, *self);
        }
    }

    /// Clears widget focus and pane focus, hides the cursor, and queues the widgets of the
    /// previously focused pane for redraw.
    pub fn clear_focus(&mut self)
        requires
            old(self).wf(),
        ensures
            final(self).wf(),
            final(self).spec_drag() == old(self).spec_drag(),
            final(self).spec_widgets().spec_focused() is None,
            final(self).spec_widgets().spec_hovered() == old(self).spec_widgets().spec_hovered(),
            final(self).spec_widgets().spec_pressed() == old(self).spec_widgets().spec_pressed(),
            final(self).spec_canvas().spec_focused() is None,
            final(self).spec_canvas().spec_cursor() is None,
    {
        let ghost u0 = *self;
        let widget_pane = match self.widgets.focused() {
            Some(id) => self.widgets.pane_id_of(id),
            None => None,
        };
        let old_pane = match widget_pane {
            Some(p) => Some(p),
            None => self.canvas.focused(),
        };
        self.widgets.focus(None);
        let ghost c0 = self.canvas;
        self.canvas.focus(None);
        let ghost c1 = self.canvas;
        self.canvas.set_cursor(None);
        proof {
            lemma_same_view_covered(c1, self.canvas);
            lemma_covers_trans(c0, c1, self.canvas);
        }
        match old_pane {
            Some(p) => self.widgets.invalidate_pane(p),
            None => {},
        }
        proof {
            Self::lemma_wf_after(u0, *self);
        }
    }

    /// Whether the focused widget lives in pane `pane_id`.
    fn focused_widget_on_pane(&self, pane_id: PaneId) -> (b: bool)
        requires
            self.wf(),
        ensures
            b == (match self.spec_widgets().spec_focused() {
                Some(w) => self.spec_widgets().has_widget(w) && self.spec_widgets().entry_of(w).pane_id == pane_id,
                None => false,
            }),
    {
        match self.widgets.focused() {
            Some(w) => match self.widgets.pane_id_of(w) {
                Some(p) => p == pane_id,
                None => false,
            },
            None => false,
        }
    }

    /// Moves a pane (clamped into the canvas when `clamp` is set); when the focused widget
    /// lives in the focused pane that moved, that pane's widgets are queued for redraw so
    /// the cursor follows.
    pub fn move_pane(&mut self, pane_id: PaneId, origin: Point, clamp: bool)
        requires
            old(self).wf(),
        ensures
            final(self).wf(),
            final(self).spec_canvas().same_settings(&old(self).spec_canvas()),
            final(self).spec_canvas().spec_panes() == moved_panes(old(self).spec_canvas(), pane_id, origin, clamp),
            final(self).spec_drag() == old(self).spec_drag(),
            final(self).spec_widgets().spec_entries() == old(self).spec_widgets().spec_entries(),
            final(self).spec_widgets().same_pointer(&old(self).spec_widgets()),
    {
        let ghost u0 = *self;
        self.canvas.move_pane(pane_id, origin, clamp);
        let focused_here = match self.canvas.focused() {
            Some(f) => f == pane_id,
            None => false,
        };
        if focused_here && self.focused_widget_on_pane(pane_id) {
            self.widgets.invalidate_pane(pane_id);
        }
        proof {
            Self::lemma_wf_after(u0, *self);
        }
    }

    /// Resizes a pane and, when it changed, queues its widgets for redraw against the new
    /// bounds. Returns whether the pane changed.
    pub fn resize_pane(&mut self, pane_id: PaneId, width: usize, height: usize) -> (changed: bool)
        requires
            old(self).wf(),
        ensures
            final(self).wf(),
            final(self).spec_drag() == old(self).spec_drag(),
            final(self).spec_widgets().spec_entries() == old(self).spec_widgets().spec_entries(),
            final(self).spec_widgets().same_pointer(&old(self).spec_widgets()),
            changed && old(self).spec_widgets().pane_has_widgets(pane_id) ==> final(self).spec_widgets().spec_full()
                == old(self).spec_widgets().spec_full().push(pane_id),
            ({
                let cv = old(self).spec_canvas();
                let i = cv.index_of(pane_id);
                let p0 = cv.spec_panes()[i];
                let d = cv.spec_decor()[i];
                let r = resized_rect(p0.spec_rect(), width, height, d.spec_min_outer_size(), cv.spec_rect());
                let c = content_for(r, d.spec_insets());
                &&& changed == (cv.has_pane(pane_id) && cv.spec_policies()[i].resizable && !(p0.spec_rect() == r
                    && p0.spec_content() == c))
                &&& !changed ==> final(self).spec_canvas().spec_panes() == cv.spec_panes()
                &&& changed ==> {
                    &&& final(self).spec_canvas().spec_panes().len() == cv.spec_panes().len()
                    &&& forall|j: int|
                        0 <= j < cv.spec_panes().len() && j != i ==> #[trigger] final(self).spec_canvas().spec_panes()[j]
                            == cv.spec_panes()[j]
                    &&& final(self).spec_canvas().spec_panes()[i].spec_id() == pane_id
                    &&& final(self).spec_canvas().spec_panes()[i].spec_rect() == r
                    &&& final(self).spec_canvas().spec_panes()[i].spec_content() == c
                }
            }),
    {
        let ghost u0 = *self;
        let changed = self.canvas.resize_pane(pane_id, width, height);
        if changed {
            self.widgets.invalidate_pane(pane_id);
        }
        proof {
            Self::lemma_wf_after(u0, *self);
            if changed {
                let cv = u0.canvas;
                let i = cv.index_of(pane_id);
                let p0 = cv.spec_panes()[i];
                let d = cv.spec_decor()[i];
                let r = resized_rect(p0.spec_rect(), width, height, d.spec_min_outer_size(), cv.spec_rect());
                let c = content_for(r, d.spec_insets());
                let m = choose|m: Pane|
                    #[trigger] resize_post(p0, m, r, c) && redrawn(
                        self.canvas.spec_panes()[i],
                        m,
                        d,
                        cv.spec_policies()[i],
                        cv.is_focused(pane_id),
                    );
                lemma_with_content(m, content_for(m.spec_rect(), d.spec_insets()));
                cv.lemma_id_of_key(i, pane_id);
            }
        }
        changed
    }

    /// Clears the focus and hover that a pane being hidden held.
    fn cleanup_hidden_pane_state(&mut self, pane_id: PaneId)
        requires
            old(self).wf(),
        ensures
            final(self).wf(),
            final(self).spec_drag() == old(self).spec_drag(),
            final(self).spec_widgets().spec_hovered() is None,
            final(self).spec_widgets().spec_pressed() == old(self).spec_widgets().spec_pressed(),
            final(self).spec_canvas().spec_focused() != Some(pane_id),
            frames_kept(final(self).spec_canvas().spec_panes(), old(self).spec_canvas().spec_panes()),
            (match old(self).spec_widgets().spec_focused() {
                Some(w) => old(self).spec_widgets().has_widget(w) && old(self).spec_widgets().entry_of(w).pane_id
                    == pane_id,
                None => false,
            }) ==> final(self).spec_widgets().spec_focused() is None,
    {
        let ghost u0 = *self;
        if self.focused_widget_on_pane(pane_id) {
            self.widgets.focus(None);
            let ghost c0 = self.canvas;
            self.canvas.set_cursor(None);
            proof {
                lemma_same_view_covered(c0, self.canvas);
            }
        }
        let ghost u1 = *self;
        proof {
            lemma_covers_trans(u0.canvas, u0.canvas, u1.canvas);
        }
        let focused_here = match self.canvas.focused() {
            Some(f) => f == pane_id,
            None => false,
        };
        if focused_here {
            self.canvas.focus(None);
        }
        proof {
            if !focused_here {
                lemma_same_view_covered(u1.canvas, self.canvas);
            }
            lemma_covers_trans(u0.canvas, u1.canvas, self.canvas);
        }
        let ghost w1 = self.widgets;
        self.widgets.clear_hover();
        proof {
            Self::lemma_wf_after(u0, *self);
        }
    }
}

impl<C: CustomWidget> Ui<C> {
    /// Toggles a pane's visibility, clearing the focus and hover it held when it hides,
    /// and queues its widgets for redraw.
    pub fn toggle_pane_visibility(&mut self, pane_id: PaneId)
        requires
            old(self).wf(),
        ensures
            final(self).wf(),
            final(self).spec_drag() == old(self).spec_drag(),
            old(self).spec_canvas().has_pane(pane_id) && old(self).spec_canvas().pane_of(pane_id).spec_visible()
                ==> final(self).spec_canvas().spec_focused() != Some(pane_id) && final(self).spec_widgets().spec_hovered() is None,
            old(self).spec_canvas().has_pane(pane_id) && old(self).spec_canvas().pane_of(pane_id).spec_visible()
                && (match old(self).spec_widgets().spec_focused() {
                Some(w) => old(self).spec_widgets().has_widget(w) && old(self).spec_widgets().entry_of(w).pane_id
                    == pane_id,
                None => false,
            }) ==> final(self).spec_widgets().spec_focused() is None,
            final(self).spec_canvas().has_pane(pane_id) == old(self).spec_canvas().has_pane(pane_id),
            old(self).spec_canvas().has_pane(pane_id) ==> final(self).spec_canvas().pane_of(pane_id).spec_visible()
                == !old(self).spec_canvas().pane_of(pane_id).spec_visible(),
    {
        let will_hide = match self.canvas.pane(pane_id) {
            Some(p) => p.is_visible(),
            None => false,
        };
        let ghost c00 = self.canvas;
        if will_hide {
            self.cleanup_hidden_pane_state(pane_id);
        }
        let ghost u0 = *self;
        proof {
            lemma_same_ids_index(c00, u0.canvas, pane_id);
        }
        self.canvas.toggle_pane_visibility(pane_id);
        self.widgets.invalidate_pane(pane_id);
        proof {
            Self::lemma_wf_after(u0, *self);
            if c00.has_pane(pane_id) {
                let i = c00.index_of(pane_id);
                assert(self.canvas.spec_panes()[i].spec_id() == u0.canvas.spec_panes()[i].spec_id());
                assert forall|k: int| 0 <= k < u0.canvas.spec_panes().len() implies (
                #[trigger] self.canvas.spec_panes()[k]).spec_id() == u0.canvas.spec_panes()[k].spec_id() by {
                    if k != i {
                        assert(self.canvas.spec_panes()[k] == u0.canvas.spec_panes()[k]);
                    }
                }
                lemma_same_ids_index(u0.canvas, self.canvas, pane_id);
            }
        }
    }

    /// Shows a pane and queues its widgets for redraw; returns `false`, changing nothing,
    /// for an unknown or visible pane.
    pub fn show_pane(&mut self, pane_id: PaneId) -> (changed: bool)
        requires
            old(self).wf(),
        ensures
            final(self).wf(),
            final(self).spec_drag() == old(self).spec_drag(),
            changed == (old(self).spec_canvas().has_pane(pane_id) && !old(self).spec_canvas().pane_of(
                pane_id,
            ).spec_visible()),
            !changed ==> final(self).spec_widgets() == old(self).spec_widgets() && final(self).spec_canvas().spec_panes()
                == old(self).spec_canvas().spec_panes(),
            changed ==> final(self).spec_canvas().has_pane(pane_id) && final(self).spec_canvas().pane_of(
                pane_id,
            ).spec_visible(),
    {
        let ghost u0 = *self;
        let changed = self.canvas.show_pane(pane_id);
        proof {
            if changed {
                let i = u0.canvas.index_of(pane_id);
                assert forall|k: int| 0 <= k < u0.canvas.spec_panes().len() implies (
                #[trigger] self.canvas.spec_panes()[k]).spec_id() == u0.canvas.spec_panes()[k].spec_id() by {
                    if k != i {
                        assert(self.canvas.spec_panes()[k] == u0.canvas.spec_panes()[k]);
                    }
                }
                lemma_same_ids_index(u0.canvas, self.canvas, pane_id);
            }
        }
        if changed {
            self.widgets.invalidate_pane(pane_id);
        }
        proof {
            Self::lemma_wf_after(u0, *self);
        }
        changed
    }

    /// Hides a pane, clearing the focus and hover it held, and queues its widgets for
    /// redraw; returns `false`, changing nothing, for an unknown or hidden pane.
    pub fn hide_pane(&mut self, pane_id: PaneId) -> (changed: bool)
        requires
            old(self).wf(),
        ensures
            final(self).wf(),
            final(self).spec_drag() == old(self).spec_drag(),
            changed == (old(self).spec_canvas().has_pane(pane_id) && old(self).spec_canvas().pane_of(
                pane_id,
            ).spec_visible()),
            !changed ==> final(self).spec_widgets() == old(self).spec_widgets() && final(self).spec_canvas().spec_panes()
                == old(self).spec_canvas().spec_panes(),
            changed ==> final(self).spec_canvas().spec_focused() != Some(pane_id) && final(self).spec_widgets().spec_hovered() is None,
            changed && (match old(self).spec_widgets().spec_focused() {
                Some(w) => old(self).spec_widgets().has_widget(w) && old(self).spec_widgets().entry_of(w).pane_id
                    == pane_id,
                None => false,
            }) ==> final(self).spec_widgets().spec_focused() is None,
            changed ==> final(self).spec_canvas().has_pane(pane_id) && !final(self).spec_canvas().pane_of(
                pane_id,
            ).spec_visible(),
    {
        let ghost u0 = *self;
        let changed = self.canvas.hide_pane(pane_id);
        if !changed {
            return false;
        }
        let ghost c1 = self.canvas;
        proof {
            let i = u0.canvas.index_of(pane_id);
            assert forall|k: int| 0 <= k < u0.canvas.spec_panes().len() implies (
            #[trigger] c1.spec_panes()[k]).spec_id() == u0.canvas.spec_panes()[k].spec_id() by {
                if k != i {
                    assert(c1.spec_panes()[k] == u0.canvas.spec_panes()[k]);
                }
            }
            lemma_same_ids_index(u0.canvas, c1, pane_id);
        }
        proof {
            Self::lemma_wf_after(u0, *self);
        }
        self.cleanup_hidden_pane_state(pane_id);
        let ghost u1 = *self;
        self.widgets.invalidate_pane(pane_id);
        proof {
            lemma_same_view_covered(u1.canvas, self.canvas);
            Self::lemma_wf_after(u1, *self);
            lemma_same_ids_index(c1, self.canvas, pane_id);
        }
        true
    }

    /// Sets the title text of a pane's window decoration.
    pub fn set_pane_title(&mut self, pane_id: PaneId, title: Option<String>)
        requires
            old(self).wf(),
        ensures
            final(self).wf(),
            final(self).spec_drag() == old(self).spec_drag(),
            final(self).spec_widgets() == old(self).spec_widgets(),
            ({
                let c = old(self).spec_canvas();
                let i = c.index_of(pane_id);
                if c.has_pane(pane_id) && title_changes(c.spec_decor()[i], title) {
                    final(self).spec_canvas().spec_decor()[i] matches PaneDecor::Window(w) && w.spec_title()
                        == title_view(title)
                } else {
                    final(self).spec_canvas().spec_decor() == c.spec_decor() && final(self).spec_canvas().spec_panes()
                        == c.spec_panes()
                }
            }),
    {
        let ghost u0 = *self;
        self.canvas.set_pane_title(pane_id, title);
        proof {
            Self::lemma_wf_after(u0, *self);
        }
    }

    /// Returns the identifiers of all panes, bottom to top.
    pub fn pane_ids(&self) -> (ids: Vec<PaneId>)
        ensures
            ids@.len() == self.spec_canvas().spec_panes().len(),
            forall|i: int| 0 <= i < ids@.len() ==> #[trigger] ids@[i] == self.spec_canvas().spec_panes()[i].spec_id(),
    {
        self.canvas.pane_ids()
    }

    /// Returns the pane if it exists.
    pub fn pane(&self, pane_id: PaneId) -> (r: Option<&Pane>)
        requires
            self.wf(),
        ensures
            match r {
                Some(p) => self.spec_canvas().has_pane(pane_id) && *p == self.spec_canvas().pane_of(pane_id),
                None => !self.spec_canvas().has_pane(pane_id),
            },
    {
        self.canvas.pane(pane_id)
    }

    /// Returns the current rect of a pane if it exists.
    pub fn pane_rect(&self, pane_id: PaneId) -> (r: Option<Rect>)
        requires
            self.wf(),
        ensures
            match r {
                Some(rect) => self.spec_canvas().has_pane(pane_id) && rect == self.spec_canvas().pane_of(pane_id).spec_rect(),
                None => !self.spec_canvas().has_pane(pane_id),
            },
    {
        match self.canvas.pane(pane_id) {
            Some(p) => Some(p.rect()),
            None => None,
        }
    }

    /// Returns a widget by identifier.
    pub fn widget(&self, widget_id: WidgetId) -> (w: Option<&Widget<C>>)
        requires
            self.wf(),
        ensures
            match w {
                Some(w) => self.spec_widgets().has_widget(widget_id) && *w == self.spec_widgets().entry_of(widget_id).widget,
                None => !self.spec_widgets().has_widget(widget_id),
            },
    {
        self.widgets.get(widget_id)
    }

    /// Returns the current content-local rect of a widget.
    pub fn widget_rect(&self, widget_id: WidgetId) -> (r: Option<Rect>)
        requires
            self.wf(),
        ensures
            r == self.spec_widgets().spec_widget_rect(self.spec_canvas(), widget_id),
    {
        self.widgets.widget_rect(&self.canvas, widget_id)
    }

    /// Returns the pane a widget lives in.
    pub fn widget_pane(&self, widget_id: WidgetId) -> (p: Option<PaneId>)
        requires
            self.wf(),
        ensures
            match p {
                Some(p) => self.spec_widgets().has_widget(widget_id) && p == self.spec_widgets().entry_of(widget_id).pane_id,
                None => !self.spec_widgets().has_widget(widget_id),
            },
    {
        self.widgets.pane_id_of(widget_id)
    }

    /// Queues a widget for redraw and hands it out for editing; the UI stays well-formed
    /// when the widget does.
    pub fn edit_widget(&mut self, widget_id: WidgetId) -> (w: Option<&mut Widget<C>>)
        requires
            old(self).wf(),
        ensures
            final(self).spec_drag() == old(self).spec_drag(),
            final(self).spec_canvas() == old(self).spec_canvas(),
            match w {
                Some(w) => {
                    let i = old(self).spec_widgets().index_of(widget_id);
                    let e0 = old(self).spec_widgets().spec_entries()[i];
                    &&& old(self).spec_widgets().has_widget(widget_id)
                    &&& w.wf()
                    &&& w.same_content(&e0.widget)
                    &&& final(self).spec_widgets().spec_entries() == old(self).spec_widgets().spec_entries().update(
                        i,
                        crate::ui::store::WidgetEntry { widget: *final(w), ..e0 },
                    )
                    &&& final(w).wf() ==> final(self).wf()
                },
                None => !old(self).spec_widgets().has_widget(widget_id) && *final(self) == *old(self),
            },
    {
        let ghost u0 = *self;
        proof {
            lemma_same_view_covered(u0.canvas, u0.canvas);
            assert forall|nw: WidgetStore<C>| #[trigger] nw.wf() implies (Ui {
                canvas: u0.canvas,
                compositor: u0.compositor,
                renderer: u0.renderer,
                widgets: nw,
                drag: u0.drag,
            }).wf() by {
                u0.lemma_wf_step(u0.canvas, nw, Ui {
                    canvas: u0.canvas,
                    compositor: u0.compositor,
                    renderer: u0.renderer,
                    widgets: nw,
                    drag: u0.drag,
                });
            }
        }
        self.widgets.edit(widget_id)
    }

    /// Queues every widget of a pane for redraw.
    pub fn invalidate_pane(&mut self, pane_id: PaneId)
        requires
            old(self).wf(),
        ensures
            final(self).wf(),
            final(self).spec_canvas() == old(self).spec_canvas(),
            final(self).spec_drag() == old(self).spec_drag(),
            final(self).spec_widgets().spec_entries() == old(self).spec_widgets().spec_entries(),
            final(self).spec_widgets().spec_full() == (if old(self).spec_widgets().pane_has_widgets(pane_id) {
                old(self).spec_widgets().spec_full().push(pane_id)
            } else {
                old(self).spec_widgets().spec_full()
            }),
    {
        let ghost u0 = *self;
        self.widgets.invalidate_pane(pane_id);
        proof {
            lemma_same_view_covered(u0.canvas, self.canvas);
            Self::lemma_wf_after(u0, *self);
        }
    }

    /// Queues one widget for redraw.
    pub fn invalidate_widget(&mut self, widget_id: WidgetId)
        requires
            old(self).wf(),
        ensures
            final(self).wf(),
            final(self).spec_canvas() == old(self).spec_canvas(),
            final(self).spec_drag() == old(self).spec_drag(),
            old(self).spec_widgets().has_widget(widget_id) ==> final(self).spec_widgets().spec_damaged()
                == old(self).spec_widgets().spec_damaged().push(widget_id),
    {
        let ghost u0 = *self;
        self.widgets.invalidate_widget(widget_id);
        proof {
            lemma_same_view_covered(u0.canvas, self.canvas);
            Self::lemma_wf_after(u0, *self);
        }
    }

    /// Queues every widget for redraw.
    pub fn invalidate_all(&mut self)
        requires
            old(self).wf(),
        ensures
            final(self).wf(),
            final(self).spec_canvas() == old(self).spec_canvas(),
            final(self).spec_drag() == old(self).spec_drag(),
            forall|i: int|
                0 <= i < old(self).spec_widgets().spec_entries().len() ==> final(self).spec_widgets().spec_full().contains(
                    #[trigger] old(self).spec_widgets().spec_entries()[i].pane_id,
                ),
    {
        let ghost u0 = *self;
        self.widgets.invalidate_all();
        proof {
            lemma_same_view_covered(u0.canvas, self.canvas);
            Self::lemma_wf_after(u0, *self);
        }
    }

    /// The backing canvas, for read-only inspection.
    pub fn canvas(&self) -> (c: &Canvas)
        ensures
            *c == self.spec_canvas(),
    {
        &self.canvas
    }

    /// The widget store, for read-only inspection.
    pub fn widgets(&self) -> (w: &WidgetStore<C>)
        ensures
            *w == self.spec_widgets(),
    {
        &self.widgets
    }

    /// The backing canvas, for low-level changes; the UI stays well-formed when the canvas
    /// does and every change it makes is covered by damage.
    pub fn canvas_mut(&mut self) -> (c: &mut Canvas)
        requires
            old(self).wf(),
        ensures
            *c == old(self).spec_canvas(),
            final(self).spec_canvas() == *final(c),
            final(self).spec_widgets() == old(self).spec_widgets(),
            final(self).spec_drag() == old(self).spec_drag(),
            final(c).wf() && final(c).covers_changes(&*c) ==> final(self).wf(),
    {
        let ghost u0 = *self;
        proof {
            assert forall|nc: Canvas| nc.wf() && #[trigger] nc.covers_changes(&u0.canvas) implies (Ui {
                canvas: nc,
                compositor: u0.compositor,
                renderer: u0.renderer,
                widgets: u0.widgets,
                drag: u0.drag,
            }).wf() by {
                u0.lemma_wf_step(nc, u0.widgets, Ui {
                    canvas: nc,
                    compositor: u0.compositor,
                    renderer: u0.renderer,
                    widgets: u0.widgets,
                    drag: u0.drag,
                });
            }
        }
        &mut self.canvas
    }

    /// The widget store, for low-level changes; the UI stays well-formed when the store
    /// does.
    pub fn widgets_mut(&mut self) -> (w: &mut WidgetStore<C>)
        requires
            old(self).wf(),
        ensures
            *w == old(self).spec_widgets(),
            final(self).spec_widgets() == *final(w),
            final(self).spec_canvas() == old(self).spec_canvas(),
            final(self).spec_drag() == old(self).spec_drag(),
            final(w).wf() ==> final(self).wf(),
    {
        let ghost u0 = *self;
        proof {
            lemma_same_view_covered(u0.canvas, u0.canvas);
            assert forall|nw: WidgetStore<C>| #[trigger] nw.wf() implies (Ui {
                canvas: u0.canvas,
                compositor: u0.compositor,
                renderer: u0.renderer,
                widgets: nw,
                drag: u0.drag,
            }).wf() by {
                u0.lemma_wf_step(u0.canvas, nw, Ui {
                    canvas: u0.canvas,
                    compositor: u0.compositor,
                    renderer: u0.renderer,
                    widgets: nw,
                    drag: u0.drag,
                });
            }
        }
        &mut self.widgets
    }

    /// A pane, for drawing into it; the UI stays well-formed when the pane does, keeps its
    /// frame, and marks every cell it changes.
    pub fn pane_mut(&mut self, pane_id: PaneId) -> (r: Option<&mut Pane>)
        requires
            old(self).wf(),
        ensures
            final(self).spec_widgets() == old(self).spec_widgets(),
            final(self).spec_drag() == old(self).spec_drag(),
            match r {
                Some(p) => {
                    &&& old(self).spec_canvas().has_pane(pane_id)
                    &&& *p == old(self).spec_canvas().pane_of(pane_id)
                    &&& final(self).spec_canvas().spec_panes() == old(self).spec_canvas().spec_panes().update(
                        old(self).spec_canvas().index_of(pane_id),
                        *final(p),
                    )
                    &&& final(p).wf() && final(p).same_frame(&*p) && edit_tracked(*final(p), *p) ==> final(self).wf()
                },
                None => !old(self).spec_canvas().has_pane(pane_id) && final(self).spec_canvas().spec_panes()
                    == old(self).spec_canvas().spec_panes() && final(self).wf(),
            },
    {
        let ghost u0 = *self;
        let ghost c0 = self.canvas;
        let ghost i = c0.index_of(pane_id);
        proof {
            assert forall|q: Pane, nc: Canvas|
                q.wf() && q.same_frame(&c0.spec_panes()[i]) && #[trigger] edit_tracked(q, c0.spec_panes()[i])
                    && c0.has_pane(pane_id) && nc.same_settings(&c0) && nc.spec_damage() == c0.spec_damage()
                    && nc.panes_indexed() && #[trigger] nc.spec_panes() == c0.spec_panes().update(i, q) implies (Ui {
                canvas: nc,
                compositor: u0.compositor,
                renderer: u0.renderer,
                widgets: u0.widgets,
                drag: u0.drag,
            }).wf() by {
                lemma_panes_update(c0.spec_panes(), i, q);
                lemma_pane_edit_covered(c0, nc, i, q);
                u0.lemma_wf_step(nc, u0.widgets, Ui {
                    canvas: nc,
                    compositor: u0.compositor,
                    renderer: u0.renderer,
                    widgets: u0.widgets,
                    drag: u0.drag,
                });
            }
            if c0.has_pane(pane_id) {
                c0.lemma_id_of_key(i, pane_id);
            }
        }
        if self.canvas.pane(pane_id).is_none() {
            return None;
        }
        self.canvas.pane_mut(pane_id)
    }

    /// Returns the active pointer drag, if any.
    pub fn active_pointer_drag(&self) -> (d: Option<PointerDrag>)
        ensures
            d == self.spec_drag(),
    {
        self.drag
    }

    /// Cancels any active pointer drag.
    pub fn cancel_pointer_drag(&mut self)
        requires
            old(self).wf(),
        ensures
            final(self).wf(),
            final(self).spec_drag() is None,
            final(self).spec_canvas() == old(self).spec_canvas(),
            final(self).spec_widgets() == old(self).spec_widgets(),
    {
        self.drag = None;
    }

    /// Whether the active pointer drag belongs to the pane.
    pub open spec fn spec_drag_targets_pane(&self, pane_id: PaneId) -> bool {
        match self.spec_drag() {
            Some(PointerDrag::PaneMove { pane_id: id, .. }) => id == pane_id,
            Some(PointerDrag::PaneResize { pane_id: id }) => id == pane_id,
            Some(PointerDrag::Content { pane_id: id, .. }) => id == pane_id,
            None => false,
        }
    }

    /// Returns whether the active pointer drag belongs to the pane.
    fn drag_targets_pane(&self, pane_id: PaneId) -> (b: bool)
        ensures
            b == self.spec_drag_targets_pane(pane_id),
    {
        match self.drag {
            Some(PointerDrag::PaneMove { pane_id: id, .. }) => id == pane_id,
            Some(PointerDrag::PaneResize { pane_id: id }) => id == pane_id,
            Some(PointerDrag::Content { pane_id: id, .. }) => id == pane_id,
            None => false,
        }
    }
}

/// The pane content under `pos`: the pane, the hit, and the content-local point.
pub open spec fn spec_content_hit(canvas: Canvas, pos: Point) -> Option<(PaneId, PaneHit, Point)> {
    match canvas.spec_hit_at(pos) {
        HitTarget::Pane { pane_id, hit } => if hit.element == PaneElement::Content && hit.content_local is Some {
            Some((pane_id, hit, hit.content_local->0))
        } else {
            None
        },
        HitTarget::Background { .. } => None,
    }
}

/// The size a pane resize drag asks for with the pointer at `pos`: the pane's frame
/// reaches to the pointer's cell.
pub open spec fn drag_size(rect: Rect, pos: Point) -> (usize, usize) {
    (
        sat_add(sat_sub(pos.x as int, rect.x as int), 1) as usize,
        sat_add(sat_sub(pos.y as int, rect.y as int), 1) as usize,
    )
}

/// The pane action a press on a pane's decoration starts.
pub open spec fn spec_pane_action(canvas: Canvas, pane_id: PaneId, hit: PaneHit) -> PaneAction {
    (if canvas.has_pane(pane_id) {
        canvas.spec_policies()[canvas.index_of(pane_id)]
    } else {
        crate::surface::policy::PanePolicy { movable: true, resizable: true, focus_on_decor_press: true }
    }).spec_action_for_hit(hit.element, hit.local)
}

/// What a key asks of widget `w`: Enter, and Space on a widget that is not an input,
/// activate it; any other key is handed over as a key.
pub open spec fn key_request<C: CustomWidget>(code: KeyCode, w: Widget<C>) -> WidgetRequest {
    match code {
        KeyCode::Enter => WidgetRequest::Activate,
        KeyCode::Char(c) => if c == ' ' && !(w is Input) {
            WidgetRequest::Activate
        } else {
            WidgetRequest::Key(code)
        },
        _ => WidgetRequest::Key(code),
    }
}

/// What a release over widget `id` asks of it: whether it is focused.
pub open spec fn release_request<C: CustomWidget>(w: WidgetStore<C>, id: WidgetId) -> WidgetRequest {
    WidgetRequest::Release { focused: w.spec_focused() == Some(id) }
}

/// The panes of canvas `c` after moving pane `pane_id` to `origin` (clamped into the canvas
/// when `clamp` is set): an unknown or unmovable pane, or one that would not move, stays.
pub open spec fn moved_panes(c: Canvas, pane_id: PaneId, origin: Point, clamp: bool) -> Seq<Pane> {
    let i = c.index_of(pane_id);
    let p0 = c.spec_panes()[i];
    let r = moved_rect(p0.spec_rect(), origin, clamp, c.spec_rect());
    if c.has_pane(pane_id) && c.spec_policies()[i].movable && r != p0.spec_rect() {
        c.spec_panes().update(i, with_frame(p0, r, content_for(r, c.spec_decor()[i].spec_insets())))
    } else {
        c.spec_panes()
    }
}

/// The pressed widget exists and is application-defined.
pub open spec fn pressed_is_custom<C: CustomWidget>(w: WidgetStore<C>) -> bool {
    match w.spec_pressed() {
        Some(id) => w.has_widget(id) && w.entry_of(id).widget is Custom,
        None => false,
    }
}

/// The event that starting a pointer drag reports.
pub open spec fn spec_drag_start<A>(d: PointerDrag) -> UiEvent<A> {
    match d {
        PointerDrag::PaneMove { pane_id, .. } => UiEvent::PaneDragStart { pane_id, kind: PaneDragKind::Move },
        PointerDrag::PaneResize { pane_id } => UiEvent::PaneDragStart { pane_id, kind: PaneDragKind::Resize },
        PointerDrag::Content { pane_id, anchor, current, .. } => UiEvent::PaneContentDragStart {
            pane_id,
            anchor,
            current,
        },
    }
}

/// The event that ending a pointer drag at `pos` reports.
pub open spec fn spec_drag_end<A>(d: PointerDrag, pos: Point) -> UiEvent<A> {
    match d {
        PointerDrag::PaneMove { pane_id, .. } => UiEvent::PaneReleased { pane_id, kind: PaneDragKind::Move },
        PointerDrag::PaneResize { pane_id } => UiEvent::PaneReleased { pane_id, kind: PaneDragKind::Resize },
        PointerDrag::Content { pane_id, anchor, .. } => UiEvent::PaneContentDragEnd { pane_id, anchor, current: pos },
    }
}

impl<C: CustomWidget> Ui<C> {
    /// Returns the pane content hit at `pos`.
    fn content_hit_at(&self, pos: Point) -> (r: Option<(PaneId, PaneHit, Point)>)
        requires
            self.wf(),
        ensures
            r == spec_content_hit(self.spec_canvas(), pos),
    {
        match self.canvas.hit_at(pos) {
            HitTarget::Pane { pane_id, hit } => {
                let is_content = match hit.element {
                    PaneElement::Content => true,
                    _ => false,
                };
                if is_content {
                    match hit.content_local {
                        Some(c) => Some((pane_id, hit, c)),
                        None => None,
                    }
                } else {
                    None
                }
            },
            HitTarget::Background { .. } => None,
        }
    }

    /// The widget hit at screen position `pos`.
    pub open spec fn spec_widget_hit_at_pos(&self, pos: Point) -> Option<WidgetHit> {
        match spec_content_hit(self.spec_canvas(), pos) {
            Some((pane_id, _, content_local)) => self.spec_widgets().spec_widget_at(
                self.spec_canvas(),
                pane_id,
                content_local,
            ),
            None => None,
        }
    }

    /// Returns the widget hit at screen position `pos`.
    fn widget_hit_at_pos(&self, pos: Point) -> (r: Option<WidgetHit>)
        requires
            self.wf(),
        ensures
            r == self.spec_widget_hit_at_pos(pos),
    {
        match self.content_hit_at(pos) {
            Some((pane_id, _, content_local)) => self.widgets.widget_at(&self.canvas, pane_id, content_local),
            None => None,
        }
    }

    /// Returns the hit of the pressed widget when the pointer is still over it.
    fn pressed_widget_hit_at(&self, pos: Point) -> (r: Option<WidgetHit>)
        requires
            self.wf(),
        ensures
            r == (match (self.spec_widgets().spec_pressed(), self.spec_widget_hit_at_pos(pos)) {
                (Some(p), Some(h)) => if h.widget_id == p {
                    Some(h)
                } else {
                    None
                },
                _ => None,
            }),
    {
        let pressed_id = match self.widgets.pressed() {
            Some(p) => p,
            None => {
                return None;
            },
        };
        match self.widget_hit_at_pos(pos) {
            Some(h) => if h.widget_id == pressed_id {
                Some(h)
            } else {
                None
            },
            None => None,
        }
    }

    /// Recomputes hover state after a drag ends.
    fn sync_hover(&mut self, pos: Point)
        requires
            old(self).wf(),
        ensures
            final(self).wf(),
            final(self).spec_drag() == old(self).spec_drag(),
            final(self).spec_canvas() == old(self).spec_canvas(),
            final(self).spec_widgets().spec_hovered() == (match old(self).spec_widget_hit_at_pos(pos) {
                Some(h) => Some(h.widget_id),
                None => None,
            }),
            final(self).spec_widgets().spec_focused() == old(self).spec_widgets().spec_focused(),
            final(self).spec_widgets().spec_pressed() == old(self).spec_widgets().spec_pressed(),
    {
        let ghost u0 = *self;
        match self.content_hit_at(pos) {
            Some((pane_id, _, content_local)) => {
                self.widgets.hover(&self.canvas, pane_id, content_local);
            },
            None => self.widgets.clear_hover(),
        }
        proof {
            lemma_same_view_covered(u0.canvas, self.canvas);
            Self::lemma_wf_after(u0, *self);
        }
    }

    /// Starts `pointer_drag`, clearing widget focus and hover, and reports it.
    fn begin_pointer_drag(&mut self, pointer_drag: PointerDrag) -> (e: UiEvent<C::Action>)
        requires
            old(self).wf(),
        ensures
            final(self).wf(),
            final(self).spec_drag() == Some(pointer_drag),
            final(self).spec_widgets().spec_focused() is None,
            final(self).spec_widgets().spec_hovered() is None,
            final(self).spec_canvas().spec_focused() is None,
            final(self).spec_canvas().spec_cursor() is None,
            e == spec_drag_start::<C::Action>(pointer_drag),
    {
        self.focus_widget(None);
        self.clear_hover();
        self.drag = Some(pointer_drag);
        match pointer_drag {
            PointerDrag::PaneMove { pane_id, .. } => UiEvent::PaneDragStart { pane_id, kind: PaneDragKind::Move },
            PointerDrag::PaneResize { pane_id } => UiEvent::PaneDragStart { pane_id, kind: PaneDragKind::Resize },
            PointerDrag::Content { pane_id, anchor, current, .. } => UiEvent::PaneContentDragStart {
                pane_id,
                anchor,
                current,
            },
        }
    }

    /// Begins a captured content drag when `anchor` lies over the content of `pane_id`;
    /// otherwise nothing happens.
    pub fn begin_content_drag(&mut self, pane_id: PaneId, anchor: Point, button: MouseButton) -> (e: UiEvent<
        C::Action,
    >)
        requires
            old(self).wf(),
        ensures
            final(self).wf(),
            (match spec_content_hit(old(self).spec_canvas(), anchor) {
                Some((p, _, _)) => p == pane_id,
                None => false,
            }) ==> {
                let d = PointerDrag::Content { pane_id, button, anchor, previous: anchor, current: anchor };
                &&& final(self).spec_drag() == Some(d)
                &&& e == spec_drag_start::<C::Action>(d)
            },
            !(match spec_content_hit(old(self).spec_canvas(), anchor) {
                Some((p, _, _)) => p == pane_id,
                None => false,
            }) ==> e is NoOp && *final(self) == *old(self),
    {
        let hit_pane = match self.content_hit_at(anchor) {
            Some((p, _, _)) => p,
            None => {
                return UiEvent::NoOp;
            },
        };
        if hit_pane != pane_id {
            return UiEvent::NoOp;
        }
        self.begin_pointer_drag(PointerDrag::Content { pane_id, button, anchor, previous: anchor, current: anchor })
    }

    /// Advances held content drags: reports a held event while one is active.
    pub fn tick(&mut self, dt_millis: u64) -> (e: UiEvent<C::Action>)
        ensures
            *final(self) == *old(self),
            e == (match old(self).spec_drag() {
                Some(PointerDrag::Content { pane_id, anchor, current, .. }) => UiEvent::<C::Action>::PaneContentHeld {
                    pane_id,
                    anchor,
                    current,
                    dt_millis,
                },
                _ => UiEvent::<C::Action>::NoOp,
            }),
    {
        match self.drag {
            Some(PointerDrag::Content { pane_id, anchor, current, .. }) => UiEvent::PaneContentHeld {
                pane_id,
                anchor,
                current,
                dt_millis,
            },
            _ => UiEvent::NoOp,
        }
    }

    /// The effect of a pointer move to `pos` without a button on `self`, giving `after` and `e`.
    pub open spec fn mouse_move_effect(&self, after: Ui<C>, pos: Point, e: UiEvent<C::Action>) -> bool {
        &&& after.spec_drag() == self.spec_drag()
        &&& self.spec_drag() is Some ==> e is NoOp && after == *self
        &&& self.spec_drag() is None ==> {
            &&& e == (match self.spec_widget_hit_at_pos(pos) {
                Some(h) => UiEvent::<C::Action>::WidgetHovered(h),
                None => UiEvent::<C::Action>::NoOp,
            })
            &&& after.spec_widgets().spec_hovered() == (match self.spec_widget_hit_at_pos(pos) {
                Some(h) => Some(h.widget_id),
                None => None,
            })
            &&& after.spec_canvas() == self.spec_canvas()
        }
    }

    /// Updates widget hover when the pointer moves over pane content; nothing happens
    /// during a drag.
    pub fn mouse_move(&mut self, pos: Point) -> (e: UiEvent<C::Action>)
        requires
            old(self).wf(),
        ensures
            final(self).wf(),
            old(self).mouse_move_effect(*final(self), pos, e),
    {
        if self.drag.is_some() {
            return UiEvent::NoOp;
        }
        let ghost u0 = *self;
        let r = match self.content_hit_at(pos) {
            Some((pane_id, _, content_local)) => match self.widgets.hover(&self.canvas, pane_id, content_local) {
                Some(h) => UiEvent::WidgetHovered(h),
                None => UiEvent::NoOp,
            },
            None => {
                self.widgets.clear_hover();
                UiEvent::NoOp
            },
        };
        proof {
            lemma_same_view_covered(u0.canvas, self.canvas);
            Self::lemma_wf_after(u0, *self);
        }
        r
    }
}

impl<C: CustomWidget> Ui<C> {
    /// The effect of a press of the left button at `pos` on `self`, giving `after` and `e`.
    pub open spec fn mouse_down_effect(&self, after: Ui<C>, pos: Point, e: UiEvent<C::Action>) -> bool {
        &&& self.spec_canvas().spec_hit_at(pos) is Background ==> {
            &&& e is NoOp
            &&& after.spec_drag() is None
            &&& after.spec_widgets().spec_focused() is None
            &&& after.spec_widgets().spec_hovered() is None
            &&& after.spec_canvas().spec_focused() is None
        }
        &&& self.spec_canvas().spec_hit_at(pos) matches HitTarget::Pane { pane_id, hit } ==> {
            &&& after.spec_drag() == (match spec_pane_action(self.spec_canvas(), pane_id, hit) {
                PaneAction::BeginMove { grab_offset } => if hit.element != PaneElement::Content {
                    Some(PointerDrag::PaneMove { pane_id, grab_offset })
                } else {
                    self.spec_drag()
                },
                PaneAction::BeginResize => if hit.element != PaneElement::Content {
                    Some(PointerDrag::PaneResize { pane_id })
                } else {
                    self.spec_drag()
                },
                _ => self.spec_drag(),
            })
            &&& hit.element != PaneElement::Content ==> e == (match spec_pane_action(
                self.spec_canvas(),
                pane_id,
                hit,
            ) {
                PaneAction::BeginMove { grab_offset } => UiEvent::<C::Action>::PaneDragStart {
                    pane_id,
                    kind: PaneDragKind::Move,
                },
                PaneAction::BeginResize => UiEvent::<C::Action>::PaneDragStart {
                    pane_id,
                    kind: PaneDragKind::Resize,
                },
                _ => UiEvent::<C::Action>::PanePressed { pane_id, hit },
            })
            &&& e matches UiEvent::PanePressed { pane_id: p, hit: h } ==> p == pane_id && h == hit
                && after.spec_widgets().spec_focused() is None
                && after.spec_widgets().spec_hovered() is None
                && after.spec_canvas().spec_focused() is None
            &&& e is PaneDragStart ==> after.spec_widgets().spec_focused() is None
                && after.spec_widgets().spec_hovered() is None
                && after.spec_canvas().spec_focused() is None
                && after.spec_canvas().spec_cursor() is None
            &&& !(e is PanePressed || e is PaneDragStart) ==> after.spec_canvas().spec_focused() == Some(pane_id)
            &&& e matches UiEvent::WidgetPressed(h) ==> hit.element == PaneElement::Content
                && after.spec_widgets().spec_pressed() == Some(h.widget_id)
                && after.spec_widgets().spec_focused() == Some(h.widget_id)
            &&& hit.element == PaneElement::Content ==> (e is PanePressed || e is WidgetPressed
                || pressed_is_custom(after.spec_widgets()))
            &&& hit.element == PaneElement::Content && self.spec_canvas().content_synced(pane_id)
                ==> match self.spec_widget_hit_at_pos(pos) {
                None => e == UiEvent::<C::Action>::PanePressed { pane_id, hit },
                Some(wh) => match self.spec_widgets().spec_widget_rect(self.spec_canvas(), wh.widget_id) {
                    None => e == UiEvent::<C::Action>::WidgetPressed(wh),
                    Some(r) => exists|a: WidgetAction<C::Action>|
                        #[trigger] answered(
                            self.spec_widgets().entry_of(wh.widget_id).widget,
                            WidgetRequest::Drag { local_x: wh.local.x, width: r.width },
                            a,
                        ) && e == (if a is NoOp {
                            UiEvent::<C::Action>::WidgetPressed(wh)
                        } else {
                            spec_map_widget_action(wh.widget_id, Some(wh), a)
                        }),
                },
            }
        }
    }

    /// Handles a mouse press: on the background it clears focus, hover and any drag; on a
    /// pane it focuses the pane, then presses the widget under the pointer (which may
    /// answer right away, as a slider does), reports a pane press when there is none, or
    /// starts the move or resize drag that the pane's policy gives for its decoration.
    pub fn mouse_down(&mut self, pos: Point) -> (e: UiEvent<C::Action>)
        requires
            old(self).wf(),
        ensures
            final(self).wf(),
            old(self).mouse_down_effect(*final(self), pos, e),
    {
        match self.canvas.hit_at(pos) {
            HitTarget::Background { .. } => {
                self.clear_focus();
                self.clear_hover();
                self.drag = None;
                UiEvent::NoOp
            },
            HitTarget::Pane { pane_id, hit } => {
                let ghost u0 = *self;
                let action = self.canvas.action_for_hit(pane_id, hit.element, hit.local);
                self.focus_pane(pane_id);
                match hit.element {
                    PaneElement::Content => {
                        let content_local = match hit.content_local {
                            Some(c) => c,
                            None => {
                                self.focus_widget(None);
                                self.clear_hover();
                                return UiEvent::PanePressed { pane_id, hit };
                            },
                        };
                        proof {
                            let t = topmost(u0.canvas.spec_panes(), pos);
                            lemma_topmost(u0.canvas.spec_panes(), pos);
                            u0.canvas.lemma_index_of(pane_id, t);
                            lemma_same_ids_index(u0.canvas, self.canvas, pane_id);
                            assert(u0.spec_widget_hit_at_pos(pos) == u0.widgets.spec_widget_at(
                                u0.canvas,
                                pane_id,
                                content_local,
                            ));
                            if u0.canvas.content_synced(pane_id) {
                                assert(self.widgets.spec_widget_at(self.canvas, pane_id, content_local)
                                    == u0.widgets.spec_widget_at(u0.canvas, pane_id, content_local));
                            }
                        }
                        let ghost u1 = *self;
                        let widget_hit = match self.widgets.mouse_down(&self.canvas, pane_id, content_local) {
                            Some(h) => h,
                            None => {
                                self.focus_widget(None);
                                self.clear_hover();
                                return UiEvent::PanePressed { pane_id, hit };
                            },
                        };
                        proof {
                            lemma_same_view_covered(u1.canvas, self.canvas);
                            Self::lemma_wf_after(u1, *self);
                            let w1 = u1.widgets;
                            let wd = self.widgets;
                            let c = u1.canvas.pane_of(pane_id).spec_content();
                            lemma_hit_index(w1.spec_entries(), pane_id, c, content_local);
                            w1.lemma_widget_at_exists(u1.canvas, pane_id, content_local);
                            let k = w1.index_of(widget_hit.widget_id);
                            let kh = hit_index(w1.spec_entries(), pane_id, c, content_local);
                            w1.lemma_index_of(widget_hit.widget_id, kh);
                            assert(w1.spec_entries()[k].pane_id == pane_id);
                            assert forall|j: int| 0 <= j < w1.spec_entries().len() implies (
                            #[trigger] wd.spec_entries()[j]).id == w1.spec_entries()[j].id by {}
                            w1.lemma_same_ids_index(&wd, widget_hit.widget_id);
                            assert(wd.spec_entries()[k].layout == w1.spec_entries()[k].layout);
                            assert(wd.spec_entries()[k].pane_id == pane_id);
                            if u0.canvas.content_synced(pane_id) {
                                assert(wd.spec_widget_rect(self.canvas, widget_hit.widget_id)
                                    == u0.widgets.spec_widget_rect(u0.canvas, widget_hit.widget_id));
                            }
                        }
                        let id = widget_hit.widget_id;
                        let rect = match self.widgets.widget_rect(&self.canvas, id) {
                            Some(r) => r,
                            None => {
                                return UiEvent::WidgetPressed(widget_hit);
                            },
                        };
                        let ghost u2 = *self;
                        let ghost w2 = self.widgets;
                        let answer = self.widgets.act(
                            id,
                            WidgetRequest::Drag { local_x: widget_hit.local.x, width: rect.width },
                        );
                        proof {
                            lemma_same_view_covered(u2.canvas, self.canvas);
                            Self::lemma_wf_after(u2, *self);
                            if answer is Some {
                                let i = w2.index_of(id);
                                assert forall|j: int| 0 <= j < w2.spec_entries().len() implies (
                                #[trigger] self.widgets.spec_entries()[j]).id == w2.spec_entries()[j].id by {}
                                w2.lemma_same_ids_index(&self.widgets, id);
                                assert(self.widgets.spec_pressed() == Some(id));
                                let w1 = u1.widgets;
                                w1.lemma_widget_at_exists(u1.canvas, pane_id, content_local);
                                let k = w1.index_of(id);
                                assert forall|j: int| 0 <= j < w1.spec_entries().len() implies (
                                #[trigger] w2.spec_entries()[j]).id == w1.spec_entries()[j].id by {}
                                w1.lemma_same_ids_index(&w2, id);
                                assert(w2.spec_entries()[k].widget.same_content(&w1.spec_entries()[k].widget));
                                let a = answer->0;
                                let w = w2.spec_entries()[k].widget;
                                assert(answered(w, WidgetRequest::Drag { local_x: widget_hit.local.x, width: rect.width }, a));
                                assert(w.same_content(&u0.widgets.entry_of(id).widget));
                                assert(w.spec_state().spec_pressed() && w.spec_state().spec_damaged());
                                assert(w.spec_state().spec_hovered() == u0.widgets.entry_of(id).widget.spec_state().spec_hovered());
                                lemma_answered_same_content(
                                    w,
                                    u0.widgets.entry_of(id).widget,
                                    WidgetRequest::Drag { local_x: widget_hit.local.x, width: rect.width },
                                    a,
                                );
                            }
                        }
                        let action = match answer {
                            Some(a) => a,
                            None => WidgetAction::NoOp,
                        };
                        match action {
                            WidgetAction::NoOp => UiEvent::WidgetPressed(widget_hit),
                            a => map_widget_action(id, Some(widget_hit), a),
                        }
                    },
                    _ => match action {
                        PaneAction::BeginMove { grab_offset } => self.begin_pointer_drag(
                            PointerDrag::PaneMove { pane_id, grab_offset },
                        ),
                        PaneAction::BeginResize => self.begin_pointer_drag(PointerDrag::PaneResize { pane_id }),
                        _ => {
                            self.focus_widget(None);
                            self.clear_hover();
                            UiEvent::PanePressed { pane_id, hit }
                        },
                    },
                }
            },
        }
    }
}

impl<C: CustomWidget> Ui<C> {
    /// The effect of a drag with the left button to `pos` on `self`, giving `after` and `e`.
    pub open spec fn mouse_drag_effect(&self, after: Ui<C>, pos: Point, e: UiEvent<C::Action>) -> bool {
        &&& (match self.spec_drag() {
            Some(PointerDrag::PaneMove { pane_id, grab_offset }) => e == (UiEvent::<C::Action>::PaneDragged {
                pane_id,
                kind: PaneDragKind::Move,
            }) && after.spec_drag() == self.spec_drag() && after.spec_canvas().spec_panes()
                == moved_panes(
                self.spec_canvas(),
                pane_id,
                Point {
                    x: sat_sub(pos.x as int, grab_offset.x as int) as usize,
                    y: sat_sub(pos.y as int, grab_offset.y as int) as usize,
                },
                true,
            ),
            Some(PointerDrag::PaneResize { pane_id }) => {
                let cv = self.spec_canvas();
                let i = cv.index_of(pane_id);
                let rect0 = cv.spec_panes()[i].spec_rect();
                let r = resized_rect(
                    rect0,
                    drag_size(rect0, pos).0,
                    drag_size(rect0, pos).1,
                    cv.spec_decor()[i].spec_min_outer_size(),
                    cv.spec_rect(),
                );
                &&& e == (UiEvent::<C::Action>::PaneDragged { pane_id, kind: PaneDragKind::Resize })
                &&& after.spec_drag() == self.spec_drag()
                &&& !cv.has_pane(pane_id) ==> after.spec_canvas() == cv
                &&& cv.has_pane(pane_id) ==> {
                    &&& after.spec_canvas().spec_panes().len() == cv.spec_panes().len()
                    &&& forall|j: int|
                        0 <= j < cv.spec_panes().len() && j != i ==> #[trigger] after.spec_canvas().spec_panes()[j]
                            == cv.spec_panes()[j]
                    &&& after.spec_canvas().spec_panes()[i].spec_rect() == if cv.spec_policies()[i].resizable {
                        r
                    } else {
                        rect0
                    }
                }
            },
            Some(PointerDrag::Content { pane_id, button, anchor, current, .. }) => {
                &&& e == (UiEvent::<C::Action>::PaneContentDragged {
                    pane_id,
                    anchor,
                    previous: current,
                    current: pos,
                })
                &&& after.spec_drag() == Some(
                    (PointerDrag::Content { pane_id, button, anchor, previous: current, current: pos }),
                )
                &&& after.spec_canvas() == self.spec_canvas()
                &&& after.spec_widgets() == self.spec_widgets()
            },
            None => true,
        })
        &&& self.spec_drag() is None ==> {
            &&& after.spec_drag() is None
            &&& after.spec_canvas() == self.spec_canvas()
            &&& (match (self.spec_widgets().spec_pressed(), self.spec_widget_hit_at_pos(pos)) {
                (Some(p), Some(h)) => h.widget_id != p,
                _ => true,
            }) ==> e is NoOp && after.spec_widgets() == self.spec_widgets()
            &&& !(e is NoOp) ==> pressed_is_custom(self.spec_widgets())
            &&& (match (self.spec_widgets().spec_pressed(), self.spec_widget_hit_at_pos(pos)) {
                (Some(p), Some(h)) => h.widget_id == p,
                _ => false,
            }) ==> {
                let h = self.spec_widget_hit_at_pos(pos)->0;
                let w = self.spec_widgets();
                match w.spec_widget_rect(self.spec_canvas(), h.widget_id) {
                    Some(r) => exists|a: WidgetAction<C::Action>|
                        #[trigger] answered(
                            w.entry_of(h.widget_id).widget,
                            WidgetRequest::Drag { local_x: h.local.x, width: r.width },
                            a,
                        ) && e == spec_map_widget_action(h.widget_id, Some(h), a),
                    None => e is NoOp && after.spec_widgets() == w,
                }
            }
        }
    }

    /// Applies a pointer drag: a pane move goes to the pointer less the grab offset
    /// (clamped into the canvas), a pane resize stretches the pane to the pointer, and a
    /// content drag records the new position. Without a drag, a press that stays over the
    /// pressed widget lets it answer the drag (as a slider does).
    pub fn mouse_drag(&mut self, pos: Point) -> (e: UiEvent<C::Action>)
        requires
            old(self).wf(),
        ensures
            final(self).wf(),
            old(self).mouse_drag_effect(*final(self), pos, e),
    {
        match self.drag {
            Some(PointerDrag::PaneMove { pane_id, grab_offset }) => {
                let new_origin = pos.saturating_sub(grab_offset);
                self.move_pane(pane_id, new_origin, true);
                return UiEvent::PaneDragged { pane_id, kind: PaneDragKind::Move };
            },
            Some(PointerDrag::PaneResize { pane_id }) => {
                match self.canvas.pane(pane_id) {
                    Some(p) => {
                        let rect = p.rect();
                        let width = add_sat(sub_sat(pos.x, rect.x), 1);
                        let height = add_sat(sub_sat(pos.y, rect.y), 1);
                        self.resize_pane(pane_id, width, height);
                    },
                    None => {},
                }
                return UiEvent::PaneDragged { pane_id, kind: PaneDragKind::Resize };
            },
            Some(PointerDrag::Content { pane_id, button, anchor, previous: _, current }) => {
                self.drag = Some(PointerDrag::Content { pane_id, button, anchor, previous: current, current: pos });
                return UiEvent::PaneContentDragged { pane_id, anchor, previous: current, current: pos };
            },
            None => {},
        }
        let hit = match self.pressed_widget_hit_at(pos) {
            Some(h) => h,
            None => {
                return UiEvent::NoOp;
            },
        };
        let rect = match self.widgets.widget_rect(&self.canvas, hit.widget_id) {
            Some(r) => r,
            None => {
                return UiEvent::NoOp;
            },
        };
        let ghost u0 = *self;
        let answer = self.widgets.act(hit.widget_id, WidgetRequest::Drag { local_x: hit.local.x, width: rect.width });
        proof {
            lemma_same_view_covered(u0.canvas, self.canvas);
            Self::lemma_wf_after(u0, *self);
        }
        let action = match answer {
            Some(a) => a,
            None => WidgetAction::NoOp,
        };
        map_widget_action(hit.widget_id, Some(hit), action)
    }

    /// Releases the widget under the pointer: reports what it answers, a release when it
    /// does not exist any more.
    fn release_widget_event(&mut self, widget_hit: WidgetHit) -> (e: UiEvent<C::Action>)
        requires
            old(self).wf(),
        ensures
            final(self).wf(),
            final(self).spec_drag() == old(self).spec_drag(),
            final(self).spec_canvas() == old(self).spec_canvas(),
            final(self).spec_widgets().same_pointer(&old(self).spec_widgets()),
            !old(self).spec_widgets().has_widget(widget_hit.widget_id) ==> e == UiEvent::<
                C::Action,
            >::WidgetReleased(widget_hit),
            old(self).spec_widgets().has_widget(widget_hit.widget_id) ==> exists|a: WidgetAction<C::Action>|
                #[trigger] answered(
                    old(self).spec_widgets().entry_of(widget_hit.widget_id).widget,
                    release_request(old(self).spec_widgets(), widget_hit.widget_id),
                    a,
                ) && e == spec_map_widget_action(widget_hit.widget_id, Some(widget_hit), a),
            old(self).spec_widgets().has_widget(widget_hit.widget_id) ==> final(self).spec_widgets().has_widget(
                widget_hit.widget_id,
            ) && changed_by(
                old(self).spec_widgets().entry_of(widget_hit.widget_id).widget,
                release_request(old(self).spec_widgets(), widget_hit.widget_id),
                final(self).spec_widgets().entry_of(widget_hit.widget_id).widget,
            ),
    {
        let focused = match self.widgets.focused() {
            Some(f) => f == widget_hit.widget_id,
            None => false,
        };
        let ghost u0 = *self;
        let answer = self.widgets.act(widget_hit.widget_id, WidgetRequest::Release { focused });
        proof {
            lemma_same_view_covered(u0.canvas, self.canvas);
            Self::lemma_wf_after(u0, *self);
        }
        let action = match answer {
            Some(a) => a,
            None => WidgetAction::Released,
        };
        let e = map_widget_action(widget_hit.widget_id, Some(widget_hit), action);
        proof {
            if answer is Some {
                let kind = u0.widgets.entry_of(widget_hit.widget_id).widget;
                assert(answered(kind, WidgetRequest::Release { focused }, action) && e == spec_map_widget_action(
                    widget_hit.widget_id,
                    Some(widget_hit),
                    action,
                ));
                assert forall|j: int| 0 <= j < u0.widgets.spec_entries().len() implies (
                #[trigger] self.widgets.spec_entries()[j]).id == u0.widgets.spec_entries()[j].id by {}
                u0.widgets.lemma_same_ids_index(&self.widgets, widget_hit.widget_id);
            }
        }
        e
    }

    /// The effect of a release of the left button at `pos` on `self`, giving `after` and `e`.
    pub open spec fn mouse_up_effect(&self, after: Ui<C>, pos: Point, e: UiEvent<C::Action>) -> bool {
        &&& after.spec_drag() is None
        &&& self.spec_drag() matches Some(d) ==> {
            &&& e == spec_drag_end::<C::Action>(d, pos)
            &&& after.spec_canvas() == self.spec_canvas()
            &&& after.spec_widgets().spec_hovered() == (match self.spec_widget_hit_at_pos(pos) {
                Some(h) => Some(h.widget_id),
                None => None,
            })
        }
        &&& self.spec_drag() is None ==> {
            &&& after.spec_widgets().spec_pressed() is None
            &&& after.spec_canvas() == self.spec_canvas()
            &&& self.spec_widget_hit_at_pos(pos) is None ==> e is NoOp && after.spec_widgets().spec_hovered() is None
            &&& self.spec_widget_hit_at_pos(pos) matches Some(h) ==> {
                let w = self.spec_widgets();
                let kind = w.entry_of(h.widget_id).widget;
                &&& exists|a: WidgetAction<C::Action>|
                    #[trigger] answered(kind, release_request(w, h.widget_id), a) && e
                        == spec_map_widget_action(h.widget_id, Some(h), a)
                &&& after.spec_widgets().has_widget(h.widget_id)
                &&& changed_by(kind, release_request(w, h.widget_id), after.spec_widgets().entry_of(h.widget_id).widget)
            }
        }
    }

    /// Handles a mouse release: ends an active drag (re-syncing hover) and reports it;
    /// otherwise releases the pressed widget and reports the widget under the pointer's
    /// answer, or clears press and hover when the release is not over a widget.
    pub fn mouse_up(&mut self, pos: Point) -> (e: UiEvent<C::Action>)
        requires
            old(self).wf(),
        ensures
            final(self).wf(),
            old(self).mouse_up_effect(*final(self), pos, e),
    {
        match self.drag {
            Some(pointer_drag) => {
                self.drag = None;
                self.sync_hover(pos);
                return match pointer_drag {
                    PointerDrag::PaneMove { pane_id, .. } => UiEvent::PaneReleased { pane_id, kind: PaneDragKind::Move },
                    PointerDrag::PaneResize { pane_id } => UiEvent::PaneReleased { pane_id, kind: PaneDragKind::Resize },
                    PointerDrag::Content { pane_id, anchor, .. } => UiEvent::PaneContentDragEnd {
                        pane_id,
                        anchor,
                        current: pos,
                    },
                };
            },
            None => {},
        }
        let ghost u0 = *self;
        let widget_hit = match self.content_hit_at(pos) {
            Some((pane_id, _, content_local)) => {
                proof {
                    u0.widgets.lemma_widget_at_exists(u0.canvas, pane_id, content_local);
                }
                self.widgets.mouse_up(&self.canvas, pane_id, content_local)
            },
            None => None,
        };
        proof {
            lemma_same_view_covered(u0.canvas, self.canvas);
            Self::lemma_wf_after(u0, *self);
            if widget_hit is Some {
                let id = widget_hit->0.widget_id;
                u0.widgets.lemma_restated_ids(
                    &self.widgets,
                    |x: WidgetId| Some(x) == u0.widgets.spec_pressed(),
                    |x: WidgetId| Some(
                        match widget_hit {
                            Some(h) => h.widget_id == x,
                            None => false,
                        },
                    ),
                    |x: WidgetId| Some(false),
                    |x: WidgetId| None,
                );
                assert forall|j: int| 0 <= j < u0.widgets.spec_entries().len() implies (
                #[trigger] self.widgets.spec_entries()[j]).id == u0.widgets.spec_entries()[j].id by {}
                u0.widgets.lemma_same_ids_index(&self.widgets, id);
                let i = u0.widgets.index_of(id);
                assert(self.widgets.spec_entries()[i].widget.same_content(&u0.widgets.spec_entries()[i].widget)
                    || self.widgets.spec_entries()[i] == u0.widgets.spec_entries()[i]);
            }
        }
        match widget_hit {
            Some(h) => {
                let ghost u1 = *self;
                let e = self.release_widget_event(h);
                proof {
                    let focused = u0.widgets.spec_focused() == Some(h.widget_id);
                    let req = WidgetRequest::Release { focused };
                    let kind0 = u0.widgets.entry_of(h.widget_id).widget;
                    let kind1 = u1.widgets.entry_of(h.widget_id).widget;
                    assert(kind1.same_content(&kind0));
                    let a = choose|a: WidgetAction<C::Action>|
                        #[trigger] answered(kind1, req, a) && e == spec_map_widget_action(h.widget_id, Some(h), a);
                    lemma_answered_same_content(kind1, kind0, req, a);
                    assert(answered(kind0, req, a) && e == spec_map_widget_action(h.widget_id, Some(h), a));
                    lemma_changed_from_same(kind0, kind1, req, self.widgets.entry_of(h.widget_id).widget);
                }
                e
            },
            None => {
                self.widgets.clear_pressed();
                let ghost u1 = *self;
                self.widgets.clear_hover();
                proof {
                    lemma_same_view_covered(u0.canvas, self.canvas);
                    Self::lemma_wf_after(u0, *self);
                }
                UiEvent::NoOp
            },
        }
    }

    /// The effect of the key `key` on `self`, giving `after` and `e`.
    pub open spec fn key_effect(&self, after: Ui<C>, key: KeyEvent, e: UiEvent<C::Action>) -> bool {
        &&& after.spec_drag() == self.spec_drag()
        &&& after.spec_canvas() == self.spec_canvas()
        &&& after.spec_widgets().same_pointer(&self.spec_widgets())
        &&& self.spec_widgets().spec_focused() is None ==> e is NoOp && after == *self
        &&& (match self.spec_widgets().spec_focused() {
            Some(w) => !self.spec_widgets().has_widget(w),
            None => false,
        }) ==> e is NoOp
        &&& (match self.spec_widgets().spec_focused() {
            Some(w) => self.spec_widgets().has_widget(w),
            None => false,
        }) ==> {
            let w = self.spec_widgets().spec_focused()->0;
            let kind = self.spec_widgets().entry_of(w).widget;
            &&& exists|a: WidgetAction<C::Action>|
                #[trigger] answered(kind, key_request(key.code, kind), a) && e == spec_map_widget_action(
                    w,
                    None,
                    a,
                )
            &&& after.spec_widgets().has_widget(w)
            &&& changed_by(kind, key_request(key.code, kind), after.spec_widgets().entry_of(w).widget)
        }
    }

    /// Hands a key to the focused widget: Enter, and Space on a widget that is not an
    /// input, activate it; other keys go to it as keys. Nothing happens without a focused
    /// widget.
    pub fn key(&mut self, key: KeyEvent) -> (e: UiEvent<C::Action>)
        requires
            old(self).wf(),
        ensures
            final(self).wf(),
            old(self).key_effect(*final(self), key, e),
    {
        let widget_id = match self.widgets.focused() {
            Some(w) => w,
            None => {
                return UiEvent::NoOp;
            },
        };
        let is_input = match self.widgets.get(widget_id) {
            Some(w) => w.is_input(),
            None => false,
        };
        let req = match key.code {
            KeyCode::Enter => WidgetRequest::Activate,
            KeyCode::Char(c) => if c == ' ' && !is_input {
                WidgetRequest::Activate
            } else {
                WidgetRequest::Key(key.code)
            },
            other => WidgetRequest::Key(other),
        };
        let ghost u0 = *self;
        let answer = self.widgets.act(widget_id, req);
        proof {
            lemma_same_view_covered(u0.canvas, self.canvas);
            Self::lemma_wf_after(u0, *self);
        }
        let action = match answer {
            Some(a) => a,
            None => WidgetAction::NoOp,
        };
        let e = map_widget_action(widget_id, None, action);
        proof {
            if answer is Some {
                let kind = u0.widgets.entry_of(widget_id).widget;
                assert(answered(kind, key_request(key.code, kind), action) && e == spec_map_widget_action(
                    widget_id,
                    None,
                    action,
                ));
                assert forall|j: int| 0 <= j < u0.widgets.spec_entries().len() implies (
                #[trigger] self.widgets.spec_entries()[j]).id == u0.widgets.spec_entries()[j].id by {}
                u0.widgets.lemma_same_ids_index(&self.widgets, widget_id);
            }
        }
        e
    }

    /// The effect of the mouse event `mouse` on `self`, giving `after` and `e`: the left
    /// button's press, drag and release, and pointer moves (which continue a content drag),
    /// go to their handlers at the event's cell; other events do nothing.
    pub open spec fn mouse_effect(&self, after: Ui<C>, mouse: MouseEvent, e: UiEvent<C::Action>) -> bool {
        let pos = Point { x: mouse.column as usize, y: mouse.row as usize };
        match mouse.kind {
            MouseEventKind::Moved => if self.spec_drag() matches Some(PointerDrag::Content { .. }) {
                self.mouse_drag_effect(after, pos, e)
            } else {
                self.mouse_move_effect(after, pos, e)
            },
            MouseEventKind::Down(MouseButton::Left) => self.mouse_down_effect(after, pos, e),
            MouseEventKind::Drag(MouseButton::Left) => self.mouse_drag_effect(after, pos, e),
            MouseEventKind::Up(MouseButton::Left) => self.mouse_up_effect(after, pos, e),
            _ => e is NoOp && after == *self,
        }
    }

    /// Dispatches a mouse event: moves (drags while a content drag is captured), and
    /// left-button presses, drags and releases; other buttons do nothing.
    pub fn mouse(&mut self, mouse: MouseEvent) -> (e: UiEvent<C::Action>)
        requires
            old(self).wf(),
        ensures
            final(self).wf(),
            old(self).mouse_effect(*final(self), mouse, e),
    {
        let pos = Point::new(mouse.column as usize, mouse.row as usize);
        match mouse.kind {
            MouseEventKind::Moved => {
                let content_drag = match self.drag {
                    Some(PointerDrag::Content { .. }) => true,
                    _ => false,
                };
                if content_drag {
                    self.mouse_drag(pos)
                } else {
                    self.mouse_move(pos)
                }
            },
            MouseEventKind::Down(MouseButton::Left) => self.mouse_down(pos),
            MouseEventKind::Drag(MouseButton::Left) => self.mouse_drag(pos),
            MouseEventKind::Up(MouseButton::Left) => self.mouse_up(pos),
            _ => UiEvent::NoOp,
        }
    }

    /// Dispatches an input event to the key or mouse handler.
    pub fn handle_event(&mut self, event: Event) -> (e: UiEvent<C::Action>)
        requires
            old(self).wf(),
        ensures
            final(self).wf(),
            match event {
                Event::Key(key) => old(self).key_effect(*final(self), key, e),
                Event::Mouse(mouse) => old(self).mouse_effect(*final(self), mouse, e),
                Event::Other => e is NoOp && *final(self) == *old(self),
            },
    {
        match event {
            Event::Key(key) => self.key(key),
            Event::Mouse(mouse) => self.mouse(mouse),
            Event::Other => UiEvent::NoOp,
        }
    }
}

/// Space on a focused widget that is not an input does what Enter does: the same event
/// and the same resulting state.
pub proof fn lemma_space_is_enter_off_inputs<C: CustomWidget>(u: Ui<C>, after: Ui<C>, e: UiEvent<C::Action>)
    requires
        u.spec_widgets().spec_focused() is Some && u.spec_widgets().has_widget(u.spec_widgets().spec_focused()->0)
            ==> !(u.spec_widgets().entry_of(u.spec_widgets().spec_focused()->0).widget is Input),
    ensures
        u.key_effect(after, (KeyEvent { code: KeyCode::Char(' ') }), e) <==> u.key_effect(
            after,
            (KeyEvent { code: KeyCode::Enter }),
            e,
        ),
{
}

/// Space on a focused checkbox toggles it and reports the new state, as Enter does; on a
/// focused button it reports a click and leaves the button as it was.
pub proof fn lemma_space_toggles_and_clicks<C: CustomWidget>(u: Ui<C>, after: Ui<C>, e: UiEvent<C::Action>)
    requires
        u.spec_widgets().spec_focused() is Some,
        u.spec_widgets().has_widget(u.spec_widgets().spec_focused()->0),
        u.key_effect(after, (KeyEvent { code: KeyCode::Char(' ') }), e),
    ensures
        ({
            let id = u.spec_widgets().spec_focused()->0;
            &&& u.spec_widgets().entry_of(id).widget matches Widget::Checkbox(c) ==> {
                &&& e == (UiEvent::<C::Action>::CheckboxChanged { widget_id: id, checked: !c.spec_checked() })
                &&& after.spec_widgets().entry_of(id).widget matches Widget::Checkbox(c2)
                &&& c2.spec_checked() == !c.spec_checked()
                &&& c2.spec_label() == c.spec_label()
            }
            &&& u.spec_widgets().entry_of(id).widget is Button ==> after.spec_widgets().entry_of(id).widget.same_content(
                &u.spec_widgets().entry_of(id).widget,
            )
            &&& u.spec_widgets().entry_of(id).widget is Button ==> e == UiEvent::<C::Action>::WidgetClicked(
                (WidgetHit { widget_id: id, local: Point { x: 0, y: 0 } }),
            )
        }),
{
}

/// A focused input takes Space as a typed character: it goes in at the cursor, the
/// cursor moves past it, and the input reports that it changed.
pub proof fn lemma_space_types_into_inputs<C: CustomWidget>(u: Ui<C>, after: Ui<C>, e: UiEvent<C::Action>)
    requires
        u.spec_widgets().spec_focused() is Some,
        u.spec_widgets().has_widget(u.spec_widgets().spec_focused()->0),
        u.spec_widgets().entry_of(u.spec_widgets().spec_focused()->0).widget is Input,
        u.key_effect(after, (KeyEvent { code: KeyCode::Char(' ') }), e),
    ensures
        e == (UiEvent::<C::Action>::InputChanged { widget_id: u.spec_widgets().spec_focused()->0 }),
        ({
            let id = u.spec_widgets().spec_focused()->0;
            &&& u.spec_widgets().entry_of(id).widget matches Widget::Input(i0)
            &&& after.spec_widgets().entry_of(id).widget matches Widget::Input(i1)
            &&& i1.spec_value() == i0.spec_value().insert(i0.spec_cursor() as int, ' ')
            &&& i1.spec_cursor() == i0.spec_cursor() + 1
        }),
{
}

/// A press on the bottom-right corner cell of a bordered, resizable pane (the topmost
/// pane there) starts a resize drag of that pane.
pub proof fn lemma_corner_press_starts_resize<C: CustomWidget>(
    u: Ui<C>,
    after: Ui<C>,
    pos: Point,
    e: UiEvent<C::Action>,
    pane_id: PaneId,
)
    requires
        u.wf(),
        u.mouse_down_effect(after, pos, e),
        u.spec_canvas().spec_hit_at(pos) is Pane,
        u.spec_canvas().spec_hit_at(pos)->pane_id == pane_id,
        u.spec_canvas().has_pane(pane_id),
        u.spec_canvas().content_synced(pane_id),
        u.spec_canvas().spec_decor()[u.spec_canvas().index_of(pane_id)] matches PaneDecor::Window(win)
            && win.border is Some,
        u.spec_canvas().spec_policies()[u.spec_canvas().index_of(pane_id)].resizable,
        ({
            let r = u.spec_canvas().pane_of(pane_id).spec_rect();
            &&& r.width >= 1 && r.height >= 1
            &&& r.x + r.width <= usize::MAX && r.y + r.height <= usize::MAX
            &&& pos.x == r.x + r.width - 1 && pos.y == r.y + r.height - 1
        }),
    ensures
        e == (UiEvent::<C::Action>::PaneDragStart { pane_id, kind: PaneDragKind::Resize }),
        after.spec_drag() == Some(PointerDrag::PaneResize { pane_id }),
{
    let c = u.spec_canvas();
    let t = topmost(c.spec_panes(), pos);
    lemma_topmost(c.spec_panes(), pos);
    assert(t >= 0);
    c.lemma_index_of(pane_id, t);
}

} // verus!
