//! The widget store: widgets by pane, their layout and layers, damage, and hover, press
//! and focus state.
use vstd::prelude::*;

use crate::surface::backend::Layer;
use crate::surface::canvas::{
    Canvas, lemma_covers_trans, lemma_pane_edit_covered, lemma_panes_update, lemma_same_view_covered,
};
use crate::surface::geometry::{Point, Rect, min_of, sat_add, sat_sub, sub_sat};
use crate::surface::indexed_vec::{IndexedVec, Keyed, has_key, keys_unique};
use crate::surface::pane::{Pane, PaneId};
use crate::surface::glyph::Glyph;
use crate::ui::draw::{content_cell, in_content, row_drawn, rows_drawn};
use crate::ui::state::WidgetState;
use crate::ui::state::WidgetAction;
use crate::ui::text::clear_glyph_for;
use crate::ui::widget::{CustomWidget, Widget, WidgetRequest, answered, changed_by, lemma_changed_then_same};

verus! {

/// Unique identifier for a widget.
#[derive(Debug, PartialEq, Eq, Structural, PartialOrd, Ord, Hash, Copy, Clone)]
pub struct WidgetId(pub u32);

/// Hit information for a widget.
#[derive(Debug, Clone, Copy, PartialEq, Eq, Structural)]
pub struct WidgetHit {
    /// Unique identifier for the widget.
    pub widget_id: WidgetId,
    /// Position local to the widget's rect.
    pub local: Point,
}

/// Layout for a widget, relative to its pane's content area.
#[derive(Debug, Clone, Copy, PartialEq, Eq, Structural)]
pub enum WidgetLayout {
    /// A fixed content-local rect; it does not follow the pane's size.
    Fixed(Rect),
    /// The content area shrunk by the given margins.
    Inset { left: usize, top: usize, right: usize, bottom: usize },
    /// One row at `top`, between the given margins (no row when `top` is outside).
    Line { left: usize, top: usize, right: usize },
    /// The whole content area.
    Fill,
}

impl WidgetLayout {
    /// The content-local rect of the layout in a content area of `content`'s size.
    pub open spec fn spec_local(&self, content: Rect) -> Rect {
        match *self {
            WidgetLayout::Fixed(rect) => rect,
            WidgetLayout::Fill => Rect { x: 0, y: 0, width: content.width, height: content.height },
            WidgetLayout::Inset { left, top, right, bottom } => Rect {
                x: left,
                y: top,
                width: sat_sub(content.width as int, left + right) as usize,
                height: sat_sub(content.height as int, top + bottom) as usize,
            },
            WidgetLayout::Line { left, top, right } => Rect {
                x: left,
                y: top,
                width: sat_sub(content.width as int, left + right) as usize,
                height: if top < content.height {
                    1
                } else {
                    0
                },
            },
        }
    }

    /// A line sits on row `top` from column `left` up to `right` columns short of the
    /// content's right edge, one row high (none below the content); an inset keeps all four
    /// margins; both are empty when their margins do not fit. A fill takes the whole content
    /// and a fixed layout its own rectangle.
    pub proof fn lemma_margins_kept(&self, content: Rect)
        ensures
            *self == WidgetLayout::Fill ==> self.spec_local(content) == (Rect {
                x: 0,
                y: 0,
                width: content.width,
                height: content.height,
            }),
            (*self) matches WidgetLayout::Fixed(r) ==> self.spec_local(content) == r,
            (*self) matches WidgetLayout::Line { left, top, right } ==> {
                let r = self.spec_local(content);
                &&& r.x == left && r.y == top
                &&& left + right <= content.width ==> r.x + r.width == content.width - right
                &&& left + right > content.width ==> r.width == 0
                &&& r.height == (if top < content.height {
                    1int
                } else {
                    0
                })
            },
            (*self) matches WidgetLayout::Inset { left, top, right, bottom } ==> {
                let r = self.spec_local(content);
                &&& r.x == left && r.y == top
                &&& left + right <= content.width ==> r.x + r.width == content.width - right
                &&& left + right > content.width ==> r.width == 0
                &&& top + bottom <= content.height ==> r.y + r.height == content.height - bottom
                &&& top + bottom > content.height ==> r.height == 0
            },
    {
    }

    /// Resolves the widget layout against the pane's current content rect.
    pub fn as_local(&self, content: &Rect) -> (r: Rect)
        ensures
            r == self.spec_local(*content),
    {
        match *self {
            WidgetLayout::Fixed(rect) => rect,
            WidgetLayout::Fill => Rect { x: 0, y: 0, width: content.width, height: content.height },
            WidgetLayout::Inset { left, top, right, bottom } => {
                let h = if left <= usize::MAX - right {
                    sub_sat(content.width, left + right)
                } else {
                    0
                };
                let v = if top <= usize::MAX - bottom {
                    sub_sat(content.height, top + bottom)
                } else {
                    0
                };
                Rect { x: left, y: top, width: h, height: v }
            },
            WidgetLayout::Line { left, top, right } => {
                let h = if left <= usize::MAX - right {
                    sub_sat(content.width, left + right)
                } else {
                    0
                };
                Rect { x: left, y: top, width: h, height: if top < content.height {
                    1
                } else {
                    0
                } }
            },
        }
    }
}

/// One widget with its pane, layout, layer, visibility and enabled flag.
pub struct WidgetEntry<C> {
    pub id: WidgetId,
    pub pane_id: PaneId,
    pub layout: WidgetLayout,
    pub z_layer: Layer,
    pub visible: bool,
    pub enabled: bool,
    pub widget: Widget<C>,
}

impl<C> Keyed for WidgetEntry<C> {
    /// Entries are found by their widget's identifier.
    open spec fn spec_key(&self) -> u64 {
        self.id.0 as u64
    }

    fn key(&self) -> (k: u64) {
        self.id.0 as u64
    }
}

/// Stores widgets by pane and tracks hover, pressed, and focused state.
pub struct WidgetStore<C> {
    next_id: u32,
    entries: IndexedVec<WidgetEntry<C>>,
    full: Vec<PaneId>,
    damaged: Vec<WidgetId>,
    hovered: Option<WidgetId>,
    pressed: Option<WidgetId>,
    focused: Option<WidgetId>,
}

impl<C: CustomWidget> WidgetStore<C> {
    /// The identifier the next widget gets.
    pub closed spec fn spec_next_id(&self) -> u32 {
        self.next_id
    }

    /// The widgets, bottom layer first.
    pub closed spec fn spec_entries(&self) -> Seq<WidgetEntry<C>> {
        self.entries@
    }

    /// The entry store's hash index finds every entry by its widget's identifier.
    pub closed spec fn entries_indexed(&self) -> bool {
        self.entries.index_ok()
    }

    /// Panes whose widgets all need redraw.
    pub closed spec fn spec_full(&self) -> Seq<PaneId> {
        self.full@
    }

    /// Widgets that need redraw.
    pub closed spec fn spec_damaged(&self) -> Seq<WidgetId> {
        self.damaged@
    }

    /// The hovered widget.
    pub closed spec fn spec_hovered(&self) -> Option<WidgetId> {
        self.hovered
    }

    /// The pressed widget.
    pub closed spec fn spec_pressed(&self) -> Option<WidgetId> {
        self.pressed
    }

    /// The focused widget.
    pub closed spec fn spec_focused(&self) -> Option<WidgetId> {
        self.focused
    }

    /// A widget with identifier `id` exists.
    pub open spec fn has_widget(&self, id: WidgetId) -> bool {
        has_key(self.spec_entries(), id.0 as u64)
    }

    /// Position of the widget with identifier `id`.
    pub open spec fn index_of(&self, id: WidgetId) -> int {
        choose|i: int| 0 <= i < self.spec_entries().len() && #[trigger] self.spec_entries()[i].spec_key()
            == id.0 as u64
    }

    /// The entry of the widget with identifier `id`.
    pub open spec fn entry_of(&self, id: WidgetId) -> WidgetEntry<C> {
        self.spec_entries()[self.index_of(id)]
    }

    /// Some widget lives in pane `p`.
    pub open spec fn pane_has_widgets(&self, p: PaneId) -> bool {
        exists|i: int| 0 <= i < self.spec_entries().len() && #[trigger] self.spec_entries()[i].pane_id == p
    }

    /// Identifiers are distinct and below the next one, widgets are ordered by layer and
    /// well-formed, and damage only names existing panes and widgets.
    pub open spec fn wf(&self) -> bool {
        let e = self.spec_entries();
        &&& keys_unique(e)
        &&& self.entries_indexed()
        &&& forall|i: int| 0 <= i < e.len() ==> (#[trigger] e[i]).id.0 < self.spec_next_id()
        &&& forall|i: int| 0 <= i < e.len() ==> (#[trigger] e[i]).widget.wf()
        &&& forall|i: int, j: int|
            0 <= i < j < e.len() ==> (#[trigger] e[i]).z_layer.0 <= (#[trigger] e[j]).z_layer.0
        &&& forall|k: int| 0 <= k < self.spec_full().len() ==> self.pane_has_widgets(#[trigger] self.spec_full()[k])
        &&& forall|k: int| 0 <= k < self.spec_damaged().len() ==> self.has_widget(#[trigger] self.spec_damaged()[k])
    }

    /// Some pane still has widget damage to flush.
    pub open spec fn spec_has_damage(&self) -> bool {
        self.spec_full().len() > 0 || self.spec_damaged().len() > 0
    }

    /// The identifier `id` names the entry at `i`.
    pub proof fn lemma_index_of(&self, id: WidgetId, i: int)
        requires
            keys_unique(self.spec_entries()),
            0 <= i < self.spec_entries().len(),
            self.spec_entries()[i].id == id,
        ensures
            self.has_widget(id),
            self.index_of(id) == i,
    {
        assert(self.spec_entries()[i].spec_key() == id.0 as u64);
    }

    /// Creates an empty widget store.
    pub fn new() -> (s: Self)
        ensures
            s.wf(),
            s.spec_entries().len() == 0,
            s.spec_next_id() == 0,
            !s.spec_has_damage(),
            s.spec_hovered() is None,
            s.spec_pressed() is None,
            s.spec_focused() is None,
    {
        WidgetStore {
            next_id: 0,
            entries: IndexedVec::new(),
            full: Vec::new(),
            damaged: Vec::new(),
            hovered: None,
            pressed: None,
            focused: None,
        }
    }

    /// Position of the widget with identifier `widget_id`.
    fn find(&self, widget_id: WidgetId) -> (r: Option<usize>)
        requires
            self.wf(),
        ensures
            match r {
                Some(i) => self.has_widget(widget_id) && i == self.index_of(widget_id) && i
                    < self.spec_entries().len(),
                None => !self.has_widget(widget_id),
            },
    {
        match self.entries.position(widget_id.0 as u64) {
            Some(i) => {
                proof {
                    self.lemma_index_of(widget_id, i as int);
                }
                Some(i)
            },
            None => None,
        }
    }

    /// Adds a widget to a pane with the given layout, layer, visibility and enabled flag;
    /// it gets the next identifier, is placed after the widgets of the same or a lower
    /// layer, and it and its pane are marked for redraw.
    pub fn insert_widget(
        &mut self,
        pane_id: PaneId,
        z_layer: Layer,
        visible: bool,
        enabled: bool,
        widget: Widget<C>,
        layout: WidgetLayout,
    ) -> (id: WidgetId)
        requires
            old(self).wf(),
            widget.wf(),
            old(self).spec_next_id() < u32::MAX,
        ensures
            final(self).wf(),
            id == WidgetId(old(self).spec_next_id()),
            !old(self).has_widget(id),
            final(self).has_widget(id),
            final(self).spec_next_id() == old(self).spec_next_id() + 1,
            final(self).spec_entries().len() == old(self).spec_entries().len() + 1,
            ({
                let k = final(self).index_of(id);
                &&& 0 <= k <= old(self).spec_entries().len()
                &&& final(self).spec_entries() == old(self).spec_entries().insert(
                    k,
                    WidgetEntry { id, pane_id, layout, z_layer, visible, enabled, widget },
                )
                &&& forall|j: int| 0 <= j < k ==> (#[trigger] old(self).spec_entries()[j]).z_layer.0 <= z_layer.0
                &&& forall|j: int|
                    k <= j < old(self).spec_entries().len() ==> (#[trigger] old(self).spec_entries()[j]).z_layer.0
                        > z_layer.0
            }),
            final(self).spec_full() == old(self).spec_full().push(pane_id),
            final(self).spec_damaged() == old(self).spec_damaged().push(id),
            final(self).spec_hovered() == old(self).spec_hovered(),
            final(self).spec_pressed() == old(self).spec_pressed(),
            final(self).spec_focused() == old(self).spec_focused(),
    {
        let id = WidgetId(self.next_id);
        proof {
            if self.has_widget(id) {
                let j = self.index_of(id);
                assert(self.spec_entries()[j].id.0 < self.next_id);
            }
        }
        let slice = self.entries.as_slice();
        let n = slice.len();
        let mut idx: usize = 0;
        while idx < n && slice[idx].z_layer.0 <= z_layer.0
            invariant
                idx <= n,
                n == slice@.len(),
                slice@ == self.spec_entries(),
                forall|j: int| 0 <= j < idx ==> (#[trigger] slice@[j]).z_layer.0 <= z_layer.0,
            decreases n - idx,
        {
            idx += 1;
        }
        let ghost pre = *self;
        proof {
            assert forall|j: int| idx <= j < n implies (#[trigger] pre.spec_entries()[j]).z_layer.0
                > z_layer.0 by {
                assert(pre.spec_entries()[idx as int].z_layer.0 <= pre.spec_entries()[j].z_layer.0);
            }
        }
        let entry = WidgetEntry { id, pane_id, layout, z_layer, visible, enabled, widget };
        let ghost en = entry;
        self.entries.insert_at(idx, entry);
        self.next_id = self.next_id + 1;
        self.full.push(pane_id);
        self.damaged.push(id);
        proof {
            let e = self.spec_entries();
            assert(e == pre.spec_entries().insert(idx as int, en));
            assert(e[idx as int].pane_id == pane_id);
            assert forall|j: int| 0 <= j < e.len() implies (#[trigger] e[j]).id.0 < self.next_id && e[j].widget.wf() by {
                if j < idx {
                    assert(e[j] == pre.spec_entries()[j]);
                } else if j > idx {
                    assert(e[j] == pre.spec_entries()[j - 1]);
                }
            }
            assert forall|a: int, b: int| 0 <= a < b < e.len() implies (#[trigger] e[a]).z_layer.0 <= (
            #[trigger] e[b]).z_layer.0 by {
                if a < idx && b < idx {
                    assert(e[a] == pre.spec_entries()[a]);
                    assert(e[b] == pre.spec_entries()[b]);
                } else if a < idx && b == idx {
                    assert(e[a] == pre.spec_entries()[a]);
                } else if a < idx {
                    assert(e[a] == pre.spec_entries()[a]);
                    assert(e[b] == pre.spec_entries()[b - 1]);
                } else if a == idx {
                    assert(e[b] == pre.spec_entries()[b - 1]);
                } else {
                    assert(e[a] == pre.spec_entries()[a - 1]);
                    assert(e[b] == pre.spec_entries()[b - 1]);
                }
            }
            assert forall|k: int| 0 <= k < self.spec_full().len() implies self.pane_has_widgets(
                #[trigger] self.spec_full()[k],
            ) by {
                if k < pre.spec_full().len() {
                    let p = pre.spec_full()[k];
                    assert(pre.pane_has_widgets(p));
                    let j = choose|j: int| 0 <= j < pre.spec_entries().len() && #[trigger] pre.spec_entries()[j].pane_id == p;
                    if j < idx {
                        assert(e[j] == pre.spec_entries()[j]);
                    } else {
                        assert(e[j + 1] == pre.spec_entries()[j]);
                    }
                }
            }
            self.lemma_index_of(id, idx as int);
            assert forall|k: int| 0 <= k < self.spec_damaged().len() implies self.has_widget(
                #[trigger] self.spec_damaged()[k],
            ) by {
                if k < pre.spec_damaged().len() {
                    let d = pre.spec_damaged()[k];
                    assert(pre.has_widget(d));
                    let j = choose|j: int| 0 <= j < pre.spec_entries().len() && #[trigger] pre.spec_entries()[j].spec_key() == d.0 as u64;
                    if j < idx {
                        assert(e[j] == pre.spec_entries()[j]);
                    } else {
                        assert(e[j + 1] == pre.spec_entries()[j]);
                    }
                }
            }
        }
        id
    }

    /// Adds a widget to a pane on the bottom layer, visible and enabled.
    pub fn add_widget(&mut self, pane_id: PaneId, widget: Widget<C>, layout: WidgetLayout) -> (id: WidgetId)
        requires
            old(self).wf(),
            widget.wf(),
            old(self).spec_next_id() < u32::MAX,
        ensures
            final(self).wf(),
            id == WidgetId(old(self).spec_next_id()),
            !old(self).has_widget(id),
            final(self).has_widget(id),
            final(self).entry_of(id).pane_id == pane_id,
            final(self).entry_of(id).layout == layout,
            final(self).entry_of(id).z_layer == Layer(0),
            final(self).entry_of(id).visible,
            final(self).entry_of(id).enabled,
            final(self).spec_next_id() == old(self).spec_next_id() + 1,
            final(self).spec_entries().len() == old(self).spec_entries().len() + 1,
            ({
                let k = final(self).index_of(id);
                &&& 0 <= k <= old(self).spec_entries().len()
                &&& final(self).spec_entries() == old(self).spec_entries().insert(
                    k,
                    WidgetEntry { id, pane_id, layout, z_layer: Layer(0), visible: true, enabled: true, widget },
                )
                &&& forall|j: int| 0 <= j < k ==> (#[trigger] old(self).spec_entries()[j]).z_layer.0 == 0
                &&& forall|j: int|
                    k <= j < old(self).spec_entries().len() ==> (#[trigger] old(self).spec_entries()[j]).z_layer.0 > 0
            }),
            final(self).spec_full() == old(self).spec_full().push(pane_id),
            final(self).spec_damaged() == old(self).spec_damaged().push(id),
            final(self).spec_hovered() == old(self).spec_hovered(),
            final(self).spec_pressed() == old(self).spec_pressed(),
            final(self).spec_focused() == old(self).spec_focused(),
    {
        let ghost pre = *self;
        let id = self.insert_widget(pane_id, Layer(0), true, true, widget, layout);
        proof {
            let k = self.index_of(id);
            assert(self.spec_entries()[k] == WidgetEntry {
                id,
                pane_id,
                layout,
                z_layer: Layer(0),
                visible: true,
                enabled: true,
                widget,
            });
        }
        id
    }

    /// Returns the parent pane for a widget.
    pub fn pane_id_of(&self, widget_id: WidgetId) -> (p: Option<PaneId>)
        requires
            self.wf(),
        ensures
            match p {
                Some(p) => self.has_widget(widget_id) && p == self.entry_of(widget_id).pane_id,
                None => !self.has_widget(widget_id),
            },
    {
        match self.find(widget_id) {
            Some(i) => Some(self.entries.as_slice()[i].pane_id),
            None => None,
        }
    }

    /// Returns a widget.
    pub fn get(&self, widget_id: WidgetId) -> (w: Option<&Widget<C>>)
        requires
            self.wf(),
        ensures
            match w {
                Some(w) => self.has_widget(widget_id) && *w == self.entry_of(widget_id).widget,
                None => !self.has_widget(widget_id),
            },
    {
        match self.find(widget_id) {
            Some(i) => Some(&self.entries.as_slice()[i].widget),
            None => None,
        }
    }

    /// Returns the currently focused widget.
    pub fn focused(&self) -> (f: Option<WidgetId>)
        ensures
            f == self.spec_focused(),
    {
        self.focused
    }

    /// Returns the currently pressed widget, if any.
    pub fn pressed(&self) -> (p: Option<WidgetId>)
        ensures
            p == self.spec_pressed(),
    {
        self.pressed
    }

    /// Returns the currently hovered widget, if any.
    pub fn hovered(&self) -> (h: Option<WidgetId>)
        ensures
            h == self.spec_hovered(),
    {
        self.hovered
    }

    /// Returns true when any pane still has widget damage to flush.
    pub fn has_damage(&self) -> (b: bool)
        ensures
            b == self.spec_has_damage(),
    {
        self.full.len() > 0 || self.damaged.len() > 0
    }
}


/// Replacing entry `i` by one with the same identifier, pane and layer and a well-formed
/// widget keeps the entries ordered and their identifiers distinct.
pub proof fn lemma_entries_update<C: CustomWidget>(s: Seq<WidgetEntry<C>>, i: int, q: WidgetEntry<C>)
    requires
        keys_unique(s),
        0 <= i < s.len(),
        q.id == s[i].id,
        q.z_layer == s[i].z_layer,
    ensures
        keys_unique(s.update(i, q)),
{
    let t = s.update(i, q);
    assert forall|a: int, b: int|
        0 <= a < t.len() && 0 <= b < t.len() && a != b implies #[trigger] t[a].spec_key()
        != #[trigger] t[b].spec_key() by {
        assert(s[a].spec_key() != s[b].spec_key());
    }
}

/// The state `s` after setting the flags that are given.
pub open spec fn flags_set(
    s: WidgetState,
    hovered: Option<bool>,
    pressed: Option<bool>,
    focused: Option<bool>,
    t: WidgetState,
) -> bool {
    &&& t.spec_damaged()
    &&& t.spec_hovered() == (match hovered {
        Some(v) => v,
        None => s.spec_hovered(),
    })
    &&& t.spec_pressed() == (match pressed {
        Some(v) => v,
        None => s.spec_pressed(),
    })
    &&& t.spec_focused() == (match focused {
        Some(v) => v,
        None => s.spec_focused(),
    })
}

/// Entry `e1` is `e0` with at most its widget's interaction state changed.
pub open spec fn restated<C: CustomWidget>(e1: WidgetEntry<C>, e0: WidgetEntry<C>) -> bool {
    &&& e1.id == e0.id && e1.pane_id == e0.pane_id && e1.layout == e0.layout
    &&& e1.z_layer == e0.z_layer && e1.visible == e0.visible && e1.enabled == e0.enabled
    &&& e1.widget.same_content(&e0.widget)
}

/// Each entry of `new` is the one of `old` at the same place: where `touched` holds of its
/// identifier, with the flags that `hovered`, `pressed` and `focused` give for it set and
/// damage marked; elsewhere unchanged.
pub open spec fn entries_restated<C: CustomWidget>(
    new: Seq<WidgetEntry<C>>,
    old: Seq<WidgetEntry<C>>,
    touched: spec_fn(WidgetId) -> bool,
    hovered: spec_fn(WidgetId) -> Option<bool>,
    pressed: spec_fn(WidgetId) -> Option<bool>,
    focused: spec_fn(WidgetId) -> Option<bool>,
) -> bool {
    &&& new.len() == old.len()
    &&& forall|j: int|
        #![trigger new[j]]
        0 <= j < old.len() ==> if touched(old[j].id) {
            restated(new[j], old[j]) && flags_set(
                old[j].widget.spec_state(),
                hovered(old[j].id),
                pressed(old[j].id),
                focused(old[j].id),
                new[j].widget.spec_state(),
            )
        } else {
            new[j] == old[j]
        }
}

/// The flag after two edits: the second one's where it touched and set it, else the
/// first one's where it touched.
pub open spec fn pick(t1: bool, v1: Option<bool>, t2: bool, v2: Option<bool>) -> Option<bool> {
    if t2 && v2 is Some {
        v2
    } else if t1 {
        v1
    } else {
        None
    }
}

/// Two restatements in a row are one.
pub proof fn lemma_restated_trans<C: CustomWidget>(
    a: Seq<WidgetEntry<C>>,
    b: Seq<WidgetEntry<C>>,
    c: Seq<WidgetEntry<C>>,
    t1: spec_fn(WidgetId) -> bool,
    h1: spec_fn(WidgetId) -> Option<bool>,
    p1: spec_fn(WidgetId) -> Option<bool>,
    f1: spec_fn(WidgetId) -> Option<bool>,
    t2: spec_fn(WidgetId) -> bool,
    h2: spec_fn(WidgetId) -> Option<bool>,
    p2: spec_fn(WidgetId) -> Option<bool>,
    f2: spec_fn(WidgetId) -> Option<bool>,
)
    requires
        entries_restated(b, a, t1, h1, p1, f1),
        entries_restated(c, b, t2, h2, p2, f2),
    ensures
        entries_restated(
            c,
            a,
            |x: WidgetId| t1(x) || t2(x),
            |x: WidgetId| pick(t1(x), h1(x), t2(x), h2(x)),
            |x: WidgetId| pick(t1(x), p1(x), t2(x), p2(x)),
            |x: WidgetId| pick(t1(x), f1(x), t2(x), f2(x)),
        ),
{
    assert forall|j: int| 0 <= j < a.len() implies #[trigger] c[j] == c[j] by {
        assert(b[j] == b[j]);
    }
}

impl<C: CustomWidget> WidgetStore<C> {
    /// Hover, press and focus are the same in both stores.
    pub open spec fn same_pointer(&self, other: &WidgetStore<C>) -> bool {
        &&& self.spec_hovered() == other.spec_hovered()
        &&& self.spec_pressed() == other.spec_pressed()
        &&& self.spec_focused() == other.spec_focused()
    }

    /// Compared with `old`, only the widget `id` changed, and only in its interaction state,
    /// which is `old`'s with the given flags set and damage marked; the widget is queued for
    /// redraw.
    pub open spec fn flags_edited(
        &self,
        old: &WidgetStore<C>,
        id: WidgetId,
        hovered: Option<bool>,
        pressed: Option<bool>,
        focused: Option<bool>,
    ) -> bool {
        let i = old.index_of(id);
        let e0 = old.spec_entries()[i];
        let e1 = self.spec_entries()[i];
        &&& self.spec_entries().len() == old.spec_entries().len()
        &&& forall|j: int|
            0 <= j < old.spec_entries().len() && j != i ==> #[trigger] self.spec_entries()[j]
                == old.spec_entries()[j]
        &&& e1.id == e0.id && e1.pane_id == e0.pane_id && e1.layout == e0.layout
        &&& e1.z_layer == e0.z_layer && e1.visible == e0.visible && e1.enabled == e0.enabled
        &&& e1.widget.same_content(&e0.widget)
        &&& flags_set(e0.widget.spec_state(), hovered, pressed, focused, e1.widget.spec_state())
        &&& self.spec_damaged() == old.spec_damaged().push(id)
    }

    /// What editing widget `id` to set the given flags does: the widget is marked damaged
    /// and queued for redraw, and the flags are set. Returns `false`, changing nothing, for
    /// an unknown widget.
    fn edit_flags(
        &mut self,
        id: WidgetId,
        hovered: Option<bool>,
        pressed: Option<bool>,
        focused: Option<bool>,
    ) -> (found: bool)
        requires
            old(self).wf(),
        ensures
            final(self).wf(),
            found == old(self).has_widget(id),
            final(self).spec_next_id() == old(self).spec_next_id(),
            final(self).spec_full() == old(self).spec_full(),
            final(self).same_pointer(old(self)),
            !found ==> final(self).spec_entries() == old(self).spec_entries() && final(self).spec_damaged()
                == old(self).spec_damaged(),
            found ==> final(self).flags_edited(old(self), id, hovered, pressed, focused),
            entries_restated(
                final(self).spec_entries(),
                old(self).spec_entries(),
                |x: WidgetId| x == id,
                |x: WidgetId| hovered,
                |x: WidgetId| pressed,
                |x: WidgetId| focused,
            ),
    {
        let i = match self.find(id) {
            Some(i) => i,
            None => {
                proof {
                    assert forall|j: int| 0 <= j < self.spec_entries().len() implies self.spec_entries()[j].id
                        != id by {
                        if self.spec_entries()[j].id == id {
                            self.lemma_index_of(id, j);
                        }
                    }
                }
                return false;
            },
        };
        let ghost pre = *self;
        self.damaged.push(id);
        let e = self.entries.get_index_mut(i);
        e.widget.set_damaged(true);
        match hovered {
            Some(v) => e.widget.set_hovered(v),
            None => {},
        }
        match pressed {
            Some(v) => e.widget.set_pressed(v),
            None => {},
        }
        match focused {
            Some(v) => e.widget.set_focused(v),
            None => {},
        }
        proof {
            let q = self.spec_entries()[i as int];
            lemma_entries_update(pre.spec_entries(), i as int, q);
            let es = self.spec_entries();
            assert(es == pre.spec_entries().update(i as int, q));
            assert forall|a: int, b: int| 0 <= a < b < es.len() implies (#[trigger] es[a]).z_layer.0 <= (
            #[trigger] es[b]).z_layer.0 by {
                assert(pre.spec_entries()[a].z_layer.0 <= pre.spec_entries()[b].z_layer.0);
            }
            assert forall|k: int| 0 <= k < self.spec_full().len() implies self.pane_has_widgets(
                #[trigger] self.spec_full()[k],
            ) by {
                let p = pre.spec_full()[k];
                assert(pre.pane_has_widgets(p));
                let j = choose|j: int| 0 <= j < pre.spec_entries().len() && #[trigger] pre.spec_entries()[j].pane_id == p;
                assert(es[j].pane_id == p);
            }
            self.lemma_index_of(id, i as int);
            assert forall|k: int| 0 <= k < self.spec_damaged().len() implies self.has_widget(
                #[trigger] self.spec_damaged()[k],
            ) by {
                if k < pre.spec_damaged().len() {
                    let d = self.spec_damaged()[k];
                    assert(pre.has_widget(d));
                    let j = choose|j: int| 0 <= j < pre.spec_entries().len() && #[trigger] pre.spec_entries()[j].spec_key() == d.0 as u64;
                    assert(es[j].spec_key() == d.0 as u64);
                }
            }
            assert forall|j: int| 0 <= j < pre.spec_entries().len() && pre.spec_entries()[j].id == id implies j
                == i by {
                assert(pre.spec_entries()[j].spec_key() == pre.spec_entries()[i as int].spec_key());
            }
        }
        true
    }

    /// Marks one widget as needing redraw.
    pub fn invalidate_widget(&mut self, widget_id: WidgetId)
        requires
            old(self).wf(),
        ensures
            final(self).wf(),
            final(self).spec_full() == old(self).spec_full(),
            final(self).same_pointer(old(self)),
            !old(self).has_widget(widget_id) ==> final(self).spec_entries() == old(self).spec_entries()
                && final(self).spec_damaged() == old(self).spec_damaged(),
            old(self).has_widget(widget_id) ==> final(self).flags_edited(old(self), widget_id, None, None, None),
    {
        self.edit_flags(widget_id, None, None, None);
    }

    /// Marks every widget in a pane as needing redraw (nothing for a pane without widgets).
    pub fn invalidate_pane(&mut self, pane_id: PaneId)
        requires
            old(self).wf(),
        ensures
            final(self).wf(),
            final(self).spec_entries() == old(self).spec_entries(),
            final(self).spec_damaged() == old(self).spec_damaged(),
            final(self).same_pointer(old(self)),
            final(self).spec_full() == (if old(self).pane_has_widgets(pane_id) {
                old(self).spec_full().push(pane_id)
            } else {
                old(self).spec_full()
            }),
    {
        let n = self.entries.len();
        let mut i: usize = 0;
        while i < n && self.entries.as_slice()[i].pane_id != pane_id
            invariant
                i <= n,
                n == self.spec_entries().len(),
                forall|j: int| 0 <= j < i ==> (#[trigger] self.spec_entries()[j]).pane_id != pane_id,
            decreases n - i,
        {
            i += 1;
        }
        if i < n {
            let ghost pre = *self;
            self.full.push(pane_id);
            proof {
                assert(self.spec_entries() == pre.spec_entries());
                assert(self.spec_damaged() == pre.spec_damaged());
                assert(pre.spec_entries()[i as int].pane_id == pane_id);
                assert(pre.pane_has_widgets(pane_id));
                assert forall|k: int| 0 <= k < self.spec_full().len() implies self.pane_has_widgets(
                    #[trigger] self.spec_full()[k],
                ) by {
                    if k < pre.spec_full().len() {
                        assert(self.spec_full()[k] == pre.spec_full()[k]);
                    }
                }
            }
        }
    }

    /// Marks every widget in every pane as needing redraw.
    pub fn invalidate_all(&mut self)
        requires
            old(self).wf(),
        ensures
            final(self).wf(),
            final(self).spec_entries() == old(self).spec_entries(),
            final(self).spec_damaged() == old(self).spec_damaged(),
            final(self).same_pointer(old(self)),
            forall|i: int|
                0 <= i < old(self).spec_entries().len() ==> final(self).spec_full().contains(
                    #[trigger] old(self).spec_entries()[i].pane_id,
                ),
            forall|k: int|
                0 <= k < final(self).spec_full().len() ==> old(self).spec_full().contains(
                    #[trigger] final(self).spec_full()[k],
                ) || old(self).pane_has_widgets(final(self).spec_full()[k]),
    {
        let n = self.entries.len();
        let ghost pre = *self;
        let mut i: usize = 0;
        while i < n
            invariant
                i <= n,
                n == self.spec_entries().len(),
                self.spec_entries() == pre.spec_entries(),
                self.spec_damaged() == pre.spec_damaged(),
                self.same_pointer(&pre),
                self.spec_next_id() == pre.spec_next_id(),
                self.entries_indexed(),
                pre.wf(),
                forall|j: int| 0 <= j < i ==> self.spec_full().contains(#[trigger] pre.spec_entries()[j].pane_id),
                forall|k: int|
                    0 <= k < self.spec_full().len() ==> pre.spec_full().contains(#[trigger] self.spec_full()[k])
                        || pre.pane_has_widgets(self.spec_full()[k]),
            decreases n - i,
        {
            let p = self.entries.as_slice()[i].pane_id;
            let ghost before = self.spec_full();
            self.full.push(p);
            proof {
                assert(self.spec_full()[before.len() as int] == p);
                assert forall|j: int| 0 <= j < i + 1 implies self.spec_full().contains(
                    #[trigger] pre.spec_entries()[j].pane_id,
                ) by {
                    if j < i {
                        let k = choose|k: int| 0 <= k < before.len() && before[k] == pre.spec_entries()[j].pane_id;
                        assert(self.spec_full()[k] == before[k]);
                    }
                }
                assert forall|k: int| 0 <= k < self.spec_full().len() implies pre.spec_full().contains(
                    #[trigger] self.spec_full()[k],
                ) || pre.pane_has_widgets(self.spec_full()[k]) by {
                    if k < before.len() {
                        assert(self.spec_full()[k] == before[k]);
                    } else {
                        assert(pre.spec_entries()[i as int].pane_id == p);
                    }
                }
            }
            i += 1;
        }
        proof {
            assert forall|k: int| 0 <= k < self.spec_full().len() implies self.pane_has_widgets(
                #[trigger] self.spec_full()[k],
            ) by {
                let p = self.spec_full()[k];
                if pre.spec_full().contains(p) {
                    let m = choose|m: int| 0 <= m < pre.spec_full().len() && pre.spec_full()[m] == p;
                    assert(pre.pane_has_widgets(pre.spec_full()[m]));
                }
            }
        }
    }

    /// Marks `widget_id` as focused (and the previously focused widget as not focused);
    /// focus is recorded even for an unknown widget.
    pub fn focus(&mut self, widget_id: Option<WidgetId>)
        requires
            old(self).wf(),
        ensures
            final(self).wf(),
            final(self).spec_focused() == widget_id,
            final(self).spec_next_id() == old(self).spec_next_id(),
            final(self).spec_hovered() == old(self).spec_hovered(),
            final(self).spec_pressed() == old(self).spec_pressed(),
            final(self).spec_full() == old(self).spec_full(),
            final(self).spec_entries().len() == old(self).spec_entries().len(),
            entries_restated(
                final(self).spec_entries(),
                old(self).spec_entries(),
                |x: WidgetId| widget_id != old(self).spec_focused() && (Some(x) == old(self).spec_focused() || Some(x)
                    == widget_id),
                |x: WidgetId| None,
                |x: WidgetId| None,
                |x: WidgetId| Some(Some(x) == widget_id),
            ),
    {
        let same = match (self.focused, widget_id) {
            (Some(a), Some(b)) => a == b,
            (None, None) => true,
            _ => false,
        };
        if same {
            return;
        }
        let ghost s0 = *self;
        match self.focused {
            Some(o) => {
                self.edit_flags(o, None, None, Some(false));
            },
            None => {},
        }
        let ghost s1 = *self;
        self.focused = widget_id;
        let ghost s2 = *self;
        assert(s2.wf()) by {
            assert(s2.spec_entries() == s1.spec_entries());
            assert(s2.spec_full() == s1.spec_full());
            assert(s2.spec_damaged() == s1.spec_damaged());
        }
        match widget_id {
            Some(n) => {
                self.edit_flags(n, None, None, Some(true));
            },
            None => {},
        }
        proof {
            assert forall|j: int| 0 <= j < s0.spec_entries().len() implies {
                let e0 = s0.spec_entries()[j];
                let e1 = #[trigger] self.spec_entries()[j];
                &&& e1.id == e0.id && e1.pane_id == e0.pane_id && e1.layout == e0.layout
                &&& e1.z_layer == e0.z_layer && e1.visible == e0.visible && e1.enabled == e0.enabled
                &&& e1.widget.same_content(&e0.widget)
                &&& widget_id != s0.spec_focused() && (Some(e0.id) == s0.spec_focused()
                    || Some(e0.id) == widget_id) ==> flags_set(
                    e0.widget.spec_state(),
                    None,
                    None,
                    Some(Some(e0.id) == widget_id),
                    e1.widget.spec_state(),
                )
                &&& !(widget_id != s0.spec_focused() && (Some(e0.id) == s0.spec_focused()
                    || Some(e0.id) == widget_id)) ==> e1 == e0
            } by {
                let e0 = s0.spec_entries()[j];
                if s0.spec_focused() == Some(e0.id) {
                    s0.lemma_index_of(e0.id, j);
                }
                assert(s1.spec_entries()[j].id == e0.id);
                if widget_id == Some(e0.id) {
                    s2.lemma_index_of(e0.id, j);
                }
            }
        }
    }
}


/// The entry lies in pane `pane_id`, is shown and enabled, and its rect in a content area
/// `content` covers the content-local point `pt`.
pub open spec fn entry_hit<C>(e: WidgetEntry<C>, pane_id: PaneId, content: Rect, pt: Point) -> bool {
    &&& e.pane_id == pane_id
    &&& e.visible
    &&& e.enabled
    &&& e.layout.spec_local(content).spec_contains(pt.x as int, pt.y as int)
}

/// Position of the last entry of `e`, the topmost, hit at `pt`; -1 when none is.
pub open spec fn hit_index<C>(e: Seq<WidgetEntry<C>>, pane_id: PaneId, content: Rect, pt: Point) -> int
    decreases e.len(),
{
    if e.len() == 0 {
        -1
    } else if entry_hit(e.last(), pane_id, content, pt) {
        e.len() - 1
    } else {
        hit_index(e.drop_last(), pane_id, content, pt)
    }
}

/// The hit index names a hit entry, and no later entry is hit.
pub proof fn lemma_hit_index<C>(e: Seq<WidgetEntry<C>>, pane_id: PaneId, content: Rect, pt: Point)
    ensures
        -1 <= hit_index(e, pane_id, content, pt) < e.len(),
        hit_index(e, pane_id, content, pt) >= 0 ==> entry_hit(
            e[hit_index(e, pane_id, content, pt)],
            pane_id,
            content,
            pt,
        ),
        forall|j: int|
            hit_index(e, pane_id, content, pt) < j < e.len() ==> !entry_hit(#[trigger] e[j], pane_id, content, pt),
    decreases e.len(),
{
    if e.len() > 0 && !entry_hit(e.last(), pane_id, content, pt) {
        lemma_hit_index(e.drop_last(), pane_id, content, pt);
        assert forall|j: int| hit_index(e, pane_id, content, pt) < j < e.len() implies !entry_hit(
            #[trigger] e[j],
            pane_id,
            content,
            pt,
        ) by {
            if j < e.len() - 1 {
                assert(e[j] == e.drop_last()[j]);
            }
        }
    }
}

/// The hit of entry `e` at `pt` in a content area `content`: its identifier and `pt`
/// relative to its rect.
pub open spec fn hit_of<C>(e: WidgetEntry<C>, content: Rect, pt: Point) -> WidgetHit {
    let r = e.layout.spec_local(content);
    WidgetHit {
        widget_id: e.id,
        local: Point { x: sat_sub(pt.x as int, r.x as int) as usize, y: sat_sub(pt.y as int, r.y as int) as usize },
    }
}

impl<C: CustomWidget> WidgetStore<C> {
    /// The widget hit at content-local `pt` of pane `pane_id`: the topmost shown and
    /// enabled widget of that pane whose rect covers `pt`.
    pub open spec fn spec_widget_at(&self, canvas: Canvas, pane_id: PaneId, pt: Point) -> Option<WidgetHit> {
        if !canvas.has_pane(pane_id) {
            None
        } else {
            let content = canvas.pane_of(pane_id).spec_content();
            let k = hit_index(self.spec_entries(), pane_id, content, pt);
            if k < 0 {
                None
            } else {
                Some(hit_of(self.spec_entries()[k], content, pt))
            }
        }
    }

    /// Hit-tests the widgets of a pane at a content-local point.
    pub fn widget_at(&self, canvas: &Canvas, pane_id: PaneId, content_local: Point) -> (r: Option<WidgetHit>)
        requires
            self.wf(),
            canvas.wf(),
        ensures
            r == self.spec_widget_at(*canvas, pane_id, content_local),
    {
        let content = match canvas.content_rect(pane_id) {
            Some(c) => c,
            None => {
                return None;
            },
        };
        let slice = self.entries.as_slice();
        let mut i = slice.len();
        while i > 0
            invariant
                i <= slice@.len(),
                slice@ == self.spec_entries(),
                canvas.has_pane(pane_id),
                content == canvas.pane_of(pane_id).spec_content(),
                forall|j: int| i <= j < slice@.len() ==> !entry_hit(#[trigger] slice@[j], pane_id, content, content_local),
            decreases i,
        {
            i -= 1;
            let e = &slice[i];
            if e.pane_id == pane_id && e.visible && e.enabled {
                let rect = e.layout.as_local(&content);
                if rect.contains_point(content_local) {
                    proof {
                        lemma_hit_index(self.spec_entries(), pane_id, content, content_local);
                        assert(entry_hit(slice@[i as int], pane_id, content, content_local));
                        assert(hit_index(self.spec_entries(), pane_id, content, content_local) == i);
                    }
                    return Some(
                        WidgetHit { widget_id: e.id, local: content_local.saturating_sub(rect.origin()) },
                    );
                }
            }
        }
        proof {
            lemma_hit_index(self.spec_entries(), pane_id, content, content_local);
        }
        None
    }

    /// The rect of widget `id` in its pane's content area, when both exist.
    pub open spec fn spec_widget_rect(&self, canvas: Canvas, id: WidgetId) -> Option<Rect> {
        if self.has_widget(id) && canvas.has_pane(self.entry_of(id).pane_id) {
            Some(self.entry_of(id).layout.spec_local(canvas.pane_of(self.entry_of(id).pane_id).spec_content()))
        } else {
            None
        }
    }

    /// Resolves one widget rect against its pane's current content rect.
    pub fn widget_rect(&self, canvas: &Canvas, widget_id: WidgetId) -> (r: Option<Rect>)
        requires
            self.wf(),
            canvas.wf(),
        ensures
            r == self.spec_widget_rect(*canvas, widget_id),
    {
        let i = match self.find(widget_id) {
            Some(i) => i,
            None => {
                return None;
            },
        };
        let e = &self.entries.as_slice()[i];
        match canvas.content_rect(e.pane_id) {
            Some(content) => Some(e.layout.as_local(&content)),
            None => None,
        }
    }

    /// Well-formedness does not depend on hover, press and focus.
    proof fn lemma_wf_parts(&self, other: WidgetStore<C>)
        requires
            self.wf(),
            other.spec_next_id() == self.spec_next_id(),
            other.spec_entries() == self.spec_entries(),
            other.spec_full() == self.spec_full(),
            other.spec_damaged() == self.spec_damaged(),
            other.entries_indexed(),
        ensures
            other.wf(),
    {
    }

    /// A store that differs from this one only in the widget at `i`, which stays
    /// well-formed, and in queueing that widget for redraw, is well-formed.
    proof fn lemma_restated_wf(&self, i: int)
        requires
            self.wf(),
            0 <= i < self.spec_entries().len(),
        ensures
            forall|new: WidgetStore<C>|
                #![trigger new.wf()]
                new.spec_next_id() == self.spec_next_id() && new.spec_full() == self.spec_full()
                    && new.spec_damaged() == self.spec_damaged().push(self.spec_entries()[i].id)
                    && new.spec_entries().len() == self.spec_entries().len()
                    && (forall|j: int| 0 <= j < self.spec_entries().len() && j != i ==> #[trigger] new.spec_entries()[j] == self.spec_entries()[j])
                    && new.spec_entries()[i].id == self.spec_entries()[i].id
                    && new.spec_entries()[i].pane_id == self.spec_entries()[i].pane_id
                    && new.spec_entries()[i].z_layer == self.spec_entries()[i].z_layer
                    && new.spec_entries()[i].widget.wf() && new.entries_indexed() ==> new.wf(),
    {
        assert forall|new: WidgetStore<C>|
            #![trigger new.wf()]
            new.spec_next_id() == self.spec_next_id() && new.spec_full() == self.spec_full()
                && new.spec_damaged() == self.spec_damaged().push(self.spec_entries()[i].id)
                && new.spec_entries().len() == self.spec_entries().len()
                && (forall|j: int| 0 <= j < self.spec_entries().len() && j != i ==> #[trigger] new.spec_entries()[j] == self.spec_entries()[j])
                && new.spec_entries()[i].id == self.spec_entries()[i].id
                && new.spec_entries()[i].pane_id == self.spec_entries()[i].pane_id
                && new.spec_entries()[i].z_layer == self.spec_entries()[i].z_layer
                && new.spec_entries()[i].widget.wf() && new.entries_indexed() implies new.wf() by {
            let e = new.spec_entries();
            let o = self.spec_entries();
            assert forall|a: int, b: int| 0 <= a < e.len() && 0 <= b < e.len() && a != b implies #[trigger] e[a].spec_key()
                != #[trigger] e[b].spec_key() by {
                assert(o[a].spec_key() != o[b].spec_key());
            }
            assert forall|a: int| 0 <= a < e.len() implies (#[trigger] e[a]).id.0 < new.spec_next_id() && e[a].widget.wf() by {
                assert(o[a].id.0 < self.spec_next_id());
            }
            assert forall|a: int, b: int| 0 <= a < b < e.len() implies (#[trigger] e[a]).z_layer.0 <= (#[trigger] e[b]).z_layer.0 by {
                assert(o[a].z_layer.0 <= o[b].z_layer.0);
            }
            assert forall|k: int| 0 <= k < new.spec_full().len() implies new.pane_has_widgets(#[trigger] new.spec_full()[k]) by {
                let p = self.spec_full()[k];
                assert(self.pane_has_widgets(p));
                let j = choose|j: int| 0 <= j < o.len() && #[trigger] o[j].pane_id == p;
                assert(e[j].pane_id == p);
            }
            assert forall|k: int| 0 <= k < new.spec_damaged().len() implies new.has_widget(#[trigger] new.spec_damaged()[k]) by {
                let d = new.spec_damaged()[k];
                if k < self.spec_damaged().len() {
                    assert(self.has_widget(d));
                    let j = choose|j: int| 0 <= j < o.len() && #[trigger] o[j].spec_key() == d.0 as u64;
                    assert(e[j].spec_key() == d.0 as u64);
                } else {
                    assert(e[i].spec_key() == d.0 as u64);
                }
            }
        }
    }

    /// Marks widget `widget_id` for redraw and hands it out for editing; whatever it
    /// becomes takes its place.
    pub fn edit(&mut self, widget_id: WidgetId) -> (w: Option<&mut Widget<C>>)
        requires
            old(self).wf(),
        ensures
            final(self).spec_next_id() == old(self).spec_next_id(),
            final(self).spec_full() == old(self).spec_full(),
            final(self).same_pointer(old(self)),
            match w {
                Some(w) => {
                    let i = old(self).index_of(widget_id);
                    let e0 = old(self).spec_entries()[i];
                    &&& old(self).has_widget(widget_id)
                    &&& w.wf()
                    &&& w.same_content(&e0.widget)
                    &&& flags_set(e0.widget.spec_state(), None, None, None, w.spec_state())
                    &&& final(self).spec_entries() == old(self).spec_entries().update(
                        i,
                        WidgetEntry { widget: *final(w), ..e0 },
                    )
                    &&& final(self).spec_damaged() == old(self).spec_damaged().push(widget_id)
                    &&& final(w).wf() ==> final(self).wf()
                },
                None => !old(self).has_widget(widget_id) && *final(self) == *old(self),
            },
    {
        let i = match self.find(widget_id) {
            Some(i) => i,
            None => {
                return None;
            },
        };
        proof {
            self.lemma_index_of(widget_id, i as int);
            self.lemma_restated_wf(i as int);
        }
        self.damaged.push(widget_id);
        let e = self.entries.get_index_mut(i);
        e.widget.set_damaged(true);
        Some(&mut e.widget)
    }
}


/// Restatements that agree on every entry are the same.
pub proof fn lemma_restated_equiv<C: CustomWidget>(
    n: Seq<WidgetEntry<C>>,
    o: Seq<WidgetEntry<C>>,
    t: spec_fn(WidgetId) -> bool,
    h: spec_fn(WidgetId) -> Option<bool>,
    p: spec_fn(WidgetId) -> Option<bool>,
    f: spec_fn(WidgetId) -> Option<bool>,
    t2: spec_fn(WidgetId) -> bool,
    h2: spec_fn(WidgetId) -> Option<bool>,
    p2: spec_fn(WidgetId) -> Option<bool>,
    f2: spec_fn(WidgetId) -> Option<bool>,
)
    requires
        entries_restated(n, o, t, h, p, f),
        forall|j: int|
            0 <= j < o.len() ==> t(#[trigger] o[j].id) == t2(o[j].id) && (t(o[j].id) ==> h(o[j].id) == h2(o[j].id)
                && p(o[j].id) == p2(o[j].id) && f(o[j].id) == f2(o[j].id)),
    ensures
        entries_restated(n, o, t2, h2, p2, f2),
{
    assert forall|j: int| 0 <= j < o.len() implies #[trigger] n[j] == n[j] by {
        assert(t(o[j].id) == t2(o[j].id));
    }
}

/// Nothing restated.
pub proof fn lemma_restated_none<C: CustomWidget>(o: Seq<WidgetEntry<C>>)
    ensures
        entries_restated(o, o, |x: WidgetId| false, |x: WidgetId| None, |x: WidgetId| None, |x: WidgetId| None),
{
}

impl<C: CustomWidget> WidgetStore<C> {
    /// Has widget `widget_id` answer `req`, then marks it for redraw; `None`, changing
    /// nothing, for an unknown widget.
    pub fn act(&mut self, widget_id: WidgetId, req: WidgetRequest) -> (r: Option<WidgetAction<C::Action>>)
        requires
            old(self).wf(),
        ensures
            final(self).wf(),
            final(self).spec_next_id() == old(self).spec_next_id(),
            final(self).spec_full() == old(self).spec_full(),
            final(self).same_pointer(old(self)),
            match r {
                Some(a) => {
                    let i = old(self).index_of(widget_id);
                    let e0 = old(self).spec_entries()[i];
                    let e1 = final(self).spec_entries()[i];
                    &&& old(self).has_widget(widget_id)
                    &&& answered(e0.widget, req, a)
                    &&& changed_by(e0.widget, req, e1.widget)
                    &&& final(self).spec_entries().len() == old(self).spec_entries().len()
                    &&& forall|j: int|
                        0 <= j < old(self).spec_entries().len() && j != i ==> #[trigger] final(self).spec_entries()[j]
                            == old(self).spec_entries()[j]
                    &&& e1.id == e0.id && e1.pane_id == e0.pane_id && e1.layout == e0.layout
                    &&& e1.z_layer == e0.z_layer && e1.visible == e0.visible && e1.enabled == e0.enabled
                    &&& (e1.widget is Custom) == (e0.widget is Custom)
                    &&& final(self).spec_damaged() == old(self).spec_damaged().push(widget_id)
                },
                None => !old(self).has_widget(widget_id) && *final(self) == *old(self),
            },
    {
        let i = match self.find(widget_id) {
            Some(i) => i,
            None => {
                return None;
            },
        };
        proof {
            self.lemma_index_of(widget_id, i as int);
            self.lemma_restated_wf(i as int);
        }
        self.damaged.push(widget_id);
        let ghost w0 = self.spec_entries()[i as int].widget;
        let e = self.entries.get_index_mut(i);
        let a = e.widget.respond(req);
        let ghost w1 = e.widget;
        e.widget.set_damaged(true);
        proof {
            lemma_changed_then_same(w0, req, w1, e.widget);
        }
        Some(a)
    }

    /// Clears hover from the currently hovered widget, if any.
    pub fn clear_hover(&mut self)
        requires
            old(self).wf(),
        ensures
            final(self).wf(),
            final(self).spec_next_id() == old(self).spec_next_id(),
            final(self).spec_full() == old(self).spec_full(),
            final(self).spec_hovered() is None,
            final(self).spec_pressed() == old(self).spec_pressed(),
            final(self).spec_focused() == old(self).spec_focused(),
            entries_restated(
                final(self).spec_entries(),
                old(self).spec_entries(),
                |x: WidgetId| Some(x) == old(self).spec_hovered(),
                |x: WidgetId| Some(false),
                |x: WidgetId| None,
                |x: WidgetId| None,
            ),
    {
        match self.hovered {
            Some(h) => {
                self.edit_flags(h, Some(false), None, None);
                self.hovered = None;
            },
            None => {},
        }
    }

    /// Clears the pressed widget, even when the release happens outside pane content; it
    /// is neither pressed nor hovered afterwards. Returns whether a widget was pressed.
    pub fn clear_pressed(&mut self) -> (b: bool)
        requires
            old(self).wf(),
        ensures
            final(self).wf(),
            b == old(self).spec_pressed() is Some,
            final(self).spec_next_id() == old(self).spec_next_id(),
            final(self).spec_full() == old(self).spec_full(),
            final(self).spec_pressed() is None,
            final(self).spec_hovered() == old(self).spec_hovered(),
            final(self).spec_focused() == old(self).spec_focused(),
            entries_restated(
                final(self).spec_entries(),
                old(self).spec_entries(),
                |x: WidgetId| Some(x) == old(self).spec_pressed(),
                |x: WidgetId| Some(false),
                |x: WidgetId| Some(false),
                |x: WidgetId| None,
            ),
    {
        match self.pressed {
            Some(p) => {
                self.edit_flags(p, Some(false), Some(false), None);
                self.pressed = None;
                true
            },
            None => false,
        }
    }

    /// Updates hover state, only when the hovered widget changes; returns the hit.
    pub fn hover(&mut self, canvas: &Canvas, pane_id: PaneId, content_local: Point) -> (r: Option<WidgetHit>)
        requires
            old(self).wf(),
            canvas.wf(),
        ensures
            final(self).wf(),
            r == old(self).spec_widget_at(*canvas, pane_id, content_local),
            final(self).spec_next_id() == old(self).spec_next_id(),
            final(self).spec_full() == old(self).spec_full(),
            final(self).spec_hovered() == (match r {
                Some(h) => Some(h.widget_id),
                None => None,
            }),
            final(self).spec_pressed() == old(self).spec_pressed(),
            final(self).spec_focused() == old(self).spec_focused(),
            entries_restated(
                final(self).spec_entries(),
                old(self).spec_entries(),
                |x: WidgetId| final(self).spec_hovered() != old(self).spec_hovered() && (Some(x)
                    == old(self).spec_hovered() || Some(x) == final(self).spec_hovered()),
                |x: WidgetId| Some(Some(x) == final(self).spec_hovered()),
                |x: WidgetId| None,
                |x: WidgetId| None,
            ),
    {
        let hit = self.widget_at(canvas, pane_id, content_local);
        let new_hovered = match hit {
            Some(h) => Some(h.widget_id),
            None => None,
        };
        let same = match (self.hovered, new_hovered) {
            (Some(a), Some(b)) => a == b,
            (None, None) => true,
            _ => false,
        };
        let ghost s0 = *self;
        if !same {
            match self.hovered {
                Some(o) => {
                    self.edit_flags(o, Some(false), None, None);
                },
                None => {
                    proof {
                        lemma_restated_none(s0.spec_entries());
                    }
                },
            }
            let ghost s1 = *self;
            match new_hovered {
                Some(n) => {
                    self.edit_flags(n, Some(true), None, None);
                },
                None => {
                    proof {
                        lemma_restated_none(s1.spec_entries());
                    }
                },
            }
            self.hovered = new_hovered;
            proof {
                let t1 = |x: WidgetId| Some(x) == s0.spec_hovered();
                let t2 = |x: WidgetId| Some(x) == new_hovered;
                lemma_restated_trans(
                    s0.spec_entries(),
                    s1.spec_entries(),
                    self.spec_entries(),
                    t1,
                    |x: WidgetId| Some(false),
                    |x: WidgetId| None,
                    |x: WidgetId| None,
                    t2,
                    |x: WidgetId| Some(true),
                    |x: WidgetId| None,
                    |x: WidgetId| None,
                );
                lemma_restated_equiv(
                    self.spec_entries(),
                    s0.spec_entries(),
                    |x: WidgetId| t1(x) || t2(x),
                    |x: WidgetId| pick(t1(x), Some(false), t2(x), Some(true)),
                    |x: WidgetId| pick(t1(x), None, t2(x), None),
                    |x: WidgetId| pick(t1(x), None, t2(x), None),
                    |x: WidgetId| new_hovered != s0.spec_hovered() && (Some(x) == s0.spec_hovered() || Some(x)
                        == new_hovered),
                    |x: WidgetId| Some(Some(x) == new_hovered),
                    |x: WidgetId| None,
                    |x: WidgetId| None,
                );
            }
        } else {
            proof {
                lemma_restated_none(s0.spec_entries());
                lemma_restated_equiv(
                    self.spec_entries(),
                    s0.spec_entries(),
                    |x: WidgetId| false,
                    |x: WidgetId| None,
                    |x: WidgetId| None,
                    |x: WidgetId| None,
                    |x: WidgetId| new_hovered != s0.spec_hovered() && (Some(x) == s0.spec_hovered() || Some(x)
                        == new_hovered),
                    |x: WidgetId| Some(Some(x) == new_hovered),
                    |x: WidgetId| None,
                    |x: WidgetId| None,
                );
            }
        }
        hit
    }
}

impl<C: CustomWidget> WidgetStore<C> {
    /// Clears the pressed widget on release; it stays hovered only when the release is
    /// over it. Returns the widget hit at the release.
    pub fn mouse_up(&mut self, canvas: &Canvas, pane_id: PaneId, content_local: Point) -> (r: Option<WidgetHit>)
        requires
            old(self).wf(),
            canvas.wf(),
        ensures
            final(self).wf(),
            r == old(self).spec_widget_at(*canvas, pane_id, content_local),
            final(self).spec_next_id() == old(self).spec_next_id(),
            final(self).spec_full() == old(self).spec_full(),
            final(self).spec_pressed() is None,
            final(self).spec_hovered() == old(self).spec_hovered(),
            final(self).spec_focused() == old(self).spec_focused(),
            entries_restated(
                final(self).spec_entries(),
                old(self).spec_entries(),
                |x: WidgetId| Some(x) == old(self).spec_pressed(),
                |x: WidgetId| Some(
                    match r {
                        Some(h) => h.widget_id == x,
                        None => false,
                    },
                ),
                |x: WidgetId| Some(false),
                |x: WidgetId| None,
            ),
    {
        let hit = self.widget_at(canvas, pane_id, content_local);
        let ghost s0 = *self;
        match self.pressed {
            Some(p) => {
                let hovering_last = match hit {
                    Some(h) => h.widget_id == p,
                    None => false,
                };
                self.edit_flags(p, None, Some(false), None);
                let ghost s1 = *self;
                self.edit_flags(p, Some(hovering_last), None, None);
                self.pressed = None;
                proof {
                    lemma_restated_trans(
                        s0.spec_entries(),
                        s1.spec_entries(),
                        self.spec_entries(),
                        |x: WidgetId| x == p,
                        |x: WidgetId| None,
                        |x: WidgetId| Some(false),
                        |x: WidgetId| None,
                        |x: WidgetId| x == p,
                        |x: WidgetId| Some(hovering_last),
                        |x: WidgetId| None,
                        |x: WidgetId| None,
                    );
                    lemma_restated_equiv(
                        self.spec_entries(),
                        s0.spec_entries(),
                        |x: WidgetId| x == p || x == p,
                        |x: WidgetId| pick(x == p, None, x == p, Some(hovering_last)),
                        |x: WidgetId| pick(x == p, Some(false), x == p, None),
                        |x: WidgetId| pick(x == p, None, x == p, None),
                        |x: WidgetId| Some(x) == s0.spec_pressed(),
                        |x: WidgetId| Some(
                            match hit {
                                Some(h) => h.widget_id == x,
                                None => false,
                            },
                        ),
                        |x: WidgetId| Some(false),
                        |x: WidgetId| None,
                    );
                }
            },
            None => {
                proof {
                    lemma_restated_none(s0.spec_entries());
                    lemma_restated_equiv(
                        self.spec_entries(),
                        s0.spec_entries(),
                        |x: WidgetId| false,
                        |x: WidgetId| None,
                        |x: WidgetId| None,
                        |x: WidgetId| None,
                        |x: WidgetId| Some(x) == s0.spec_pressed(),
                        |x: WidgetId| Some(
                            match hit {
                                Some(h) => h.widget_id == x,
                                None => false,
                            },
                        ),
                        |x: WidgetId| Some(false),
                        |x: WidgetId| None,
                    );
                }
            },
        }
        hit
    }

    /// Marks the widget under the pointer as pressed and focused (releasing the one that
    /// was pressed); `None`, changing nothing, when no widget is hit.
    pub fn mouse_down(&mut self, canvas: &Canvas, pane_id: PaneId, content_local: Point) -> (r: Option<WidgetHit>)
        requires
            old(self).wf(),
            canvas.wf(),
        ensures
            final(self).wf(),
            r == old(self).spec_widget_at(*canvas, pane_id, content_local),
            r is None ==> *final(self) == *old(self),
            final(self).spec_next_id() == old(self).spec_next_id(),
            final(self).spec_full() == old(self).spec_full(),
            final(self).spec_hovered() == old(self).spec_hovered(),
            r matches Some(h) ==> {
                let id = h.widget_id;
                &&& final(self).spec_pressed() == Some(id)
                &&& final(self).spec_focused() == Some(id)
                &&& entries_restated(
                    final(self).spec_entries(),
                    old(self).spec_entries(),
                    |x: WidgetId| x == id || Some(x) == old(self).spec_pressed() || Some(x) == old(self).spec_focused(),
                    |x: WidgetId| None,
                    |x: WidgetId| if x == id {
                        Some(true)
                    } else if Some(x) == old(self).spec_pressed() {
                        Some(false)
                    } else {
                        None
                    },
                    |x: WidgetId| if x == id {
                        if old(self).spec_focused() == Some(id) {
                            None
                        } else {
                            Some(true)
                        }
                    } else if Some(x) == old(self).spec_focused() {
                        Some(false)
                    } else {
                        None
                    },
                )
            },
    {
        let hit = match self.widget_at(canvas, pane_id, content_local) {
            Some(h) => h,
            None => {
                return None;
            },
        };
        let hid = hit.widget_id;
        let ghost s0 = *self;
        let old_pressed = self.pressed;
        let ghost t1 = |x: WidgetId| Some(x) == old_pressed;
        match old_pressed {
            Some(op) => {
                self.edit_flags(op, None, Some(false), None);
                proof {
                    lemma_restated_equiv(
                        self.spec_entries(),
                        s0.spec_entries(),
                        |x: WidgetId| x == op,
                        |x: WidgetId| None,
                        |x: WidgetId| Some(false),
                        |x: WidgetId| None,
                        t1,
                        |x: WidgetId| None,
                        |x: WidgetId| Some(false),
                        |x: WidgetId| None,
                    );
                }
            },
            None => {
                proof {
                    lemma_restated_none(s0.spec_entries());
                    lemma_restated_equiv(
                        self.spec_entries(),
                        s0.spec_entries(),
                        |x: WidgetId| false,
                        |x: WidgetId| None,
                        |x: WidgetId| None,
                        |x: WidgetId| None,
                        t1,
                        |x: WidgetId| None,
                        |x: WidgetId| Some(false),
                        |x: WidgetId| None,
                    );
                }
            },
        }
        let ghost s05 = *self;
        self.pressed = Some(hid);
        let ghost s1 = *self;
        proof {
            s05.lemma_wf_parts(s1);
        }
        self.focus(Some(hid));
        let ghost s2 = *self;
        let ghost t2 = |x: WidgetId| Some(hid) != s1.spec_focused() && (Some(x) == s1.spec_focused() || Some(x)
            == Some(hid));
        let ghost f2 = |x: WidgetId| Some(Some(x) == Some(hid));
        self.edit_flags(hid, None, Some(true), None);
        proof {
            lemma_restated_trans(
                s0.spec_entries(),
                s1.spec_entries(),
                s2.spec_entries(),
                t1,
                |x: WidgetId| None,
                |x: WidgetId| Some(false),
                |x: WidgetId| None,
                t2,
                |x: WidgetId| None,
                |x: WidgetId| None,
                f2,
            );
            let t12 = |x: WidgetId| t1(x) || t2(x);
            let h12 = |x: WidgetId| pick(t1(x), None, t2(x), None);
            let p12 = |x: WidgetId| pick(t1(x), Some(false), t2(x), None);
            let f12 = |x: WidgetId| pick(t1(x), None, t2(x), f2(x));
            lemma_restated_trans(
                s0.spec_entries(),
                s2.spec_entries(),
                self.spec_entries(),
                t12,
                h12,
                p12,
                f12,
                |x: WidgetId| x == hid,
                |x: WidgetId| None,
                |x: WidgetId| Some(true),
                |x: WidgetId| None,
            );
            lemma_restated_equiv(
                self.spec_entries(),
                s0.spec_entries(),
                |x: WidgetId| t12(x) || x == hid,
                |x: WidgetId| pick(t12(x), h12(x), x == hid, None),
                |x: WidgetId| pick(t12(x), p12(x), x == hid, Some(true)),
                |x: WidgetId| pick(t12(x), f12(x), x == hid, None),
                |x: WidgetId| x == hid || Some(x) == s0.spec_pressed() || Some(x) == s0.spec_focused(),
                |x: WidgetId| None,
                |x: WidgetId| if x == hid {
                    Some(true)
                } else if Some(x) == s0.spec_pressed() {
                    Some(false)
                } else {
                    None
                },
                |x: WidgetId| if x == hid {
                    if s0.spec_focused() == Some(hid) {
                        None
                    } else {
                        Some(true)
                    }
                } else if Some(x) == s0.spec_focused() {
                    Some(false)
                } else {
                    None
                },
            );
        }
        Some(hit)
    }
}

/// The identifiers of `v` other than `id`.
fn without_id(v: &Vec<WidgetId>, id: WidgetId) -> (r: Vec<WidgetId>)
    ensures
        forall|x: WidgetId| #[trigger] r@.contains(x) <==> v@.contains(x) && x != id,
{
    let mut r: Vec<WidgetId> = Vec::new();
    let mut i: usize = 0;
    while i < v.len()
        invariant
            i <= v@.len(),
            forall|x: WidgetId| #[trigger] r@.contains(x) <==> v@.take(i as int).contains(x) && x != id,
        decreases v@.len() - i,
    {
        let ghost r0 = r@;
        if v[i] != id {
            r.push(v[i]);
        }
        proof {
            assert(v@.take(i + 1) =~= v@.take(i as int).push(v@[i as int]));
            assert forall|x: WidgetId| #[trigger] r@.contains(x) <==> v@.take(i + 1).contains(x) && x != id by {
                if r@.contains(x) && !r0.contains(x) {
                    let k = choose|k: int| 0 <= k < r@.len() && r@[k] == x;
                    assert(k == r0.len());
                    assert(v@.take(i + 1)[i as int] == x);
                }
                if r0.contains(x) {
                    let k = choose|k: int| 0 <= k < r0.len() && r0[k] == x;
                    assert(r@[k] == x);
                }
                if v@.take(i as int).contains(x) {
                    let k = choose|k: int| 0 <= k < i && #[trigger] v@.take(i as int)[k] == x;
                    assert(v@.take(i + 1)[k] == x);
                }
                if v@.take(i + 1).contains(x) && !v@.take(i as int).contains(x) {
                    let k = choose|k: int| 0 <= k < i + 1 && #[trigger] v@.take(i + 1)[k] == x;
                    if k < i {
                        assert(v@.take(i as int)[k] == x);
                    }
                    assert(x == v@[i as int]);
                    if x != id {
                        assert(r@[r@.len() - 1] == x);
                    }
                }
            }
        }
        i += 1;
    }
    proof {
        assert(v@.take(v@.len() as int) =~= v@);
    }
    r
}

/// The panes of `v` other than `pane_id`.
fn without_pane(v: &Vec<PaneId>, pane_id: PaneId) -> (r: Vec<PaneId>)
    ensures
        forall|x: PaneId| #[trigger] r@.contains(x) <==> v@.contains(x) && x != pane_id,
{
    let mut r: Vec<PaneId> = Vec::new();
    let mut i: usize = 0;
    while i < v.len()
        invariant
            i <= v@.len(),
            forall|x: PaneId| #[trigger] r@.contains(x) <==> v@.take(i as int).contains(x) && x != pane_id,
        decreases v@.len() - i,
    {
        let ghost r0 = r@;
        if v[i] != pane_id {
            r.push(v[i]);
        }
        proof {
            assert(v@.take(i + 1) =~= v@.take(i as int).push(v@[i as int]));
            assert forall|x: PaneId| #[trigger] r@.contains(x) <==> v@.take(i + 1).contains(x) && x != pane_id by {
                if r@.contains(x) && !r0.contains(x) {
                    let k = choose|k: int| 0 <= k < r@.len() && r@[k] == x;
                    assert(k == r0.len());
                    assert(v@.take(i + 1)[i as int] == x);
                }
                if r0.contains(x) {
                    let k = choose|k: int| 0 <= k < r0.len() && r0[k] == x;
                    assert(r@[k] == x);
                }
                if v@.take(i as int).contains(x) {
                    let k = choose|k: int| 0 <= k < i && #[trigger] v@.take(i as int)[k] == x;
                    assert(v@.take(i + 1)[k] == x);
                }
                if v@.take(i + 1).contains(x) && !v@.take(i as int).contains(x) {
                    let k = choose|k: int| 0 <= k < i + 1 && #[trigger] v@.take(i + 1)[k] == x;
                    if k < i {
                        assert(v@.take(i as int)[k] == x);
                    }
                    assert(x == v@[i as int]);
                    if x != pane_id {
                        assert(r@[r@.len() - 1] == x);
                    }
                }
            }
        }
        i += 1;
    }
    proof {
        assert(v@.take(v@.len() as int) =~= v@);
    }
    r
}

impl<C: CustomWidget> WidgetStore<C> {
    /// `after` is this store with widget `widget_id` removed: its entry is gone, it no
    /// longer queues its own redraw, its pane needs a full redraw while it has widgets
    /// left, and hover, press and focus no longer point at it.
    pub open spec fn widget_removed(&self, after: WidgetStore<C>, widget_id: WidgetId) -> bool {
        let p = self.entry_of(widget_id).pane_id;
        &&& after.spec_entries() == self.spec_entries().remove(self.index_of(widget_id))
        &&& !after.has_widget(widget_id)
        &&& after.spec_next_id() == self.spec_next_id()
        &&& forall|d: WidgetId|
            #[trigger] after.spec_damaged().contains(d) <==> self.spec_damaged().contains(d) && d
                != widget_id
        &&& forall|q: PaneId|
            #[trigger] after.spec_full().contains(q) <==> if after.pane_has_widgets(p) {
                self.spec_full().contains(q) || q == p
            } else {
                self.spec_full().contains(q) && q != p
            }
        &&& after.spec_hovered() == (if self.spec_hovered() == Some(widget_id) {
            None
        } else {
            self.spec_hovered()
        })
        &&& after.spec_pressed() == (if self.spec_pressed() == Some(widget_id) {
            None
        } else {
            self.spec_pressed()
        })
        &&& after.spec_focused() == (if self.spec_focused() == Some(widget_id) {
            None
        } else {
            self.spec_focused()
        })
    }

    /// Removes a widget and queues its pane for redraw; it is no longer hovered, pressed,
    /// focused or queued. Returns `false`, changing nothing, for an unknown widget.
    pub fn remove_widget(&mut self, widget_id: WidgetId) -> (b: bool)
        requires
            old(self).wf(),
        ensures
            final(self).wf(),
            b == old(self).has_widget(widget_id),
            !b ==> *final(self) == *old(self),
            b ==> old(self).widget_removed(*final(self), widget_id),
    {
        let i = match self.find(widget_id) {
            Some(i) => i,
            None => {
                return false;
            },
        };
        let ghost pre = *self;
        let entry = self.entries.remove_at(i);
        let pane_id = entry.pane_id;
        if self.hovered == Some(widget_id) {
            self.hovered = None;
        }
        if self.pressed == Some(widget_id) {
            self.pressed = None;
        }
        if self.focused == Some(widget_id) {
            self.focused = None;
        }
        self.damaged = without_id(&self.damaged, widget_id);
        let n = self.entries.len();
        let mut k: usize = 0;
        while k < n && self.entries.as_slice()[k].pane_id != pane_id
            invariant
                k <= n,
                n == self.spec_entries().len(),
                forall|j: int| 0 <= j < k ==> (#[trigger] self.spec_entries()[j]).pane_id != pane_id,
            decreases n - k,
        {
            k += 1;
        }
        if k < n {
            self.full.push(pane_id);
        } else {
            self.full = without_pane(&self.full, pane_id);
        }
        proof {
            let e = self.spec_entries();
            let o = pre.spec_entries();
            assert(e == o.remove(i as int));
            assert forall|a: int| 0 <= a < e.len() implies #[trigger] e[a] == (if a < i {
                o[a]
            } else {
                o[a + 1]
            }) by {}
            assert forall|a: int, b: int| 0 <= a < b < e.len() implies (#[trigger] e[a]).z_layer.0 <= (
            #[trigger] e[b]).z_layer.0 by {
                let oa = if a < i { a } else { a + 1 };
                let ob = if b < i { b } else { b + 1 };
                assert(o[oa].z_layer.0 <= o[ob].z_layer.0);
            }
            assert forall|a: int| 0 <= a < e.len() implies (#[trigger] e[a]).id.0 < self.spec_next_id() && e[a].widget.wf() by {
                let oa = if a < i { a } else { a + 1 };
                assert(o[oa].id.0 < pre.spec_next_id());
            }
            pre.lemma_index_of(widget_id, i as int);
            assert(!self.has_widget(widget_id)) by {
                if self.has_widget(widget_id) {
                    let a = choose|a: int| 0 <= a < e.len() && #[trigger] e[a].spec_key() == widget_id.0 as u64;
                    let oa = if a < i { a } else { a + 1 };
                    assert(o[oa].spec_key() == o[i as int].spec_key());
                }
            }
            assert forall|m: int| 0 <= m < self.spec_damaged().len() implies self.has_widget(
                #[trigger] self.spec_damaged()[m],
            ) by {
                let d = self.spec_damaged()[m];
                assert(self.spec_damaged().contains(d));
                assert(pre.spec_damaged().contains(d));
                let mm = choose|mm: int| 0 <= mm < pre.spec_damaged().len() && pre.spec_damaged()[mm] == d;
                assert(pre.has_widget(pre.spec_damaged()[mm]));
                let a = choose|a: int| 0 <= a < o.len() && #[trigger] o[a].spec_key() == d.0 as u64;
                assert(a != i);
                let na = if a < i { a } else { a - 1 };
                assert(e[na] == o[a]);
            }
            if k < n {
                assert(self.spec_entries()[k as int].pane_id == pane_id);
                assert(self.pane_has_widgets(pane_id));
                assert forall|q: PaneId| #[trigger] self.spec_full().contains(q) <==> pre.spec_full().contains(q) || q
                    == pane_id by {
                    if self.spec_full().contains(q) {
                        let mm = choose|mm: int| 0 <= mm < self.spec_full().len() && self.spec_full()[mm] == q;
                        if mm < pre.spec_full().len() {
                            assert(pre.spec_full()[mm] == q);
                        }
                    }
                    if pre.spec_full().contains(q) {
                        let mm = choose|mm: int| 0 <= mm < pre.spec_full().len() && pre.spec_full()[mm] == q;
                        assert(self.spec_full()[mm] == q);
                    }
                    if q == pane_id {
                        assert(self.spec_full()[pre.spec_full().len() as int] == q);
                    }
                }
            } else {
                assert(!self.pane_has_widgets(pane_id));
            }
            assert forall|m: int| 0 <= m < self.spec_full().len() implies self.pane_has_widgets(
                #[trigger] self.spec_full()[m],
            ) by {
                let q = self.spec_full()[m];
                if k < n && m == pre.spec_full().len() {
                    assert(e[k as int].pane_id == q);
                } else {
                    if k < n {
                        assert(q == pre.spec_full()[m]);
                    } else {
                        assert(self.spec_full().contains(q));
                        assert(pre.spec_full().contains(q));
                    }
                    let mm = choose|mm: int| 0 <= mm < pre.spec_full().len() && pre.spec_full()[mm] == q;
                    assert(pre.pane_has_widgets(pre.spec_full()[mm]));
                    let a = choose|a: int| 0 <= a < o.len() && #[trigger] o[a].pane_id == q;
                    if a == i {
                        assert(q == pane_id);
                        assert(k < n);
                        assert(e[k as int].pane_id == q);
                    } else {
                        let na = if a < i { a } else { a - 1 };
                        assert(e[na] == o[a]);
                    }
                }
            }
        }
        true
    }
}

/// The entries of `s` that are not in pane `p`, in order.
pub open spec fn others<C>(s: Seq<WidgetEntry<C>>, p: PaneId) -> Seq<WidgetEntry<C>>
    decreases s.len(),
{
    if s.len() == 0 {
        s
    } else {
        let r = others(s.drop_last(), p);
        if s.last().pane_id != p {
            r.push(s.last())
        } else {
            r
        }
    }
}

/// Every entry that `others` keeps is one of `s` outside pane `p`, and each such entry is
/// kept.
pub proof fn lemma_others<C>(s: Seq<WidgetEntry<C>>, p: PaneId)
    ensures
        forall|e: WidgetEntry<C>| #[trigger] others(s, p).contains(e) <==> s.contains(e) && e.pane_id != p,
        others(s, p).len() <= s.len(),
    decreases s.len(),
{
    if s.len() > 0 {
        lemma_others(s.drop_last(), p);
        let r = others(s.drop_last(), p);
        assert(others(s, p) == if s.last().pane_id != p {
            r.push(s.last())
        } else {
            r
        });
        assert forall|e: WidgetEntry<C>| #[trigger] others(s, p).contains(e) <==> s.contains(e) && e.pane_id != p by {
            if s.contains(e) && e.pane_id != p {
                let k = choose|k: int| 0 <= k < s.len() && s[k] == e;
                if k < s.len() - 1 {
                    assert(s.drop_last()[k] == e);
                    assert(s.drop_last().contains(e));
                    assert(r.contains(e));
                    let m = choose|m: int| 0 <= m < r.len() && r[m] == e;
                    assert(others(s, p)[m] == e);
                } else {
                    assert(others(s, p)[r.len() as int] == e);
                }
            }
            if others(s, p).contains(e) {
                let m = choose|m: int| 0 <= m < others(s, p).len() && others(s, p)[m] == e;
                if m < r.len() {
                    assert(r[m] == e);
                    assert(r.contains(e));
                    let k = choose|k: int| 0 <= k < s.drop_last().len() && s.drop_last()[k] == e;
                    assert(s[k] == e);
                } else {
                    assert(s[s.len() - 1] == e);
                }
            }
        }
    }
}

/// `others` keeps the order of `s`: an ordered sequence stays ordered.
pub proof fn lemma_others_sorted<C>(s: Seq<WidgetEntry<C>>, p: PaneId)
    requires
        forall|i: int, j: int| 0 <= i < j < s.len() ==> (#[trigger] s[i]).z_layer.0 <= (#[trigger] s[j]).z_layer.0,
    ensures
        forall|i: int, j: int|
            0 <= i < j < others(s, p).len() ==> (#[trigger] others(s, p)[i]).z_layer.0 <= (
            #[trigger] others(s, p)[j]).z_layer.0,
    decreases s.len(),
{
    if s.len() > 0 {
        let d = s.drop_last();
        assert forall|i: int, j: int| 0 <= i < j < d.len() implies (#[trigger] d[i]).z_layer.0 <= (
        #[trigger] d[j]).z_layer.0 by {
            assert(s[i] == d[i] && s[j] == d[j]);
        }
        lemma_others_sorted(d, p);
        lemma_others(d, p);
        let r = others(d, p);
        let o = others(s, p);
        assert forall|i: int, j: int| 0 <= i < j < o.len() implies (#[trigger] o[i]).z_layer.0 <= (
        #[trigger] o[j]).z_layer.0 by {
            if j < r.len() {
                assert(o[i] == r[i] && o[j] == r[j]);
            } else {
                assert(o[i] == r[i]);
                assert(r.contains(r[i]));
                let k = choose|k: int| 0 <= k < d.len() && d[k] == r[i];
                assert(s[k] == d[k]);
                assert(o[j] == s[s.len() - 1]);
            }
        }
    }
}

impl<C: CustomWidget> WidgetStore<C> {
    /// Removes all widgets of a pane and the hover, press and focus they held. Returns
    /// whether the pane had widgets.
    pub fn remove_pane(&mut self, pane_id: PaneId) -> (b: bool)
        requires
            old(self).wf(),
        ensures
            final(self).wf(),
            b == old(self).pane_has_widgets(pane_id),
            final(self).spec_entries() == others(old(self).spec_entries(), pane_id),
            final(self).spec_next_id() == old(self).spec_next_id(),
            forall|d: WidgetId|
                #[trigger] final(self).spec_damaged().contains(d) <==> old(self).spec_damaged().contains(d)
                    && old(self).entry_of(d).pane_id != pane_id,
            forall|q: PaneId|
                #[trigger] final(self).spec_full().contains(q) <==> old(self).spec_full().contains(q) && q != pane_id,
            final(self).spec_hovered() == old(self).cleared(old(self).spec_hovered(), pane_id),
            final(self).spec_pressed() == old(self).cleared(old(self).spec_pressed(), pane_id),
            final(self).spec_focused() == old(self).cleared(old(self).spec_focused(), pane_id),
    {
        let ghost pre = *self;
        let had = {
            let n = self.entries.len();
            let mut k: usize = 0;
            while k < n && self.entries.as_slice()[k].pane_id != pane_id
                invariant
                    k <= n,
                    n == self.spec_entries().len(),
                    forall|j: int| 0 <= j < k ==> (#[trigger] self.spec_entries()[j]).pane_id != pane_id,
                decreases n - k,
            {
                k += 1;
            }
            proof {
                if k < n {
                    assert(self.spec_entries()[k as int].pane_id == pane_id);
                }
            }
            k < n
        };
        // Keep the queued widgets of other panes.
        let mut damaged: Vec<WidgetId> = Vec::new();
        let mut i: usize = 0;
        while i < self.damaged.len()
            invariant
                *self == pre,
                pre.wf(),
                i <= pre.spec_damaged().len(),
                forall|d: WidgetId|
                    #[trigger] damaged@.contains(d) <==> pre.spec_damaged().take(i as int).contains(d)
                        && pre.entry_of(d).pane_id != pane_id,
            decreases pre.spec_damaged().len() - i,
        {
            let d = self.damaged[i];
            let ghost r0 = damaged@;
            let keep = match self.pane_id_of(d) {
                Some(q) => q != pane_id,
                None => false,
            };
            if keep {
                damaged.push(d);
            }
            proof {
                let v = pre.spec_damaged();
                assert(pre.has_widget(v[i as int]));
                assert(v.take(i + 1) =~= v.take(i as int).push(v[i as int]));
                assert forall|x: WidgetId| #[trigger] damaged@.contains(x) <==> v.take(i + 1).contains(x)
                    && pre.entry_of(x).pane_id != pane_id by {
                    if damaged@.contains(x) && !r0.contains(x) {
                        let k = choose|k: int| 0 <= k < damaged@.len() && damaged@[k] == x;
                        assert(k == r0.len());
                        assert(v.take(i + 1)[i as int] == x);
                    }
                    if r0.contains(x) {
                        let k = choose|k: int| 0 <= k < r0.len() && r0[k] == x;
                        assert(damaged@[k] == x);
                    }
                    if v.take(i as int).contains(x) {
                        let k = choose|k: int| 0 <= k < i && #[trigger] v.take(i as int)[k] == x;
                        assert(v.take(i + 1)[k] == x);
                    }
                    if v.take(i + 1).contains(x) && !v.take(i as int).contains(x) {
                        let k = choose|k: int| 0 <= k < i + 1 && #[trigger] v.take(i + 1)[k] == x;
                        if k < i {
                            assert(v.take(i as int)[k] == x);
                        }
                        assert(x == v[i as int]);
                        if pre.entry_of(x).pane_id != pane_id {
                            assert(damaged@[damaged@.len() - 1] == x);
                        }
                    }
                }
            }
            i += 1;
        }
        proof {
            assert(pre.spec_damaged().take(pre.spec_damaged().len() as int) =~= pre.spec_damaged());
        }
        // Clear the pointer state the pane's widgets held.
        let hovered = self.cleared_exec(self.hovered, pane_id);
        let pressed = self.cleared_exec(self.pressed, pane_id);
        let focused = self.cleared_exec(self.focused, pane_id);
        // Drop the pane's entries, in place and in order.
        let ghost o = pre.spec_entries();
        let total = self.entries.len();
        let mut k: usize = 0;
        let mut j: usize = 0;
        while j < self.entries.len()
            invariant
                0 <= k <= o.len(),
                o.len() == total,
                self.spec_full() == pre.spec_full(),
                self.entries.wf(),
                self.spec_next_id() == pre.spec_next_id(),
                self.spec_entries() == others(o.take(k as int), pane_id) + o.skip(k as int),
                j == others(o.take(k as int), pane_id).len(),
            decreases o.len() - k,
        {
            proof {
                assert(k < o.len());
                assert(o.take(k + 1).drop_last() =~= o.take(k as int));
                assert(self.spec_entries()[j as int] == o[k as int]);
                assert(o.take(k + 1)[k as int] == o[k as int]);
            }
            if self.entries.as_slice()[j].pane_id == pane_id {
                let ghost before = self.spec_entries();
                self.entries.remove_at(j);
                proof {
                    assert(self.spec_entries() =~= others(o.take(k + 1), pane_id) + o.skip(k + 1));
                }
            } else {
                proof {
                    assert(self.spec_entries() =~= others(o.take(k + 1), pane_id) + o.skip(k + 1));
                }
                j += 1;
            }
            k += 1;
        }
        proof {
            assert(self.spec_entries().len() == j + o.len() - k);
            assert(o.take(o.len() as int) =~= o);
            assert(o.skip(o.len() as int) =~= Seq::<WidgetEntry<C>>::empty());
            assert(self.spec_entries() =~= others(o, pane_id));
        }
        self.damaged = damaged;
        self.full = without_pane(&self.full, pane_id);
        self.hovered = hovered;
        self.pressed = pressed;
        self.focused = focused;
        proof {
            let e = self.spec_entries();
            lemma_others(o, pane_id);
            lemma_others_sorted(o, pane_id);
            assert forall|a: int| 0 <= a < e.len() implies (#[trigger] e[a]).id.0 < self.spec_next_id() && e[a].widget.wf() by {
                assert(e.contains(e[a]));
                let m = choose|m: int| 0 <= m < o.len() && o[m] == e[a];
            }
            assert forall|m: int| 0 <= m < self.spec_full().len() implies self.pane_has_widgets(
                #[trigger] self.spec_full()[m],
            ) by {
                let q = self.spec_full()[m];
                assert(self.spec_full().contains(q));
                let mm = choose|mm: int| 0 <= mm < pre.spec_full().len() && pre.spec_full()[mm] == q;
                assert(pre.pane_has_widgets(pre.spec_full()[mm]));
                let a = choose|a: int| 0 <= a < o.len() && #[trigger] o[a].pane_id == q;
                assert(o.contains(o[a]));
                assert(e.contains(o[a]));
                let na = choose|na: int| 0 <= na < e.len() && e[na] == o[a];
                assert(e[na].pane_id == q);
            }
            assert forall|m: int| 0 <= m < self.spec_damaged().len() implies self.has_widget(
                #[trigger] self.spec_damaged()[m],
            ) by {
                let d = self.spec_damaged()[m];
                assert(self.spec_damaged().contains(d));
                let mm = choose|mm: int| 0 <= mm < pre.spec_damaged().len() && pre.spec_damaged()[mm] == d;
                assert(pre.has_widget(pre.spec_damaged()[mm]));
                let a = pre.index_of(d);
                assert(o.contains(o[a]));
                assert(e.contains(o[a]));
                let na = choose|na: int| 0 <= na < e.len() && e[na] == o[a];
                assert(e[na].spec_key() == d.0 as u64);
            }
        }
        had
    }

    /// `id` unless it names a widget of pane `pane_id`.
    pub open spec fn cleared(&self, id: Option<WidgetId>, pane_id: PaneId) -> Option<WidgetId> {
        match id {
            Some(w) => if self.has_widget(w) && self.entry_of(w).pane_id == pane_id {
                None
            } else {
                id
            },
            None => None,
        }
    }

    fn cleared_exec(&self, id: Option<WidgetId>, pane_id: PaneId) -> (r: Option<WidgetId>)
        requires
            self.wf(),
        ensures
            r == self.cleared(id, pane_id),
    {
        match id {
            Some(w) => match self.pane_id_of(w) {
                Some(q) => if q == pane_id {
                    None
                } else {
                    id
                },
                None => id,
            },
            None => None,
        }
    }
}

/// Whether `v` holds `p`.
fn holds_pane(v: &Vec<PaneId>, p: PaneId) -> (b: bool)
    ensures
        b == v@.contains(p),
{
    let mut i: usize = 0;
    while i < v.len()
        invariant
            i <= v@.len(),
            forall|j: int| 0 <= j < i ==> v@[j] != p,
        decreases v@.len() - i,
    {
        if v[i] == p {
            proof {
                assert(v@[i as int] == p);
            }
            return true;
        }
        i += 1;
    }
    false
}

/// Whether `v` holds `id`.
fn holds_id(v: &Vec<WidgetId>, id: WidgetId) -> (b: bool)
    ensures
        b == v@.contains(id),
{
    let mut i: usize = 0;
    while i < v.len()
        invariant
            i <= v@.len(),
            forall|j: int| 0 <= j < i ==> v@[j] != id,
        decreases v@.len() - i,
    {
        if v[i] == id {
            proof {
                assert(v@[i as int] == id);
            }
            return true;
        }
        i += 1;
    }
    false
}

/// `r` cut so that its right and bottom edges fit in `usize`.
pub open spec fn fitted(r: Rect) -> Rect {
    Rect {
        x: r.x,
        y: r.y,
        width: min_of(r.width as int, usize::MAX - r.x) as usize,
        height: min_of(r.height as int, usize::MAX - r.y) as usize,
    }
}

/// `r` cut so that its right and bottom edges fit in `usize`; no content cell is lost.
fn fit_rect(r: Rect) -> (f: Rect)
    ensures
        f == fitted(r),
        f.x == r.x && f.y == r.y,
        f.x + f.width <= usize::MAX,
        f.y + f.height <= usize::MAX,
        f.width == min_of(r.width as int, usize::MAX - r.x),
        f.height == min_of(r.height as int, usize::MAX - r.y),
{
    let w = if r.width <= usize::MAX - r.x {
        r.width
    } else {
        usize::MAX - r.x
    };
    let h = if r.height <= usize::MAX - r.y {
        r.height
    } else {
        usize::MAX - r.y
    };
    Rect { x: r.x, y: r.y, width: w, height: h }
}

/// Panes with the same identifiers at the same places have the same identifiers.
proof fn lemma_same_ids(a: Seq<Pane>, b: Seq<Pane>)
    requires
        a.len() == b.len(),
        forall|k: int| 0 <= k < a.len() ==> (#[trigger] b[k]).spec_id() == a[k].spec_id(),
    ensures
        forall|key: u64| #[trigger] has_key(b, key) == has_key(a, key),
{
    assert forall|key: u64| #[trigger] has_key(b, key) == has_key(a, key) by {
        if has_key(a, key) {
            let k = choose|k: int| 0 <= k < a.len() && #[trigger] a[k].spec_key() == key;
            assert(b[k].spec_key() == key);
        }
        if has_key(b, key) {
            let k = choose|k: int| 0 <= k < b.len() && #[trigger] b[k].spec_key() == key;
            assert(a[k].spec_key() == key);
        }
    }
}

/// Rendering entry `i` of `s` on pane `k` takes the content that the first `i` entries
/// render on the canvas `cb` to the content that the first `i + 1` render on `ca`: the
/// widget, as it is drawn (`w`), paints its rows over its rectangle or leaves the pane as
/// it was, and the other panes keep their content.
proof fn lemma_rendered_step<C: CustomWidget>(
    s: WidgetStore<C>,
    c0: Canvas,
    cb: Canvas,
    ca: Canvas,
    i: int,
    k: int,
    w: Widget<C>,
    rect: Rect,
)
    requires
        c0.wf(),
        0 <= i < s.spec_entries().len(),
        0 <= k < c0.spec_panes().len(),
        cb.spec_panes().len() == c0.spec_panes().len(),
        ca.spec_panes().len() == c0.spec_panes().len(),
        forall|kk: int| 0 <= kk < c0.spec_panes().len() ==> (#[trigger] cb.spec_panes()[kk]).same_frame(&c0.spec_panes()[kk]),
        forall|kk: int| 0 <= kk < c0.spec_panes().len() && kk != k ==> #[trigger] ca.spec_panes()[kk] == cb.spec_panes()[kk],
        s.draws(c0, s.spec_entries()[i]),
        c0.spec_panes()[k].spec_id() == s.spec_entries()[i].pane_id,
        rect == fitted(s.spec_entries()[i].layout.spec_local(c0.spec_panes()[k].spec_content())),
        (w is Custom) == (s.spec_entries()[i].widget is Custom),
        w.draw_style() == s.spec_entries()[i].widget.draw_style(),
        w.drawn_rows(rect.width as nat, rect.height as nat) == s.spec_entries()[i].widget.drawn_rows(
            rect.width as nat,
            rect.height as nat,
        ),
        w.spec_state().spec_damaged() == (s.spec_full().contains(s.spec_entries()[i].pane_id)
            || s.spec_entries()[i].widget.spec_state().spec_damaged()),
        !(w is Custom) && (!w.spec_state().spec_damaged() || rect.width == 0 || rect.height == 0)
            ==> ca.spec_panes()[k] == cb.spec_panes()[k],
        !(w is Custom) && w.spec_state().spec_damaged() && rect.width > 0 && rect.height > 0
            ==> rows_drawn(
            ca.spec_panes()[k],
            cb.spec_panes()[k],
            rect,
            w.drawn_rows(rect.width as nat, rect.height as nat).0,
            w.drawn_rows(rect.width as nat, rect.height as nat).1,
            clear_glyph_for(w.draw_style()),
        ),
        forall|kk: int, x: int, y: int|
            0 <= kk < c0.spec_panes().len() && !s.custom_drawn(c0, c0.spec_panes()[kk].spec_id(), i)
                && in_content(c0.spec_panes()[kk], x, y) ==> #[trigger] content_cell(cb.spec_panes()[kk], x, y)
                == s.rendered_cell(c0, c0.spec_panes()[kk], i, x, y),
    ensures
        forall|kk: int, x: int, y: int|
            0 <= kk < c0.spec_panes().len() && !s.custom_drawn(c0, c0.spec_panes()[kk].spec_id(), i + 1)
                && in_content(c0.spec_panes()[kk], x, y) ==> #[trigger] content_cell(ca.spec_panes()[kk], x, y)
                == s.rendered_cell(c0, c0.spec_panes()[kk], i + 1, x, y),
{
    let e0 = s.spec_entries()[i];
    assert forall|kk: int, x: int, y: int|
        0 <= kk < c0.spec_panes().len() && !s.custom_drawn(c0, c0.spec_panes()[kk].spec_id(), i + 1)
            && in_content(c0.spec_panes()[kk], x, y) implies #[trigger] content_cell(ca.spec_panes()[kk], x, y)
            == s.rendered_cell(c0, c0.spec_panes()[kk], i + 1, x, y) by {
        let p = c0.spec_panes()[kk];
        if s.custom_drawn(c0, p.spec_id(), i) {
            let j = choose|j: int|
                0 <= j < i && (#[trigger] s.spec_entries()[j]).pane_id == p.spec_id() && s.draws(
                    c0,
                    s.spec_entries()[j],
                ) && s.spec_entries()[j].widget is Custom;
            assert(s.spec_entries()[j].pane_id == p.spec_id());
        }
        assert(content_cell(cb.spec_panes()[kk], x, y) == s.rendered_cell(c0, p, i, x, y));
        if kk == k {
            if e0.widget is Custom {
                assert(s.spec_entries()[i].pane_id == p.spec_id());
            } else {
                assert(in_content(cb.spec_panes()[k], x, y));
            }
        } else {
            assert(c0.spec_panes()[kk].spec_key() != c0.spec_panes()[k].spec_key());
            assert(ca.spec_panes()[kk] == cb.spec_panes()[kk]);
        }
    }
}

/// Entry `e1` is `e0` drawn: only its widget changed, which is well-formed and no longer
/// damaged.
pub open spec fn redrawn_entry<C: CustomWidget>(e1: WidgetEntry<C>, e0: WidgetEntry<C>) -> bool {
    &&& e1.id == e0.id && e1.pane_id == e0.pane_id && e1.layout == e0.layout
    &&& e1.z_layer == e0.z_layer && e1.visible == e0.visible && e1.enabled == e0.enabled
    &&& e1.widget.wf()
    &&& !e1.widget.spec_state().spec_damaged()
}

impl<C: CustomWidget> WidgetStore<C> {
    /// Rendering paints entry `e`, on a pane with content rectangle `content`: the entry is
    /// drawn, its widget is damaged or its pane needs a full redraw, and the rectangle it
    /// takes in the content has cells.
    pub open spec fn paints(&self, canvas: Canvas, e: WidgetEntry<C>, content: Rect) -> bool {
        let r = fitted(e.layout.spec_local(content));
        &&& self.draws(canvas, e)
        &&& (self.spec_full().contains(e.pane_id) || e.widget.spec_state().spec_damaged())
        &&& r.width > 0 && r.height > 0
    }

    /// The glyph at content-local `(x, y)` of pane `p` once the first `upto` entries are
    /// rendered: that which the last of them to paint a rectangle of `p` over the cell draws
    /// there (its rows, then its clear glyph), or else the pane's own.
    pub open spec fn rendered_cell(&self, canvas: Canvas, p: Pane, upto: int, x: int, y: int) -> Glyph
        decreases upto,
    {
        if upto <= 0 || upto > self.spec_entries().len() {
            content_cell(p, x, y)
        } else {
            let e = self.spec_entries()[upto - 1];
            let r = fitted(e.layout.spec_local(p.spec_content()));
            if e.pane_id == p.spec_id() && self.paints(canvas, e, p.spec_content()) && r.spec_contains(x, y) {
                let d = e.widget.drawn_rows(r.width as nat, r.height as nat);
                row_drawn(r, d.0, d.1, clear_glyph_for(e.widget.draw_style()), x, y)
            } else {
                self.rendered_cell(canvas, p, upto - 1, x, y)
            }
        }
    }

    /// Some entry among the first `upto` that rendering draws on pane `q` holds an
    /// application-defined widget, which draws as it pleases.
    pub open spec fn custom_drawn(&self, canvas: Canvas, q: PaneId, upto: int) -> bool {
        exists|j: int|
            0 <= j < upto && (#[trigger] self.spec_entries()[j]).pane_id == q && self.draws(
                canvas,
                self.spec_entries()[j],
            ) && self.spec_entries()[j].widget is Custom
    }

    /// The entry is queued for redraw: its pane needs a full redraw, or it does.
    pub open spec fn queued(&self, e: WidgetEntry<C>) -> bool {
        self.spec_full().contains(e.pane_id) || self.spec_damaged().contains(e.id)
    }

    /// Rendering draws the entry: it is queued, its pane exists, and it is shown and
    /// enabled.
    pub open spec fn draws(&self, canvas: Canvas, e: WidgetEntry<C>) -> bool {
        &&& self.queued(e)
        &&& canvas.has_pane(e.pane_id)
        &&& e.visible
        &&& e.enabled
    }

    /// Some widget of the canvas's focused pane is queued, and the pane exists.
    pub open spec fn focus_queued(&self, canvas: Canvas) -> bool {
        match canvas.spec_focused() {
            Some(f) => canvas.has_pane(f) && exists|j: int|
                0 <= j < self.spec_entries().len() && (#[trigger] self.spec_entries()[j]).pane_id == f
                    && self.queued(self.spec_entries()[j]),
            None => false,
        }
    }

    /// The queued panes whose pane is not on the canvas.
    fn full_left(&self, canvas: &Canvas) -> (r: Vec<PaneId>)
        requires
            self.wf(),
            canvas.wf(),
        ensures
            forall|q: PaneId| #[trigger] r@.contains(q) <==> self.spec_full().contains(q) && !canvas.has_pane(q),
    {
        let v = &self.full;
        let mut r: Vec<PaneId> = Vec::new();
        let mut i: usize = 0;
        while i < v.len()
            invariant
                i <= v@.len(),
                canvas.wf(),
                forall|x: PaneId| #[trigger] r@.contains(x) <==> v@.take(i as int).contains(x) && !canvas.has_pane(x),
            decreases v@.len() - i,
        {
            let ghost r0 = r@;
            let q = v[i];
            let gone = match canvas.content_rect(q) {
                Some(_) => false,
                None => true,
            };
            if gone {
                r.push(q);
            }
            proof {
                assert(v@.take(i + 1) =~= v@.take(i as int).push(v@[i as int]));
                assert forall|x: PaneId| #[trigger] r@.contains(x) <==> v@.take(i + 1).contains(x) && !canvas.has_pane(x) by {
                    if r@.contains(x) && !r0.contains(x) {
                        let k = choose|k: int| 0 <= k < r@.len() && r@[k] == x;
                        assert(k == r0.len());
                        assert(v@.take(i + 1)[i as int] == x);
                    }
                    if r0.contains(x) {
                        let k = choose|k: int| 0 <= k < r0.len() && r0[k] == x;
                        assert(r@[k] == x);
                    }
                    if v@.take(i as int).contains(x) {
                        let k = choose|k: int| 0 <= k < i && #[trigger] v@.take(i as int)[k] == x;
                        assert(v@.take(i + 1)[k] == x);
                    }
                    if v@.take(i + 1).contains(x) && !v@.take(i as int).contains(x) {
                        let k = choose|k: int| 0 <= k < i + 1 && #[trigger] v@.take(i + 1)[k] == x;
                        if k < i {
                            assert(v@.take(i as int)[k] == x);
                        }
                        if !canvas.has_pane(x) {
                            assert(r@[r@.len() - 1] == x);
                        }
                    }
                }
            }
            i += 1;
        }
        proof {
            assert(v@.take(v@.len() as int) =~= v@);
        }
        r
    }

    /// The queued widgets whose pane is not on the canvas.
    fn damaged_left(&self, canvas: &Canvas) -> (r: Vec<WidgetId>)
        requires
            self.wf(),
            canvas.wf(),
        ensures
            forall|d: WidgetId|
                #[trigger] r@.contains(d) <==> self.spec_damaged().contains(d) && !canvas.has_pane(
                    self.entry_of(d).pane_id,
                ),
    {
        let v = &self.damaged;
        let mut r: Vec<WidgetId> = Vec::new();
        let mut i: usize = 0;
        while i < v.len()
            invariant
                i <= v@.len(),
                canvas.wf(),
                self.wf(),
                v@ == self.spec_damaged(),
                forall|x: WidgetId|
                    #[trigger] r@.contains(x) <==> v@.take(i as int).contains(x) && !canvas.has_pane(
                        self.entry_of(x).pane_id,
                    ),
            decreases v@.len() - i,
        {
            let ghost r0 = r@;
            let d = v[i];
            let gone = match self.pane_id_of(d) {
                Some(q) => match canvas.content_rect(q) {
                    Some(_) => false,
                    None => true,
                },
                None => false,
            };
            proof {
                assert(self.has_widget(v@[i as int]));
            }
            if gone {
                r.push(d);
            }
            proof {
                assert(v@.take(i + 1) =~= v@.take(i as int).push(v@[i as int]));
                assert forall|x: WidgetId| #[trigger] r@.contains(x) <==> v@.take(i + 1).contains(x) && !canvas.has_pane(
                    self.entry_of(x).pane_id,
                ) by {
                    if r@.contains(x) && !r0.contains(x) {
                        let k = choose|k: int| 0 <= k < r@.len() && r@[k] == x;
                        assert(k == r0.len());
                        assert(v@.take(i + 1)[i as int] == x);
                    }
                    if r0.contains(x) {
                        let k = choose|k: int| 0 <= k < r0.len() && r0[k] == x;
                        assert(r@[k] == x);
                    }
                    if v@.take(i as int).contains(x) {
                        let k = choose|k: int| 0 <= k < i && #[trigger] v@.take(i as int)[k] == x;
                        assert(v@.take(i + 1)[k] == x);
                    }
                    if v@.take(i + 1).contains(x) && !v@.take(i as int).contains(x) {
                        let k = choose|k: int| 0 <= k < i + 1 && #[trigger] v@.take(i + 1)[k] == x;
                        if k < i {
                            assert(v@.take(i as int)[k] == x);
                        }
                        if !canvas.has_pane(self.entry_of(x).pane_id) {
                            assert(r@[r@.len() - 1] == x);
                        }
                    }
                }
            }
            i += 1;
        }
        proof {
            assert(v@.take(v@.len() as int) =~= v@);
        }
        r
    }
}

impl<C: CustomWidget> WidgetStore<C> {
    /// `cursor` is where the focused widget puts the cursor on `canvas`: when the widget
    /// lies on the focused pane and is shown and enabled, an input gives its cursor
    /// position in the rectangle it takes, an application-defined widget the position its
    /// `spec_cursor_pos` names, and the other kinds none; otherwise there is no cursor.
    pub open spec fn cursor_synced(&self, canvas: Canvas, cursor: Option<Point>) -> bool {
        if self.spec_focused() is Some && canvas.spec_focused() is Some && self.has_widget(
            self.spec_focused()->0,
        ) && Some(self.entry_of(self.spec_focused()->0).pane_id) == canvas.spec_focused()
            && canvas.has_pane(canvas.spec_focused()->0) && self.entry_of(
            self.spec_focused()->0,
        ).visible && self.entry_of(self.spec_focused()->0).enabled {
            let e = self.entry_of(self.spec_focused()->0);
            let p = canvas.pane_of(canvas.spec_focused()->0);
            let rect = fitted(e.layout.spec_local(p.spec_content()));
            &&& e.widget matches Widget::Input(w) ==> cursor == w.cursor_point(p, rect)
            &&& e.widget matches Widget::Custom(c) ==> cursor == c.spec_cursor_pos(p, rect)
            &&& !(e.widget is Input || e.widget is Custom) ==> cursor is None
        } else {
            cursor is None
        }
    }

    /// Where the focused widget puts the cursor on `canvas`.
    fn focus_cursor(&self, canvas: &Canvas) -> (r: Option<Point>)
        requires
            self.wf(),
            canvas.wf(),
        ensures
            self.cursor_synced(*canvas, r),
    {
        let fw = match self.focused {
            Some(w) => w,
            None => {
                return None;
            },
        };
        let f = match canvas.focused() {
            Some(f) => f,
            None => {
                return None;
            },
        };
        let i = match self.find(fw) {
            Some(i) => i,
            None => {
                return None;
            },
        };
        let e = &self.entries.as_slice()[i];
        if e.pane_id != f || !e.visible || !e.enabled {
            return None;
        }
        match canvas.pane(f) {
            Some(p) => {
                let content = p.content_rect();
                let rect = fit_rect(e.layout.as_local(&content));
                e.widget.cursor_pos(p, rect)
            },
            None => None,
        }
    }

    /// Renders the queued widgets into their panes, bottom layer first: every widget of a
    /// pane that needs a full redraw, and each widget queued on its own; hidden and
    /// disabled widgets are skipped. Widgets of a pane that is not on the canvas stay
    /// queued. When the canvas's focused pane had queued widgets, the cursor goes where the
    /// focused widget puts it, whether or not it was redrawn (none when it is
    /// hidden, disabled, on another pane, or has no cursor).
    pub fn render_into(&mut self, canvas: &mut Canvas)
        requires
            old(self).wf(),
            old(canvas).wf(),
        ensures
            final(self).wf(),
            final(canvas).wf(),
            final(canvas).covers_changes(old(canvas)),
            final(canvas).spec_size() == old(canvas).spec_size(),
            final(canvas).spec_clear() == old(canvas).spec_clear(),
            final(canvas).spec_forced() == old(canvas).spec_forced(),
            final(canvas).spec_policies() == old(canvas).spec_policies(),
            final(canvas).spec_decor() == old(canvas).spec_decor(),
            final(canvas).spec_focused() == old(canvas).spec_focused(),
            final(canvas).spec_damage() == old(canvas).spec_damage(),
            final(canvas).spec_panes().len() == old(canvas).spec_panes().len(),
            forall|k: int|
                0 <= k < old(canvas).spec_panes().len() ==> (#[trigger] final(canvas).spec_panes()[k]).same_frame(
                    &old(canvas).spec_panes()[k],
                ),
            !old(self).focus_queued(*old(canvas)) ==> final(canvas).spec_cursor() == old(canvas).spec_cursor(),
            old(self).focus_queued(*old(canvas)) ==> final(self).cursor_synced(
                *final(canvas),
                final(canvas).spec_cursor(),
            ),
            final(self).spec_next_id() == old(self).spec_next_id(),
            final(self).same_pointer(old(self)),
            final(self).spec_entries().len() == old(self).spec_entries().len(),
            forall|j: int|
                0 <= j < old(self).spec_entries().len() ==> if old(self).draws(*old(canvas), old(self).spec_entries()[j]) {
                    redrawn_entry(#[trigger] final(self).spec_entries()[j], old(self).spec_entries()[j])
                } else {
                    final(self).spec_entries()[j] == old(self).spec_entries()[j]
                },
            forall|q: PaneId|
                #[trigger] final(self).spec_full().contains(q) <==> old(self).spec_full().contains(q) && !old(
                    canvas,
                ).has_pane(q),
            forall|d: WidgetId|
                #[trigger] final(self).spec_damaged().contains(d) <==> old(self).spec_damaged().contains(d)
                    && !old(canvas).has_pane(old(self).entry_of(d).pane_id),
            forall|k: int, x: int, y: int|
                0 <= k < old(canvas).spec_panes().len() && !old(self).custom_drawn(
                    *old(canvas),
                    old(canvas).spec_panes()[k].spec_id(),
                    old(self).spec_entries().len() as int,
                ) && in_content(old(canvas).spec_panes()[k], x, y) ==> #[trigger] content_cell(
                    final(canvas).spec_panes()[k],
                    x,
                    y,
                ) == old(self).rendered_cell(
                    *old(canvas),
                    old(canvas).spec_panes()[k],
                    old(self).spec_entries().len() as int,
                    x,
                    y,
                ),
    {
        let ghost s0 = *self;
        let ghost c0 = *canvas;
        let full_left = self.full_left(canvas);
        let damaged_left = self.damaged_left(canvas);
        let focused_widget = self.focused;
        let focused_pane = canvas.focused();
        let mut focus_queued = false;
        let n = self.entries.len();
        let mut i: usize = 0;
        while i < n
            invariant
                i <= n,
                n == s0.spec_entries().len(),
                s0.wf(),
                c0.wf(),
                focused_widget == s0.spec_focused(),
                focused_pane == c0.spec_focused(),
                self.wf(),
                self.spec_entries().len() == n,
                self.spec_full() == s0.spec_full(),
                self.spec_damaged() == s0.spec_damaged(),
                self.spec_next_id() == s0.spec_next_id(),
                self.same_pointer(&s0),
                canvas.wf(),
                canvas.covers_changes(&c0),
                canvas.spec_size() == c0.spec_size(),
                canvas.spec_clear() == c0.spec_clear(),
                canvas.spec_forced() == c0.spec_forced(),
                canvas.spec_policies() == c0.spec_policies(),
                canvas.spec_decor() == c0.spec_decor(),
                canvas.spec_focused() == c0.spec_focused(),
                canvas.spec_cursor() == c0.spec_cursor(),
                canvas.spec_damage() == c0.spec_damage(),
                canvas.spec_panes().len() == c0.spec_panes().len(),
                forall|k: int|
                    0 <= k < c0.spec_panes().len() ==> (#[trigger] canvas.spec_panes()[k]).same_frame(
                        &c0.spec_panes()[k],
                    ),
                forall|j: int|
                    0 <= j < i ==> if s0.draws(c0, s0.spec_entries()[j]) {
                        redrawn_entry(#[trigger] self.spec_entries()[j], s0.spec_entries()[j])
                    } else {
                        self.spec_entries()[j] == s0.spec_entries()[j]
                    },
                forall|j: int| i <= j < n ==> #[trigger] self.spec_entries()[j] == s0.spec_entries()[j],
                focus_queued <==> (match c0.spec_focused() {
                    Some(f) => c0.has_pane(f) && exists|j: int|
                        0 <= j < i && (#[trigger] s0.spec_entries()[j]).pane_id == f && s0.queued(s0.spec_entries()[j]),
                    None => false,
                }),
                forall|k: int, x: int, y: int|
                    0 <= k < c0.spec_panes().len() && !s0.custom_drawn(c0, c0.spec_panes()[k].spec_id(), i as int)
                        && in_content(c0.spec_panes()[k], x, y) ==> #[trigger] content_cell(canvas.spec_panes()[k], x, y)
                        == s0.rendered_cell(c0, c0.spec_panes()[k], i as int, x, y),
            decreases n - i,
        {
            proof {
                lemma_same_ids(c0.spec_panes(), canvas.spec_panes());
            }
            let pane_id = self.entries.as_slice()[i].pane_id;
            let id = self.entries.as_slice()[i].id;
            let shown = self.entries.as_slice()[i].visible && self.entries.as_slice()[i].enabled;
            let layout = self.entries.as_slice()[i].layout;
            let full = holds_pane(&self.full, pane_id);
            let queued = full || holds_id(&self.damaged, id);
            let ghost e0 = s0.spec_entries()[i as int];
            assert(canvas.has_pane(pane_id) == c0.has_pane(pane_id));
            if queued {
                match canvas.content_rect(pane_id) {
                    Some(content) => {
                        let on_focus = match focused_pane {
                            Some(f) => f == pane_id,
                            None => false,
                        };
                        if on_focus {
                            focus_queued = true;
                        }
                        if shown {
                            let rect = fit_rect(layout.as_local(&content));
                            let ghost sb = *self;
                            let ghost cb = *canvas;
                            let ghost k = cb.index_of(pane_id);
                            let e = self.entries.get_index_mut(i);
                            if full {
                                e.widget.set_damaged(true);
                            }
                            let ghost w1 = e.widget;
                            match canvas.pane_mut(pane_id) {
                                Some(pane) => {
                                    e.widget.render(pane, rect);
                                },
                                None => {},
                            }
                            proof {
                                let q = canvas.spec_panes()[k];
                                lemma_panes_update(cb.spec_panes(), k, q);
                                lemma_pane_edit_covered(cb, *canvas, k, q);
                                lemma_covers_trans(c0, cb, *canvas);
                                assert forall|kk: int| 0 <= kk < c0.spec_panes().len() implies (
                                #[trigger] canvas.spec_panes()[kk]).same_frame(&c0.spec_panes()[kk]) by {
                                    if kk != k {
                                        assert(canvas.spec_panes()[kk] == cb.spec_panes()[kk]);
                                    }
                                }
                                sb.lemma_restated_wf_draw(i as int, *self);
                                s0.lemma_index_of(id, i as int);
                                w1.lemma_same_drawing(&e0.widget, rect.width as nat, rect.height as nat);
                                lemma_rendered_step(s0, c0, cb, *canvas, i as int, k, w1, rect);
                            }
                        }
                    },
                    None => {},
                }
            }
            proof {
                assert(self.spec_entries()[i as int] == e0 || s0.draws(c0, e0));
                if s0.draws(c0, e0) {
                    assert(shown && queued);
                }
            }
            i += 1;
        }
        if focus_queued {
            let cursor = self.focus_cursor(canvas);
            let ghost cb = *canvas;
            canvas.set_cursor(cursor);
            proof {
                lemma_same_view_covered(cb, *canvas);
                lemma_covers_trans(c0, cb, *canvas);
            }
        }
        let ghost s1 = *self;
        self.full = full_left;
        self.damaged = damaged_left;
        proof {
            let e = self.spec_entries();
            let o = s0.spec_entries();
            assert forall|k: int| 0 <= k < self.spec_full().len() implies self.pane_has_widgets(
                #[trigger] self.spec_full()[k],
            ) by {
                let q = self.spec_full()[k];
                assert(self.spec_full().contains(q));
                let m = choose|m: int| 0 <= m < s0.spec_full().len() && s0.spec_full()[m] == q;
                assert(s0.pane_has_widgets(s0.spec_full()[m]));
                let j = choose|j: int| 0 <= j < o.len() && #[trigger] o[j].pane_id == q;
                assert(e[j].pane_id == q);
            }
            assert forall|k: int| 0 <= k < self.spec_damaged().len() implies self.has_widget(
                #[trigger] self.spec_damaged()[k],
            ) by {
                let d = self.spec_damaged()[k];
                assert(self.spec_damaged().contains(d));
                let m = choose|m: int| 0 <= m < s0.spec_damaged().len() && s0.spec_damaged()[m] == d;
                assert(s0.has_widget(s0.spec_damaged()[m]));
                let j = choose|j: int| 0 <= j < o.len() && #[trigger] o[j].spec_key() == d.0 as u64;
                assert(e[j].spec_key() == d.0 as u64);
            }
            assert(s1.wf());
        }
    }

    /// A store that differs from this one only in the widget at `i`, which stays
    /// well-formed, is well-formed.
    proof fn lemma_restated_wf_draw(&self, i: int, new: WidgetStore<C>)
        requires
            self.wf(),
            0 <= i < self.spec_entries().len(),
            new.spec_next_id() == self.spec_next_id(),
            new.spec_full() == self.spec_full(),
            new.spec_damaged() == self.spec_damaged(),
            new.spec_entries().len() == self.spec_entries().len(),
            forall|j: int| 0 <= j < self.spec_entries().len() && j != i ==> #[trigger] new.spec_entries()[j] == self.spec_entries()[j],
            new.spec_entries()[i].id == self.spec_entries()[i].id,
            new.spec_entries()[i].pane_id == self.spec_entries()[i].pane_id,
            new.spec_entries()[i].z_layer == self.spec_entries()[i].z_layer,
            new.spec_entries()[i].widget.wf(),
            new.entries_indexed(),
        ensures
            new.wf(),
    {
        let e = new.spec_entries();
        let o = self.spec_entries();
        assert forall|a: int, b: int| 0 <= a < e.len() && 0 <= b < e.len() && a != b implies #[trigger] e[a].spec_key()
            != #[trigger] e[b].spec_key() by {
            assert(o[a].spec_key() != o[b].spec_key());
        }
        assert forall|a: int| 0 <= a < e.len() implies (#[trigger] e[a]).id.0 < new.spec_next_id() && e[a].widget.wf() by {
            assert(o[a].id.0 < self.spec_next_id());
        }
        assert forall|a: int, b: int| 0 <= a < b < e.len() implies (#[trigger] e[a]).z_layer.0 <= (#[trigger] e[b]).z_layer.0 by {
            assert(o[a].z_layer.0 <= o[b].z_layer.0);
        }
        assert forall|k: int| 0 <= k < new.spec_full().len() implies new.pane_has_widgets(#[trigger] new.spec_full()[k]) by {
            let p = self.spec_full()[k];
            assert(self.pane_has_widgets(p));
            let j = choose|j: int| 0 <= j < o.len() && #[trigger] o[j].pane_id == p;
            assert(e[j].pane_id == p);
        }
        assert forall|k: int| 0 <= k < new.spec_damaged().len() implies new.has_widget(#[trigger] new.spec_damaged()[k]) by {
            let d = new.spec_damaged()[k];
            assert(self.has_widget(d));
            let j = choose|j: int| 0 <= j < o.len() && #[trigger] o[j].spec_key() == d.0 as u64;
            assert(e[j].spec_key() == d.0 as u64);
        }
    }
}

impl<C: CustomWidget> WidgetStore<C> {
    /// A store whose entries carry the same identifiers at the same places finds each
    /// widget at the same place.
    pub proof fn lemma_same_ids_index(&self, other: &WidgetStore<C>, id: WidgetId)
        requires
            self.wf(),
            self.has_widget(id),
            other.spec_entries().len() == self.spec_entries().len(),
            forall|j: int| 0 <= j < self.spec_entries().len() ==> (#[trigger] other.spec_entries()[j]).id == self.spec_entries()[j].id,
        ensures
            other.has_widget(id),
            other.index_of(id) == self.index_of(id),
            other.entry_of(id).id == id,
    {
        let i = self.index_of(id);
        let o = other.spec_entries();
        let e = self.spec_entries();
        assert forall|a: int, b: int| 0 <= a < o.len() && 0 <= b < o.len() && a != b implies #[trigger] o[a].spec_key()
            != #[trigger] o[b].spec_key() by {
            assert(e[a].spec_key() != e[b].spec_key());
        }
        assert(e[i].spec_key() == id.0 as u64);
        assert(o[i].spec_key() == id.0 as u64);
        assert(o[i].id == id) by {
            assert(o[i].id == e[i].id);
        }
        other.lemma_index_of(id, i);
    }

    /// Restated entries keep their identifiers at their places.
    pub proof fn lemma_restated_ids(
        &self,
        other: &WidgetStore<C>,
        t: spec_fn(WidgetId) -> bool,
        h: spec_fn(WidgetId) -> Option<bool>,
        p: spec_fn(WidgetId) -> Option<bool>,
        f: spec_fn(WidgetId) -> Option<bool>,
    )
        requires
            entries_restated(other.spec_entries(), self.spec_entries(), t, h, p, f),
        ensures
            other.spec_entries().len() == self.spec_entries().len(),
            forall|j: int|
                0 <= j < self.spec_entries().len() ==> (#[trigger] other.spec_entries()[j]).id == self.spec_entries()[j].id
                    && other.spec_entries()[j].widget.same_content(&self.spec_entries()[j].widget) || other.spec_entries()[j]
                    == self.spec_entries()[j],
    {
    }
}

impl<C: CustomWidget> WidgetStore<C> {
    /// A hit names an existing widget.
    pub proof fn lemma_widget_at_exists(&self, canvas: Canvas, pane_id: PaneId, pt: Point)
        requires
            self.wf(),
        ensures
            self.spec_widget_at(canvas, pane_id, pt) matches Some(h) ==> self.has_widget(h.widget_id),
    {
        if canvas.has_pane(pane_id) {
            let content = canvas.pane_of(pane_id).spec_content();
            lemma_hit_index(self.spec_entries(), pane_id, content, pt);
            let k = hit_index(self.spec_entries(), pane_id, content, pt);
            if k >= 0 {
                self.lemma_index_of(self.spec_entries()[k].id, k);
            }
        }
    }
}

} // verus!
