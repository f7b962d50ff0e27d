//! The canvas: the set of panes stacked by layer, their policies and decorations, focus,
//! and the damage that the next render redraws.
use vstd::prelude::*;

use crate::surface::backend::{
    Compositor, Frame, Layer, Renderer, TermOp, any_damage, composed, cursor_tail, damaged_at,
    has_damage, lemma_tight_paints, ops_bytes, painted, paints_over, redraws,
};
use crate::surface::damage::{DamagedRow, Span, clean_rows, clear_rows, covered, lemma_covered_concat, lemma_covered_single, mark_row_range, row_marked, rows_wf};
use crate::surface::decor::{Insets, PaneDecor, WindowDecor};
use crate::surface::geometry::{Point, Rect, Size, add_sat, clamp_of, clamp_usize, max_of, max_usize, min_usize, sat_add, sat_sub, sub_sat};
use crate::surface::glyph::{BorderKind, Glyph, blank_glyph};
use crate::surface::style::Style;
use crate::surface::indexed_vec::{IndexedVec, Keyed, has_key, keys_unique};
use crate::surface::pane::{Pane, PaneElement, PaneId, content_fits, edit_tracked, lemma_with_content, lemma_with_frame, resize_post, tracks, with_frame};
use crate::surface::decor::title_view;
use crate::surface::policy::{PaneAction, PanePolicy};
use std::collections::HashMap;
use std::collections::hash_map::Entry;

verus! {

broadcast use {lemma_with_content, lemma_with_frame, vstd::std_specs::hash::group_hash_axioms};

/// `Pane` hit information.
#[derive(Debug, PartialEq, Eq, Structural, Clone, Copy)]
pub struct PaneHit {
    /// Element that was hit.
    pub element: PaneElement,
    /// Global `Point`.
    pub global: Point,
    /// Position local to the pane.
    pub local: Point,
    /// Position local to the pane content, only for content hits.
    pub content_local: Option<Point>,
}

/// Location that was hit during hit-testing.
#[derive(Debug, PartialEq, Eq, Structural, Clone, Copy)]
pub enum HitTarget {
    /// A visible pane was hit.
    Pane { pane_id: PaneId, hit: PaneHit },
    /// Empty canvas/background area was hit.
    Background { global: Point },
}

/// Every pane a canvas of `size` holds fits in memory: a pane covers at most the canvas,
/// and at least the two by two cells a decoration needs.
pub open spec fn cells_fit(size: Size) -> bool {
    max_of(size.width as int, 2) * max_of(size.height as int, 2) <= usize::MAX
}

/// The content rectangle of a pane at `rect` whose decoration reserves `insets`.
pub open spec fn content_for(rect: Rect, insets: Insets) -> Rect {
    Rect {
        x: sat_add(rect.x as int, insets.left as int) as usize,
        y: sat_add(rect.y as int, insets.top as int) as usize,
        width: sat_sub(rect.width as int, insets.left + insets.right) as usize,
        height: sat_sub(rect.height as int, insets.top + insets.bottom) as usize,
    }
}

/// Computes the content rectangle of a pane at `rect` whose decoration reserves `insets`.
fn content_rect_for(rect: Rect, insets: Insets) -> (r: Rect)
    requires
        insets.left <= 1 && insets.top <= 1 && insets.right <= 1 && insets.bottom <= 1,
    ensures
        r == content_for(rect, insets),
        content_fits(r, rect),
{
    Rect {
        x: add_sat(rect.x, insets.left),
        y: add_sat(rect.y, insets.top),
        width: sub_sat(rect.width, insets.left + insets.right),
        height: sub_sat(rect.height, insets.top + insets.bottom),
    }
}

/// Position of the topmost pane of `panes` that is visible and contains `p`, or `-1`.
pub open spec fn topmost(panes: Seq<Pane>, p: Point) -> int
    decreases panes.len(),
{
    if panes.len() == 0 {
        -1
    } else if panes.last().spec_visible() && panes.last().spec_rect().spec_contains(
        p.x as int,
        p.y as int,
    ) {
        panes.len() - 1
    } else {
        topmost(panes.drop_last(), p)
    }
}

/// Pane `p` is visible and contains `pos`.
pub open spec fn shows_at(p: Pane, pos: Point) -> bool {
    p.spec_visible() && p.spec_rect().spec_contains(pos.x as int, pos.y as int)
}

/// `topmost` is the last position whose pane shows at `p`.
pub proof fn lemma_topmost(panes: Seq<Pane>, p: Point)
    ensures
        -1 <= topmost(panes, p) < panes.len(),
        topmost(panes, p) >= 0 ==> shows_at(panes[topmost(panes, p)], p),
        forall|j: int| topmost(panes, p) < j < panes.len() ==> !shows_at(#[trigger] panes[j], p),
    decreases panes.len(),
{
    if panes.len() > 0 {
        lemma_topmost(panes.drop_last(), p);
        if !shows_at(panes.last(), p) {
            assert forall|j: int| topmost(panes, p) < j < panes.len() implies !shows_at(
                #[trigger] panes[j],
                p,
            ) by {
                if j < panes.len() - 1 {
                    assert(panes[j] == panes.drop_last()[j]);
                }
            }
        }
    }
}

/// The topmost pane is at `i` when the pane at `i` shows at `p` and no later one does; it
/// is `-1` when none does.
pub proof fn lemma_topmost_unique(panes: Seq<Pane>, p: Point, i: int)
    requires
        -1 <= i < panes.len(),
        i >= 0 ==> shows_at(panes[i], p),
        forall|j: int| i < j < panes.len() ==> !shows_at(#[trigger] panes[j], p),
    ensures
        topmost(panes, p) == i,
{
    lemma_topmost(panes, p);
    let t = topmost(panes, p);
    if t > i {
        assert(!shows_at(panes[t], p));
    } else if t < i {
        assert(shows_at(panes[i], p));
    }
}

/// Every pane identifier is below `bound`.
pub open spec fn ids_below(panes: Seq<Pane>, bound: int) -> bool {
    forall|i: int| 0 <= i < panes.len() ==> (#[trigger] panes[i]).spec_id().0 < bound
}

/// The panes have distinct identifiers, are well-formed, and are ordered by layer.
pub open spec fn panes_wf(panes: Seq<Pane>) -> bool {
    &&& keys_unique(panes)
    &&& forall|i: int| 0 <= i < panes.len() ==> (#[trigger] panes[i]).wf()
    &&& forall|i: int, j: int|
        0 <= i < j < panes.len() ==> (#[trigger] panes[i]).spec_layer().0 <= (#[trigger] panes[j]).spec_layer().0
}

/// Replacing a pane by a well-formed one with the same identifier and layer keeps the
/// panes well-formed.
pub proof fn lemma_panes_update(s: Seq<Pane>, i: int, q: Pane)
    requires
        panes_wf(s),
        0 <= i < s.len(),
        q.wf(),
        q.spec_id() == s[i].spec_id(),
        q.spec_layer() == s[i].spec_layer(),
    ensures
        panes_wf(s.update(i, q)),
        forall|b: int| ids_below(s, b) ==> #[trigger] ids_below(s.update(i, q), b),
        forall|key: u64| #[trigger] has_key(s.update(i, q), key) == has_key(s, key),
{
    let t = s.update(i, q);
    assert forall|key: u64| #[trigger] has_key(t, key) == has_key(s, key) by {
        if has_key(s, key) {
            let k = choose|k: int| 0 <= k < s.len() && #[trigger] s[k].spec_key() == key;
            assert(t[k].spec_key() == key);
        }
        if has_key(t, key) {
            let k = choose|k: int| 0 <= k < t.len() && #[trigger] t[k].spec_key() == key;
            assert(s[k].spec_key() == key);
        }
    }
    assert forall|b: int| ids_below(s, b) implies #[trigger] ids_below(t, b) by {
        assert forall|a: int| 0 <= a < t.len() implies (#[trigger] t[a]).spec_id().0 < b by {
            assert(s[a].spec_id().0 < b);
        }
    }
    assert forall|a: int, b: int|
        0 <= a < t.len() && 0 <= b < t.len() && a != b implies #[trigger] t[a].spec_key()
        != #[trigger] t[b].spec_key() by {
        assert(s[a].spec_key() != s[b].spec_key());
    }
    assert forall|a: int, b: int| 0 <= a < b < t.len() implies (#[trigger] t[a]).spec_layer().0 <= (
    #[trigger] t[b]).spec_layer().0 by {
        assert(s[a].spec_layer().0 <= s[b].spec_layer().0);
    }
}

/// Setting `title` on decoration `d` changes its title.
pub open spec fn title_changes(d: PaneDecor, title: Option<String>) -> bool {
    match d {
        PaneDecor::Window(w) => w.spec_title() != title_view(title),
        PaneDecor::Plain => false,
    }
}

/// `(x, y)` lies on the first row of a non-empty-width `rect`, where a title is drawn.
pub open spec fn title_row(rect: Rect, x: int, y: int) -> bool {
    rect.width > 0 && y == rect.y && rect.x <= x < sat_add(rect.x as int, rect.width as int)
}

/// Pane `p` is visible and covers canvas cell `(x, y)`.
pub open spec fn shows_xy(p: Pane, x: int, y: int) -> bool {
    p.spec_visible() && p.spec_rect().spec_contains(x, y)
}

/// The glyph of pane `p` at canvas cell `(x, y)`.
pub open spec fn glyph_at(p: Pane, x: int, y: int) -> Glyph {
    p.cell(x - p.spec_rect().x, y - p.spec_rect().y)
}

/// Damage of pane `p` lands on cell `(x, y)` of a `w` by `h` canvas.
pub open spec fn lands(p: Pane, w: int, h: int, x: int, y: int) -> bool {
    &&& 0 <= x < w
    &&& 0 <= y < h
    &&& p.spec_rect().x <= x
    &&& p.spec_rect().y <= y
    &&& p.marked(x - p.spec_rect().x, y - p.spec_rect().y)
}

/// Damage of visible pane `p` lands on cell `(x, y)` of a `w` by `h` canvas.
pub open spec fn projected(p: Pane, w: int, h: int, x: int, y: int) -> bool {
    p.spec_visible() && lands(p, w, h, x, y)
}

/// Damage of a well-formed pane lands inside the pane's rectangle.
pub proof fn lemma_projected_in_rect(p: Pane, w: int, h: int, x: int, y: int)
    requires
        p.wf(),
        projected(p, w, h, x, y),
        w <= usize::MAX,
        h <= usize::MAX,
    ensures
        p.spec_rect().spec_contains(x, y),
{
    assert(p.in_grid(x - p.spec_rect().x, y - p.spec_rect().y));
}

/// Replacing the pane at `i` by one that shows the same glyph at `(x, y)`, or equally
/// nothing, keeps the composed glyph there.
pub proof fn lemma_composed_update(clear: Glyph, panes: Seq<Pane>, i: int, q: Pane, x: int, y: int)
    requires
        0 <= i < panes.len(),
        shows_xy(panes[i], x, y) == shows_xy(q, x, y),
        shows_xy(q, x, y) ==> glyph_at(q, x, y) == glyph_at(panes[i], x, y),
    ensures
        composed(clear, panes.update(i, q), x, y) == composed(clear, panes, x, y),
    decreases panes.len(),
{
    let t = panes.update(i, q);
    if i == panes.len() - 1 {
        assert(t.drop_last() =~= panes.drop_last());
    } else {
        assert(t.drop_last() =~= panes.drop_last().update(i, q));
        lemma_composed_update(clear, panes.drop_last(), i, q, x, y);
    }
}

/// Panes that show the same glyphs at `(x, y)`, position by position, compose the same
/// glyph there.
pub proof fn lemma_composed_same(clear: Glyph, a: Seq<Pane>, b: Seq<Pane>, x: int, y: int)
    requires
        a.len() == b.len(),
        forall|i: int| 0 <= i < a.len() ==> shows_xy(#[trigger] a[i], x, y) == shows_xy(b[i], x, y),
        forall|i: int|
            0 <= i < a.len() && shows_xy(#[trigger] a[i], x, y) ==> glyph_at(a[i], x, y) == glyph_at(
                b[i],
                x,
                y,
            ),
    ensures
        composed(clear, a, x, y) == composed(clear, b, x, y),
    decreases a.len(),
{
    if a.len() > 0 {
        assert forall|i: int| 0 <= i < a.len() - 1 implies shows_xy(#[trigger] a.drop_last()[i], x, y)
            == shows_xy(b.drop_last()[i], x, y) by {
            assert(a.drop_last()[i] == a[i]);
            assert(b.drop_last()[i] == b[i]);
        }
        assert forall|i: int|
            0 <= i < a.len() - 1 && shows_xy(#[trigger] a.drop_last()[i], x, y) implies glyph_at(
            a.drop_last()[i],
            x,
            y,
        ) == glyph_at(b.drop_last()[i], x, y) by {
            assert(a.drop_last()[i] == a[i]);
            assert(b.drop_last()[i] == b[i]);
        }
        lemma_composed_same(clear, a.drop_last(), b.drop_last(), x, y);
        assert(shows_xy(a[a.len() - 1], x, y) == shows_xy(b[a.len() - 1], x, y));
    }
}

/// Where moving a pane at `rect` to `position` puts it, optionally clamped into `bounds`.
pub open spec fn moved_rect(rect: Rect, position: Point, clamp: bool, bounds: Rect) -> Rect {
    let r = Rect { x: position.x, y: position.y, ..rect };
    if clamp {
        Rect {
            x: clamp_of(
                r.x as int,
                bounds.x as int,
                sat_add(bounds.x as int, sat_sub(bounds.width as int, r.width as int)),
            ) as usize,
            y: clamp_of(
                r.y as int,
                bounds.y as int,
                sat_add(bounds.y as int, sat_sub(bounds.height as int, r.height as int)),
            ) as usize,
            ..r
        }
    } else {
        r
    }
}

/// The rectangle a request to resize a pane at `rect` to `width` by `height` gives: the
/// origin stays, and each side is clamped between the decoration's minimum `min` and the
/// distance to the edge of `bounds` (never below the minimum).
pub open spec fn resized_rect(rect: Rect, width: usize, height: usize, min: Size, bounds: Rect) -> Rect {
    let max_w = max_of(
        sat_sub(sat_add(bounds.x as int, bounds.width as int), rect.x as int),
        min.width as int,
    );
    let max_h = max_of(
        sat_sub(sat_add(bounds.y as int, bounds.height as int), rect.y as int),
        min.height as int,
    );
    Rect {
        x: rect.x,
        y: rect.y,
        width: clamp_of(width as int, min.width as int, max_w) as usize,
        height: clamp_of(height as int, min.height as int, max_h) as usize,
    }
}

/// Inserting a pane that does not show at `(x, y)` keeps the composed glyph there.
pub proof fn lemma_composed_insert(clear: Glyph, panes: Seq<Pane>, k: int, q: Pane, x: int, y: int)
    requires
        0 <= k <= panes.len(),
        !shows_xy(q, x, y),
    ensures
        composed(clear, panes.insert(k, q), x, y) == composed(clear, panes, x, y),
    decreases panes.len(),
{
    let t = panes.insert(k, q);
    if k == panes.len() {
        assert(t.drop_last() =~= panes);
    } else {
        assert(t.drop_last() =~= panes.drop_last().insert(k, q));
        assert(t.last() == panes.last());
        lemma_composed_insert(clear, panes.drop_last(), k, q, x, y);
    }
}

/// Settings for a pane that is about to be added to a canvas.
pub struct PaneBuilder {
    /// Position and dimensions.
    pub rect: Rect,
    /// Layer the pane is drawn in.
    pub z_layer: Layer,
    /// Whether the pane is shown.
    pub visible: bool,
    /// Interaction policy.
    pub policy: PanePolicy,
    /// Decoration.
    pub decor: PaneDecor,
}

/// `d` with its border set, for window decorations.
pub open spec fn decor_with_border(d: PaneDecor, border: Option<BorderKind>) -> PaneDecor {
    match d {
        PaneDecor::Window(w) => PaneDecor::Window(WindowDecor { border, ..w }),
        PaneDecor::Plain => PaneDecor::Plain,
    }
}

/// `d` with its style set, for window decorations.
pub open spec fn decor_with_style(d: PaneDecor, style: Style) -> PaneDecor {
    match d {
        PaneDecor::Window(w) => PaneDecor::Window(WindowDecor { style, ..w }),
        PaneDecor::Plain => PaneDecor::Plain,
    }
}

impl PaneBuilder {
    /// Assigns a position and dimensions.
    pub fn rect(self, rect: Rect) -> (b: Self)
        ensures
            b == (PaneBuilder { rect, ..self }),
    {
        PaneBuilder { rect, ..self }
    }

    /// Assigns the layer the pane is drawn in.
    pub fn layer(self, z_layer: Layer) -> (b: Self)
        ensures
            b == (PaneBuilder { z_layer, ..self }),
    {
        PaneBuilder { z_layer, ..self }
    }

    /// Assigns whether the pane is visible.
    pub fn visible(self, visible: bool) -> (b: Self)
        ensures
            b == (PaneBuilder { visible, ..self }),
    {
        PaneBuilder { visible, ..self }
    }

    /// Assigns the pane policy.
    pub fn policy(self, policy: PanePolicy) -> (b: Self)
        ensures
            b == (PaneBuilder { policy, ..self }),
    {
        PaneBuilder { policy, ..self }
    }

    /// Assigns the pane decoration.
    pub fn decor(self, decor: PaneDecor) -> (b: Self)
        ensures
            b == (PaneBuilder { decor, ..self }),
    {
        PaneBuilder { decor, ..self }
    }

    /// Assigns whether the pane can be moved.
    pub fn movable(self, movable: bool) -> (b: Self)
        ensures
            b == (PaneBuilder { policy: PanePolicy { movable, ..self.policy }, ..self }),
    {
        let policy = PanePolicy { movable, ..self.policy };
        PaneBuilder { policy, ..self }
    }

    /// Assigns whether the pane can be resized.
    pub fn resizable(self, resizable: bool) -> (b: Self)
        ensures
            b == (PaneBuilder { policy: PanePolicy { resizable, ..self.policy }, ..self }),
    {
        let policy = PanePolicy { resizable, ..self.policy };
        PaneBuilder { policy, ..self }
    }

    /// Assigns the border of a window decoration; other decorations are kept.
    pub fn border(self, border: Option<BorderKind>) -> (b: Self)
        ensures
            b == (PaneBuilder { decor: decor_with_border(self.decor, border), ..self }),
    {
        let decor = match self.decor {
            PaneDecor::Window(w) => PaneDecor::Window(WindowDecor { border, ..w }),
            PaneDecor::Plain => PaneDecor::Plain,
        };
        PaneBuilder { decor, ..self }
    }

    /// Assigns the style of a window decoration; other decorations are kept.
    pub fn border_style(self, style: Style) -> (b: Self)
        ensures
            b == (PaneBuilder { decor: decor_with_style(self.decor, style), ..self }),
    {
        let decor = match self.decor {
            PaneDecor::Window(w) => PaneDecor::Window(WindowDecor { style, ..w }),
            PaneDecor::Plain => PaneDecor::Plain,
        };
        PaneBuilder { decor, ..self }
    }

    /// Assigns the title of a window decoration; other decorations are kept.
    pub fn title(self, title: String) -> (b: Self)
        ensures
            b.rect == self.rect,
            b.z_layer == self.z_layer,
            b.visible == self.visible,
            b.policy == self.policy,
            match self.decor {
                PaneDecor::Window(w) => b.decor matches PaneDecor::Window(w2) && w2.border == w.border
                    && w2.style == w.style && w2.title == Some(title),
                PaneDecor::Plain => b.decor is Plain,
            },
    {
        let decor = match self.decor {
            PaneDecor::Window(w) => PaneDecor::Window(WindowDecor { title: Some(title), ..w }),
            PaneDecor::Plain => PaneDecor::Plain,
        };
        PaneBuilder { decor, ..self }
    }
}

/// Manages panes, ordering, focus, and damage over the canvas.
pub struct Canvas {
    size: Size,
    clear_glyph: Glyph,
    forced_redraw: bool,
    panes: IndexedVec<Pane>,
    policies: HashMap<u64, PanePolicy>,
    decor: HashMap<u64, PaneDecor>,
    pane_keys: Ghost<Seq<u64>>,
    damaged: Vec<DamagedRow>,
    cursor: Option<Point>,
    focused: Option<PaneId>,
    freed: Vec<PaneId>,
}

impl Canvas {
    /// The canvas size.
    pub closed spec fn spec_size(&self) -> Size {
        self.size
    }

    /// The glyph shown where no pane is.
    pub closed spec fn spec_clear(&self) -> Glyph {
        self.clear_glyph
    }

    /// The next render redraws everything.
    pub closed spec fn spec_forced(&self) -> bool {
        self.forced_redraw
    }

    /// The panes, bottom to top.
    pub closed spec fn spec_panes(&self) -> Seq<Pane> {
        self.panes@
    }

    /// The pane store's hash index finds every pane by its identifier, and the policy and
    /// decoration maps hold one entry under the identifier of each pane and no other.
    pub closed spec fn panes_indexed(&self) -> bool {
        &&& self.panes.index_ok()
        &&& self.pane_keys@.len() == self.panes@.len()
        &&& forall|i: int| 0 <= i < self.panes@.len() ==> #[trigger] self.pane_keys@[i] == self.panes@[i].spec_key()
        &&& forall|i: int|
            0 <= i < self.panes@.len() ==> self.policies@.contains_key(#[trigger] self.pane_keys@[i])
                && self.decor@.contains_key(self.pane_keys@[i])
        &&& forall|k: u64| #[trigger] self.policies@.contains_key(k) ==> self.pane_keys@.contains(k)
        &&& forall|k: u64| #[trigger] self.decor@.contains_key(k) ==> self.pane_keys@.contains(k)
    }

    /// The policy of each pane, by position.
    pub closed spec fn spec_policies(&self) -> Seq<PanePolicy> {
        Seq::new(self.pane_keys@.len(), |i: int| self.policies@[self.pane_keys@[i]])
    }

    /// The decoration of each pane, by position.
    pub closed spec fn spec_decor(&self) -> Seq<PaneDecor> {
        Seq::new(self.pane_keys@.len(), |i: int| self.decor@[self.pane_keys@[i]])
    }

    /// Canvas-space damage, one row per canvas row.
    pub closed spec fn spec_damage(&self) -> Seq<DamagedRow> {
        self.damaged@
    }

    /// The cursor position.
    pub closed spec fn spec_cursor(&self) -> Option<Point> {
        self.cursor
    }

    /// The focused pane.
    pub closed spec fn spec_focused(&self) -> Option<PaneId> {
        self.focused
    }

    /// Identifiers of removed panes, reused by the next panes built, last one first.
    pub closed spec fn spec_freed(&self) -> Seq<PaneId> {
        self.freed@
    }

    /// Canvas cell `(x, y)` is marked as damaged.
    pub open spec fn marked(&self, x: int, y: int) -> bool {
        row_marked(self.spec_damage(), x, y)
    }

    /// `(x, y)` is a cell of the canvas.
    pub open spec fn in_canvas(&self, x: int, y: int) -> bool {
        0 <= x < self.spec_size().width && 0 <= y < self.spec_size().height
    }

    /// The canvas cell `(x, y)` lies in `rect`.
    pub open spec fn covers(&self, rect: Rect, x: int, y: int) -> bool {
        self.in_canvas(x, y) && rect.spec_contains(x, y)
    }

    /// The full rectangle of the canvas.
    pub open spec fn spec_rect(&self) -> Rect {
        Rect { x: 0, y: 0, width: self.spec_size().width, height: self.spec_size().height }
    }

    /// A pane with identifier `id` exists.
    pub open spec fn has_pane(&self, id: PaneId) -> bool {
        has_key(self.spec_panes(), id.0 as u64)
    }

    /// Position of the pane with identifier `id`.
    pub open spec fn index_of(&self, id: PaneId) -> int {
        choose|i: int| 0 <= i < self.spec_panes().len() && #[trigger] self.spec_panes()[i].spec_key()
            == id.0 as u64
    }

    /// The pane with identifier `id`.
    pub open spec fn pane_of(&self, id: PaneId) -> Pane {
        self.spec_panes()[self.index_of(id)]
    }

    /// The content rectangle of pane `id` (when there is one) is the one its decoration
    /// leaves inside its frame.
    pub open spec fn content_synced(&self, id: PaneId) -> bool {
        self.has_pane(id) ==> self.pane_of(id).spec_content() == content_for(
            self.pane_of(id).spec_rect(),
            self.spec_decor()[self.index_of(id)].spec_insets(),
        )
    }

    /// The canvas holds one policy and one decoration per pane, panes are well-formed,
    /// have distinct identifiers, are found through the index and are ordered by layer, and the damage has one row in
    /// normal form per canvas row. Identifiers of panes and of freed identifiers lie below
    /// their joint count, and no freed identifier names a pane.
    pub open spec fn wf(&self) -> bool {
        let panes = self.spec_panes();
        let freed = self.spec_freed();
        &&& cells_fit(self.spec_size())
        &&& self.spec_damage().len() == self.spec_size().height
        &&& rows_wf(self.spec_damage())
        &&& panes_wf(panes)
        &&& self.panes_indexed()
        &&& ids_below(panes, (panes.len() + freed.len()) as int)
        &&& forall|k: int|
            0 <= k < freed.len() ==> (#[trigger] freed[k]).0 < panes.len() + freed.len() && !has_key(
                panes,
                freed[k].0 as u64,
            )
        &&& forall|k: int, m: int| 0 <= k < m < freed.len() ==> #[trigger] freed[k] != #[trigger] freed[m]
        &&& self.spec_policies().len() == panes.len()
        &&& self.spec_decor().len() == panes.len()
    }

    /// The identifier `id` names the pane at `i`.
    pub proof fn lemma_index_of(&self, id: PaneId, i: int)
        requires
            keys_unique(self.spec_panes()),
            0 <= i < self.spec_panes().len(),
            self.spec_panes()[i].spec_id() == id,
        ensures
            self.has_pane(id),
            self.index_of(id) == i,
    {
        assert(self.spec_panes()[i].spec_key() == id.0 as u64);
    }

    /// The pane whose key is that of `id` has identifier `id`.
    pub proof fn lemma_id_of_key(&self, i: int, id: PaneId)
        requires
            0 <= i < self.spec_panes().len(),
            self.spec_panes()[i].spec_key() == id.0 as u64,
        ensures
            self.spec_panes()[i].spec_id() == id,
    {
    }

    /// Creates a canvas of the given size with no panes; uncovered cells show `bg`, or a
    /// blank when `bg` is `None`. The first render redraws everything.
    pub fn new(size: Size, bg: Option<Glyph>) -> (c: Self)
        requires
            size.width > 0 || size.height > 0,
            cells_fit(size),
        ensures
            c.wf(),
            c.spec_size() == size,
            c.spec_clear() == (match bg {
                Some(g) => g,
                None => crate::surface::glyph::blank_glyph(),
            }),
            c.spec_forced(),
            c.spec_panes().len() == 0,
            c.spec_cursor() is None,
            c.spec_focused() is None,
            c.spec_freed().len() == 0,
            forall|x: int, y: int| !#[trigger] c.marked(x, y),
    {
        let clear_glyph = match bg {
            Some(g) => g,
            None => Glyph::default(),
        };
        Canvas {
            size,
            clear_glyph,
            forced_redraw: true,
            panes: IndexedVec::new(),
            policies: HashMap::new(),
            decor: HashMap::new(),
            pane_keys: Ghost(Seq::empty()),
            damaged: clean_rows(size.height),
            cursor: None,
            focused: None,
            freed: Vec::new(),
        }
    }

    /// Returns the canvas size.
    pub fn size(&self) -> (s: Size)
        ensures
            s == self.spec_size(),
    {
        self.size
    }

    /// Full rectangle occupied by the canvas.
    pub fn rect(&self) -> (r: Rect)
        ensures
            r == self.spec_rect(),
    {
        Rect { x: 0, y: 0, width: self.size.width, height: self.size.height }
    }

    /// Returns the glyph used to clear uncovered cells.
    pub fn clear_glyph(&self) -> (g: Glyph)
        ensures
            g == self.spec_clear(),
    {
        self.clear_glyph
    }

    /// Sets the glyph used to clear uncovered cells; when it changes, the whole canvas is
    /// marked as damaged.
    pub fn set_clear_glyph(&mut self, glyph: Glyph)
        requires
            old(self).wf(),
        ensures
            final(self).wf(),
            final(self).spec_clear() == glyph,
            final(self).covers_changes(old(self)),
            final(self).spec_panes() == old(self).spec_panes(),
            final(self).spec_size() == old(self).spec_size(),
            final(self).spec_forced() == old(self).spec_forced(),
            final(self).spec_policies() == old(self).spec_policies(),
            final(self).spec_decor() == old(self).spec_decor(),
            final(self).spec_cursor() == old(self).spec_cursor(),
            final(self).spec_focused() == old(self).spec_focused(),
            final(self).spec_freed() == old(self).spec_freed(),
            forall|x: int, y: int| #[trigger]
                final(self).marked(x, y) <==> old(self).marked(x, y) || (old(self).spec_clear()
                    != glyph && old(self).in_canvas(x, y)),
    {
        if self.clear_glyph != glyph {
            self.clear_glyph = glyph;
            let r = self.rect();
            self.mark_damaged(r);
        }
        proof {
            assert forall|x: int, y: int| self.in_canvas(x, y) implies (old(self).pending(x, y)
                ==> #[trigger] self.pending(x, y)) && (self.shown(x, y) != old(self).shown(x, y)
                ==> self.pending(x, y)) by {
                if old(self).pane_damage_at(x, y) {
                    assert(self.pane_damage_at(x, y));
                }
                if self.shown(x, y) != old(self).shown(x, y) {
                    assert(old(self).covers(self.spec_rect(), x, y));
                }
            }
        }
    }

    /// Forces the next render to perform a full redraw.
    pub fn force_redraw(&mut self)
        ensures
            final(self).spec_forced(),
            final(self).covers_changes(old(self)),
            final(self).spec_size() == old(self).spec_size(),
            final(self).spec_clear() == old(self).spec_clear(),
            final(self).spec_panes() == old(self).spec_panes(),
            final(self).spec_policies() == old(self).spec_policies(),
            final(self).spec_decor() == old(self).spec_decor(),
            final(self).spec_damage() == old(self).spec_damage(),
            final(self).spec_cursor() == old(self).spec_cursor(),
            final(self).spec_focused() == old(self).spec_focused(),
            final(self).spec_freed() == old(self).spec_freed(),
    {
        self.forced_redraw = true;
    }

    /// Sets the cursor to specific coordinates on the canvas.
    pub fn set_cursor(&mut self, cursor: Option<Point>)
        ensures
            final(self).spec_cursor() == cursor,
            final(self).spec_size() == old(self).spec_size(),
            final(self).spec_clear() == old(self).spec_clear(),
            final(self).spec_forced() == old(self).spec_forced(),
            final(self).spec_panes() == old(self).spec_panes(),
            final(self).spec_policies() == old(self).spec_policies(),
            final(self).spec_decor() == old(self).spec_decor(),
            final(self).spec_damage() == old(self).spec_damage(),
            final(self).spec_focused() == old(self).spec_focused(),
            final(self).spec_freed() == old(self).spec_freed(),
            final(self).panes_indexed() == old(self).panes_indexed(),
    {
        self.cursor = cursor;
    }

    /// Returns the cursor position on the canvas, if shown.
    pub fn cursor(&self) -> (c: Option<Point>)
        ensures
            c == self.spec_cursor(),
    {
        self.cursor
    }

    /// Returns the currently focused pane, if any.
    pub fn focused(&self) -> (f: Option<PaneId>)
        ensures
            f == self.spec_focused(),
    {
        self.focused
    }

    /// Marks the part of `rect` that lies on the canvas as damaged.
    fn mark_damaged(&mut self, rect: Rect)
        requires
            old(self).wf(),
        ensures
            final(self).wf(),
            final(self).spec_size() == old(self).spec_size(),
            final(self).spec_clear() == old(self).spec_clear(),
            final(self).spec_forced() == old(self).spec_forced(),
            final(self).spec_panes() == old(self).spec_panes(),
            final(self).spec_policies() == old(self).spec_policies(),
            final(self).spec_decor() == old(self).spec_decor(),
            final(self).spec_cursor() == old(self).spec_cursor(),
            final(self).spec_focused() == old(self).spec_focused(),
            final(self).spec_freed() == old(self).spec_freed(),
            forall|x: int, y: int| #[trigger]
                final(self).marked(x, y) <==> old(self).marked(x, y) || old(self).covers(rect, x, y),
    {
        let width = self.size.width;
        let height = self.size.height;
        if self.damaged.len() == 0 || rect.width == 0 || rect.height == 0 {
            return;
        }
        if rect.x >= width || rect.y >= height {
            return;
        }
        let x0 = rect.x;
        let x1 = min_usize(add_sat(rect.x, rect.width), width);
        let y0 = rect.y;
        let y1 = min_usize(add_sat(rect.y, rect.height), height);
        let ghost pre = *self;
        let mut row = y0;
        while row < y1
            invariant
                y0 <= row <= y1,
                y1 <= height,
                x1 <= width,
                width == self.size.width,
                height == self.size.height,
                pre.wf(),
                self.wf(),
                self.size == pre.size,
                self.clear_glyph == pre.clear_glyph,
                self.forced_redraw == pre.forced_redraw,
                self.panes@ == pre.panes@,
                self.policies@ == pre.policies@,
                self.decor@ == pre.decor@,
                self.pane_keys@ == pre.pane_keys@,
                self.cursor == pre.cursor,
                self.focused == pre.focused,
                self.freed@ == pre.freed@,
                forall|x: int, y: int| #[trigger]
                    row_marked(self.damaged@, x, y) <==> row_marked(pre.damaged@, x, y) || (y0 <= y
                        < row && x0 <= x < x1),
            decreases y1 - row,
        {
            mark_row_range(&mut self.damaged, row, x0, x1);
            row += 1;
        }
        proof {
            assert forall|x: int, y: int| #[trigger]
                self.marked(x, y) <==> pre.marked(x, y) || pre.covers(rect, x, y) by {
                assert(self.marked(x, y) == row_marked(self.damaged@, x, y));
                assert(pre.marked(x, y) == row_marked(pre.damaged@, x, y));
            }
        }
    }

    /// Marks columns `[x0, x1)` of canvas row `y`, as far as they lie on the canvas.
    fn mark_canvas_span_in(damaged: &mut Vec<DamagedRow>, canvas_width: usize, y: usize, x0: usize, x1: usize)
        requires
            rows_wf(old(damaged)@),
        ensures
            rows_wf(final(damaged)@),
            final(damaged)@.len() == old(damaged)@.len(),
            forall|x: int, yy: int| #[trigger]
                row_marked(final(damaged)@, x, yy) <==> row_marked(old(damaged)@, x, yy) || (yy == y
                    && y < old(damaged)@.len() && x0 <= x < x1 && x < canvas_width),
    {
        if damaged.len() == 0 || y >= damaged.len() || x0 >= canvas_width {
            return;
        }
        let x1 = min_usize(x1, canvas_width);
        if x0 >= x1 {
            return;
        }
        mark_row_range(damaged, y, x0, x1);
    }

    /// Removes all tracked canvas damage.
    fn clear_damaged(&mut self)
        requires
            old(self).wf(),
        ensures
            final(self).wf(),
            final(self).spec_size() == old(self).spec_size(),
            final(self).spec_clear() == old(self).spec_clear(),
            final(self).spec_forced() == old(self).spec_forced(),
            final(self).spec_panes() == old(self).spec_panes(),
            final(self).spec_policies() == old(self).spec_policies(),
            final(self).spec_decor() == old(self).spec_decor(),
            final(self).spec_cursor() == old(self).spec_cursor(),
            final(self).spec_focused() == old(self).spec_focused(),
            final(self).spec_freed() == old(self).spec_freed(),
            forall|x: int, y: int| !#[trigger] final(self).marked(x, y),
    {
        clear_rows(&mut self.damaged);
    }
}


/// `p` is `p0` with its content rectangle synchronized to decoration `d` and the
/// decoration drawn over it, for a pane that is focused or not.
pub open spec fn redrawn(p: Pane, p0: Pane, d: PaneDecor, policy: PanePolicy, focused: bool) -> bool {
    let content = content_for(p0.spec_rect(), d.spec_insets());
    tracks(
        p,
        p0.spec_with_content(content),
        d.render_target(
            p0.spec_rect().width as int,
            p0.spec_rect().height as int,
            focused,
            policy.resizable,
        ),
    )
}

/// The panes of `new` sit where those of `old` do, with the same identifiers, rectangles,
/// layers and visibility.
pub open spec fn frames_kept(new: Seq<Pane>, old: Seq<Pane>) -> bool {
    &&& new.len() == old.len()
    &&& forall|k: int|
        0 <= k < old.len() ==> {
            &&& (#[trigger] new[k]).spec_id() == old[k].spec_id()
            &&& new[k].spec_rect() == old[k].spec_rect()
            &&& new[k].spec_layer() == old[k].spec_layer()
            &&& new[k].spec_visible() == old[k].spec_visible()
        }
}

/// Canvases whose panes carry the same identifiers at the same places have the same panes
/// and find each at the same place.
pub proof fn lemma_same_ids_index(a: Canvas, b: Canvas, id: PaneId)
    requires
        a.wf(),
        b.spec_panes().len() == a.spec_panes().len(),
        forall|k: int| 0 <= k < a.spec_panes().len() ==> (#[trigger] b.spec_panes()[k]).spec_id() == a.spec_panes()[k].spec_id(),
    ensures
        b.has_pane(id) == a.has_pane(id),
        a.has_pane(id) ==> b.index_of(id) == a.index_of(id),
{
    let pa = a.spec_panes();
    let pb = b.spec_panes();
    assert forall|i: int, j: int| 0 <= i < pb.len() && 0 <= j < pb.len() && i != j implies #[trigger] pb[i].spec_key()
        != #[trigger] pb[j].spec_key() by {
        assert(pa[i].spec_key() != pa[j].spec_key());
    }
    if a.has_pane(id) {
        let i = a.index_of(id);
        assert(pa[i].spec_key() == id.0 as u64);
        assert(pb[i].spec_key() == id.0 as u64);
        assert(pb[i].spec_id() == id) by {
            assert(pa[i].spec_id() == id) by {
                a.lemma_id_of_key(i, id);
            }
        }
        b.lemma_index_of(id, i);
    }
    if b.has_pane(id) {
        let k = choose|k: int| 0 <= k < pb.len() && #[trigger] pb[k].spec_key() == id.0 as u64;
        assert(pa[k].spec_key() == id.0 as u64);
    }
}

impl Canvas {
    /// Everything but the panes and the damage is the same in both canvases.
    pub open spec fn same_settings(&self, other: &Canvas) -> bool {
        &&& self.spec_size() == other.spec_size()
        &&& self.spec_clear() == other.spec_clear()
        &&& self.spec_forced() == other.spec_forced()
        &&& self.spec_policies() == other.spec_policies()
        &&& self.spec_decor() == other.spec_decor()
        &&& self.spec_cursor() == other.spec_cursor()
        &&& self.spec_focused() == other.spec_focused()
        &&& self.spec_freed() == other.spec_freed()
    }

    /// The pane with identifier `id` is focused.
    pub open spec fn is_focused(&self, id: PaneId) -> bool {
        self.spec_focused() == Some(id)
    }

    /// Position of the pane with identifier `pane_id`.
    fn find(&self, pane_id: PaneId) -> (r: Option<usize>)
        requires
            self.wf(),
        ensures
            match r {
                Some(i) => self.has_pane(pane_id) && i == self.index_of(pane_id) && i
                    < self.spec_panes().len(),
                None => !self.has_pane(pane_id),
            },
    {
        match self.panes.position(pane_id.0 as u64) {
            Some(i) => {
                proof {
                    self.lemma_index_of(pane_id, i as int);
                }
                Some(i)
            },
            None => None,
        }
    }

    /// The policy of the pane at position `i`.
    fn policy_at(&self, i: usize) -> (p: &PanePolicy)
        requires
            self.wf(),
            i < self.spec_panes().len(),
        ensures
            *p == self.spec_policies()[i as int],
    {
        let k = self.panes.as_slice()[i].key();
        assert(self.pane_keys@[i as int] == k);
        self.policies.get(&k).unwrap()
    }

    /// The decoration of the pane at position `i`.
    fn decor_at(&self, i: usize) -> (d: &PaneDecor)
        requires
            self.wf(),
            i < self.spec_panes().len(),
        ensures
            *d == self.spec_decor()[i as int],
    {
        let k = self.panes.as_slice()[i].key();
        assert(self.pane_keys@[i as int] == k);
        self.decor.get(&k).unwrap()
    }

    /// Puts `d` in place of the decoration of the pane at position `i` and returns the one
    /// it replaces.
    fn swap_decor(&mut self, i: usize, d: PaneDecor) -> (prev: PaneDecor)
        requires
            old(self).wf(),
            i < old(self).spec_panes().len(),
        ensures
            final(self).wf(),
            prev == old(self).spec_decor()[i as int],
            final(self).spec_decor() == old(self).spec_decor().update(i as int, d),
            final(self).spec_panes() == old(self).spec_panes(),
            final(self).spec_policies() == old(self).spec_policies(),
            final(self).spec_damage() == old(self).spec_damage(),
            final(self).spec_size() == old(self).spec_size(),
            final(self).spec_clear() == old(self).spec_clear(),
            final(self).spec_forced() == old(self).spec_forced(),
            final(self).spec_cursor() == old(self).spec_cursor(),
            final(self).spec_focused() == old(self).spec_focused(),
            final(self).spec_freed() == old(self).spec_freed(),
    {
        let k = self.panes.as_slice()[i].key();
        let ghost keys = self.pane_keys@;
        assert(keys[i as int] == k);
        let prev = self.decor.insert(k, d).unwrap();
        proof {
            assert forall|j: int| 0 <= j < keys.len() && j != i implies keys[j] != k by {
                assert(self.panes@[j].spec_key() != self.panes@[i as int].spec_key());
            }
        }
        prev
    }

    /// Obtains an immutable pane from the managed pane list.
    pub fn pane(&self, pane_id: PaneId) -> (r: Option<&Pane>)
        requires
            self.wf(),
        ensures
            match r {
                Some(p) => self.has_pane(pane_id) && *p == self.pane_of(pane_id),
                None => !self.has_pane(pane_id),
            },
    {
        match self.find(pane_id) {
            Some(i) => Some(&self.panes.as_slice()[i]),
            None => None,
        }
    }

    /// Obtains a mutable pane from the managed pane list; whatever it becomes takes the
    /// pane's place.
    pub fn pane_mut(&mut self, pane_id: PaneId) -> (r: Option<&mut Pane>)
        requires
            old(self).wf(),
        ensures
            final(self).same_settings(old(self)),
            final(self).spec_damage() == old(self).spec_damage(),
            match r {
                Some(p) => old(self).has_pane(pane_id) && *p == old(self).pane_of(pane_id)
                    && final(self).spec_panes() == old(self).spec_panes().update(
                    old(self).index_of(pane_id),
                    *final(p),
                ),
                None => !old(self).has_pane(pane_id) && final(self).spec_panes() == old(self).spec_panes(),
            },
            match r {
                Some(p) => final(p).spec_id() == pane_id ==> final(self).panes_indexed(),
                None => final(self).panes_indexed(),
            },
    {
        proof {
            if self.has_pane(pane_id) {
                let idx = self.index_of(pane_id);
                assert forall|i: int|
                    0 <= i < self.spec_panes().len() && #[trigger] self.spec_panes()[i].spec_key()
                        == pane_id.0 as u64 implies i == idx by {
                    if i != idx {
                        assert(self.spec_panes()[idx].spec_key() == pane_id.0 as u64);
                    }
                }
            }
        }
        let r = self.panes.get_mut(pane_id.0 as u64);
        r
    }

    /// Returns the policy for a pane.
    pub fn pane_policy(&self, pane_id: PaneId) -> (r: Option<&PanePolicy>)
        requires
            self.wf(),
        ensures
            match r {
                Some(p) => self.has_pane(pane_id) && *p == self.spec_policies()[self.index_of(
                    pane_id,
                )],
                None => !self.has_pane(pane_id),
            },
    {
        match self.find(pane_id) {
            Some(i) => Some(self.policy_at(i)),
            None => None,
        }
    }

    /// Returns the mutable policy for a pane; whatever it becomes takes the policy's place.
    pub fn pane_policy_mut(&mut self, pane_id: PaneId) -> (r: Option<&mut PanePolicy>)
        requires
            old(self).wf(),
        ensures
            final(self).wf(),
            final(self).spec_panes() == old(self).spec_panes(),
            final(self).spec_damage() == old(self).spec_damage(),
            final(self).spec_decor() == old(self).spec_decor(),
            final(self).spec_size() == old(self).spec_size(),
            final(self).spec_clear() == old(self).spec_clear(),
            final(self).spec_forced() == old(self).spec_forced(),
            final(self).spec_cursor() == old(self).spec_cursor(),
            final(self).spec_focused() == old(self).spec_focused(),
            final(self).spec_freed() == old(self).spec_freed(),
            match r {
                Some(p) => old(self).has_pane(pane_id) && *p == old(self).spec_policies()[old(self).index_of(pane_id)] && final(self).spec_policies() == old(self).spec_policies().update(old(self).index_of(pane_id), *final(p)),
                None => !old(self).has_pane(pane_id) && final(self).spec_policies() == old(self).spec_policies(),
            },
    {
        match self.find(pane_id) {
            Some(i) => {
                let k = self.panes.as_slice()[i].key();
                proof {
                    assert(self.pane_keys@[i as int] == k);
                    assert forall|j: int| 0 <= j < self.pane_keys@.len() && j != i implies self.pane_keys@[j] != k by {
                        assert(self.panes@[j].spec_key() != self.panes@[i as int].spec_key());
                    }
                }
                match self.policies.entry(k) {
                    Entry::Occupied(o) => Some(o.into_mut()),
                    Entry::Vacant(_) => None,
                }
            },
            None => None,
        }
    }

    /// Returns the decoration for a pane.
    pub fn pane_decor(&self, pane_id: PaneId) -> (r: Option<&PaneDecor>)
        requires
            self.wf(),
        ensures
            match r {
                Some(d) => self.has_pane(pane_id) && *d == self.spec_decor()[self.index_of(
                    pane_id,
                )],
                None => !self.has_pane(pane_id),
            },
    {
        match self.find(pane_id) {
            Some(i) => Some(self.decor_at(i)),
            None => None,
        }
    }

    /// Returns the mutable decoration for a pane; whatever it becomes takes the
    /// decoration's place.
    pub fn pane_decor_mut(&mut self, pane_id: PaneId) -> (r: Option<&mut PaneDecor>)
        requires
            old(self).wf(),
        ensures
            final(self).wf(),
            final(self).spec_panes() == old(self).spec_panes(),
            final(self).spec_damage() == old(self).spec_damage(),
            final(self).spec_policies() == old(self).spec_policies(),
            final(self).spec_size() == old(self).spec_size(),
            final(self).spec_clear() == old(self).spec_clear(),
            final(self).spec_forced() == old(self).spec_forced(),
            final(self).spec_cursor() == old(self).spec_cursor(),
            final(self).spec_focused() == old(self).spec_focused(),
            final(self).spec_freed() == old(self).spec_freed(),
            match r {
                Some(d) => old(self).has_pane(pane_id) && *d == old(self).spec_decor()[old(self).index_of(pane_id)] && final(self).spec_decor() == old(self).spec_decor().update(
                    old(self).index_of(pane_id),
                    *final(d),
                ),
                None => !old(self).has_pane(pane_id) && final(self).spec_decor() == old(self).spec_decor(),
            },
    {
        match self.find(pane_id) {
            Some(i) => {
                let k = self.panes.as_slice()[i].key();
                proof {
                    assert(self.pane_keys@[i as int] == k);
                    assert forall|j: int| 0 <= j < self.pane_keys@.len() && j != i implies self.pane_keys@[j] != k by {
                        assert(self.panes@[j].spec_key() != self.panes@[i as int].spec_key());
                    }
                }
                match self.decor.entry(k) {
                    Entry::Occupied(o) => Some(o.into_mut()),
                    Entry::Vacant(_) => None,
                }
            },
            None => None,
        }
    }

    /// Returns the cached content rect for a pane.
    pub fn content_rect(&self, pane_id: PaneId) -> (r: Option<Rect>)
        requires
            self.wf(),
        ensures
            match r {
                Some(c) => self.has_pane(pane_id) && c == self.pane_of(pane_id).spec_content(),
                None => !self.has_pane(pane_id),
            },
    {
        match self.pane(pane_id) {
            Some(p) => Some(p.content_rect()),
            None => None,
        }
    }

    /// Resolves the action to perform for a pane hit, with the default policy for an
    /// unknown pane.
    pub fn action_for_hit(&self, pane_id: PaneId, element: PaneElement, local: Point) -> (a:
        PaneAction)
        requires
            self.wf(),
        ensures
            a == (if self.has_pane(pane_id) {
                self.spec_policies()[self.index_of(pane_id)]
            } else {
                PanePolicy { movable: true, resizable: true, focus_on_decor_press: true }
            }).spec_action_for_hit(element, local),
    {
        let policy = match self.find(pane_id) {
            Some(i) => *self.policy_at(i),
            None => PanePolicy::default(),
        };
        policy.action_for_hit(element, local)
    }

    /// Returns all pane ids owned by the canvas, bottom to top.
    pub fn pane_ids(&self) -> (ids: Vec<PaneId>)
        ensures
            ids@.len() == self.spec_panes().len(),
            forall|i: int| 0 <= i < ids@.len() ==> #[trigger] ids@[i] == self.spec_panes()[i].spec_id(),
    {
        let panes = self.panes.as_slice();
        let mut ids: Vec<PaneId> = Vec::new();
        let mut i: usize = 0;
        while i < panes.len()
            invariant
                i <= panes@.len(),
                panes@ == self.spec_panes(),
                ids@.len() == i,
                forall|j: int| 0 <= j < i ==> #[trigger] ids@[j] == self.spec_panes()[j].spec_id(),
            decreases panes@.len() - i,
        {
            ids.push(panes[i].id());
            i += 1;
        }
        ids
    }
}


impl Canvas {
    /// Updates the cached content rect of a pane from its decoration's insets; returns
    /// `false` for an unknown pane.
    fn sync_content_rect(&mut self, pane_id: PaneId) -> (ok: bool)
        requires
            old(self).wf(),
        ensures
            final(self).wf(),
            ok == old(self).has_pane(pane_id),
            final(self).same_settings(old(self)),
            final(self).spec_damage() == old(self).spec_damage(),
            ok ==> final(self).spec_panes() == old(self).spec_panes().update(
                old(self).index_of(pane_id),
                old(self).pane_of(pane_id).spec_with_content(
                    content_for(
                        old(self).pane_of(pane_id).spec_rect(),
                        old(self).spec_decor()[old(self).index_of(pane_id)].spec_insets(),
                    ),
                ),
            ),
            !ok ==> final(self).spec_panes() == old(self).spec_panes(),
    {
        let i = match self.find(pane_id) {
            Some(i) => i,
            None => {
                return false;
            },
        };
        let insets = self.decor_at(i).insets();
        let ghost pre = *self;
        match self.pane_mut(pane_id) {
            Some(p) => {
                let rect = p.rect();
                p.set_content_rect(content_rect_for(rect, insets));
            },
            None => {},
        }
        proof {
            let q = pre.pane_of(pane_id).spec_with_content(
                content_for(pre.pane_of(pane_id).spec_rect(), insets),
            );
            lemma_with_content(pre.pane_of(pane_id), content_for(pre.pane_of(pane_id).spec_rect(), insets));
            lemma_panes_update(pre.spec_panes(), i as int, q);
        }
        true
    }

    /// Synchronizes the cached content rect of a pane, redraws its decoration, and marks
    /// the pane's area as damaged. Unknown panes are ignored.
    pub fn sync_decor(&mut self, pane_id: PaneId)
        requires
            old(self).wf(),
        ensures
            final(self).wf(),
            final(self).same_settings(old(self)),
            final(self).covers_changes(old(self)),
            !old(self).has_pane(pane_id) ==> final(self).spec_panes() == old(self).spec_panes()
                && final(self).spec_damage() == old(self).spec_damage(),
            old(self).has_pane(pane_id) ==> {
                let i = old(self).index_of(pane_id);
                let p0 = old(self).spec_panes()[i];
                &&& final(self).spec_panes().len() == old(self).spec_panes().len()
                &&& forall|j: int|
                    0 <= j < old(self).spec_panes().len() && j != i ==> #[trigger] final(self).spec_panes()[j] == old(self).spec_panes()[j]
                &&& redrawn(
                    final(self).spec_panes()[i],
                    p0,
                    old(self).spec_decor()[i],
                    old(self).spec_policies()[i],
                    old(self).is_focused(pane_id),
                )
                &&& forall|x: int, y: int| #[trigger]
                    final(self).marked(x, y) <==> old(self).marked(x, y) || old(self).covers(
                        p0.spec_rect(),
                        x,
                        y,
                    )
            },
    {
        let focused = match self.focused {
            Some(f) => f == pane_id,
            None => false,
        };
        let ghost pre = *self;
        if !self.sync_content_rect(pane_id) {
            return;
        }
        let ghost mid = *self;
        proof {
            mid.lemma_index_of(pane_id, pre.index_of(pane_id));
        }
        let i = match self.find(pane_id) {
            Some(i) => i,
            None => {
                return;
            },
        };
        let resizable = self.policy_at(i).resizable;
        let mut d = self.swap_decor(i, PaneDecor::Plain);
        let ghost mid2 = *self;
        assert(mid2.wf());
        assert(mid2.index_of(pane_id) == i);
        let rect = match self.pane_mut(pane_id) {
            Some(p) => {
                d.render(p, focused, resizable);
                p.rect()
            },
            None => {
                return;
            },
        };
        proof {
            let q = self.spec_panes()[i as int];
            lemma_panes_update(mid2.spec_panes(), i as int, q);
            assert(self.spec_panes() == mid2.spec_panes().update(i as int, q));
        }
        self.swap_decor(i, d);
        proof {
            assert(self.spec_decor() =~= pre.spec_decor());
        }
        self.mark_damaged(rect);
        proof {
            let p0 = pre.spec_panes()[i as int];
            let q = self.spec_panes()[i as int];
            let w = pre.spec_size().width as int;
            let h = pre.spec_size().height as int;
            assert(self.spec_panes() =~= pre.spec_panes().update(i as int, q));
            assert forall|x: int, y: int|
                self.in_canvas(x, y) && (shows_xy(p0, x, y) || shows_xy(q, x, y) || projected(
                    p0,
                    w,
                    h,
                    x,
                    y,
                )) implies #[trigger] self.pending(x, y) by {
                if projected(p0, w, h, x, y) {
                    lemma_projected_in_rect(p0, w, h, x, y);
                }
                assert(pre.covers(p0.spec_rect(), x, y));
            }
            lemma_replace_covered(pre, *self, i as int, q);
        }
    }

    /// Sets a pane title and redraws the pane's decoration; returns whether the title
    /// changed. Panes without a window decoration have no title.
    pub fn set_pane_title(&mut self, pane_id: PaneId, title: Option<String>) -> (changed: bool)
        requires
            old(self).wf(),
        ensures
            final(self).wf(),
            changed == (old(self).has_pane(pane_id) && title_changes(
                old(self).spec_decor()[old(self).index_of(pane_id)],
                title,
            )),
            final(self).covers_changes(old(self)),
            !changed ==> final(self).same_settings(old(self)) && final(self).spec_panes() == old(self).spec_panes() && final(self).spec_damage() == old(self).spec_damage(),
            changed ==> {
                let i = old(self).index_of(pane_id);
                let p0 = old(self).spec_panes()[i];
                let d = final(self).spec_decor()[i];
                &&& old(self).spec_decor()[i] matches PaneDecor::Window(w)
                &&& d matches PaneDecor::Window(w2)
                &&& w2.border == w.border
                &&& w2.style == w.style
                &&& w2.spec_title() == title_view(title)
                &&& final(self).spec_decor() == old(self).spec_decor().update(i, d)
                &&& final(self).spec_size() == old(self).spec_size()
                &&& final(self).spec_clear() == old(self).spec_clear()
                &&& final(self).spec_forced() == old(self).spec_forced()
                &&& final(self).spec_policies() == old(self).spec_policies()
                &&& final(self).spec_cursor() == old(self).spec_cursor()
                &&& final(self).spec_focused() == old(self).spec_focused()
                &&& final(self).spec_panes().len() == old(self).spec_panes().len()
                &&& forall|j: int|
                    0 <= j < old(self).spec_panes().len() && j != i ==> #[trigger] final(self).spec_panes()[j] == old(self).spec_panes()[j]
                &&& redrawn(
                    final(self).spec_panes()[i],
                    p0,
                    d,
                    old(self).spec_policies()[i],
                    old(self).is_focused(pane_id),
                )
                &&& forall|x: int, y: int| #[trigger]
                    final(self).marked(x, y) <==> old(self).marked(x, y) || old(self).covers(
                        p0.spec_rect(),
                        x,
                        y,
                    ) || (old(self).in_canvas(x, y) && title_row(p0.spec_rect(), x, y))
            },
    {
        let i = match self.find(pane_id) {
            Some(i) => i,
            None => {
                return false;
            },
        };
        let mut d = self.swap_decor(i, PaneDecor::Plain);
        let changed = d.set_title(title);
        self.swap_decor(i, d);
        if !changed {
            proof {
                assert(self.spec_decor() =~= old(self).spec_decor());
                lemma_same_view_covered(*old(self), *self);
            }
            return false;
        }
        let ghost mid = *self;
        assert(mid.wf());
        assert(mid.index_of(pane_id) == i);
        proof {
            lemma_same_view_covered(*old(self), mid);
        }
        self.sync_decor(pane_id);
        proof {
            lemma_covers_trans(*old(self), mid, *self);
        }
        let ghost mid2 = *self;
        proof {
            mid2.lemma_index_of(pane_id, i as int);
        }
        let rect = match self.pane(pane_id) {
            Some(p) => p.rect(),
            None => {
                return true;
            },
        };
        if rect.width > 0 {
            let width = self.size.width;
            Self::mark_canvas_span_in(&mut self.damaged, width, rect.y, rect.x, add_sat(rect.x, rect.width));
            proof {
                assert forall|x: int, y: int| #[trigger]
                    self.marked(x, y) <==> mid2.marked(x, y) || (mid2.in_canvas(x, y) && title_row(rect, x, y)) by {
                    assert(self.marked(x, y) == row_marked(self.damaged@, x, y));
                    assert(mid2.marked(x, y) == row_marked(mid2.damaged@, x, y));
                }
                lemma_more_marks_covered(mid2, *self);
                lemma_covers_trans(*old(self), mid2, *self);
            }
        }
        true
    }

    /// Sets the focused pane (`None` clears focus); the decorations of the previously and
    /// newly focused panes are redrawn and the cursor is hidden. Focusing the focused pane
    /// or an unknown pane changes nothing.
    pub fn focus(&mut self, pane_id: Option<PaneId>)
        requires
            old(self).wf(),
        ensures
            final(self).wf(),
            final(self).covers_changes(old(self)),
            pane_id == old(self).spec_focused() || (pane_id matches Some(id) && !old(self).has_pane(id)) ==> *final(self) == *old(self),
            frames_kept(final(self).spec_panes(), old(self).spec_panes()),
            forall|q: PaneId|
                old(self).has_pane(q) && old(self).content_synced(q) ==> #[trigger] final(self).pane_of(q).spec_content()
                    == old(self).pane_of(q).spec_content(),
            !(pane_id == old(self).spec_focused() || (pane_id matches Some(id) && !old(self).has_pane(id))) ==> {
                &&& final(self).spec_focused() == pane_id
                &&& final(self).spec_cursor() is None
                &&& final(self).spec_size() == old(self).spec_size()
                &&& final(self).spec_clear() == old(self).spec_clear()
                &&& final(self).spec_forced() == old(self).spec_forced()
                &&& final(self).spec_policies() == old(self).spec_policies()
                &&& final(self).spec_decor() == old(self).spec_decor()
                &&& final(self).spec_panes().len() == old(self).spec_panes().len()
                &&& forall|j: int|
                    0 <= j < old(self).spec_panes().len() ==> {
                        let p0 = old(self).spec_panes()[j];
                        let id = p0.spec_id();
                        if old(self).spec_focused() == Some(id) || pane_id == Some(id) {
                            redrawn(
                                #[trigger] final(self).spec_panes()[j],
                                p0,
                                old(self).spec_decor()[j],
                                old(self).spec_policies()[j],
                                pane_id == Some(id),
                            )
                        } else {
                            final(self).spec_panes()[j] == p0
                        }
                    }
                &&& forall|x: int, y: int| #[trigger]
                    final(self).marked(x, y) <==> old(self).marked(x, y) || exists|j: int|
                        0 <= j < old(self).spec_panes().len() && (old(self).spec_focused() == Some(
                            old(self).spec_panes()[j].spec_id(),
                        ) || pane_id == Some(old(self).spec_panes()[j].spec_id())) && old(self).covers(#[trigger] old(self).spec_panes()[j].spec_rect(), x, y)
            },
    {
        let same = match (pane_id, self.focused) {
            (Some(a), Some(b)) => a == b,
            (None, None) => true,
            _ => false,
        };
        if same {
            return;
        }
        match pane_id {
            Some(id) => {
                if self.find(id).is_none() {
                    return;
                }
            },
            None => {},
        }
        let old_id = self.focused;
        self.focused = pane_id;
        let ghost pre = *self;
        proof {
            lemma_same_view_covered(*old(self), pre);
        }
        match old_id {
            Some(o) => self.sync_decor(o),
            None => {},
        }
        let ghost mid = *self;
        match pane_id {
            Some(n) => self.sync_decor(n),
            None => {},
        }
        let ghost fin = *self;
        self.cursor = None;
        proof {
            lemma_covers_trans(*old(self), pre, mid);
            lemma_covers_trans(*old(self), mid, fin);
            lemma_same_view_covered(fin, *self);
            lemma_covers_trans(*old(self), fin, *self);
            let op = old(self).spec_panes();
            assert forall|j: int| 0 <= j < op.len() implies {
                let p0 = op[j];
                let id = p0.spec_id();
                if old(self).spec_focused() == Some(id) || pane_id == Some(id) {
                    redrawn(
                        #[trigger] self.spec_panes()[j],
                        p0,
                        old(self).spec_decor()[j],
                        old(self).spec_policies()[j],
                        pane_id == Some(id),
                    )
                } else {
                    self.spec_panes()[j] == p0
                }
            } by {
                let id = op[j].spec_id();
                if old_id == Some(id) {
                    pre.lemma_index_of(id, j);
                }
                if pane_id == Some(id) {
                    mid.lemma_index_of(id, j);
                }
            }
            assert forall|j: int| 0 <= j < op.len() implies #[trigger] mid.spec_panes()[j].spec_id()
                == op[j].spec_id() && mid.spec_panes()[j].spec_rect() == op[j].spec_rect() by {
            }
            assert forall|x: int, y: int| #[trigger]
                self.marked(x, y) <==> old(self).marked(x, y) || exists|j: int|
                    0 <= j < op.len() && (old(self).spec_focused() == Some(op[j].spec_id())
                        || pane_id == Some(op[j].spec_id())) && old(self).covers(
                        #[trigger] op[j].spec_rect(),
                        x,
                        y,
                    ) by {
                if exists|j: int|
                    0 <= j < op.len() && (old(self).spec_focused() == Some(op[j].spec_id())
                        || pane_id == Some(op[j].spec_id())) && old(self).covers(
                        #[trigger] op[j].spec_rect(),
                        x,
                        y,
                    ) {
                    let j = choose|j: int|
                        0 <= j < op.len() && (old(self).spec_focused() == Some(op[j].spec_id())
                            || pane_id == Some(op[j].spec_id())) && old(self).covers(
                            #[trigger] op[j].spec_rect(),
                            x,
                            y,
                        );
                    if old_id == Some(op[j].spec_id()) {
                        pre.lemma_index_of(op[j].spec_id(), j);
                        assert(mid.marked(x, y));
                    } else {
                        assert(mid.spec_panes()[j].spec_id() == op[j].spec_id());
                        mid.lemma_index_of(op[j].spec_id(), j);
                        assert(mid.spec_panes()[j].spec_rect() == op[j].spec_rect());
                        assert(fin.marked(x, y));
                    }
                }
                assert(self.marked(x, y) == fin.marked(x, y));
                match pane_id {
                    Some(n) => {
                        let k = pre.index_of(n);
                        assert(op[k].spec_id() == n);
                        assert(mid.spec_panes()[k].spec_id() == op[k].spec_id());
                        mid.lemma_index_of(n, k);
                        assert(mid.marked(x, y) ==> fin.marked(x, y));
                    },
                    None => {},
                }
                assert(pre.marked(x, y) == old(self).marked(x, y));
                if self.marked(x, y) && !old(self).marked(x, y) {
                    if !mid.marked(x, y) {
                        match pane_id {
                            Some(n) => {
                                let k = pre.index_of(n);
                                assert(op[k].spec_id() == n);
                                assert(mid.spec_panes()[k].spec_id() == op[k].spec_id());
                                mid.lemma_index_of(n, k);
                                assert(mid.spec_panes()[k].spec_rect() == op[k].spec_rect());
                                assert(mid.has_pane(n));
                                assert(mid.index_of(n) == k);
                                assert(self.marked(x, y) == fin.marked(x, y));
                                assert(fin.marked(x, y));
                                assert(fin.marked(x, y) == (mid.marked(x, y) || mid.covers(mid.spec_panes()[k].spec_rect(), x, y)));
                                assert(op[k].spec_id() == n);
                                assert(old(self).covers(op[k].spec_rect(), x, y));
                            },
                            None => {},
                        }
                    } else {
                        match old_id {
                            Some(o) => {
                                let k = pre.index_of(o);
                                assert(op[k].spec_id() == o);
                                assert(old(self).covers(op[k].spec_rect(), x, y));
                            },
                            None => {},
                        }
                    }
                }
            }
            assert forall|q: PaneId|
                old(self).has_pane(q) && old(self).content_synced(q) implies #[trigger] self.pane_of(q).spec_content()
                    == old(self).pane_of(q).spec_content() by {
                let j = old(self).index_of(q);
                old(self).lemma_id_of_key(j, q);
                lemma_with_content(
                    op[j],
                    content_for(op[j].spec_rect(), old(self).spec_decor()[j].spec_insets()),
                );
                assert(self.spec_panes()[j].spec_id() == q);
                self.lemma_index_of(q, j);
            }
        }
    }
}


/// The glyph composed at `(x, y)` comes from the topmost pane that shows there, or is the
/// clear glyph where none does.
pub proof fn lemma_composed_topmost(clear: Glyph, panes: Seq<Pane>, p: Point)
    ensures
        composed(clear, panes, p.x as int, p.y as int) == (if topmost(panes, p) >= 0 {
            let q = panes[topmost(panes, p)];
            q.cell(p.x - q.spec_rect().x, p.y - q.spec_rect().y)
        } else {
            clear
        }),
    decreases panes.len(),
{
    if panes.len() > 0 {
        lemma_composed_topmost(clear, panes.drop_last(), p);
        lemma_topmost(panes.drop_last(), p);
        if topmost(panes, p) >= 0 && topmost(panes, p) < panes.len() - 1 {
            assert(panes[topmost(panes, p)] == panes.drop_last()[topmost(panes, p)]);
        }
    }
}

impl Canvas {
    /// What hit-testing `position` finds: the topmost visible pane containing it, with the
    /// element there and the position relative to the pane (and to its content, for
    /// content hits); or the background, with the position clamped to the canvas.
    pub open spec fn spec_hit_at(&self, position: Point) -> HitTarget {
        let t = topmost(self.spec_panes(), position);
        if t >= 0 {
            let pane = self.spec_panes()[t];
            let rect = pane.spec_rect();
            let local = Point {
                x: sat_sub(position.x as int, rect.x as int) as usize,
                y: sat_sub(position.y as int, rect.y as int) as usize,
            };
            let content = pane.spec_content();
            if content.spec_contains(position.x as int, position.y as int) {
                HitTarget::Pane {
                    pane_id: pane.spec_id(),
                    hit: PaneHit {
                        element: PaneElement::Content,
                        global: position,
                        local,
                        content_local: Some(
                            Point {
                                x: sat_sub(position.x as int, content.x as int) as usize,
                                y: sat_sub(position.y as int, content.y as int) as usize,
                            },
                        ),
                    },
                }
            } else {
                HitTarget::Pane {
                    pane_id: pane.spec_id(),
                    hit: PaneHit {
                        element: self.spec_decor()[t].spec_hit_test(
                            rect.width as int,
                            rect.height as int,
                            local,
                        ),
                        global: position,
                        local,
                        content_local: None,
                    },
                }
            }
        } else {
            HitTarget::Background {
                global: Point {
                    x: clamp_of(
                        position.x as int,
                        0,
                        sat_sub(self.spec_size().width as int, 1),
                    ) as usize,
                    y: clamp_of(
                        position.y as int,
                        0,
                        sat_sub(self.spec_size().height as int, 1),
                    ) as usize,
                },
            }
        }
    }

    /// Returns the top-most target at the given canvas position.
    pub fn hit_at(&self, position: Point) -> (r: HitTarget)
        requires
            self.wf(),
        ensures
            r == self.spec_hit_at(position),
    {
        let panes = self.panes.as_slice();
        let mut i = panes.len();
        while i > 0
            invariant
                i <= panes@.len(),
                panes@ == self.spec_panes(),
                self.wf(),
                forall|j: int| i <= j < panes@.len() ==> !shows_at(#[trigger] panes@[j], position),
            decreases i,
        {
            let k = i - 1;
            let pane = &panes[k];
            let rect = pane.rect();
            if pane.is_visible() && rect.contains_point(position) {
                proof {
                    lemma_topmost_unique(panes@, position, k as int);
                }
                let local = position.saturating_sub(rect.origin());
                let content = pane.content_rect();
                if content.contains_point(position) {
                    return HitTarget::Pane {
                        pane_id: pane.id(),
                        hit: PaneHit {
                            element: PaneElement::Content,
                            global: position,
                            local,
                            content_local: Some(position.saturating_sub(content.origin())),
                        },
                    };
                }
                let element = self.decor_at(k).hit_test(pane, local);
                return HitTarget::Pane {
                    pane_id: pane.id(),
                    hit: PaneHit { element, global: position, local, content_local: None },
                };
            }
            i = k;
        }
        proof {
            lemma_topmost_unique(panes@, position, -1);
        }
        let max = Point::new(sub_sat(self.size.width, 1), sub_sat(self.size.height, 1));
        HitTarget::Background { global: position.clamp_each(Point::zero(), max) }
    }

    /// The hit pane is the topmost visible pane containing the point, and no pane shows
    /// where the background is hit.
    pub proof fn lemma_hit_is_topmost(&self, position: Point)
        requires
            self.wf(),
        ensures
            match self.spec_hit_at(position) {
                HitTarget::Pane { pane_id, hit } => {
                    &&& self.has_pane(pane_id)
                    &&& shows_at(self.pane_of(pane_id), position)
                    &&& forall|j: int|
                        self.index_of(pane_id) < j < self.spec_panes().len() ==> !shows_at(
                            #[trigger] self.spec_panes()[j],
                            position,
                        )
                },
                HitTarget::Background { .. } => forall|j: int|
                    0 <= j < self.spec_panes().len() ==> !shows_at(
                        #[trigger] self.spec_panes()[j],
                        position,
                    ),
            },
    {
        lemma_topmost(self.spec_panes(), position);
        let t = topmost(self.spec_panes(), position);
        if t >= 0 {
            self.lemma_index_of(self.spec_panes()[t].spec_id(), t);
        }
    }

    /// What a hit test finds at a point is what the compositor shows there: the glyph of
    /// the hit pane, or the clear glyph where the background is hit.
    pub proof fn lemma_hit_matches_composed(&self, position: Point)
        requires
            self.wf(),
        ensures
            match self.spec_hit_at(position) {
                HitTarget::Pane { pane_id, hit } => self.has_pane(pane_id) && composed(
                    self.spec_clear(),
                    self.spec_panes(),
                    position.x as int,
                    position.y as int,
                ) == self.pane_of(pane_id).cell(
                    position.x - self.pane_of(pane_id).spec_rect().x,
                    position.y - self.pane_of(pane_id).spec_rect().y,
                ),
                HitTarget::Background { .. } => composed(
                    self.spec_clear(),
                    self.spec_panes(),
                    position.x as int,
                    position.y as int,
                ) == self.spec_clear(),
            },
    {
        lemma_composed_topmost(self.spec_clear(), self.spec_panes(), position);
        lemma_topmost(self.spec_panes(), position);
        let t = topmost(self.spec_panes(), position);
        if t >= 0 {
            self.lemma_index_of(self.spec_panes()[t].spec_id(), t);
        }
    }
}


impl Canvas {
    /// The glyph the canvas shows at `(x, y)`: its panes stacked over the clear glyph.
    pub open spec fn shown(&self, x: int, y: int) -> Glyph {
        composed(self.spec_clear(), self.spec_panes(), x, y)
    }

    /// Some pane has damage that lands on `(x, y)`.
    pub open spec fn pane_damage_at(&self, x: int, y: int) -> bool {
        exists|i: int|
            0 <= i < self.spec_panes().len() && projected(
                #[trigger] self.spec_panes()[i],
                self.spec_size().width as int,
                self.spec_size().height as int,
                x,
                y,
            )
    }

    /// The next render redraws `(x, y)`: it is marked, a full redraw is due, or pane damage
    /// lands on it.
    pub open spec fn pending(&self, x: int, y: int) -> bool {
        ||| self.marked(x, y)
        ||| (self.spec_forced() && self.in_canvas(x, y))
        ||| self.pane_damage_at(x, y)
    }

    /// Compared with `old`, the size is kept, every cell that was to be redrawn still is,
    /// and every cell whose shown glyph changed is to be redrawn.
    pub open spec fn covers_changes(&self, old: &Canvas) -> bool {
        &&& self.spec_size() == old.spec_size()
        &&& forall|x: int, y: int|
            self.in_canvas(x, y) ==> (old.pending(x, y) ==> #[trigger] self.pending(x, y)) && (
            self.shown(x, y) != old.shown(x, y) ==> self.pending(x, y))
    }

    /// `front` has the canvas's size and shows the canvas at every cell that is not to be
    /// redrawn.
    pub open spec fn consistent_with(&self, front: Frame) -> bool {
        &&& front.spec_width() == self.spec_size().width
        &&& front.spec_height() == self.spec_size().height
        &&& forall|x: int, y: int|
            self.in_canvas(x, y) && !#[trigger] self.pending(x, y) ==> front.cell(x, y) == self.shown(
                x,
                y,
            )
    }
}

/// A change that covers its changes keeps the terminal image consistent: what was shown
/// correctly and is not to be redrawn still is.
pub proof fn lemma_consistency_kept(old: Canvas, new: Canvas, front: Frame)
    requires
        new.covers_changes(&old),
        old.consistent_with(front),
    ensures
        new.consistent_with(front),
{
    assert forall|x: int, y: int| new.in_canvas(x, y) && !#[trigger] new.pending(x, y) implies front.cell(
        x,
        y,
    ) == new.shown(x, y) by {
        assert(!old.pending(x, y));
    }
}

/// Covering changes composes over a sequence of changes.
pub proof fn lemma_covers_trans(a: Canvas, b: Canvas, c: Canvas)
    requires
        b.covers_changes(&a),
        c.covers_changes(&b),
    ensures
        c.covers_changes(&a),
{
    assert forall|x: int, y: int| c.in_canvas(x, y) implies (a.pending(x, y) ==> #[trigger] c.pending(
        x,
        y,
    )) && (c.shown(x, y) != a.shown(x, y) ==> c.pending(x, y)) by {
        if a.pending(x, y) {
            assert(b.pending(x, y));
        }
        if c.shown(x, y) != a.shown(x, y) {
            if b.shown(x, y) != a.shown(x, y) {
                assert(b.pending(x, y));
            }
        }
    }
}

/// A freshly created canvas (or one due for a full redraw) is consistent with any frame
/// of its size: the next render redraws everything.
pub proof fn lemma_forced_consistent(c: Canvas, front: Frame)
    requires
        c.spec_forced(),
        front.spec_width() == c.spec_size().width,
        front.spec_height() == c.spec_size().height,
    ensures
        c.consistent_with(front),
{
}

/// A canvas whose panes, marks, clear glyph, size and full-redraw flag are unchanged
/// covers its changes.
pub proof fn lemma_same_view_covered(old: Canvas, new: Canvas)
    requires
        new.spec_panes() == old.spec_panes(),
        new.spec_damage() == old.spec_damage(),
        new.spec_size() == old.spec_size(),
        new.spec_clear() == old.spec_clear(),
        new.spec_forced() == old.spec_forced(),
    ensures
        new.covers_changes(&old),
{
    assert forall|x: int, y: int| new.in_canvas(x, y) implies (old.pending(x, y) ==> #[trigger] new.pending(
        x,
        y,
    )) && (new.shown(x, y) != old.shown(x, y) ==> new.pending(x, y)) by {
        if old.pane_damage_at(x, y) {
            assert(new.pane_damage_at(x, y));
        }
    }
}

/// Adding marks, with everything else unchanged, covers the (absent) changes.
pub proof fn lemma_more_marks_covered(old: Canvas, new: Canvas)
    requires
        new.spec_panes() == old.spec_panes(),
        new.spec_size() == old.spec_size(),
        new.spec_clear() == old.spec_clear(),
        new.spec_forced() == old.spec_forced(),
        forall|x: int, y: int| #[trigger] old.marked(x, y) ==> new.marked(x, y),
    ensures
        new.covers_changes(&old),
{
    assert forall|x: int, y: int| new.in_canvas(x, y) implies (old.pending(x, y) ==> #[trigger] new.pending(
        x,
        y,
    )) && (new.shown(x, y) != old.shown(x, y) ==> new.pending(x, y)) by {
        if old.pane_damage_at(x, y) {
            assert(new.pane_damage_at(x, y));
        }
    }
}

/// Replacing pane `i` by `q` covers its changes when every canvas cell where the old or
/// the new pane shows, and every cell the old pane's damage lands on, is to be redrawn
/// afterwards, while the marks, the clear glyph and the full-redraw flag are kept.
pub proof fn lemma_replace_covered(old: Canvas, new: Canvas, i: int, q: Pane)
    requires
        0 <= i < old.spec_panes().len(),
        new.spec_panes() == old.spec_panes().update(i, q),
        new.spec_size() == old.spec_size(),
        new.spec_clear() == old.spec_clear(),
        new.spec_forced() == old.spec_forced(),
        forall|x: int, y: int| #[trigger] old.marked(x, y) ==> new.marked(x, y),
        forall|x: int, y: int|
            new.in_canvas(x, y) && (shows_xy(old.spec_panes()[i], x, y) || shows_xy(q, x, y)
                || projected(
                old.spec_panes()[i],
                old.spec_size().width as int,
                old.spec_size().height as int,
                x,
                y,
            )) ==> #[trigger] new.pending(x, y),
    ensures
        new.covers_changes(&old),
{
    let w = old.spec_size().width as int;
    let h = old.spec_size().height as int;
    assert forall|x: int, y: int| new.in_canvas(x, y) implies (old.pending(x, y) ==> #[trigger] new.pending(
        x,
        y,
    )) && (new.shown(x, y) != old.shown(x, y) ==> new.pending(x, y)) by {
        if old.pending(x, y) && !old.marked(x, y) && !(old.spec_forced() && old.in_canvas(x, y)) {
            let j = choose|j: int|
                0 <= j < old.spec_panes().len() && projected(
                    #[trigger] old.spec_panes()[j],
                    w,
                    h,
                    x,
                    y,
                );
            if j != i {
                assert(new.spec_panes()[j] == old.spec_panes()[j]);
                assert(projected(new.spec_panes()[j], w, h, x, y));
            }
        }
        if !shows_xy(old.spec_panes()[i], x, y) && !shows_xy(q, x, y) {
            lemma_composed_update(old.spec_clear(), old.spec_panes(), i, q, x, y);
        }
    }
}


impl Canvas {
    /// Moves a pane to `position`, clamped into the canvas when `clamp` is set. Returns
    /// `false`, changing nothing, for an unknown or unmovable pane or when the pane would
    /// not move. A visible pane's old and new areas are marked as damaged.
    pub fn move_pane(&mut self, pane_id: PaneId, position: Point, clamp: bool) -> (moved: bool)
        requires
            old(self).wf(),
        ensures
            final(self).wf(),
            final(self).covers_changes(old(self)),
            final(self).same_settings(old(self)),
            moved == (old(self).has_pane(pane_id) && old(self).spec_policies()[old(self).index_of(
                pane_id,
            )].movable && moved_rect(
                old(self).pane_of(pane_id).spec_rect(),
                position,
                clamp,
                old(self).spec_rect(),
            ) != old(self).pane_of(pane_id).spec_rect()),
            !moved ==> final(self).spec_panes() == old(self).spec_panes() && final(self).spec_damage()
                == old(self).spec_damage(),
            moved ==> {
                let i = old(self).index_of(pane_id);
                let p0 = old(self).spec_panes()[i];
                let r = moved_rect(p0.spec_rect(), position, clamp, old(self).spec_rect());
                &&& final(self).spec_panes() == old(self).spec_panes().update(
                    i,
                    with_frame(p0, r, content_for(r, old(self).spec_decor()[i].spec_insets())),
                )
                &&& forall|x: int, y: int| #[trigger]
                    final(self).marked(x, y) <==> old(self).marked(x, y) || (p0.spec_visible() && (
                    old(self).covers(p0.spec_rect(), x, y) || old(self).covers(r, x, y)))
            },
    {
        let bounds = self.rect();
        let i = match self.find(pane_id) {
            Some(i) => i,
            None => {
                return false;
            },
        };
        if !self.policy_at(i).movable {
            return false;
        }
        let insets = self.decor_at(i).insets();
        let old_rect = self.panes.as_slice()[i].rect();
        let old_visible = self.panes.as_slice()[i].is_visible();
        let rect = old_rect.with_origin(position);
        let new_rect = if clamp {
            rect.clamp_to(bounds)
        } else {
            rect
        };
        if old_rect == new_rect {
            return false;
        }
        let content = content_rect_for(new_rect, insets);
        let ghost pre = *self;
        match self.pane_mut(pane_id) {
            Some(p) => p.relocate(new_rect, content),
            None => {
                return false;
            },
        }
        proof {
            let q = with_frame(pre.spec_panes()[i as int], new_rect, content);
            lemma_panes_update(pre.spec_panes(), i as int, q);
        }
        let ghost mid = *self;
        if old_visible {
            self.mark_damaged(old_rect);
            self.mark_damaged(new_rect);
        }
        proof {
            let p0 = pre.spec_panes()[i as int];
            let q = with_frame(p0, new_rect, content);
            let w = pre.spec_size().width as int;
            let h = pre.spec_size().height as int;
            assert forall|x: int, y: int|
                self.in_canvas(x, y) && (shows_xy(p0, x, y) || shows_xy(q, x, y) || projected(
                    p0,
                    w,
                    h,
                    x,
                    y,
                )) implies #[trigger] self.pending(x, y) by {
                if projected(p0, w, h, x, y) {
                    lemma_projected_in_rect(p0, w, h, x, y);
                }
                assert(pre.covers(old_rect, x, y) || pre.covers(new_rect, x, y));
            }
            lemma_replace_covered(pre, *self, i as int, q);
        }
        true
    }

    /// Hides a pane; returns `false`, changing nothing, for an unknown or hidden pane. The
    /// pane's area is marked as damaged.
    pub fn hide_pane(&mut self, pane_id: PaneId) -> (changed: bool)
        requires
            old(self).wf(),
        ensures
            final(self).wf(),
            final(self).covers_changes(old(self)),
            final(self).same_settings(old(self)),
            changed == (old(self).has_pane(pane_id) && old(self).pane_of(pane_id).spec_visible()),
            !changed ==> final(self).spec_panes() == old(self).spec_panes() && final(self).spec_damage()
                == old(self).spec_damage(),
            changed ==> {
                let i = old(self).index_of(pane_id);
                let p0 = old(self).spec_panes()[i];
                let q = final(self).spec_panes()[i];
                &&& final(self).spec_panes() == old(self).spec_panes().update(i, q)
                &&& !q.spec_visible()
                &&& q.spec_id() == p0.spec_id()
                &&& q.spec_rect() == p0.spec_rect()
                &&& q.spec_layer() == p0.spec_layer()
                &&& q.spec_content() == p0.spec_content()
                &&& q.cells() == p0.cells()
                &&& q.rows() == p0.rows()
                &&& forall|x: int, y: int| #[trigger]
                    final(self).marked(x, y) <==> old(self).marked(x, y) || old(self).covers(
                        p0.spec_rect(),
                        x,
                        y,
                    )
            },
    {
        let i = match self.find(pane_id) {
            Some(i) => i,
            None => {
                return false;
            },
        };
        if !self.panes.as_slice()[i].is_visible() {
            return false;
        }
        let old_rect = self.panes.as_slice()[i].rect();
        let ghost pre = *self;
        match self.pane_mut(pane_id) {
            Some(p) => {
                p.conceal();
            },
            None => {
                return false;
            },
        }
        proof {
            lemma_panes_update(pre.spec_panes(), i as int, self.spec_panes()[i as int]);
        }
        self.mark_damaged(old_rect);
        proof {
            let p0 = pre.spec_panes()[i as int];
            let q = self.spec_panes()[i as int];
            let w = pre.spec_size().width as int;
            let h = pre.spec_size().height as int;
            assert forall|x: int, y: int|
                self.in_canvas(x, y) && (shows_xy(p0, x, y) || shows_xy(q, x, y) || projected(
                    p0,
                    w,
                    h,
                    x,
                    y,
                )) implies #[trigger] self.pending(x, y) by {
                if projected(p0, w, h, x, y) {
                    lemma_projected_in_rect(p0, w, h, x, y);
                }
                assert(pre.covers(old_rect, x, y));
            }
            lemma_replace_covered(pre, *self, i as int, q);
        }
        true
    }

    /// Shows a pane; returns `false`, changing nothing, for an unknown or visible pane. The
    /// pane is marked as damaged throughout, and so is its area on the canvas.
    pub fn show_pane(&mut self, pane_id: PaneId) -> (changed: bool)
        requires
            old(self).wf(),
        ensures
            final(self).wf(),
            final(self).covers_changes(old(self)),
            final(self).same_settings(old(self)),
            changed == (old(self).has_pane(pane_id) && !old(self).pane_of(pane_id).spec_visible()),
            !changed ==> final(self).spec_panes() == old(self).spec_panes() && final(self).spec_damage()
                == old(self).spec_damage(),
            changed ==> {
                let i = old(self).index_of(pane_id);
                let p0 = old(self).spec_panes()[i];
                let q = final(self).spec_panes()[i];
                &&& final(self).spec_panes() == old(self).spec_panes().update(i, q)
                &&& q.spec_visible()
                &&& q.spec_id() == p0.spec_id()
                &&& q.spec_rect() == p0.spec_rect()
                &&& q.spec_layer() == p0.spec_layer()
                &&& q.spec_content() == p0.spec_content()
                &&& q.cells() == p0.cells()
                &&& forall|x: int, y: int| #[trigger] q.marked(x, y) <==> q.in_grid(x, y)
                &&& forall|x: int, y: int| #[trigger]
                    final(self).marked(x, y) <==> old(self).marked(x, y) || old(self).covers(
                        p0.spec_rect(),
                        x,
                        y,
                    )
            },
    {
        let i = match self.find(pane_id) {
            Some(i) => i,
            None => {
                return false;
            },
        };
        if self.panes.as_slice()[i].is_visible() {
            return false;
        }
        let rect = self.panes.as_slice()[i].rect();
        let ghost pre = *self;
        match self.pane_mut(pane_id) {
            Some(p) => {
                p.show();
            },
            None => {
                return false;
            },
        }
        proof {
            lemma_panes_update(pre.spec_panes(), i as int, self.spec_panes()[i as int]);
            let q = self.spec_panes()[i as int];
            let p0 = pre.spec_panes()[i as int];
            assert forall|x: int, y: int| #[trigger] q.marked(x, y) <==> q.in_grid(x, y) by {
                if p0.marked(x, y) {
                    assert(p0.in_grid(x, y));
                }
            }
        }
        self.mark_damaged(rect);
        proof {
            let p0 = pre.spec_panes()[i as int];
            let q = self.spec_panes()[i as int];
            let w = pre.spec_size().width as int;
            let h = pre.spec_size().height as int;
            assert forall|x: int, y: int|
                self.in_canvas(x, y) && (shows_xy(p0, x, y) || shows_xy(q, x, y) || projected(
                    p0,
                    w,
                    h,
                    x,
                    y,
                )) implies #[trigger] self.pending(x, y) by {
                assert(pre.covers(rect, x, y));
            }
            lemma_replace_covered(pre, *self, i as int, q);
        }
        true
    }

    /// Toggles pane visibility; returns `false` only for an unknown pane. The pane's area is
    /// marked as damaged, and a pane that becomes visible is marked throughout.
    pub fn toggle_pane_visibility(&mut self, pane_id: PaneId) -> (changed: bool)
        requires
            old(self).wf(),
        ensures
            final(self).wf(),
            final(self).covers_changes(old(self)),
            final(self).same_settings(old(self)),
            changed == old(self).has_pane(pane_id),
            !changed ==> final(self).spec_panes() == old(self).spec_panes() && final(self).spec_damage()
                == old(self).spec_damage(),
            changed ==> {
                let i = old(self).index_of(pane_id);
                let p0 = old(self).spec_panes()[i];
                let q = final(self).spec_panes()[i];
                &&& final(self).spec_panes() == old(self).spec_panes().update(i, q)
                &&& q.spec_visible() == !p0.spec_visible()
                &&& q.spec_id() == p0.spec_id()
                &&& q.spec_rect() == p0.spec_rect()
                &&& q.spec_layer() == p0.spec_layer()
                &&& q.spec_content() == p0.spec_content()
                &&& q.cells() == p0.cells()
                &&& forall|x: int, y: int| #[trigger]
                    q.marked(x, y) <==> p0.marked(x, y) || (q.spec_visible() && q.in_grid(x, y))
                &&& forall|x: int, y: int| #[trigger]
                    final(self).marked(x, y) <==> old(self).marked(x, y) || old(self).covers(
                        p0.spec_rect(),
                        x,
                        y,
                    )
            },
    {
        let i = match self.find(pane_id) {
            Some(i) => i,
            None => {
                return false;
            },
        };
        if self.panes.as_slice()[i].is_visible() {
            self.hide_pane(pane_id)
        } else {
            self.show_pane(pane_id)
        }
    }
}


impl Canvas {
    /// Resizes a pane, clamped to the canvas bounds and the decoration's minimum size, and
    /// redraws its decoration. Returns `false`, changing nothing, for an unknown or
    /// unresizable pane or when neither the pane's rectangle nor its content rectangle
    /// would change. The new area is marked as damaged, and so is the old one for a visible
    /// pane; resizing the focused pane hides the cursor.
    pub fn resize_pane(&mut self, pane_id: PaneId, width: usize, height: usize) -> (changed: bool)
        requires
            old(self).wf(),
        ensures
            final(self).wf(),
            final(self).covers_changes(old(self)),
            final(self).spec_size() == old(self).spec_size(),
            final(self).spec_clear() == old(self).spec_clear(),
            final(self).spec_forced() == old(self).spec_forced(),
            final(self).spec_policies() == old(self).spec_policies(),
            final(self).spec_decor() == old(self).spec_decor(),
            final(self).spec_focused() == old(self).spec_focused(),
            final(self).spec_freed() == old(self).spec_freed(),
            ({
                let i = old(self).index_of(pane_id);
                let p0 = old(self).spec_panes()[i];
                let d = old(self).spec_decor()[i];
                let r = resized_rect(p0.spec_rect(), width, height, d.spec_min_outer_size(), old(self).spec_rect());
                let c = content_for(r, d.spec_insets());
                &&& changed == (old(self).has_pane(pane_id) && old(self).spec_policies()[i].resizable
                    && !(p0.spec_rect() == r && p0.spec_content() == c))
                &&& !changed ==> final(self).spec_panes() == old(self).spec_panes()
                    && final(self).spec_damage() == old(self).spec_damage()
                    && final(self).spec_cursor() == old(self).spec_cursor()
                &&& changed ==> {
                    &&& final(self).spec_panes().len() == old(self).spec_panes().len()
                    &&& forall|j: int|
                        0 <= j < old(self).spec_panes().len() && j != i ==> #[trigger] final(self).spec_panes()[j]
                            == old(self).spec_panes()[j]
                    &&& exists|m: Pane|
                        #[trigger] resize_post(p0, m, r, c) && redrawn(
                            final(self).spec_panes()[i],
                            m,
                            d,
                            old(self).spec_policies()[i],
                            old(self).is_focused(pane_id),
                        )
                    &&& forall|x: int, y: int| #[trigger]
                        final(self).marked(x, y) <==> old(self).marked(x, y) || old(self).covers(r, x, y)
                            || (p0.spec_visible() && old(self).covers(p0.spec_rect(), x, y))
                    &&& final(self).spec_cursor() == (if old(self).is_focused(pane_id) {
                        None
                    } else {
                        old(self).spec_cursor()
                    })
                }
            }),
    {
        let bounds = self.rect();
        let focused = match self.focused {
            Some(f) => f == pane_id,
            None => false,
        };
        let i = match self.find(pane_id) {
            Some(i) => i,
            None => {
                return false;
            },
        };
        if !self.policy_at(i).resizable {
            return false;
        }
        let min = self.decor_at(i).min_outer_size();
        let insets = self.decor_at(i).insets();
        let old_rect = self.panes.as_slice()[i].rect();
        let old_visible = self.panes.as_slice()[i].is_visible();
        let max_width = max_usize(sub_sat(add_sat(bounds.x, bounds.width), old_rect.x), min.width);
        let max_height = max_usize(sub_sat(add_sat(bounds.y, bounds.height), old_rect.y), min.height);
        let w = clamp_usize(width, min.width, max_width);
        let h = clamp_usize(height, min.height, max_height);
        let new_rect = Rect { x: old_rect.x, y: old_rect.y, width: w, height: h };
        let new_content = content_rect_for(new_rect, insets);
        proof {
            let cw = self.size.width as int;
            let ch = self.size.height as int;
            let mw = max_of(cw, 2);
            let mh = max_of(ch, 2);
            assert(w * h <= mw * mh) by (nonlinear_arith)
                requires
                    0 <= w <= mw,
                    0 <= h <= mh,
            ;
        }
        let ghost pre = *self;
        let ok = match self.pane_mut(pane_id) {
            Some(p) => p.resize(new_rect, new_content),
            None => false,
        };
        if !ok {
            proof {
                assert(self.spec_panes() =~= pre.spec_panes());
                lemma_same_view_covered(pre, *self);
            }
            return false;
        }
        proof {
            lemma_panes_update(pre.spec_panes(), i as int, self.spec_panes()[i as int]);
        }
        let ghost mid = *self;
        proof {
            mid.lemma_index_of(pane_id, i as int);
        }
        self.sync_decor(pane_id);
        let ghost mid2 = *self;
        proof {
            assert(mid.spec_panes()[i as int].spec_rect() == new_rect);
            assert forall|x: int, y: int| #[trigger] mid2.marked(x, y) <==> pre.marked(x, y)
                || pre.covers(new_rect, x, y) by {
                assert(mid.marked(x, y) == pre.marked(x, y));
            }
        }
        if old_visible {
            let ghost a = *self;
            self.mark_damaged(old_rect);
            let ghost b = *self;
            self.mark_damaged(new_rect);
            proof {
                assert forall|x: int, y: int| #[trigger] self.marked(x, y) <==> a.marked(x, y)
                    || a.covers(old_rect, x, y) || a.covers(new_rect, x, y) by {
                    assert(b.marked(x, y) <==> a.marked(x, y) || a.covers(old_rect, x, y));
                }
            }
        }
        let ghost mid3 = *self;
        proof {
            assert forall|x: int, y: int| #[trigger] mid3.marked(x, y) <==> pre.marked(x, y)
                || pre.covers(new_rect, x, y) || (old_visible && pre.covers(old_rect, x, y)) by {
                assert(mid2.marked(x, y) <==> pre.marked(x, y) || pre.covers(new_rect, x, y));
            }
        }
        if focused {
            self.cursor = None;
        }
        proof {
            assert forall|x: int, y: int| #[trigger] self.marked(x, y) <==> mid3.marked(x, y) by {}
            let p0 = pre.spec_panes()[i as int];
            let m = mid.spec_panes()[i as int];
            let q = self.spec_panes()[i as int];
            let w0 = pre.spec_size().width as int;
            let h0 = pre.spec_size().height as int;
            assert(self.spec_panes() =~= pre.spec_panes().update(i as int, q));
            assert(resize_post(p0, m, new_rect, new_content));
            assert forall|x: int, y: int|
                self.in_canvas(x, y) && (shows_xy(p0, x, y) || shows_xy(q, x, y) || projected(
                    p0,
                    w0,
                    h0,
                    x,
                    y,
                )) implies #[trigger] self.pending(x, y) by {
                if projected(p0, w0, h0, x, y) {
                    lemma_projected_in_rect(p0, w0, h0, x, y);
                }
                assert(pre.covers(old_rect, x, y) || pre.covers(new_rect, x, y));
            }
            lemma_replace_covered(pre, *self, i as int, q);
            let d = pre.spec_decor()[i as int];
            assert(old_rect == p0.spec_rect());
            assert(min == d.spec_min_outer_size());
            assert(bounds == pre.spec_rect());
            assert(new_rect == resized_rect(p0.spec_rect(), width, height, d.spec_min_outer_size(), pre.spec_rect()));
            assert(redrawn(q, m, d, pre.spec_policies()[i as int], pre.is_focused(pane_id)));
        }
        true
    }
}


/// A damage buffer has damage exactly when some cell of it is marked.
pub proof fn lemma_any_damage(rows: Seq<DamagedRow>)
    requires
        rows_wf(rows),
    ensures
        any_damage(rows) <==> exists|x: int, y: int| #[trigger] row_marked(rows, x, y),
{
    if any_damage(rows) {
        let y = choose|y: int| 0 <= y < rows.len() && (#[trigger] rows[y]).spans_view().len() > 0;
        let s = rows[y].spans_view();
        assert(s[0].start < s[0].end);
        assert(row_marked(rows, s[0].start as int, y));
    }
    if exists|x: int, y: int| #[trigger] row_marked(rows, x, y) {
        let (x, y) = choose|x: int, y: int| #[trigger] row_marked(rows, x, y);
        assert(rows[y].spans_view().len() > 0);
    }
}

impl Canvas {
    /// Marks, in `damaged`, the canvas cells that the damage of `pane` lands on.
    fn project_pane_damage_to_canvas(
        damaged: &mut Vec<DamagedRow>,
        canvas_width: usize,
        canvas_height: usize,
        pane: &Pane,
    )
        requires
            rows_wf(old(damaged)@),
            old(damaged)@.len() == canvas_height,
            pane.wf(),
        ensures
            rows_wf(final(damaged)@),
            final(damaged)@.len() == canvas_height,
            forall|x: int, y: int| #[trigger]
                row_marked(final(damaged)@, x, y) <==> row_marked(old(damaged)@, x, y) || lands(
                    *pane,
                    canvas_width as int,
                    canvas_height as int,
                    x,
                    y,
                ),
    {
        let rows = pane.damaged_rows();
        let rect = pane.rect();
        let height = pane.height();
        let ghost w = canvas_width as int;
        let ghost h = canvas_height as int;
        let mut local_y: usize = 0;
        while local_y < height
            invariant
                local_y <= height,
                w == canvas_width as int,
                h == canvas_height as int,
                height == pane.spec_rect().height,
                rect == pane.spec_rect(),
                rows@ == pane.rows(),
                pane.wf(),
                rows_wf(damaged@),
                damaged@.len() == canvas_height,
                forall|x: int, y: int| #[trigger]
                    row_marked(damaged@, x, y) <==> row_marked(old(damaged)@, x, y) || (lands(
                        *pane,
                        w,
                        h,
                        x,
                        y,
                    ) && y - rect.y < local_y),
            decreases height - local_y,
        {
            let row = &rows[local_y];
            let canvas_y = add_sat(rect.y, local_y);
            let ghost before = damaged@;
            if row.is_damaged() && canvas_y < canvas_height {
                let spans = row.spans();
                let mut j: usize = 0;
                while j < spans.len()
                    invariant
                        j <= spans@.len(),
                        spans@ == row.spans_view(),
                        rows_wf(damaged@),
                        damaged@.len() == canvas_height,
                        canvas_y < canvas_height,
                        canvas_y == rect.y + local_y,
                        forall|x: int, y: int| #[trigger]
                            row_marked(damaged@, x, y) <==> row_marked(before, x, y) || (y == canvas_y
                                && x < canvas_width && rect.x <= x && covered(
                                spans@.take(j as int),
                                x - rect.x,
                            )),
                    decreases spans@.len() - j,
                {
                    let s = spans[j];
                    let x0 = add_sat(rect.x, s.start);
                    let x1 = add_sat(rect.x, s.end);
                    let ghost mid = damaged@;
                    Self::mark_canvas_span_in(damaged, canvas_width, canvas_y, x0, x1);
                    proof {
                        assert(spans@.take(j + 1) =~= spans@.take(j as int) + seq![s]);
                        assert forall|x: int, y: int| #[trigger]
                            row_marked(damaged@, x, y) <==> row_marked(before, x, y) || (y == canvas_y
                                && x < canvas_width && rect.x <= x && covered(
                                spans@.take(j + 1),
                                x - rect.x,
                            )) by {
                            lemma_covered_concat(spans@.take(j as int), seq![s], x - rect.x);
                            lemma_covered_single(s, x - rect.x);
                            assert(row_marked(mid, x, y) <==> row_marked(before, x, y) || (y == canvas_y
                                && x < canvas_width && rect.x <= x && covered(
                                spans@.take(j as int),
                                x - rect.x,
                            )));
                        }
                    }
                    j += 1;
                }
                proof {
                    assert(spans@.take(spans@.len() as int) =~= spans@);
                    assert forall|x: int, y: int| #[trigger]
                        row_marked(damaged@, x, y) <==> row_marked(old(damaged)@, x, y) || (lands(
                            *pane,
                            w,
                            h,
                            x,
                            y,
                        ) && y - rect.y < local_y + 1) by {
                        assert(row_marked(before, x, y) <==> row_marked(old(damaged)@, x, y) || (
                        lands(*pane, w, h, x, y) && y - rect.y < local_y));
                        assert(rows@[local_y as int] == *row);
                        if y == canvas_y && rect.x <= x {
                            assert(pane.marked(x - rect.x, y - rect.y) == row.is_marked(x - rect.x));
                        }
                    }
                }
            } else {
                proof {
                    assert forall|x: int, y: int| #[trigger]
                        row_marked(damaged@, x, y) <==> row_marked(old(damaged)@, x, y) || (lands(
                            *pane,
                            w,
                            h,
                            x,
                            y,
                        ) && y - rect.y < local_y + 1) by {
                        assert(row_marked(before, x, y) <==> row_marked(old(damaged)@, x, y) || (
                        lands(*pane, w, h, x, y) && y - rect.y < local_y));
                        assert(rows@[local_y as int] == *row);
                        if lands(*pane, w, h, x, y) && y - rect.y == local_y {
                            assert(pane.marked(x - rect.x, y - rect.y));
                            assert(pane.rows()[local_y as int].is_marked(x - rect.x));
                            assert(row.is_marked(x - rect.x));
                            assert(row.spans_view().len() > 0);
                            assert(canvas_y == y);
                        }
                        assert(row_marked(damaged@, x, y) == row_marked(before, x, y));
                    }
                }
            }
            local_y += 1;
        }
        proof {
            assert forall|x: int, y: int| #[trigger]
                row_marked(damaged@, x, y) <==> row_marked(old(damaged)@, x, y) || lands(*pane, w, h, x, y) by {
                if lands(*pane, w, h, x, y) {
                    assert(pane.marked(x - rect.x, y - rect.y));
                }
            }
        }
    }

    /// Collects the damage of the visible panes into the canvas damage.
    fn collect_damage(&mut self)
        requires
            old(self).wf(),
        ensures
            final(self).wf(),
            final(self).same_settings(old(self)),
            final(self).spec_panes() == old(self).spec_panes(),
            forall|x: int, y: int| #[trigger]
                final(self).marked(x, y) <==> old(self).marked(x, y) || old(self).pane_damage_at(x, y),
    {
        let w = self.size.width;
        let h = self.size.height;
        let n = self.panes.len();
        let ghost pre = *self;
        let mut i: usize = 0;
        while i < n
            invariant
                i <= n,
                n == self.spec_panes().len(),
                w == self.size.width,
                h == self.size.height,
                self.wf(),
                pre.wf(),
                self.same_settings(&pre),
                self.spec_panes() == pre.spec_panes(),
                forall|x: int, y: int| #[trigger]
                    self.marked(x, y) <==> pre.marked(x, y) || exists|j: int|
                        0 <= j < i && projected(#[trigger] pre.spec_panes()[j], w as int, h as int, x, y),
            decreases n - i,
        {
            let ghost before = *self;
            let pane = &self.panes.as_slice()[i];
            if pane.is_visible() {
                Self::project_pane_damage_to_canvas(&mut self.damaged, w, h, pane);
            }
            proof {
                assert forall|x: int, y: int| #[trigger]
                    self.marked(x, y) <==> pre.marked(x, y) || exists|j: int|
                        0 <= j < i + 1 && projected(#[trigger] pre.spec_panes()[j], w as int, h as int, x, y) by {
                    assert(before.marked(x, y) <==> pre.marked(x, y) || exists|j: int|
                        0 <= j < i && projected(#[trigger] pre.spec_panes()[j], w as int, h as int, x, y));
                    assert(self.marked(x, y) == row_marked(self.damaged@, x, y));
                    assert(before.marked(x, y) == row_marked(before.damaged@, x, y));
                    if exists|j: int|
                        0 <= j < i + 1 && projected(#[trigger] pre.spec_panes()[j], w as int, h as int, x, y) {
                        let j = choose|j: int|
                            0 <= j < i + 1 && projected(#[trigger] pre.spec_panes()[j], w as int, h as int, x, y);
                        if j < i {
                        }
                    }
                }
            }
            i += 1;
        }
    }
}


impl Canvas {
    /// Composes the damaged cells, diffs them against what the terminal shows, and returns
    /// the bytes that bring the terminal up to date; afterwards no damage is left.
    ///
    /// Every cell that is to be redrawn (marked, due for a full redraw, or reached by pane
    /// damage) takes the composed glyph in `compositor` and `renderer`; other cells keep
    /// what they showed. So when the renderer showed the canvas correctly wherever nothing
    /// was to be redrawn, it shows the canvas exactly afterwards.
    pub fn render(&mut self, compositor: &mut Compositor, renderer: &mut Renderer) -> (bytes: Vec<u8>)
        requires
            old(self).wf(),
            old(compositor).wf(),
            old(renderer).wf(),
            old(compositor).spec_back().spec_width() == old(self).spec_size().width,
            old(compositor).spec_back().spec_height() == old(self).spec_size().height,
            old(renderer).spec_front().spec_width() == old(self).spec_size().width,
            old(renderer).spec_front().spec_height() == old(self).spec_size().height,
            old(self).spec_cursor() matches Some(p) ==> p.x < usize::MAX && p.y < usize::MAX,
        ensures
            final(self).wf(),
            !final(self).spec_forced(),
            final(self).spec_size() == old(self).spec_size(),
            final(self).spec_clear() == old(self).spec_clear(),
            final(self).spec_policies() == old(self).spec_policies(),
            final(self).spec_decor() == old(self).spec_decor(),
            final(self).spec_cursor() == old(self).spec_cursor(),
            final(self).spec_focused() == old(self).spec_focused(),
            final(self).spec_freed() == old(self).spec_freed(),
            final(self).spec_panes().len() == old(self).spec_panes().len(),
            forall|i: int|
                0 <= i < old(self).spec_panes().len() ==> {
                    let p = #[trigger] final(self).spec_panes()[i];
                    let p0 = old(self).spec_panes()[i];
                    &&& p.spec_id() == p0.spec_id()
                    &&& p.spec_rect() == p0.spec_rect()
                    &&& p.spec_layer() == p0.spec_layer()
                    &&& p.spec_visible() == p0.spec_visible()
                    &&& p.spec_content() == p0.spec_content()
                    &&& p.cells() == p0.cells()
                    &&& forall|x: int, y: int| !#[trigger] p.marked(x, y)
                },
            forall|x: int, y: int| !#[trigger] final(self).pending(x, y),
            forall|x: int, y: int| #[trigger] final(self).shown(x, y) == old(self).shown(x, y),
            final(compositor).wf(),
            final(compositor).spec_back().spec_width() == old(self).spec_size().width,
            final(compositor).spec_back().spec_height() == old(self).spec_size().height,
            final(renderer).wf(),
            final(renderer).spec_front().spec_width() == old(self).spec_size().width,
            final(renderer).spec_front().spec_height() == old(self).spec_size().height,
            final(renderer).spec_cursor() == old(self).spec_cursor(),
            forall|x: int, y: int|
                old(self).in_canvas(x, y) ==> #[trigger] final(renderer).spec_front().cell(x, y) == (
                if old(self).pending(x, y) {
                    old(self).shown(x, y)
                } else {
                    old(renderer).spec_front().cell(x, y)
                }),
            old(self).consistent_with(old(renderer).spec_front()) ==> forall|x: int, y: int|
                old(self).in_canvas(x, y) ==> #[trigger] final(renderer).spec_front().cell(x, y)
                    == final(self).shown(x, y),
            (forall|x: int, y: int| !#[trigger] old(self).pending(x, y)) && old(renderer).spec_cursor()
                == old(self).spec_cursor() ==> bytes@.len() == 0,
            !((forall|x: int, y: int| !#[trigger] old(self).pending(x, y)) && old(renderer).spec_cursor()
                == old(self).spec_cursor()) && (forall|x: int, y: int|
                old(self).in_canvas(x, y) && old(self).pending(x, y) ==> old(renderer).spec_front().cell(x, y)
                    == old(self).shown(x, y)) ==> bytes@ == cursor_tail(old(self).spec_cursor()),
            !((forall|x: int, y: int| !#[trigger] old(self).pending(x, y)) && old(renderer).spec_cursor()
                == old(self).spec_cursor()) ==> exists|ops: Seq<TermOp>|
                bytes@ == ops_bytes(ops) + cursor_tail(old(self).spec_cursor()) && paints_over(
                    ops,
                    old(renderer).spec_front(),
                    final(renderer).spec_front(),
                ) && forall|x: int, y: int|
                    #[trigger] painted(ops, (0, 0, Style::spec_default()), x, y) matches Some(g)
                        ==> old(self).pending(x, y) && g == old(self).shown(x, y) && old(renderer).spec_front().cell(
                        x,
                        y,
                    ) != g,
    {
        let ghost s0 = *self;
        self.collect_damage();
        let ghost sc = *self;
        if self.forced_redraw {
            let r = self.rect();
            self.mark_damaged(r);
            proof {
                assert forall|x: int, y: int| #[trigger] row_marked(self.damaged@, x, y) <==> sc.marked(x, y)
                    || sc.covers(sc.spec_rect(), x, y) by {
                    assert(self.marked(x, y) == row_marked(self.damaged@, x, y));
                }
            }
            self.forced_redraw = false;
        }
        let ghost s1 = *self;
        proof {
            assert forall|x: int, y: int| #[trigger] s1.marked(x, y) <==> s0.pending(x, y) by {
                assert(sc.marked(x, y) <==> s0.marked(x, y) || s0.pane_damage_at(x, y));
                assert(s1.marked(x, y) == row_marked(s1.damaged@, x, y));
                if s0.spec_forced() {
                    assert(row_marked(s1.damaged@, x, y) <==> sc.marked(x, y) || sc.covers(sc.spec_rect(), x, y));
                } else {
                    assert(s1.spec_damage() == sc.spec_damage());
                    assert(s1.marked(x, y) == sc.marked(x, y));
                }
            }
            lemma_any_damage(s1.spec_damage());
            if exists|x: int, y: int| #[trigger] s0.pending(x, y) {
                let (x, y) = choose|x: int, y: int| #[trigger] s0.pending(x, y);
                assert(s1.marked(x, y));
                assert(row_marked(s1.spec_damage(), x, y));
            }
            if any_damage(s1.spec_damage()) {
                let (x, y) = choose|x: int, y: int| #[trigger] row_marked(s1.spec_damage(), x, y);
                assert(s1.marked(x, y));
                assert(s0.pending(x, y));
            }
        }
        let damage = has_damage(self.damaged.as_slice());
        if damage {
            compositor.flatten(self.clear_glyph, self.panes.as_slice(), self.damaged.as_slice());
        }
        let ghost c1 = *compositor;
        let bytes = renderer.render(compositor, self.damaged.as_slice(), self.cursor);
        proof {
            assert forall|x: int, y: int| old(self).in_canvas(x, y) implies #[trigger] renderer.spec_front().cell(x, y) == (
                if s0.pending(x, y) {
                    s0.shown(x, y)
                } else {
                    old(renderer).spec_front().cell(x, y)
                }) by {
                assert(s1.marked(x, y) == s0.pending(x, y));
                if s0.pending(x, y) {
                    assert(damaged_at(s1.spec_damage(), x, y));
                    assert(any_damage(s1.spec_damage()));
                }
            }
            if any_damage(s1.spec_damage()) || old(renderer).spec_cursor() != s1.spec_cursor() {
                let ops = choose|ops: Seq<TermOp>|
                    bytes@ == ops_bytes(ops) + cursor_tail(s1.spec_cursor()) && redraws(
                        ops,
                        old(renderer).spec_front(),
                        c1.spec_back(),
                        s1.spec_damage(),
                        renderer.spec_front(),
                    );
                if ops.len() > 0 {
                    lemma_tight_paints(ops, 0, (0, 0, Style::spec_default()));
                }
                assert forall|x: int, y: int|
                    #[trigger] painted(ops, (0, 0, Style::spec_default()), x, y) is Some implies old(self).pending(x, y)
                        && painted(ops, (0, 0, Style::spec_default()), x, y)->0 == old(self).shown(x, y)
                        && old(renderer).spec_front().cell(x, y) != painted(ops, (0, 0, Style::spec_default()), x, y)->0 by {
                    assert(damaged_at(s1.spec_damage(), x, y));
                    assert(s1.marked(x, y));
                    assert(old(self).in_canvas(x, y));
                    assert(renderer.spec_front().cell(x, y) == s0.shown(x, y));
                }
            }
        }
        let n = self.panes.len();
        let ghost s2 = *self;
        let mut i: usize = 0;
        while i < n
            invariant
                i <= n,
                n == self.spec_panes().len(),
                s2.wf(),
                self.wf(),
                self.same_settings(&s2),
                self.spec_damage() == s2.spec_damage(),
                self.spec_panes().len() == s2.spec_panes().len(),
                forall|j: int|
                    0 <= j < n ==> {
                        let p = #[trigger] self.spec_panes()[j];
                        let p0 = s2.spec_panes()[j];
                        &&& p.spec_id() == p0.spec_id()
                        &&& p.spec_rect() == p0.spec_rect()
                        &&& p.spec_layer() == p0.spec_layer()
                        &&& p.spec_visible() == p0.spec_visible()
                        &&& p.spec_content() == p0.spec_content()
                        &&& p.cells() == p0.cells()
                        &&& (j < i ==> forall|x: int, y: int| !#[trigger] p.marked(x, y))
                        &&& (j >= i ==> p == p0)
                    },
            decreases n - i,
        {
            let ghost before = *self;
            let p = self.panes.get_index_mut(i);
            p.clear_damaged();
            proof {
                lemma_panes_update(before.spec_panes(), i as int, self.spec_panes()[i as int]);
            }
            i += 1;
        }
        self.clear_damaged();
        proof {
            assert forall|x: int, y: int| #[trigger] self.shown(x, y) == s0.shown(x, y) by {
                lemma_composed_same(self.spec_clear(), self.spec_panes(), s0.spec_panes(), x, y);
            }
            assert forall|x: int, y: int| !#[trigger] self.pending(x, y) by {
                if self.pane_damage_at(x, y) {
                    let j = choose|j: int|
                        0 <= j < self.spec_panes().len() && projected(
                            #[trigger] self.spec_panes()[j],
                            self.spec_size().width as int,
                            self.spec_size().height as int,
                            x,
                            y,
                        );
                    let p = self.spec_panes()[j];
                    assert(!p.marked(x - p.spec_rect().x, y - p.spec_rect().y));
                }
            }
        }
        bytes
    }
}


impl Canvas {
    /// Starts a pane covering the whole canvas on the bottom layer, visible, with the
    /// default policy and decoration.
    pub fn create_pane(&self) -> (b: PaneBuilder)
        ensures
            b.rect == self.spec_rect(),
            b.z_layer == Layer(0),
            b.visible,
            b.policy == (PanePolicy { movable: true, resizable: true, focus_on_decor_press: true }),
            b.decor matches PaneDecor::Window(w) && w.border is None && w.title is None && w.style
                == Style::spec_default().spec_with_fg(crate::surface::color::Color::White),
    {
        PaneBuilder {
            rect: self.rect(),
            z_layer: Layer::default(),
            visible: true,
            policy: PanePolicy::default(),
            decor: PaneDecor::default(),
        }
    }
}

impl Canvas {
    /// Removes a pane with its policy and decoration; its identifier goes to the next pane
    /// built. A visible pane's area is marked as damaged, and removing the focused pane
    /// clears focus and hides the cursor. Returns `false`, changing nothing, for an unknown
    /// pane.
    pub fn remove_pane(&mut self, pane_id: PaneId) -> (removed: bool)
        requires
            old(self).wf(),
        ensures
            final(self).wf(),
            final(self).covers_changes(old(self)),
            removed == old(self).has_pane(pane_id),
            !removed ==> *final(self) == *old(self),
            removed ==> {
                let i = old(self).index_of(pane_id);
                let p0 = old(self).spec_panes()[i];
                &&& final(self).spec_panes() == old(self).spec_panes().remove(i)
                &&& final(self).spec_policies() == old(self).spec_policies().remove(i)
                &&& final(self).spec_decor() == old(self).spec_decor().remove(i)
                &&& final(self).spec_freed() == old(self).spec_freed().push(pane_id)
                &&& !final(self).has_pane(pane_id)
                &&& final(self).spec_size() == old(self).spec_size()
                &&& final(self).spec_clear() == old(self).spec_clear()
                &&& final(self).spec_forced() == old(self).spec_forced()
                &&& final(self).spec_focused() == (if old(self).spec_focused() == Some(pane_id) {
                    None
                } else {
                    old(self).spec_focused()
                })
                &&& final(self).spec_cursor() == (if old(self).spec_focused() == Some(pane_id) {
                    None
                } else {
                    old(self).spec_cursor()
                })
                &&& forall|x: int, y: int| #[trigger]
                    final(self).marked(x, y) <==> old(self).marked(x, y) || (p0.spec_visible() && old(
                        self,
                    ).covers(p0.spec_rect(), x, y))
            },
    {
        let i = match self.find(pane_id) {
            Some(i) => i,
            None => {
                return false;
            },
        };
        let ghost pre = *self;
        let key = self.panes.as_slice()[i].key();
        let pane = self.panes.remove_at(i);
        self.policies.remove(&key);
        self.decor.remove(&key);
        self.pane_keys = Ghost(pre.pane_keys@.remove(i as int));
        proof {
            let keys = pre.pane_keys@;
            assert(keys[i as int] == key);
            assert forall|j: int| 0 <= j < keys.len() && j != i implies keys[j] != key by {
                assert(pre.panes@[j].spec_key() != pre.panes@[i as int].spec_key());
            }
            assert forall|j: int| 0 <= j < self.panes@.len() implies #[trigger] self.pane_keys@[j]
                == self.panes@[j].spec_key() by {
                if j < i {
                    assert(self.panes@[j] == pre.panes@[j]);
                } else {
                    assert(self.panes@[j] == pre.panes@[j + 1]);
                }
            }
            assert(self.spec_policies() =~= pre.spec_policies().remove(i as int));
            assert(self.spec_decor() =~= pre.spec_decor().remove(i as int));
            let nk = self.pane_keys@;
            assert forall|k: u64| self.policies@.contains_key(k) || self.decor@.contains_key(k) implies #[trigger] nk.contains(k) by {
                let j = choose|j: int| 0 <= j < keys.len() && keys[j] == k;
                if j < i {
                    assert(nk[j] == k);
                } else {
                    assert(nk[j - 1] == k);
                }
            }
            pre.lemma_index_of(pane_id, i as int);
            assert(!pre.spec_freed().contains(pane_id)) by {
                if pre.spec_freed().contains(pane_id) {
                    let k = choose|k: int| 0 <= k < pre.spec_freed().len() && pre.spec_freed()[k] == pane_id;
                    assert(!has_key(pre.spec_panes(), pre.spec_freed()[k].0 as u64));
                    assert(pre.spec_panes()[i as int].spec_key() == pane_id.0 as u64);
                }
            }
        }
        self.freed.push(pane_id);
        let was_focused = match self.focused {
            Some(f) => f == pane_id,
            None => false,
        };
        if was_focused {
            self.focused = None;
            self.cursor = None;
        }
        let ghost mid = *self;
        proof {
            let s = mid.spec_panes();
            let o = pre.spec_panes();
            assert(s == o.remove(i as int));
            let total = s.len() + mid.spec_freed().len();
            assert forall|a: int, b: int| 0 <= a < b < s.len() implies (#[trigger] s[a]).spec_layer().0 <= (
            #[trigger] s[b]).spec_layer().0 by {
                let oa = if a < i { a } else { a + 1 };
                let ob = if b < i { b } else { b + 1 };
                assert(o[oa].spec_layer().0 <= o[ob].spec_layer().0);
            }
            assert forall|a: int| 0 <= a < s.len() implies (#[trigger] s[a]).wf() && s[a].spec_id().0 < total by {
                let oa = if a < i { a } else { a + 1 };
                assert(s[a] == o[oa]);
            }
            assert forall|key: u64| #[trigger] has_key(s, key) ==> has_key(o, key) && key != pane_id.0 as u64 by {
                if has_key(s, key) {
                    let a = choose|a: int| 0 <= a < s.len() && #[trigger] s[a].spec_key() == key;
                    let oa = if a < i { a } else { a + 1 };
                    assert(s[a] == o[oa]);
                    assert(o[oa].spec_key() != o[i as int].spec_key());
                }
            }
            assert forall|k: int| 0 <= k < mid.spec_freed().len() implies (#[trigger] mid.spec_freed()[k]).0 < total
                && !has_key(s, mid.spec_freed()[k].0 as u64) by {
                if k < pre.spec_freed().len() {
                    assert(mid.spec_freed()[k] == pre.spec_freed()[k]);
                }
            }
            assert forall|k: int, m: int| 0 <= k < m < mid.spec_freed().len() implies #[trigger] mid.spec_freed()[k]
                != #[trigger] mid.spec_freed()[m] by {
                if m == pre.spec_freed().len() {
                    assert(mid.spec_freed()[k] == pre.spec_freed()[k]);
                    assert(pre.spec_freed().contains(pre.spec_freed()[k]));
                } else {
                    assert(mid.spec_freed()[k] == pre.spec_freed()[k]);
                    assert(mid.spec_freed()[m] == pre.spec_freed()[m]);
                }
            }
            assert(mid.wf());
            assert(!mid.has_pane(pane_id));
        }
        if pane.is_visible() {
            self.mark_damaged(pane.rect());
        }
        proof {
            let p0 = pre.spec_panes()[i as int];
            let w = pre.spec_size().width as int;
            let h = pre.spec_size().height as int;
            assert(p0 == pane);
            assert forall|x: int, y: int| #[trigger] self.marked(x, y) <==> pre.marked(x, y) || (p0.spec_visible()
                && pre.covers(p0.spec_rect(), x, y)) by {
                assert(mid.marked(x, y) == pre.marked(x, y));
            }
            assert forall|x: int, y: int| self.in_canvas(x, y) implies (pre.pending(x, y) ==> #[trigger] self.pending(
                x,
                y,
            )) && (self.shown(x, y) != pre.shown(x, y) ==> self.pending(x, y)) by {
                if pre.pane_damage_at(x, y) {
                    let j = choose|j: int| 0 <= j < pre.spec_panes().len() && projected(#[trigger] pre.spec_panes()[j], w, h, x, y);
                    if j == i {
                        lemma_projected_in_rect(p0, w, h, x, y);
                    } else if j < i {
                        assert(self.spec_panes()[j] == pre.spec_panes()[j]);
                    } else {
                        assert(self.spec_panes()[j - 1] == pre.spec_panes()[j]);
                    }
                }
                if !shows_xy(p0, x, y) {
                    assert(self.spec_panes().insert(i as int, p0) =~= pre.spec_panes());
                    lemma_composed_insert(pre.spec_clear(), self.spec_panes(), i as int, p0, x, y);
                }
            }
        }
        true
    }
}

impl PaneBuilder {
    /// Builds the pane into `canvas`: it gets the next identifier and is placed after
    /// every pane of the same or a lower layer, with its decoration drawn and its area
    /// marked as damaged.
    #[verifier::rlimit(60)]
    pub fn build(self, canvas: &mut Canvas) -> (id: PaneId)
        requires
            old(canvas).wf(),
            self.rect.width > 0 || self.rect.height > 0,
            self.rect.width * self.rect.height <= usize::MAX,
            old(canvas).spec_panes().len() < 0x1_0000_0000,
        ensures
            final(canvas).wf(),
            final(canvas).covers_changes(old(canvas)),
            id == (if old(canvas).spec_freed().len() > 0 {
                old(canvas).spec_freed().last()
            } else {
                PaneId(old(canvas).spec_panes().len() as u32)
            }),
            final(canvas).spec_freed() == (if old(canvas).spec_freed().len() > 0 {
                old(canvas).spec_freed().drop_last()
            } else {
                old(canvas).spec_freed()
            }),
            !old(canvas).has_pane(id),
            final(canvas).has_pane(id),
            final(canvas).content_synced(id),
            final(canvas).pane_of(id).spec_rect() == self.rect,
            final(canvas).pane_of(id).spec_layer() == self.z_layer,
            final(canvas).pane_of(id).spec_visible() == self.visible,
            final(canvas).spec_policies()[final(canvas).index_of(id)] == self.policy,
            final(canvas).spec_decor()[final(canvas).index_of(id)] == self.decor,
            forall|i: int, j: int|
                0 <= i < j < final(canvas).spec_panes().len() ==> (#[trigger] final(canvas).spec_panes()[i]).spec_layer().0
                    <= (#[trigger] final(canvas).spec_panes()[j]).spec_layer().0,
            final(canvas).spec_size() == old(canvas).spec_size(),
            final(canvas).spec_clear() == old(canvas).spec_clear(),
            final(canvas).spec_forced() == old(canvas).spec_forced(),
            final(canvas).spec_cursor() == old(canvas).spec_cursor(),
            final(canvas).spec_focused() == old(canvas).spec_focused(),
            final(canvas).spec_panes().len() == old(canvas).spec_panes().len() + 1,
            ({
                let k = final(canvas).index_of(id);
                &&& forall|j: int| 0 <= j < k ==> (#[trigger] old(canvas).spec_panes()[j]).spec_layer().0
                    <= self.z_layer.0
                &&& forall|j: int|
                    k <= j < old(canvas).spec_panes().len() ==> (#[trigger] old(canvas).spec_panes()[j]).spec_layer().0
                        > self.z_layer.0
                &&& forall|j: int| 0 <= j < k ==> #[trigger] final(canvas).spec_panes()[j] == old(canvas).spec_panes()[j]
                &&& forall|j: int|
                    k < j <= old(canvas).spec_panes().len() ==> #[trigger] final(canvas).spec_panes()[j]
                        == old(canvas).spec_panes()[j - 1]
                &&& final(canvas).spec_policies() == old(canvas).spec_policies().insert(k, self.policy)
                &&& final(canvas).spec_decor() == old(canvas).spec_decor().insert(k, self.decor)
                &&& exists|c: Pane|
                    {
                        &&& #[trigger] c.spec_id() == id
                        &&& c.wf()
                        &&& c.spec_rect() == self.rect
                        &&& c.spec_layer() == self.z_layer
                        &&& c.spec_visible() == self.visible
                        &&& c.spec_content() == self.rect
                        &&& forall|x: int, y: int| #[trigger] c.in_grid(x, y) ==> c.cell(x, y) == blank_glyph()
                        &&& forall|x: int, y: int| #[trigger] c.marked(x, y) <==> c.in_grid(x, y)
                        &&& redrawn(
                            final(canvas).spec_panes()[k],
                            c,
                            self.decor,
                            self.policy,
                            old(canvas).is_focused(id),
                        )
                    }
                &&& forall|x: int, y: int| #[trigger]
                    final(canvas).marked(x, y) <==> old(canvas).marked(x, y) || old(canvas).covers(
                        self.rect,
                        x,
                        y,
                    )
            }),
    {
        let n = canvas.panes.len();
        let ghost c0 = *canvas;
        let pane_id = match canvas.freed.pop() {
            Some(id) => id,
            None => PaneId(n as u32),
        };
        let ghost c1 = *canvas;
        let pane = Pane::create(pane_id, self.rect, self.z_layer, self.visible);
        let ghost c = pane;
        proof {
            assert forall|x: int, y: int| #[trigger] c.marked(x, y) <==> c.in_grid(x, y) by {}
            let f0 = c0.spec_freed();
            if f0.len() > 0 {
                assert(pane_id == f0[f0.len() - 1]);
                assert(!has_key(c0.spec_panes(), pane_id.0 as u64));
            } else if canvas.has_pane(pane_id) {
                let j = canvas.index_of(pane_id);
                assert(canvas.spec_panes()[j].spec_id().0 < n);
            }
            assert(!c0.has_pane(pane_id));
            if f0.len() > 0 {
                assert(f0[f0.len() - 1].0 < n + f0.len());
            } else {
                assert(pane_id.0 == n);
            }
            assert forall|k: int| 0 <= k < c1.spec_freed().len() implies #[trigger] c1.spec_freed()[k] != pane_id by {
                assert(c1.spec_freed()[k] == f0[k]);
                assert(f0[k] != f0[f0.len() - 1]);
            }
        }
        let slice = canvas.panes.as_slice();
        let mut idx: usize = 0;
        while idx < n && slice[idx].layer().0 <= self.z_layer.0
            invariant
                idx <= n,
                n == slice@.len(),
                slice@ == canvas.spec_panes(),
                forall|j: int| 0 <= j < idx ==> (#[trigger] slice@[j]).spec_layer().0 <= self.z_layer.0,
            decreases n - idx,
        {
            idx += 1;
        }
        let ghost pre = *canvas;
        proof {
            assert forall|j: int| idx <= j < n implies (#[trigger] pre.spec_panes()[j]).spec_layer().0
                > self.z_layer.0 by {
                assert(pre.spec_panes()[idx as int].spec_layer().0 <= pre.spec_panes()[j].spec_layer().0);
            }
        }
        let key = pane.key();
        canvas.panes.insert_at(idx, pane);
        canvas.policies.insert(key, self.policy);
        canvas.decor.insert(key, self.decor);
        canvas.pane_keys = Ghost(pre.pane_keys@.insert(idx as int, key));
        let ghost mid = *canvas;
        proof {
            let keys = pre.pane_keys@;
            assert forall|j: int| 0 <= j < keys.len() implies keys[j] != key by {
                assert(pre.panes@[j].spec_key() == keys[j]);
            }
            assert forall|j: int| 0 <= j < canvas.panes@.len() implies #[trigger] canvas.pane_keys@[j]
                == canvas.panes@[j].spec_key() by {
                if j < idx {
                    assert(canvas.panes@[j] == pre.panes@[j]);
                } else if j > idx {
                    assert(canvas.panes@[j] == pre.panes@[j - 1]);
                }
            }
            assert(canvas.spec_policies() =~= pre.spec_policies().insert(idx as int, self.policy));
            assert(canvas.spec_decor() =~= pre.spec_decor().insert(idx as int, self.decor));
            let nk = canvas.pane_keys@;
            assert forall|k: u64| canvas.policies@.contains_key(k) || canvas.decor@.contains_key(k) implies #[trigger] nk.contains(k) by {
                if k == key {
                    assert(nk[idx as int] == k);
                } else {
                    let j = choose|j: int| 0 <= j < keys.len() && keys[j] == k;
                    if j < idx {
                        assert(nk[j] == k);
                    } else {
                        assert(nk[j + 1] == k);
                    }
                }
            }
            let s = mid.spec_panes();
            assert(s == pre.spec_panes().insert(idx as int, c));
            let total = s.len() + mid.spec_freed().len();
            assert forall|j: int| 0 <= j < s.len() implies (#[trigger] s[j]).wf() && s[j].spec_id().0 < total by {
                if j < idx {
                    assert(s[j] == pre.spec_panes()[j]);
                } else if j > idx {
                    assert(s[j] == pre.spec_panes()[j - 1]);
                }
            }
            assert forall|key: u64| #[trigger] has_key(s, key) <==> has_key(pre.spec_panes(), key) || key
                == pane_id.0 as u64 by {
                if has_key(s, key) {
                    let j = choose|j: int| 0 <= j < s.len() && #[trigger] s[j].spec_key() == key;
                    if j < idx {
                        assert(s[j] == pre.spec_panes()[j]);
                    } else if j > idx {
                        assert(s[j] == pre.spec_panes()[j - 1]);
                    }
                }
                if has_key(pre.spec_panes(), key) {
                    let j = choose|j: int| 0 <= j < pre.spec_panes().len() && #[trigger] pre.spec_panes()[j].spec_key() == key;
                    if j < idx {
                        assert(s[j] == pre.spec_panes()[j]);
                    } else {
                        assert(s[j + 1] == pre.spec_panes()[j]);
                    }
                }
                if key == pane_id.0 as u64 {
                    assert(s[idx as int].spec_key() == key);
                }
            }
            assert forall|k: int| 0 <= k < mid.spec_freed().len() implies (#[trigger] mid.spec_freed()[k]).0 < total
                && !has_key(s, mid.spec_freed()[k].0 as u64) by {
                assert(mid.spec_freed()[k] == c0.spec_freed()[k]);
                assert(mid.spec_freed()[k] != pane_id);
            }
            assert forall|a: int, b: int| 0 <= a < b < s.len() implies (#[trigger] s[a]).spec_layer().0 <= (
            #[trigger] s[b]).spec_layer().0 by {
                if a < idx && b < idx {
                    assert(s[a] == pre.spec_panes()[a]);
                    assert(s[b] == pre.spec_panes()[b]);
                } else if a < idx && b == idx {
                    assert(s[a] == pre.spec_panes()[a]);
                } else if a < idx {
                    assert(s[a] == pre.spec_panes()[a]);
                    assert(s[b] == pre.spec_panes()[b - 1]);
                } else if a == idx {
                    assert(s[b] == pre.spec_panes()[b - 1]);
                } else {
                    assert(s[a] == pre.spec_panes()[a - 1]);
                    assert(s[b] == pre.spec_panes()[b - 1]);
                }
            }
            mid.lemma_index_of(pane_id, idx as int);
            assert forall|x: int, y: int| mid.in_canvas(x, y) implies (pre.pending(x, y)
                ==> #[trigger] mid.pending(x, y)) && (mid.shown(x, y) != pre.shown(x, y)
                ==> mid.pending(x, y)) by {
                if pre.pane_damage_at(x, y) && !pre.marked(x, y) {
                    let j = choose|j: int|
                        0 <= j < pre.spec_panes().len() && projected(
                            #[trigger] pre.spec_panes()[j],
                            pre.spec_size().width as int,
                            pre.spec_size().height as int,
                            x,
                            y,
                        );
                    if j < idx {
                        assert(s[j] == pre.spec_panes()[j]);
                    } else {
                        assert(s[j + 1] == pre.spec_panes()[j]);
                    }
                }
                if shows_xy(c, x, y) {
                    assert(c.in_grid(x - c.spec_rect().x, y - c.spec_rect().y));
                    assert(c.marked(x - c.spec_rect().x, y - c.spec_rect().y));
                    assert(projected(s[idx as int], mid.spec_size().width as int, mid.spec_size().height as int, x, y));
                } else {
                    lemma_composed_insert(pre.spec_clear(), pre.spec_panes(), idx as int, c, x, y);
                }
            }
        }
        canvas.sync_decor(pane_id);
        proof {
            lemma_covers_trans(pre, mid, *canvas);
            canvas.lemma_index_of(pane_id, idx as int);
            assert forall|x: int, y: int| #[trigger] canvas.marked(x, y) <==> pre.marked(x, y)
                || pre.covers(self.rect, x, y) by {
                assert(mid.marked(x, y) == pre.marked(x, y));
            }
            assert(redrawn(canvas.spec_panes()[idx as int], c, self.decor, self.policy, pre.is_focused(pane_id)));
            lemma_with_content(c, content_for(c.spec_rect(), self.decor.spec_insets()));
        }
        pane_id
    }
}


/// Drawing into a pane covers its changes: when the pane at `i` is replaced by an edit
/// of it that keeps its frame, marks every cell whose glyph changed and keeps its earlier
/// marks, the canvas still shows correctly wherever nothing is to be redrawn.
pub proof fn lemma_pane_edit_covered(old: Canvas, new: Canvas, i: int, q: Pane)
    requires
        old.wf(),
        0 <= i < old.spec_panes().len(),
        new.spec_panes() == old.spec_panes().update(i, q),
        q.same_frame(&old.spec_panes()[i]),
        edit_tracked(q, old.spec_panes()[i]),
        new.spec_size() == old.spec_size(),
        new.spec_clear() == old.spec_clear(),
        new.spec_forced() == old.spec_forced(),
        new.spec_damage() == old.spec_damage(),
    ensures
        new.covers_changes(&old),
{
    let p = old.spec_panes()[i];
    let w = old.spec_size().width as int;
    let h = old.spec_size().height as int;
    assert forall|x: int, y: int| new.in_canvas(x, y) implies (old.pending(x, y) ==> #[trigger] new.pending(
        x,
        y,
    )) && (new.shown(x, y) != old.shown(x, y) ==> new.pending(x, y)) by {
        if old.pane_damage_at(x, y) {
            let j = choose|j: int|
                0 <= j < old.spec_panes().len() && projected(#[trigger] old.spec_panes()[j], w, h, x, y);
            if j == i {
                assert(q.marked(x - p.spec_rect().x, y - p.spec_rect().y));
                assert(projected(new.spec_panes()[i], w, h, x, y));
            } else {
                assert(projected(new.spec_panes()[j], w, h, x, y));
            }
        }
        let lx = x - p.spec_rect().x;
        let ly = y - p.spec_rect().y;
        if shows_xy(p, x, y) && glyph_at(q, x, y) != glyph_at(p, x, y) {
            assert(q.in_grid(lx, ly));
            assert(q.marked(lx, ly));
            assert(projected(new.spec_panes()[i], w, h, x, y));
        } else {
            lemma_composed_update(old.spec_clear(), old.spec_panes(), i, q, x, y);
        }
    }
}

/// Pressing the bottom-right cell of a bordered window whose policy allows resizing
/// begins a resize.
pub proof fn lemma_corner_press_resizes(win: WindowDecor, policy: PanePolicy, w: int, h: int)
    requires
        win.border is Some,
        policy.resizable,
        1 <= w <= usize::MAX,
        1 <= h <= usize::MAX,
    ensures
        ({
            let corner = Point { x: (w - 1) as usize, y: (h - 1) as usize };
            policy.spec_action_for_hit(PaneDecor::Window(win).spec_hit_test(w, h, corner), corner)
                == PaneAction::BeginResize
        }),
{
}

} // verus!
