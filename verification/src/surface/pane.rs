//! Panes: drawable rectangular regions with their own glyph storage and damage tracking.
use vstd::prelude::*;

use crate::surface::backend::Layer;
use crate::surface::damage::{
    DamagedRow,
    clean_rows,
    clear_rows,
    mark_row_range,
    row_marked,
    rows_wf,
};
use crate::surface::geometry::{Point, Rect, add_sat, min_of, min_usize, sat_add, sat_sub, sub_sat};
use crate::surface::glyph::{Glyph, blank_glyph, styled_glyph};
use crate::surface::grid::{lemma_cell_index, lemma_index_unique, lemma_row_range};
use crate::surface::indexed_vec::Keyed;
use crate::surface::style::Style;

verus! {

/// Unique identifier for individual panes.
#[derive(Debug, PartialEq, Eq, Structural, PartialOrd, Ord, Hash, Copy, Clone)]
pub struct PaneId(pub u32);

impl Default for PaneId {
    fn default() -> (p: Self)
        ensures
            p == PaneId(0),
    {
        PaneId(0)
    }
}

/// Clickable elements within a `Pane`.
#[derive(Debug, PartialEq, Eq, Structural, PartialOrd, Ord, Hash, Copy, Clone)]
pub enum PaneElement {
    Title,
    Border,
    Content,
    Resize,
}

/// The content rectangle starts inside the pane rectangle and, when non-empty, ends
/// inside it.
pub open spec fn content_fits(content: Rect, rect: Rect) -> bool {
    &&& content.x >= rect.x
    &&& content.y >= rect.y
    &&& (content.width == 0 || content.height == 0 || (content.x - rect.x + content.width
        <= rect.width && content.y - rect.y + content.height <= rect.height))
}

/// The glyphs that `text` becomes when drawn in `style`.
pub open spec fn styled_text(text: Seq<char>, style: Style) -> Seq<Glyph> {
    Seq::new(text.len(), |i: int| styled_glyph(text[i], style))
}

/// `new` is `old` after writing `g` at pane-local `pos` (ignored outside the pane), with the
/// cell marked as damaged when its glyph changed.
pub open spec fn raw_set_post(old: Pane, new: Pane, pos: Point, g: Glyph) -> bool {
    &&& new.wf()
    &&& new.same_frame(&old)
    &&& forall|x: int, y: int| #[trigger]
        new.in_grid(x, y) ==> new.cell(x, y) == (if x == pos.x && y == pos.y {
            g
        } else {
            old.cell(x, y)
        })
    &&& forall|x: int, y: int| #[trigger]
        new.marked(x, y) <==> old.marked(x, y) || (x == pos.x && y == pos.y && old.in_grid(x, y)
            && old.cell(x, y) != g)
}

/// `new` is `old` resized to `rect` with content rectangle `content`: the overlapping
/// top-left part of the old content area sits at the top-left of the new one, every other
/// cell is blank, and the whole pane is marked as damaged.
pub open spec fn resize_post(old: Pane, new: Pane, rect: Rect, content: Rect) -> bool {
    let oc = old.spec_content();
    let cw = min_of(oc.width as int, content.width as int);
    let ch = min_of(oc.height as int, content.height as int);
    let nox = content.x - rect.x;
    let noy = content.y - rect.y;
    &&& new.spec_rect() == rect
    &&& new.spec_content() == content
    &&& new.spec_id() == old.spec_id()
    &&& new.spec_layer() == old.spec_layer()
    &&& new.spec_visible() == old.spec_visible()
    &&& forall|x: int, y: int| #[trigger]
        new.in_grid(x, y) ==> new.cell(x, y) == (if nox <= x < nox + cw && noy <= y < noy + ch {
            old.cell(x - nox + old.inset_x(), y - noy + old.inset_y())
        } else {
            blank_glyph()
        })
    &&& forall|x: int, y: int| #[trigger]
        new.marked(x, y) <==> (0 <= y < rect.height && 0 <= x < rect.width)
}

/// Every cell of `new` whose glyph differs from `old` is marked, and every mark of `old`
/// is kept.
pub open spec fn edit_tracked(new: Pane, old: Pane) -> bool {
    &&& forall|x: int, y: int| #[trigger] old.marked(x, y) ==> new.marked(x, y)
    &&& forall|x: int, y: int|
        new.in_grid(x, y) && #[trigger] new.cell(x, y) != old.cell(x, y) ==> new.marked(x, y)
}

/// Tracked edits compose.
pub proof fn lemma_edit_tracked_trans(a: Pane, b: Pane, c: Pane)
    requires
        edit_tracked(b, a),
        edit_tracked(c, b),
        b.same_frame(&a),
        c.same_frame(&b),
    ensures
        edit_tracked(c, a),
{
    assert forall|x: int, y: int|
        c.in_grid(x, y) && #[trigger] c.cell(x, y) != a.cell(x, y) implies c.marked(x, y) by {
        if c.cell(x, y) == b.cell(x, y) {
            assert(b.in_grid(x, y));
            assert(b.marked(x, y));
        }
    }
}

/// Compared with `orig`, pane `p` holds the glyph that `target` names at each cell it
/// names and is unchanged elsewhere; damage was only added at named cells, and every cell
/// whose glyph differs from `orig` is marked.
pub open spec fn tracks(p: Pane, orig: Pane, target: spec_fn(int, int) -> Option<Glyph>) -> bool {
    &&& p.wf()
    &&& p.same_frame(&orig)
    &&& forall|x: int, y: int| #[trigger]
        p.in_grid(x, y) ==> p.cell(x, y) == (match target(x, y) {
            Some(g) => g,
            None => orig.cell(x, y),
        })
    &&& forall|x: int, y: int| #[trigger]
        p.marked(x, y) ==> orig.marked(x, y) || target(x, y) is Some
    &&& forall|x: int, y: int| #[trigger] orig.marked(x, y) ==> p.marked(x, y)
    &&& forall|x: int, y: int|
        p.in_grid(x, y) && #[trigger] p.cell(x, y) != orig.cell(x, y) ==> p.marked(x, y)
}

/// `later` where it names a cell, else `earlier`.
pub open spec fn target_then(
    earlier: spec_fn(int, int) -> Option<Glyph>,
    later: spec_fn(int, int) -> Option<Glyph>,
) -> spec_fn(int, int) -> Option<Glyph> {
    |x: int, y: int|
        if later(x, y) is Some {
            later(x, y)
        } else {
            earlier(x, y)
        }
}

/// Tracking composes: doing `t1` and then `t2` tracks `t2` over `t1`.
pub proof fn lemma_tracks_compose(
    p1: Pane,
    p2: Pane,
    orig: Pane,
    t1: spec_fn(int, int) -> Option<Glyph>,
    t2: spec_fn(int, int) -> Option<Glyph>,
)
    requires
        tracks(p1, orig, t1),
        tracks(p2, p1, t2),
    ensures
        tracks(p2, orig, target_then(t1, t2)),
{
    let t = target_then(t1, t2);
    assert forall|x: int, y: int| #[trigger] p2.in_grid(x, y) implies p2.cell(x, y) == (match t(
        x,
        y,
    ) {
        Some(g) => g,
        None => orig.cell(x, y),
    }) by {
        assert(p1.in_grid(x, y));
    }
    assert forall|x: int, y: int| #[trigger] p2.marked(x, y) implies orig.marked(x, y) || t(
        x,
        y,
    ) is Some by {
        if t2(x, y) is None {
            assert(p1.marked(x, y));
        }
    }
    assert forall|x: int, y: int| #[trigger] orig.marked(x, y) implies p2.marked(x, y) by {
        assert(p1.marked(x, y));
    }
    assert forall|x: int, y: int| p2.in_grid(x, y) && #[trigger] p2.cell(x, y) != orig.cell(
        x,
        y,
    ) implies p2.marked(x, y) by {
        assert(p1.in_grid(x, y));
        if p2.cell(x, y) == p1.cell(x, y) {
            assert(p1.marked(x, y));
        }
    }
}

/// `target` with cell `(px, py)` set to `g`.
pub open spec fn target_set(
    target: spec_fn(int, int) -> Option<Glyph>,
    px: int,
    py: int,
    g: Glyph,
) -> spec_fn(int, int) -> Option<Glyph> {
    |x: int, y: int|
        if x == px && y == py {
            Some(g)
        } else {
            target(x, y)
        }
}

/// A pane tracks itself with the empty target.
pub proof fn lemma_tracks_start(p: Pane)
    requires
        p.wf(),
    ensures
        tracks(p, p, |x: int, y: int| None::<Glyph>),
{
}

/// Writing one in-range cell keeps the tracking relation, with that cell added to the target.
pub proof fn lemma_tracks_set(
    pre: Pane,
    post: Pane,
    orig: Pane,
    target: spec_fn(int, int) -> Option<Glyph>,
    pos: Point,
    g: Glyph,
)
    requires
        tracks(pre, orig, target),
        raw_set_post(pre, post, pos, g),
        pre.in_grid(pos.x as int, pos.y as int),
    ensures
        tracks(post, orig, target_set(target, pos.x as int, pos.y as int, g)),
{
    let t2 = target_set(target, pos.x as int, pos.y as int, g);
    assert forall|x: int, y: int| post.in_grid(x, y) && #[trigger] post.cell(x, y) != orig.cell(
        x,
        y,
    ) implies post.marked(x, y) by {
        assert(pre.in_grid(x, y));
        if x == pos.x && y == pos.y {
            if pre.cell(x, y) == g {
                assert(pre.cell(x, y) != orig.cell(x, y));
            }
        } else {
            assert(pre.cell(x, y) == post.cell(x, y));
        }
    }
    assert forall|x: int, y: int| #[trigger] post.marked(x, y) implies orig.marked(x, y) || t2(
        x,
        y,
    ) is Some by {
        if !(x == pos.x && y == pos.y) {
            assert(pre.marked(x, y));
        }
    }
    assert forall|x: int, y: int| #[trigger] post.in_grid(x, y) implies post.cell(x, y) == (match t2(
        x,
        y,
    ) {
        Some(gg) => gg,
        None => orig.cell(x, y),
    }) by {
        assert(pre.in_grid(x, y));
    }
}

/// Writing outside the pane keeps the tracking relation unchanged.
pub proof fn lemma_tracks_set_outside(
    pre: Pane,
    post: Pane,
    orig: Pane,
    target: spec_fn(int, int) -> Option<Glyph>,
    pos: Point,
    g: Glyph,
)
    requires
        tracks(pre, orig, target),
        raw_set_post(pre, post, pos, g),
        !pre.in_grid(pos.x as int, pos.y as int),
    ensures
        tracks(post, orig, target),
{
    assert forall|x: int, y: int| post.in_grid(x, y) && #[trigger] post.cell(x, y) != orig.cell(
        x,
        y,
    ) implies post.marked(x, y) by {
        assert(pre.in_grid(x, y));
    }
    assert forall|x: int, y: int| #[trigger] post.marked(x, y) implies orig.marked(x, y) || target(
        x,
        y,
    ) is Some by {
        assert(pre.marked(x, y));
    }
    assert forall|x: int, y: int| #[trigger] post.in_grid(x, y) implies post.cell(x, y) == (match target(
        x,
        y,
    ) {
        Some(gg) => gg,
        None => orig.cell(x, y),
    }) by {
        assert(pre.in_grid(x, y));
    }
}

/// A vector of `n` copies of `g`.
pub fn filled(g: Glyph, n: usize) -> (v: Vec<Glyph>)
    ensures
        v@ == Seq::new(n as nat, |i: int| g),
{
    let mut v: Vec<Glyph> = Vec::new();
    let mut i: usize = 0;
    while i < n
        invariant
            i <= n,
            v@ == Seq::new(i as nat, |k: int| g),
        decreases n - i,
    {
        v.push(g);
        i += 1;
        proof {
            assert(v@ =~= Seq::new(i as nat, |k: int| g));
        }
    }
    v
}

/// Damage that stays within the grid: every mark of `new` was a mark of `old` or lies in
/// `new`'s grid, and `old`'s marks lie in a grid of the same size.
pub proof fn lemma_marks_kept_in_grid(old: Pane, new: Pane)
    requires
        forall|x: int, y: int| #[trigger] old.marked(x, y) ==> old.in_grid(x, y),
        new.spec_rect().width == old.spec_rect().width,
        new.spec_rect().height == old.spec_rect().height,
        forall|x: int, y: int| #[trigger] new.marked(x, y) ==> old.marked(x, y) || new.in_grid(x, y),
    ensures
        forall|x: int, y: int| #[trigger] new.marked(x, y) ==> new.in_grid(x, y),
{
    assert forall|x: int, y: int| #[trigger] new.marked(x, y) implies new.in_grid(x, y) by {
        if old.marked(x, y) {
            assert(old.in_grid(x, y));
        }
    }
}

/// This pane moved to `rect` with content rectangle `content`.
pub closed spec fn with_frame(p: Pane, rect: Rect, content: Rect) -> Pane {
    Pane { rect, content_rect: content, ..p }
}

/// Moving a pane keeps everything but its rectangles.
pub broadcast proof fn lemma_with_frame(p: Pane, rect: Rect, content: Rect)
    ensures
        #[trigger] with_frame(p, rect, content).spec_rect() == rect,
        with_frame(p, rect, content).spec_content() == content,
        with_frame(p, rect, content).spec_id() == p.spec_id(),
        with_frame(p, rect, content).spec_layer() == p.spec_layer(),
        with_frame(p, rect, content).spec_visible() == p.spec_visible(),
        with_frame(p, rect, content).cells() == p.cells(),
        with_frame(p, rect, content).rows() == p.rows(),
{
}

/// Replacing the content rectangle keeps everything else.
pub broadcast proof fn lemma_with_content(p: Pane, r: Rect)
    ensures
        #[trigger] p.spec_with_content(r).spec_content() == r,
        p.spec_with_content(r).spec_id() == p.spec_id(),
        p.spec_with_content(r).spec_rect() == p.spec_rect(),
        p.spec_with_content(r).spec_layer() == p.spec_layer(),
        p.spec_with_content(r).spec_visible() == p.spec_visible(),
        p.spec_with_content(r).cells() == p.cells(),
        p.spec_with_content(r).rows() == p.rows(),
        p.wf() && content_fits(r, p.spec_rect()) ==> p.spec_with_content(r).wf(),
{
    if p.wf() {
        lemma_marks_kept_in_grid(p, p.spec_with_content(r));
    }
}

/// A drawable rectangular region with its own backing data and damage tracking.
pub struct Pane {
    id: PaneId,
    rect: Rect,
    z_layer: Layer,
    visible: bool,
    content_rect: Rect,
    data: Vec<Glyph>,
    damaged: Vec<DamagedRow>,
}

impl Keyed for Pane {
    /// Panes are found by their identifier.
    open spec fn spec_key(&self) -> u64 {
        self.spec_id().0 as u64
    }

    fn key(&self) -> (k: u64) {
        self.id.0 as u64
    }
}

impl Pane {
    /// The pane's identifier.
    pub closed spec fn spec_id(&self) -> PaneId {
        self.id
    }

    /// The pane rectangle in canvas space.
    pub closed spec fn spec_rect(&self) -> Rect {
        self.rect
    }

    /// The pane's layer.
    pub closed spec fn spec_layer(&self) -> Layer {
        self.z_layer
    }

    /// Whether the pane is shown.
    pub closed spec fn spec_visible(&self) -> bool {
        self.visible
    }

    /// The cached content rectangle in canvas space.
    pub closed spec fn spec_content(&self) -> Rect {
        self.content_rect
    }

    /// The pane's glyphs, row by row.
    pub closed spec fn cells(&self) -> Seq<Glyph> {
        self.data@
    }

    /// The pane's per-row damage.
    pub closed spec fn rows(&self) -> Seq<DamagedRow> {
        self.damaged@
    }

    /// The glyph at pane-local `(x, y)`.
    pub open spec fn cell(&self, x: int, y: int) -> Glyph {
        self.cells()[y * self.spec_rect().width + x]
    }

    /// Pane-local `(x, y)` is marked as damaged.
    pub open spec fn marked(&self, x: int, y: int) -> bool {
        row_marked(self.rows(), x, y)
    }

    /// `(x, y)` is a pane-local cell.
    pub open spec fn in_grid(&self, x: int, y: int) -> bool {
        0 <= x < self.spec_rect().width && 0 <= y < self.spec_rect().height
    }

    /// Storage matches the rectangle, damage rows are in normal form, and the content
    /// rectangle lies in the pane.
    pub open spec fn wf(&self) -> bool {
        &&& self.cells().len() == self.spec_rect().width * self.spec_rect().height
        &&& self.rows().len() == self.spec_rect().height
        &&& rows_wf(self.rows())
        &&& content_fits(self.spec_content(), self.spec_rect())
        &&& forall|x: int, y: int| #[trigger] self.marked(x, y) ==> self.in_grid(x, y)
    }

    /// Identifier, placement, layer, visibility and content rectangle agree.
    pub open spec fn same_frame(&self, other: &Pane) -> bool {
        &&& self.spec_id() == other.spec_id()
        &&& self.spec_rect() == other.spec_rect()
        &&& self.spec_layer() == other.spec_layer()
        &&& self.spec_visible() == other.spec_visible()
        &&& self.spec_content() == other.spec_content()
    }

    /// Every cell of `self` equals the one of `other`.
    pub open spec fn same_cells(&self, other: &Pane) -> bool {
        forall|x: int, y: int| #[trigger] self.in_grid(x, y) ==> self.cell(x, y) == other.cell(x, y)
    }

    /// Horizontal offset of the content area inside the pane.
    pub open spec fn inset_x(&self) -> int {
        self.spec_content().x - self.spec_rect().x
    }

    /// Vertical offset of the content area inside the pane.
    pub open spec fn inset_y(&self) -> int {
        self.spec_content().y - self.spec_rect().y
    }

    /// Constructs a pane covered with blank glyphs and marked as damaged throughout.
    pub fn create(pane_id: PaneId, rect: Rect, z_layer: Layer, visible: bool) -> (p: Self)
        requires
            rect.width * rect.height <= usize::MAX,
        ensures
            p.wf(),
            p.spec_id() == pane_id,
            p.spec_rect() == rect,
            p.spec_layer() == z_layer,
            p.spec_visible() == visible,
            p.spec_content() == rect,
            forall|x: int, y: int| #[trigger] p.in_grid(x, y) ==> p.cell(x, y) == blank_glyph(),
            forall|x: int, y: int| #[trigger]
                p.marked(x, y) <==> (0 <= y < rect.height && 0 <= x < rect.width),
    {
        let n = rect.width * rect.height;
        let data = filled(Glyph::default(), n);
        let damaged = clean_rows(rect.height);
        let mut p = Pane {
            id: pane_id,
            rect,
            z_layer,
            visible,
            content_rect: rect,
            data,
            damaged,
        };
        p.mark_all_damaged();
        proof {
            assert forall|x: int, y: int| #[trigger] p.in_grid(x, y) implies p.cell(x, y)
                == blank_glyph() by {
                lemma_cell_index(x, y, rect.width as int, rect.height as int);
            }
        }
        p
    }

    /// Returns the unique identifier.
    pub fn id(&self) -> (id: PaneId)
        ensures
            id == self.spec_id(),
    {
        self.id
    }

    /// Returns the pane rectangle in canvas space.
    pub fn rect(&self) -> (r: Rect)
        ensures
            r == self.spec_rect(),
    {
        self.rect
    }

    /// Returns the pane width.
    pub fn width(&self) -> (w: usize)
        ensures
            w == self.spec_rect().width,
    {
        self.rect.width
    }

    /// Returns the pane height.
    pub fn height(&self) -> (h: usize)
        ensures
            h == self.spec_rect().height,
    {
        self.rect.height
    }

    /// Returns the pane layer.
    pub fn layer(&self) -> (l: Layer)
        ensures
            l == self.spec_layer(),
    {
        self.z_layer
    }

    /// Returns `true` when the pane is shown.
    pub fn is_visible(&self) -> (b: bool)
        ensures
            b == self.spec_visible(),
    {
        self.visible
    }

    /// Returns the cached drawable content area in canvas space.
    pub fn content_rect(&self) -> (r: Rect)
        ensures
            r == self.spec_content(),
    {
        self.content_rect
    }

    /// The pane's glyph storage, row by row.
    pub fn data(&self) -> (d: &Vec<Glyph>)
        ensures
            d@ == self.cells(),
    {
        &self.data
    }

    /// The pane's per-row damage.
    pub fn damaged_rows(&self) -> (d: &Vec<DamagedRow>)
        ensures
            d@ == self.rows(),
    {
        &self.damaged
    }

    /// This pane with its content rectangle replaced by `r`.
    pub closed spec fn spec_with_content(self, r: Rect) -> Pane {
        Pane { content_rect: r, ..self }
    }

    /// Updates the cached content rect.
    pub fn set_content_rect(&mut self, rect: Rect)
        requires
            old(self).wf(),
            content_fits(rect, old(self).spec_rect()),
        ensures
            final(self).wf(),
            *final(self) == old(self).spec_with_content(rect),
            final(self).spec_content() == rect,
            final(self).spec_id() == old(self).spec_id(),
            final(self).spec_rect() == old(self).spec_rect(),
            final(self).spec_layer() == old(self).spec_layer(),
            final(self).spec_visible() == old(self).spec_visible(),
            final(self).cells() == old(self).cells(),
            final(self).rows() == old(self).rows(),
    {
        self.content_rect = rect;
        proof {
            lemma_marks_kept_in_grid(*old(self), *self);
        }
    }

    /// Moves the pane to `rect` (same size) with the given content rectangle.
    pub fn relocate(&mut self, rect: Rect, content: Rect)
        requires
            old(self).wf(),
            rect.width == old(self).spec_rect().width,
            rect.height == old(self).spec_rect().height,
            content_fits(content, rect),
        ensures
            final(self).wf(),
            *final(self) == with_frame(*old(self), rect, content),
            final(self).spec_rect() == rect,
            final(self).spec_content() == content,
            final(self).spec_id() == old(self).spec_id(),
            final(self).spec_layer() == old(self).spec_layer(),
            final(self).spec_visible() == old(self).spec_visible(),
            final(self).cells() == old(self).cells(),
            final(self).rows() == old(self).rows(),
    {
        self.rect = rect;
        self.content_rect = content;
        proof {
            lemma_marks_kept_in_grid(*old(self), *self);
        }
    }

    /// Writes a glyph directly in pane-local coordinates; out-of-range positions are
    /// ignored. A cell whose glyph changes is marked as damaged.
    pub fn raw_set(&mut self, pos: Point, glyph: Glyph)
        requires
            old(self).wf(),
        ensures
            raw_set_post(*old(self), *final(self), pos, glyph),
            final(self).wf(),
            final(self).same_frame(old(self)),
            forall|x: int, y: int| #[trigger]
                final(self).in_grid(x, y) ==> final(self).cell(x, y) == (if x == pos.x && y
                    == pos.y {
                    glyph
                } else {
                    old(self).cell(x, y)
                }),
            forall|x: int, y: int| #[trigger]
                final(self).marked(x, y) <==> old(self).marked(x, y) || (x == pos.x && y == pos.y
                    && old(self).in_grid(x, y) && old(self).cell(x, y) != glyph),
    {
        if pos.x >= self.rect.width || pos.y >= self.rect.height {
            return;
        }
        let w = self.rect.width;
        let n = self.data.len();
        proof {
            lemma_cell_index(pos.x as int, pos.y as int, w as int, self.rect.height as int);
        }
        let index = pos.y * w + pos.x;
        if self.data[index] != glyph {
            self.data.set(index, glyph);
            mark_row_range(&mut self.damaged, pos.y, pos.x, pos.x + 1);
        }
        proof {
            assert forall|x: int, y: int| #[trigger] self.in_grid(x, y) implies self.cell(x, y) == (
            if x == pos.x && y == pos.y {
                glyph
            } else {
                old(self).cell(x, y)
            }) by {
                lemma_cell_index(x, y, w as int, self.rect.height as int);
                if y * w + x == index {
                    lemma_index_unique(x, y, pos.x as int, pos.y as int, w as int);
                }
            }
            lemma_marks_kept_in_grid(*old(self), *self);
        }
    }

    /// Writes a glyph directly in pane-local coordinates for decoration rendering.
    pub fn decor_raw_set(&mut self, pos: Point, glyph: Glyph)
        requires
            old(self).wf(),
        ensures
            raw_set_post(*old(self), *final(self), pos, glyph),
            final(self).wf(),
            final(self).same_frame(old(self)),
            forall|x: int, y: int| #[trigger]
                final(self).in_grid(x, y) ==> final(self).cell(x, y) == (if x == pos.x && y
                    == pos.y {
                    glyph
                } else {
                    old(self).cell(x, y)
                }),
            forall|x: int, y: int| #[trigger]
                final(self).marked(x, y) <==> old(self).marked(x, y) || (x == pos.x && y == pos.y
                    && old(self).in_grid(x, y) && old(self).cell(x, y) != glyph),
    {
        self.raw_set(pos, glyph);
    }

    /// Fills columns `[x0, x1)` (clipped to the pane) of pane-local row `y` with one
    /// glyph; when any cell changes, the whole clipped span is marked as damaged.
    pub fn raw_fill_row(&mut self, y: usize, x0: usize, x1: usize, glyph: Glyph)
        requires
            old(self).wf(),
        ensures
            final(self).wf(),
            final(self).same_frame(old(self)),
            ({
                let w = old(self).spec_rect().width as int;
                let a0 = min_of(x0 as int, w);
                let a1 = min_of(x1 as int, w);
                let active = y < old(self).spec_rect().height && a0 < a1;
                let changed = active && exists|k: int|
                    a0 <= k < a1 && #[trigger] old(self).cell(k, y as int) != glyph;
                &&& forall|cx: int, cy: int| #[trigger]
                    final(self).in_grid(cx, cy) ==> final(self).cell(cx, cy) == (if active && cy
                        == y && a0 <= cx < a1 {
                        glyph
                    } else {
                        old(self).cell(cx, cy)
                    })
                &&& forall|cx: int, cy: int| #[trigger]
                    final(self).marked(cx, cy) <==> old(self).marked(cx, cy) || (changed && cy
                        == y && a0 <= cx < a1)
            }),
    {
        if y >= self.rect.height {
            return;
        }
        let w = self.rect.width;
        let h = self.rect.height;
        let x0 = min_usize(x0, w);
        let x1 = min_usize(x1, w);
        if x0 >= x1 {
            return;
        }
        let n = self.data.len();
        proof {
            lemma_cell_index(x0 as int, y as int, w as int, h as int);
        }
        let start = y * w + x0;
        let end = start + (x1 - x0);
        let mut changed = false;
        let mut i = start;
        let ghost old_data = self.data@;
        while i < end
            invariant
                self.same_frame(old(self)),
                self.damaged@ == old(self).damaged@,
                old_data == old(self).data@,
                start <= i <= end,
                end <= old_data.len(),
                self.data@.len() == old_data.len(),
                forall|k: int|
                    0 <= k < old_data.len() ==> #[trigger] self.data@[k] == (if start <= k < i {
                        glyph
                    } else {
                        old_data[k]
                    }),
                changed <==> exists|k: int| start <= k < i && #[trigger] old_data[k] != glyph,
            decreases end - i,
        {
            if self.data[i] != glyph {
                self.data.set(i, glyph);
                changed = true;
            }
            i += 1;
        }
        if changed {
            mark_row_range(&mut self.damaged, y, x0, x1);
        }
        proof {
            assert forall|cx: int, cy: int| #[trigger] self.in_grid(cx, cy) implies self.cell(cx, cy)
                == (if cy == y && x0 <= cx < x1 {
                glyph
            } else {
                old(self).cell(cx, cy)
            }) by {
                lemma_cell_index(cx, cy, w as int, h as int);
                lemma_row_range(cx, cy, w as int, y as int, x0 as int, x1 as int);
            }
            let ex_flat = exists|k: int| start <= k < end && #[trigger] old_data[k] != glyph;
            let ex_grid = exists|k: int| x0 <= k < x1 && #[trigger] old(self).cell(k, y as int) != glyph;
            if ex_flat {
                let k = choose|k: int| start <= k < end && #[trigger] old_data[k] != glyph;
                assert(old(self).cell(k - y * w, y as int) == old_data[k]);
                assert(ex_grid);
            }
            if ex_grid {
                let k = choose|k: int| x0 <= k < x1 && #[trigger] old(self).cell(k, y as int) != glyph;
                assert(old_data[y * w + k] == old(self).cell(k, y as int));
                assert(ex_flat);
            }
            lemma_marks_kept_in_grid(*old(self), *self);
        }
    }

    /// Clears the specified pane-local row for decoration redraw.
    pub fn decor_clear_row(&mut self, y: usize, glyph: Glyph)
        requires
            old(self).wf(),
        ensures
            final(self).wf(),
            final(self).same_frame(old(self)),
            forall|cx: int, cy: int| #[trigger]
                final(self).in_grid(cx, cy) ==> final(self).cell(cx, cy) == (if cy == y {
                    glyph
                } else {
                    old(self).cell(cx, cy)
                }),
            forall|cx: int, cy: int| #[trigger]
                final(self).marked(cx, cy) <==> old(self).marked(cx, cy) || (cy == y && y
                    < old(self).spec_rect().height && 0 <= cx < old(self).spec_rect().width
                    && exists|k: int|
                    0 <= k < old(self).spec_rect().width && #[trigger] old(self).cell(k, y as int)
                        != glyph),
    {
        let w = self.rect.width;
        self.raw_fill_row(y, 0, w, glyph);
    }

    /// Marks the entire pane as damaged.
    pub fn mark_all_damaged(&mut self)
        requires
            old(self).wf(),
        ensures
            final(self).wf(),
            final(self).same_frame(old(self)),
            final(self).cells() == old(self).cells(),
            forall|x: int, y: int| #[trigger]
                final(self).marked(x, y) <==> old(self).marked(x, y) || (0 <= y
                    < old(self).spec_rect().height && 0 <= x < old(self).spec_rect().width),
    {
        let width = self.rect.width;
        let height = self.rect.height;
        if width == 0 || height == 0 {
            return;
        }
        let mut i: usize = 0;
        while i < height
            invariant
                i <= height,
                height == self.rect.height,
                width == self.rect.width,
                self.wf(),
                self.same_frame(old(self)),
                self.cells() == old(self).cells(),
                forall|x: int, y: int| #[trigger]
                    self.marked(x, y) <==> old(self).marked(x, y) || (0 <= y < i && 0 <= x < width),
            decreases height - i,
        {
            let ghost before = self.damaged@;
            let ghost pre = *self;
            mark_row_range(&mut self.damaged, i, 0, width);
            proof {
                assert forall|x: int, y: int| #[trigger]
                    self.marked(x, y) <==> old(self).marked(x, y) || (0 <= y < i + 1 && 0 <= x
                        < width) by {
                    assert(pre.marked(x, y) == row_marked(before, x, y));
                    assert(row_marked(self.damaged@, x, y) <==> row_marked(before, x, y) || (y == i
                        && 0 <= x < width));
                }
                lemma_marks_kept_in_grid(pre, *self);
            }
            i += 1;
        }
    }

    /// Removes all tracked damage from the pane.
    pub fn clear_damaged(&mut self)
        requires
            old(self).wf(),
        ensures
            final(self).wf(),
            final(self).same_frame(old(self)),
            final(self).cells() == old(self).cells(),
            forall|x: int, y: int| !#[trigger] final(self).marked(x, y),
    {
        clear_rows(&mut self.damaged);
    }

    /// Marks the pane as hidden; returns `false` if it already was.
    pub fn conceal(&mut self) -> (changed: bool)
        requires
            old(self).wf(),
        ensures
            final(self).wf(),
            changed == old(self).spec_visible(),
            !final(self).spec_visible(),
            final(self).spec_id() == old(self).spec_id(),
            final(self).spec_rect() == old(self).spec_rect(),
            final(self).spec_layer() == old(self).spec_layer(),
            final(self).spec_content() == old(self).spec_content(),
            final(self).cells() == old(self).cells(),
            final(self).rows() == old(self).rows(),
    {
        if !self.visible {
            return false;
        }
        self.visible = false;
        proof {
            lemma_marks_kept_in_grid(*old(self), *self);
        }
        true
    }

    /// Marks the pane as visible; a pane that was hidden is marked as damaged throughout.
    /// Returns `false` if it already was visible.
    pub fn show(&mut self) -> (changed: bool)
        requires
            old(self).wf(),
        ensures
            final(self).wf(),
            changed == !old(self).spec_visible(),
            final(self).spec_visible(),
            final(self).spec_id() == old(self).spec_id(),
            final(self).spec_rect() == old(self).spec_rect(),
            final(self).spec_layer() == old(self).spec_layer(),
            final(self).spec_content() == old(self).spec_content(),
            final(self).cells() == old(self).cells(),
            forall|x: int, y: int| #[trigger]
                final(self).marked(x, y) <==> old(self).marked(x, y) || (changed && 0 <= y
                    < old(self).spec_rect().height && 0 <= x < old(self).spec_rect().width),
    {
        if self.visible {
            return false;
        }
        self.visible = true;
        proof {
            lemma_marks_kept_in_grid(*old(self), *self);
        }
        self.mark_all_damaged();
        true
    }

    /// Toggles pane visibility and returns the new visibility.
    pub fn toggle_visibility(&mut self) -> (visible: bool)
        requires
            old(self).wf(),
        ensures
            final(self).wf(),
            visible == !old(self).spec_visible(),
            final(self).spec_visible() == visible,
            final(self).spec_id() == old(self).spec_id(),
            final(self).spec_rect() == old(self).spec_rect(),
            final(self).spec_layer() == old(self).spec_layer(),
            final(self).spec_content() == old(self).spec_content(),
            final(self).cells() == old(self).cells(),
            forall|x: int, y: int| #[trigger]
                final(self).marked(x, y) <==> old(self).marked(x, y) || (visible && 0 <= y
                    < old(self).spec_rect().height && 0 <= x < old(self).spec_rect().width),
    {
        if self.visible {
            self.conceal();
        } else {
            self.show();
        }
        self.visible
    }

    /// Fills a content-local rectangle (clipped to the content area) with one glyph, row
    /// by row; each row in which a cell changes is marked as damaged over the filled columns.
    pub fn fill(&mut self, rect: Rect, glyph: Glyph)
        requires
            old(self).wf(),
        ensures
            final(self).wf(),
            final(self).same_frame(old(self)),
            edit_tracked(*final(self), *old(self)),
            ({
                let c = old(self).spec_content();
                let x0 = min_of(rect.x as int, c.width as int);
                let y0 = min_of(rect.y as int, c.height as int);
                let x1 = min_of(sat_add(rect.x as int, rect.width as int), c.width as int);
                let y1 = min_of(sat_add(rect.y as int, rect.height as int), c.height as int);
                let active = rect.width > 0 && rect.height > 0 && x0 < x1 && y0 < y1;
                let lx0 = old(self).inset_x() + x0;
                let lx1 = old(self).inset_x() + x1;
                let ly0 = old(self).inset_y() + y0;
                let ly1 = old(self).inset_y() + y1;
                &&& forall|cx: int, cy: int| #[trigger]
                    final(self).in_grid(cx, cy) ==> final(self).cell(cx, cy) == (if active && ly0
                        <= cy < ly1 && lx0 <= cx < lx1 {
                        glyph
                    } else {
                        old(self).cell(cx, cy)
                    })
                &&& forall|cx: int, cy: int| #[trigger]
                    final(self).marked(cx, cy) <==> old(self).marked(cx, cy) || (active && ly0 <= cy
                        < ly1 && lx0 <= cx < lx1 && exists|k: int|
                        lx0 <= k < lx1 && #[trigger] old(self).cell(k, cy) != glyph)
            }),
    {
        let content = self.content_rect;
        if rect.width == 0 || rect.height == 0 {
            return;
        }
        let x0 = min_usize(rect.x, content.width);
        let y0 = min_usize(rect.y, content.height);
        let x1 = min_usize(add_sat(rect.x, rect.width), content.width);
        let y1 = min_usize(add_sat(rect.y, rect.height), content.height);
        if x0 >= x1 || y0 >= y1 {
            return;
        }
        let inset_x = content.x - self.rect.x;
        let inset_y = content.y - self.rect.y;
        let mut y = y0;
        while y < y1
            invariant
                y0 <= y <= y1,
                y1 <= content.height,
                x0 < x1 <= content.width,
                content == old(self).spec_content(),
                inset_x == old(self).inset_x(),
                inset_y == old(self).inset_y(),
                self.wf(),
                self.same_frame(old(self)),
                forall|cx: int, cy: int| #[trigger]
                    self.in_grid(cx, cy) ==> self.cell(cx, cy) == (if inset_y + y0 <= cy < inset_y
                        + y && inset_x + x0 <= cx < inset_x + x1 {
                        glyph
                    } else {
                        old(self).cell(cx, cy)
                    }),
                forall|cx: int, cy: int| #[trigger]
                    self.marked(cx, cy) <==> old(self).marked(cx, cy) || (inset_y + y0 <= cy
                        < inset_y + y && inset_x + x0 <= cx < inset_x + x1 && exists|k: int|
                        inset_x + x0 <= k < inset_x + x1 && #[trigger] old(self).cell(k, cy)
                            != glyph),
            decreases y1 - y,
        {
            let ghost pre = *self;
            self.raw_fill_row(inset_y + y, inset_x + x0, inset_x + x1, glyph);
            proof {
                let ly = inset_y + y;
                assert(ly < self.spec_rect().height);
                assert(inset_x + x1 <= self.spec_rect().width);
                assert forall|cx: int, cy: int| #[trigger] self.in_grid(cx, cy) implies self.cell(
                    cx,
                    cy,
                ) == (if inset_y + y0 <= cy < inset_y + y + 1 && inset_x + x0 <= cx < inset_x
                    + x1 {
                    glyph
                } else {
                    old(self).cell(cx, cy)
                }) by {
                    assert(pre.in_grid(cx, cy));
                }
                assert forall|cx: int, cy: int| #[trigger]
                    self.marked(cx, cy) <==> old(self).marked(cx, cy) || (inset_y + y0 <= cy
                        < inset_y + y + 1 && inset_x + x0 <= cx < inset_x + x1 && exists|k: int|
                        inset_x + x0 <= k < inset_x + x1 && #[trigger] old(self).cell(k, cy)
                            != glyph) by {
                    assert(pre.marked(cx, cy) == (old(self).marked(cx, cy) || (inset_y + y0 <= cy
                        < inset_y + y && inset_x + x0 <= cx < inset_x + x1 && exists|k: int|
                        inset_x + x0 <= k < inset_x + x1 && #[trigger] old(self).cell(k, cy)
                            != glyph)));
                    if cy == ly {
                        let e1 = exists|k: int|
                            inset_x + x0 <= k < inset_x + x1 && #[trigger] pre.cell(k, ly) != glyph;
                        let e2 = exists|k: int|
                            inset_x + x0 <= k < inset_x + x1 && #[trigger] old(self).cell(k, ly)
                                != glyph;
                        if e1 {
                            let k = choose|k: int|
                                inset_x + x0 <= k < inset_x + x1 && #[trigger] pre.cell(k, ly)
                                    != glyph;
                            assert(pre.in_grid(k, ly));
                            assert(pre.cell(k, ly) == old(self).cell(k, ly));
                        }
                        if e2 {
                            let k = choose|k: int|
                                inset_x + x0 <= k < inset_x + x1 && #[trigger] old(self).cell(k, ly)
                                    != glyph;
                            assert(pre.in_grid(k, ly));
                            assert(pre.cell(k, ly) == old(self).cell(k, ly));
                        }
                        assert(e1 == e2);
                    }
                }
            }
            y += 1;
        }
    }

    /// Writes a glyph in content-local coordinates; positions outside the content area are
    /// ignored.
    pub fn set(&mut self, pos: Point, glyph: Glyph)
        requires
            old(self).wf(),
        ensures
            final(self).wf(),
            final(self).same_frame(old(self)),
            edit_tracked(*final(self), *old(self)),
            ({
                let c = old(self).spec_content();
                let inside = pos.x < c.width && pos.y < c.height;
                let lx = old(self).inset_x() + pos.x;
                let ly = old(self).inset_y() + pos.y;
                &&& forall|cx: int, cy: int| #[trigger]
                    final(self).in_grid(cx, cy) ==> final(self).cell(cx, cy) == (if inside && cx
                        == lx && cy == ly {
                        glyph
                    } else {
                        old(self).cell(cx, cy)
                    })
                &&& forall|cx: int, cy: int| #[trigger]
                    final(self).marked(cx, cy) <==> old(self).marked(cx, cy) || (inside && cx == lx
                        && cy == ly && old(self).cell(cx, cy) != glyph)
            }),
    {
        let content = self.content_rect;
        let inset_x = sub_sat(content.x, self.rect.x);
        let inset_y = sub_sat(content.y, self.rect.y);
        if pos.x >= content.width || pos.y >= content.height {
            return;
        }
        self.raw_set(Point::new(add_sat(inset_x, pos.x), add_sat(inset_y, pos.y)), glyph);
    }

    /// Writes a contiguous row of glyphs into content-local coordinates, clipped to the
    /// content width. When any cell changes, the written span is marked as damaged.
    #[verifier::rlimit(40)]
    pub fn write_glyphs(&mut self, position: Point, glyphs: &[Glyph])
        requires
            old(self).wf(),
        ensures
            final(self).wf(),
            final(self).same_frame(old(self)),
            edit_tracked(*final(self), *old(self)),
            ({
                let c = old(self).spec_content();
                let len = min_of(glyphs@.len() as int, sat_sub(c.width as int, position.x as int));
                let active = position.y < c.height && len > 0;
                let lx = old(self).inset_x() + position.x;
                let ly = old(self).inset_y() + position.y;
                let changed = active && exists|k: int|
                    0 <= k < len && #[trigger] old(self).cell(lx + k, ly) != glyphs@[k];
                &&& forall|cx: int, cy: int| #[trigger]
                    final(self).in_grid(cx, cy) ==> final(self).cell(cx, cy) == (if active && cy
                        == ly && lx <= cx < lx + len {
                        glyphs@[cx - lx]
                    } else {
                        old(self).cell(cx, cy)
                    })
                &&& forall|cx: int, cy: int| #[trigger]
                    final(self).marked(cx, cy) <==> old(self).marked(cx, cy) || (changed && cy == ly
                        && lx <= cx < lx + len)
            }),
    {
        let content = self.content_rect;
        if position.y >= content.height || glyphs.len() == 0 {
            return;
        }
        let inset_x = content.x - self.rect.x;
        let inset_y = content.y - self.rect.y;
        let available = sub_sat(content.width, position.x);
        let len = min_usize(glyphs.len(), available);
        if len == 0 {
            return;
        }
        let local_x = inset_x + position.x;
        let local_y = inset_y + position.y;
        let w = self.rect.width;
        let n = self.data.len();
        proof {
            lemma_cell_index(local_x as int, local_y as int, w as int, self.rect.height as int);
        }
        let start = local_y * w + local_x;
        let ghost old_data = self.data@;
        let mut changed = false;
        let mut k: usize = 0;
        while k < len
            invariant
                self.same_frame(old(self)),
                self.damaged@ == old(self).damaged@,
                old_data == old(self).data@,
                k <= len,
                len <= glyphs@.len(),
                start + len <= old_data.len(),
                old_data.len() == n,
                self.data@.len() == old_data.len(),
                forall|i: int|
                    0 <= i < old_data.len() ==> #[trigger] self.data@[i] == (if start <= i < start
                        + k {
                        glyphs@[i - start]
                    } else {
                        old_data[i]
                    }),
                changed <==> exists|j: int| 0 <= j < k && #[trigger] old_data[start + j] != glyphs@[j],
            decreases len - k,
        {
            let g = glyphs[k];
            if self.data[start + k] != g {
                self.data.set(start + k, g);
                changed = true;
            }
            k += 1;
        }
        if changed {
            mark_row_range(&mut self.damaged, local_y, local_x, local_x + len);
        }
        proof {
            assert forall|cx: int, cy: int| #[trigger] self.in_grid(cx, cy) implies self.cell(cx, cy)
                == (if cy == local_y && local_x <= cx < local_x + len {
                glyphs@[cx - local_x]
            } else {
                old(self).cell(cx, cy)
            }) by {
                lemma_cell_index(cx, cy, w as int, self.rect.height as int);
                lemma_row_range(
                    cx,
                    cy,
                    w as int,
                    local_y as int,
                    local_x as int,
                    (local_x + len) as int,
                );
            }
            let ex_flat = exists|j: int| 0 <= j < len && #[trigger] old_data[start + j] != glyphs@[j];
            let ex_grid = exists|j: int|
                0 <= j < len && #[trigger] old(self).cell(local_x + j, local_y as int) != glyphs@[j];
            if ex_flat {
                let j = choose|j: int| 0 <= j < len && #[trigger] old_data[start + j] != glyphs@[j];
                assert(old(self).cell(local_x + j, local_y as int) == old_data[start + j]);
            }
            if ex_grid {
                let j = choose|j: int|
                    0 <= j < len && #[trigger] old(self).cell(local_x + j, local_y as int)
                        != glyphs@[j];
                assert(old(self).cell(local_x + j, local_y as int) == old_data[start + j]);
            }
            assert(ex_flat == ex_grid);
            lemma_marks_kept_in_grid(*old(self), *self);
            assert forall|cx: int, cy: int|
                self.in_grid(cx, cy) && #[trigger] self.cell(cx, cy) != old(self).cell(cx, cy) implies self.marked(
                cx,
                cy,
            ) by {
                if cy == local_y && local_x <= cx < local_x + len {
                    let j = cx - local_x;
                    assert(old(self).cell(local_x + j, local_y as int) != glyphs@[j]);
                }
            }
        }
    }

    /// Writes `text` on a single content row starting at `position` with `style`.
    pub fn write_str(&mut self, position: Point, text: &str, style: Style)
        requires
            old(self).wf(),
        ensures
            final(self).wf(),
            final(self).same_frame(old(self)),
            edit_tracked(*final(self), *old(self)),
            ({
                let glyphs = styled_text(text@, style);
                let c = old(self).spec_content();
                let len = min_of(glyphs.len() as int, sat_sub(c.width as int, position.x as int));
                let active = position.y < c.height && len > 0;
                let lx = old(self).inset_x() + position.x;
                let ly = old(self).inset_y() + position.y;
                let changed = active && exists|k: int|
                    0 <= k < len && #[trigger] old(self).cell(lx + k, ly) != glyphs[k];
                &&& forall|cx: int, cy: int| #[trigger]
                    final(self).in_grid(cx, cy) ==> final(self).cell(cx, cy) == (if active && cy
                        == ly && lx <= cx < lx + len {
                        glyphs[cx - lx]
                    } else {
                        old(self).cell(cx, cy)
                    })
                &&& forall|cx: int, cy: int| #[trigger]
                    final(self).marked(cx, cy) <==> old(self).marked(cx, cy) || (changed && cy == ly
                        && lx <= cx < lx + len)
            }),
    {
        let glyphs = styled_glyphs(text, style);
        self.write_glyphs(position, glyphs.as_slice());
    }

    /// Resizes the pane backing storage, preserving the overlapping top-left part of the
    /// old content area at the top-left of the new one; everything else becomes blank and
    /// the whole pane is marked as damaged. Returns `false` (and changes nothing) for an
    /// empty rectangle or when neither rectangle changes.
    pub fn resize(&mut self, rect: Rect, content_rect: Rect) -> (changed: bool)
        requires
            old(self).wf(),
            content_fits(content_rect, rect),
            rect.width * rect.height <= usize::MAX,
        ensures
            changed == !(rect.width == 0 || rect.height == 0 || (old(self).spec_rect() == rect
                && old(self).spec_content() == content_rect)),
            !changed ==> *final(self) == *old(self),
            final(self).wf(),
            changed ==> resize_post(*old(self), *final(self), rect, content_rect),
    {
        if rect.width == 0 || rect.height == 0 {
            return false;
        }
        if self.rect == rect && self.content_rect == content_rect {
            return false;
        }
        let old_rect = self.rect;
        let old_content = self.content_rect;
        let old_offset = old_content.origin().saturating_sub(old_rect.origin());
        let new_offset = content_rect.origin().saturating_sub(rect.origin());
        let copy_width = min_usize(old_content.width, content_rect.width);
        let copy_height = min_usize(old_content.height, content_rect.height);
        let ow = old_rect.width;
        let oh = old_rect.height;
        let w = rect.width;
        let h = rect.height;
        let old_len = self.data.len();
        let mut new_data = filled(Glyph::default(), w * h);
        let new_len = new_data.len();
        let ghost od = self.data@;
        let ghost oself = *self;
        proof {
            assert forall|x: int, yy: int|
                0 <= x < w && 0 <= yy < h implies #[trigger] new_data@[yy * w + x] == blank_glyph() by {
                lemma_cell_index(x, yy, w as int, h as int);
            }
        }
        let mut y: usize = 0;
        let rows_to_copy: usize = if copy_width > 0 {
            copy_height
        } else {
            0
        };
        while y < rows_to_copy
            invariant
                y <= rows_to_copy,
                rows_to_copy == 0 || (rows_to_copy == copy_height && copy_width > 0),
                od == oself.cells(),
                od == self.data@,
                od.len() == old_len,
                od.len() == ow * oh,
                new_data@.len() == new_len,
                new_len == w * h,
                oself.spec_rect() == old_rect,
                ow == old_rect.width,
                oh == old_rect.height,
                w == rect.width,
                h == rect.height,
                copy_width == min_of(old_content.width as int, content_rect.width as int),
                copy_height == min_of(old_content.height as int, content_rect.height as int),
                old_offset.x == old_content.x - old_rect.x,
                old_offset.y == old_content.y - old_rect.y,
                new_offset.x == content_rect.x - rect.x,
                new_offset.y == content_rect.y - rect.y,
                content_fits(old_content, old_rect),
                content_fits(content_rect, rect),
                forall|x: int, yy: int|
                    0 <= x < w && 0 <= yy < h ==> #[trigger] new_data@[yy * w + x] == (if new_offset.x
                        <= x < new_offset.x + copy_width && new_offset.y <= yy < new_offset.y + y {
                        od[(yy - new_offset.y + old_offset.y) * ow + (x - new_offset.x
                            + old_offset.x)]
                    } else {
                        blank_glyph()
                    }),
            decreases rows_to_copy - y,
        {
            let old_y = old_offset.y + y;
            let new_y = new_offset.y + y;
            if old_y >= oh || new_y >= h {
                y += 1;
                continue;
            }
            proof {
                lemma_cell_index(old_offset.x as int, old_y as int, ow as int, oh as int);
                lemma_cell_index(new_offset.x as int, new_y as int, w as int, h as int);
            }
            let old_start = old_y * ow + old_offset.x;
            let new_start = new_y * w + new_offset.x;
            let ghost before_row = new_data@;
            if old_start + copy_width <= old_len && new_start + copy_width <= new_len {
                let mut k: usize = 0;
                while k < copy_width
                    invariant
                        k <= copy_width,
                        old_start + copy_width <= od.len(),
                        od.len() == old_len,
                        new_start + copy_width <= new_len,
                        new_data@.len() == new_len,
                        od == self.data@,
                        forall|i: int|
                            0 <= i < new_len ==> #[trigger] new_data@[i] == (if new_start <= i
                                < new_start + k {
                                od[old_start + (i - new_start)]
                            } else {
                                before_row[i]
                            }),
                    decreases copy_width - k,
                {
                    let g = self.data[old_start + k];
                    new_data.set(new_start + k, g);
                    k += 1;
                }
                proof {
                    assert forall|x: int, yy: int|
                        0 <= x < w && 0 <= yy < h implies #[trigger] new_data@[yy * w + x] == (
                    if new_offset.x <= x < new_offset.x + copy_width && new_offset.y <= yy
                        < new_offset.y + y + 1 {
                        od[(yy - new_offset.y + old_offset.y) * ow + (x - new_offset.x
                            + old_offset.x)]
                    } else {
                        blank_glyph()
                    }) by {
                        lemma_cell_index(x, yy, w as int, h as int);
                        lemma_row_range(
                            x,
                            yy,
                            w as int,
                            new_y as int,
                            new_offset.x as int,
                            new_offset.x + copy_width,
                        );
                    }
                }
            }
            y += 1;
        }
        proof {
            if rows_to_copy == 0 {
                assert forall|x: int, yy: int|
                    0 <= x < w && 0 <= yy < h implies #[trigger] new_data@[yy * w + x] == (
                if new_offset.x <= x < new_offset.x + copy_width && new_offset.y <= yy
                    < new_offset.y + copy_height {
                    od[(yy - new_offset.y + old_offset.y) * ow + (x - new_offset.x
                        + old_offset.x)]
                } else {
                    blank_glyph()
                }) by {}
            }
        }
        self.rect = rect;
        self.content_rect = content_rect;
        self.data = new_data;
        self.damaged = clean_rows(h);
        self.mark_all_damaged();
        proof {
            assert forall|x: int, yy: int| #[trigger] self.in_grid(x, yy) implies self.cell(x, yy) == (
            if new_offset.x <= x < new_offset.x + copy_width && new_offset.y <= yy < new_offset.y
                + copy_height {
                oself.cell(x - new_offset.x + oself.inset_x(), yy - new_offset.y + oself.inset_y())
            } else {
                blank_glyph()
            }) by {
                assert(new_data@[yy * w + x] == self.cells()[yy * w + x]);
            }
        }
        true
    }
}

/// The characters of `text`.
pub fn chars_of(text: &str) -> (v: Vec<char>)
    ensures
        v@ == text@,
{
    let mut v: Vec<char> = Vec::new();
    for ch in it: text.chars()
        invariant
            it.seq() == text@,
            v@.len() == it.index(),
            forall|i: int| 0 <= i < v@.len() ==> #[trigger] v@[i] == text@[i],
    {
        v.push(ch);
    }
    assert(v@ =~= text@);
    v
}

/// The glyphs of `text`, each drawn in `style`.
pub fn styled_glyphs(text: &str, style: Style) -> (v: Vec<Glyph>)
    ensures
        v@ == styled_text(text@, style),
{
    let mut v: Vec<Glyph> = Vec::new();
    for ch in it: text.chars()
        invariant
            it.seq() == text@,
            v@.len() == it.index(),
            forall|i: int| 0 <= i < v@.len() ==> #[trigger] v@[i] == styled_glyph(text@[i], style),
    {
        v.push(Glyph::styled(ch, style));
    }
    assert(v@ =~= styled_text(text@, style));
    v
}

} // verus!
