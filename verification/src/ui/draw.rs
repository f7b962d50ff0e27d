//! Drawing rows of glyphs into a rectangle of a pane's content area.
use vstd::prelude::*;

use crate::surface::geometry::{Point, Rect, add_sat, sat_add};
use crate::surface::glyph::Glyph;
use crate::surface::pane::{Pane, edit_tracked, lemma_edit_tracked_trans};

verus! {

/// The glyph of pane `p` at content-local `(x, y)`.
pub open spec fn content_cell(p: Pane, x: int, y: int) -> Glyph {
    p.cell(p.inset_x() + x, p.inset_y() + y)
}

/// `(x, y)` is a content-local cell of pane `p`.
pub open spec fn in_content(p: Pane, x: int, y: int) -> bool {
    0 <= x < p.spec_content().width && 0 <= y < p.spec_content().height
}

/// The glyph at content-local `(x, y)` inside `rect` after `rect` is cleared with `fill`
/// and row `i` of `rows` is written from the left of line `top + i` of `rect`.
pub open spec fn row_drawn(rect: Rect, rows: Seq<Seq<Glyph>>, top: int, fill: Glyph, x: int, y: int) -> Glyph {
    let i = y - rect.y - top;
    let j = x - rect.x;
    if 0 <= i < rows.len() && 0 <= j < rows[i].len() {
        rows[i][j]
    } else {
        fill
    }
}

/// The content of `new` is that of `old` with `rect` cleared to `fill` and `rows`
/// written from line `top` of `rect`; the frame is kept and changes are tracked.
pub open spec fn rows_drawn(new: Pane, old: Pane, rect: Rect, rows: Seq<Seq<Glyph>>, top: int, fill: Glyph) -> bool {
    &&& new.wf()
    &&& new.same_frame(&old)
    &&& edit_tracked(new, old)
    &&& forall|x: int, y: int|
        #[trigger] in_content(old, x, y) ==> content_cell(new, x, y) == (if rect.spec_contains(x, y) {
            row_drawn(rect, rows, top, fill, x, y)
        } else {
            content_cell(old, x, y)
        })
}

/// Clears `rect` (content-local) with `fill` and writes `rows[first..first + count]` from
/// line `top` of `rect`, each from its left edge.
pub fn draw_rows(
    pane: &mut Pane,
    rect: Rect,
    rows: &Vec<Vec<Glyph>>,
    first: usize,
    count: usize,
    top: usize,
    fill: Glyph,
)
    requires
        old(pane).wf(),
        rect.x + rect.width <= usize::MAX,
        rect.y + rect.height <= usize::MAX,
        first + count <= rows@.len(),
        top + count <= rect.height,
        forall|i: int| 0 <= i < rows@.len() ==> (#[trigger] rows@[i])@.len() <= rect.width,
    ensures
        rows_drawn(
            *final(pane),
            *old(pane),
            rect,
            rows@.subrange(first as int, first + count).map_values(|r: Vec<Glyph>| r@),
            top as int,
            fill,
        ),
{
    let ghost view = rows@.subrange(first as int, first + count).map_values(|r: Vec<Glyph>| r@);
    pane.fill(rect, fill);
    let ghost filled = *pane;
    proof {
        assert forall|x: int, y: int| #[trigger] in_content(*old(pane), x, y) implies content_cell(*pane, x, y) == (
        if rect.spec_contains(x, y) {
            row_drawn(rect, view.take(0), top as int, fill, x, y)
        } else {
            content_cell(*old(pane), x, y)
        }) by {
            assert(pane.in_grid(pane.inset_x() + x, pane.inset_y() + y));
        }
    }
    let n = rows.len();
    let mut i: usize = 0;
    while i < count
        invariant
            i <= count,
            n == rows@.len(),
            first + count <= rows@.len(),
            top + count <= rect.height,
            rect.x + rect.width <= usize::MAX,
            rect.y + rect.height <= usize::MAX,
            forall|k: int| 0 <= k < rows@.len() ==> (#[trigger] rows@[k])@.len() <= rect.width,
            view == rows@.subrange(first as int, first + count).map_values(|r: Vec<Glyph>| r@),
            pane.wf(),
            pane.same_frame(old(pane)),
            edit_tracked(*pane, *old(pane)),
            forall|x: int, y: int|
                #[trigger] in_content(*old(pane), x, y) ==> content_cell(*pane, x, y) == (if rect.spec_contains(
                    x,
                    y,
                ) {
                    row_drawn(rect, view.take(i as int), top as int, fill, x, y)
                } else {
                    content_cell(*old(pane), x, y)
                }),
        decreases count - i,
    {
        let row = &rows[first + i];
        let ghost before = *pane;
        if row.len() > 0 {
            pane.write_glyphs(Point::new(rect.x, rect.y + top + i), row.as_slice());
            proof {
                lemma_edit_tracked_trans(*old(pane), before, *pane);
            }
        }
        proof {
            let ry = rect.y + top + i;
            assert(view[i as int] == row@);
            assert forall|x: int, y: int| #[trigger] in_content(*old(pane), x, y) implies content_cell(*pane, x, y) == (
            if rect.spec_contains(x, y) {
                row_drawn(rect, view.take(i + 1), top as int, fill, x, y)
            } else {
                content_cell(*old(pane), x, y)
            }) by {
                assert(pane.in_grid(pane.inset_x() + x, pane.inset_y() + y));
                assert(before.in_grid(before.inset_x() + x, before.inset_y() + y));
                if y == ry && rect.x <= x < rect.x + row@.len() {
                    assert(view.take(i + 1)[i as int] == row@);
                } else if rect.spec_contains(x, y) && 0 <= y - rect.y - top < i {
                    assert(view.take(i + 1)[y - rect.y - top] == view.take(i as int)[y - rect.y - top]);
                }
            }
        }
        i += 1;
    }
    proof {
        assert(view.take(count as int) =~= view);
    }
}

} // verus!
