//! The rows of bar widgets (progress bars and sliders): a label, then a bracketed track.
use vstd::prelude::*;

use crate::surface::geometry::{min_of, min_usize, sat_sub, sub_sat};
use crate::surface::geometry::Rect;
use crate::surface::glyph::{Glyph, styled_glyph};
use crate::surface::pane::{Pane, styled_text};
use crate::surface::style::Style;
use crate::ui::draw::rows_drawn;
use crate::ui::text::{clear_glyph_for, draw_single_row, glyph_row, row_of};

verus! {

/// The number of label columns in a row of width `w`.
pub open spec fn label_cols(label: Seq<char>, w: nat) -> nat {
    min_of(label.len() as int, w as int) as nat
}

/// The number of track cells in a row of width `w`: what is left after the label and the
/// two brackets.
pub open spec fn track_len(label: Seq<char>, w: nat) -> nat {
    sat_sub(w as int, (label_cols(label, w) + 2) as int) as nat
}

/// A bar row of width `w`: the label cut to the width, `[` when there is room after it,
/// the track cells, and `]` when both brackets fit; label and brackets in style `st`.
pub open spec fn framed(label: Seq<char>, st: Style, w: nat, track: Seq<Glyph>) -> Seq<Glyph> {
    let lc = label_cols(label, w);
    let open = if w > lc {
        seq![styled_glyph('[', st)]
    } else {
        Seq::empty()
    };
    let close = if w >= lc + 2 {
        seq![styled_glyph(']', st)]
    } else {
        Seq::empty()
    };
    row_of(label, st, w) + open + track + close
}

/// The track of a progress bar: the first `filled` cells are `fill`, the rest blanks in
/// the plain style.
pub open spec fn progress_track(n: nat, filled: nat, fill: Glyph) -> Seq<Glyph> {
    Seq::new(
        n,
        |i: int|
            if i < filled {
                fill
            } else {
                styled_glyph(' ', Style::spec_default())
            },
    )
}

/// The track of a slider: the knob at `position`, dashes in style `st` elsewhere.
pub open spec fn slider_track(n: nat, position: nat, knob: Glyph, st: Style) -> Seq<Glyph> {
    Seq::new(
        n,
        |i: int|
            if i == position {
                knob
            } else {
                styled_glyph('-', st)
            },
    )
}

/// Returns the number of label columns and of track cells in a row of width `width`.
pub fn track_layout(label: &str, width: usize) -> (r: (usize, usize))
    ensures
        r.0 == label_cols(label@, width as nat),
        r.1 == track_len(label@, width as nat),
{
    let lc = min_usize(label.unicode_len(), width);
    let n = if width >= 2 && lc <= width - 2 {
        width - lc - 2
    } else {
        0
    };
    (lc, n)
}

/// Builds the track of a progress bar.
pub fn progress_cells(n: usize, filled: usize, fill: Glyph) -> (v: Vec<Glyph>)
    ensures
        v@ == progress_track(n as nat, filled as nat, fill),
{
    let mut v: Vec<Glyph> = Vec::new();
    let mut i: usize = 0;
    while i < n
        invariant
            i <= n,
            v@ == progress_track(n as nat, filled as nat, fill).take(i as int),
        decreases n - i,
    {
        if i < filled {
            v.push(fill);
        } else {
            v.push(Glyph::from_char(' ').with_style(Style::new()));
        }
        i += 1;
        proof {
            assert(v@ =~= progress_track(n as nat, filled as nat, fill).take(i as int));
        }
    }
    proof {
        assert(progress_track(n as nat, filled as nat, fill).take(n as int) =~= progress_track(
            n as nat,
            filled as nat,
            fill,
        ));
    }
    v
}

/// Builds the track of a slider.
pub fn slider_cells(n: usize, position: usize, knob: Glyph, st: Style) -> (v: Vec<Glyph>)
    ensures
        v@ == slider_track(n as nat, position as nat, knob, st),
{
    let mut v: Vec<Glyph> = Vec::new();
    let mut i: usize = 0;
    while i < n
        invariant
            i <= n,
            v@ == slider_track(n as nat, position as nat, knob, st).take(i as int),
        decreases n - i,
    {
        if i == position {
            v.push(knob);
        } else {
            v.push(Glyph::from_char('-').with_style(st));
        }
        i += 1;
        proof {
            assert(v@ =~= slider_track(n as nat, position as nat, knob, st).take(i as int));
        }
    }
    proof {
        assert(slider_track(n as nat, position as nat, knob, st).take(n as int) =~= slider_track(
            n as nat,
            position as nat,
            knob,
            st,
        ));
    }
    v
}

/// Builds a bar row of width `width` around `track`, which has the track length.
pub fn framed_row(label: &str, st: Style, width: usize, track: Vec<Glyph>) -> (v: Vec<Glyph>)
    requires
        track@.len() == track_len(label@, width as nat),
    ensures
        v@ == framed(label@, st, width as nat, track@),
        v@.len() <= width,
{
    let (lc, _) = track_layout(label, width);
    let mut row = glyph_row(label, st, width);
    if width > lc {
        row.push(Glyph::from_char('[').with_style(st));
    }
    let mut t = track;
    row.append(&mut t);
    if width >= lc && width - lc >= 2 {
        row.push(Glyph::from_char(']').with_style(st));
    }
    proof {
        assert(row@ =~= framed(label@, st, width as nat, track@));
    }
    row
}

/// Draws the bar row around `track` into `rect` of `pane`'s content: the row on the
/// rectangle's first line, the rest cleared. An empty rectangle, or one whose far edge
/// lies past the largest coordinate, leaves the pane as it was.
pub fn draw_bar(pane: &mut Pane, rect: Rect, label: &str, st: Style, track: Vec<Glyph>)
    requires
        old(pane).wf(),
        track@.len() == track_len(label@, rect.width as nat),
    ensures
        final(pane).wf(),
        rect.width == 0 || rect.height == 0 || rect.x + rect.width > usize::MAX || rect.y + rect.height
            > usize::MAX ==> *final(pane) == *old(pane),
        rect.width > 0 && rect.height > 0 && rect.x + rect.width <= usize::MAX && rect.y + rect.height
            <= usize::MAX ==> rows_drawn(
            *final(pane),
            *old(pane),
            rect,
            seq![framed(label@, st, rect.width as nat, track@)],
            0,
            clear_glyph_for(st),
        ),
{
    if rect.width == 0 || rect.height == 0 {
        return;
    }
    if rect.x > usize::MAX - rect.width || rect.y > usize::MAX - rect.height {
        return;
    }
    let row = framed_row(label, st, rect.width, track);
    draw_single_row(pane, rect, row, st);
}

/// Where a press at column `local_x` of a slider row of width `total_width` lands: the
/// track cell (clamped to the track) and the track length, or `None` when the track has
/// fewer than two cells.
pub fn slider_slot(label: &str, total_width: usize, local_x: usize) -> (r: Option<(usize, usize)>)
    ensures
        ({
            let n = track_len(label@, total_width as nat);
            let start = label_cols(label@, total_width as nat) + 1;
            &&& n <= 1 ==> r is None
            &&& n > 1 ==> r == Some(
                (min_of(sat_sub(local_x as int, start as int), n - 1) as usize, n as usize),
            )
        }),
{
    let (lc, n) = track_layout(label, total_width);
    if n <= 1 {
        return None;
    }
    let start = lc + 1;
    let slot = min_usize(sub_sat(local_x, start), n - 1);
    Some((slot, n))
}

} // verus!
