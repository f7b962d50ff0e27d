# quilltty

Interactive terminal interfaces built from panes and widgets, verified with Verus.

- `src/surface`: geometry, colors and styles, glyphs, per-row damage, panes and their
  decorations, the canvas that layers panes, hit-tests them and tracks what must be
  redrawn, and the compositor and renderer that turn the canvas into terminal bytes.
- `src/ui`: the built-in widgets (text, log, button, checkbox, input), a widget builder, the widget store
  (layout, layers, hover, press, focus, damage) and the runtime `Ui`, which turns input
  events into high-level `UiEvent`s.
- `app`: terminal mode, background input reading through crossterm, writing frames to
  stdout, and the slider and progress widgets, whose values are floating point.

The central property the library proves: every operation either keeps a terminal cell
showing the composed canvas or queues it for redraw, and a render brings every cell up
to date. The bytes a render writes are modelled as cursor moves, pen changes and runes
(`TermOp`); the renderer is proved to write, after the cursor moves, only damaged cells,
each with its composed glyph and the right pen, so that a terminal that showed the old
frame shows the new one.

Panes and widget entries live in an `IndexedVec`: a dense vector with a
`HashMap<u64, usize>` index from key to position. Its well-formedness says that keys are
unique and that the index maps exactly the stored keys, each to a position that holds
it; every operation keeps that, and an edit in place through `get_mut` or
`get_index_mut` keeps it whenever the edited value keeps its key, which the canvas and
the store prove at each such edit. The canvas keeps pane policies and decorations in
hash maps keyed by pane identifier, and the colour atlas finds interned pairs through a
hash map keyed by a numeric code of the pair; each map's consistency with what it
indexes is part of its owner's well-formedness.
