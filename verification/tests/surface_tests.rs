use quilltty::surface::backend::{AnsiBuffer, Compositor, Layer, Renderer};
use quilltty::surface::decor::PaneDecor;
use quilltty::surface::canvas::{Canvas, HitTarget};
use quilltty::surface::color::{Color, ColorAtlas, ColorPair, ColorSpec};
use quilltty::surface::damage::{DamagedRow, Span};
use quilltty::surface::indexed_vec::{IndexedVec, Keyed};
use quilltty::surface::geometry::{Point, Rect, Size};
use quilltty::surface::glyph::{Glyph, Rune};
use quilltty::surface::pane::{PaneElement, PaneId};
use quilltty::surface::style::Style;

#[test]
fn point_saturating_ops() {
    let p = Point::new(3, 5);
    assert_eq!(p.saturating_sub(Point::new(5, 2)), Point::new(0, 3));
    assert_eq!(Point::new(usize::MAX, 1).saturating_add(Point::new(1, 1)), Point::new(usize::MAX, 2));
    assert_eq!(p.offset(2, 3), Point::new(5, 8));
}

#[test]
fn rect_contains_uses_exclusive_edges() {
    let r = Rect { x: 2, y: 3, width: 4, height: 2 };
    assert!(r.contains(2, 3));
    assert!(r.contains(5, 4));
    assert!(!r.contains(6, 4));
    assert!(!r.contains(5, 5));
    assert!(!r.contains(1, 3));
    assert!(!Rect { x: 0, y: 0, width: 0, height: 3 }.contains(0, 0));
}

#[test]
fn rect_clamp_and_center() {
    let bounds = Rect { x: 0, y: 0, width: 10, height: 8 };
    let r = Rect { x: 9, y: 7, width: 4, height: 3 }.clamp_to(bounds);
    assert_eq!(r, Rect { x: 6, y: 5, width: 4, height: 3 });
    let big = Rect { x: 3, y: 3, width: 20, height: 20 }.clamp_to(bounds);
    assert_eq!((big.x, big.y), (0, 0));
    assert_eq!(Rect { x: 2, y: 2, width: 5, height: 4 }.center(), Point::new(4, 4));
    assert_eq!(Rect { x: 0, y: 0, width: 4, height: 2 }.center_on(1, 5), Rect { x: 0, y: 4, width: 4, height: 2 });
}

#[test]
fn color_codes() {
    assert_eq!(Color::Red.fg_code(), 31);
    assert_eq!(Color::White.bg_code(), 47);
    assert_eq!(Color::Default.fg_code(), 39);
    assert_eq!(Color::Default.bg_code(), 49);
    assert_eq!(Color::from_u8(4), Color::Blue);
    assert_eq!(Color::from_u8(200), Color::Default);
}

#[test]
fn style_colors_round_trip() {
    let s = Style::new().with_fg(Color::Green).with_bg(Color::Blue);
    assert_eq!(s.fg(), Color::Green);
    assert_eq!(s.bg(), Color::Blue);
    let b = s.bold();
    assert_eq!(b.fg(), Color::Green);
    assert!(b.flags() != 0);
    assert_eq!(Style::new().flags(), 0);
}

#[test]
fn rune_encodes_utf8() {
    let a = Rune::from_char('a');
    assert_eq!((a.b0, a.len), (b'a', 1));
    let e = Rune::from_char('é');
    assert_eq!((e.b0, e.b1, e.len), (0xC3, 0xA9, 2));
    let h = Rune::from_char('─');
    assert_eq!((h.b0, h.b1, h.b2, h.len), (0xE2, 0x94, 0x80, 3));
    let c = Rune::from_char('😀');
    assert_eq!((c.b0, c.b1, c.b2, c.b3, c.len), (0xF0, 0x9F, 0x98, 0x80, 4));
}

#[test]
fn damaged_row_merges_spans() {
    let mut row = DamagedRow::default();
    assert!(!row.is_damaged());
    row.mark_range(2, 4);
    row.mark_range(6, 8);
    assert_eq!(row.spans().len(), 2);
    row.mark_range(4, 6);
    let spans = row.spans();
    assert_eq!(spans.len(), 1);
    assert_eq!((spans[0].start, spans[0].end), (2, 8));
    row.mark(9);
    assert_eq!(row.spans().len(), 2);
    row.mark_range(5, 5);
    assert_eq!(row.spans().len(), 2);
    row.clear();
    assert!(!row.is_damaged());
    assert!(Span::new(3, 3).is_none());
}

#[test]
fn pane_hit_and_title_bar() {
    let mut canvas = Canvas::new(Size::new(20, 10), None);
    let b = canvas.create_pane().rect(Rect { x: 2, y: 1, width: 10, height: 5 }).title("T".to_string());
    let id = b.build(&mut canvas);
    assert_eq!(id, PaneId(0));
    let content = canvas.content_rect(id).unwrap();
    match canvas.hit_at(Point::new(content.x, content.y)) {
        HitTarget::Pane { pane_id, hit } => {
            assert_eq!(pane_id, id);
            assert_eq!(hit.element, PaneElement::Content);
            assert_eq!(hit.content_local, Some(Point::new(0, 0)));
        }
        other => panic!("unexpected {:?}", other),
    }
    match canvas.hit_at(Point::new(15, 8)) {
        HitTarget::Background { global } => assert_eq!(global, Point::new(15, 8)),
        other => panic!("unexpected {:?}", other),
    }
}

#[test]
fn move_pane_clamps_into_canvas() {
    let mut canvas = Canvas::new(Size::new(20, 10), None);
    let id = canvas.create_pane().rect(Rect { x: 0, y: 0, width: 6, height: 4 }).build(&mut canvas);
    assert!(canvas.move_pane(id, Point::new(30, 30), true));
    let r = canvas.pane(id).unwrap().rect();
    assert_eq!((r.x, r.y, r.width, r.height), (14, 6, 6, 4));
    assert!(!canvas.move_pane(id, Point::new(30, 30), true));
    assert!(!canvas.move_pane(PaneId(7), Point::new(1, 1), false));
}

#[test]
fn hide_show_and_toggle() {
    let mut canvas = Canvas::new(Size::new(10, 6), None);
    let id = canvas.create_pane().rect(Rect { x: 0, y: 0, width: 4, height: 3 }).build(&mut canvas);
    assert!(!canvas.show_pane(id));
    assert!(canvas.hide_pane(id));
    assert!(!canvas.pane(id).unwrap().is_visible());
    assert!(!canvas.hide_pane(id));
    assert!(canvas.toggle_pane_visibility(id));
    assert!(canvas.pane(id).unwrap().is_visible());
    assert!(!canvas.toggle_pane_visibility(PaneId(5)));
}

#[test]
fn rendered_terminal_matches_composed_canvas() {
    let mut canvas = Canvas::new(Size::new(6, 3), None);
    let mut compositor = Compositor::new(6, 3);
    let mut renderer = Renderer::new(6, 3, true);
    let first = canvas.render(&mut compositor, &mut renderer);
    assert!(!first.is_empty());
    let id = canvas.create_pane().rect(Rect { x: 1, y: 1, width: 3, height: 1 }).build(&mut canvas);
    {
        let pane = canvas.pane_mut(id).unwrap();
        pane.set(Point::new(0, 0), Glyph::from_char('x'));
    }
    let second = canvas.render(&mut compositor, &mut renderer);
    assert!(!second.is_empty());
    assert!(second.windows(1).any(|w| w[0] == b'x'));
    let third = canvas.render(&mut compositor, &mut renderer);
    assert!(third.is_empty());
}

#[test]
fn resize_pane_respects_bounds() {
    let mut canvas = Canvas::new(Size::new(12, 8), None);
    let id = canvas.create_pane().rect(Rect { x: 4, y: 2, width: 4, height: 3 }).build(&mut canvas);
    assert!(canvas.resize_pane(id, 100, 100));
    let r = canvas.pane(id).unwrap().rect();
    assert_eq!((r.width, r.height), (8, 6));
    assert!(!canvas.resize_pane(id, 8, 6));
}

#[test]
fn ansi_numbers_and_moves() {
    let mut b = AnsiBuffer::new();
    b.push_usize(0);
    b.extend(b" ");
    b.push_usize(1234);
    b.push_move_sequence(4, 2);
    assert_eq!(b.into_bytes(), b"0 1234\x1b[3;5H".to_vec());
}

#[test]
fn ansi_style_transitions() {
    let plain = Style::new();
    let bold_red = Style::new().bold().with_fg(Color::Red);
    let mut b = AnsiBuffer::new();
    b.push_style(plain, bold_red);
    assert_eq!(b.into_bytes(), b"\x1b[1;31m".to_vec());
    let mut back = AnsiBuffer::new();
    back.push_style(bold_red, plain);
    assert_eq!(back.into_bytes(), b"\x1b[22;39m".to_vec());
    let mut same = AnsiBuffer::new();
    same.push_style(bold_red, bold_red);
    assert!(same.into_bytes().is_empty());
}

#[test]
fn ansi_rune_bytes() {
    let mut b = AnsiBuffer::new();
    b.push_rune(&Rune::from_char('é'));
    b.push_rune(&Rune::from_char('z'));
    assert_eq!(b.into_bytes(), vec![0xC3, 0xA9, b'z']);
}

#[test]
fn topmost_pane_is_hit() {
    let mut canvas = Canvas::new(Size::new(20, 10), None);
    let low = canvas.create_pane().rect(Rect { x: 0, y: 0, width: 10, height: 6 }).layer(Layer(1)).build(&mut canvas);
    let high = canvas.create_pane().rect(Rect { x: 5, y: 3, width: 10, height: 6 }).layer(Layer(2)).build(&mut canvas);
    let mid = canvas.create_pane().rect(Rect { x: 0, y: 0, width: 20, height: 10 }).layer(Layer(0)).build(&mut canvas);
    assert_eq!(canvas.pane_ids(), vec![mid, low, high]);
    match canvas.hit_at(Point::new(6, 4)) {
        HitTarget::Pane { pane_id, .. } => assert_eq!(pane_id, high),
        other => panic!("unexpected {:?}", other),
    }
    match canvas.hit_at(Point::new(1, 1)) {
        HitTarget::Pane { pane_id, .. } => assert_eq!(pane_id, low),
        other => panic!("unexpected {:?}", other),
    }
    assert!(canvas.hide_pane(high));
    match canvas.hit_at(Point::new(6, 4)) {
        HitTarget::Pane { pane_id, .. } => assert_eq!(pane_id, low),
        other => panic!("unexpected {:?}", other),
    }
}

#[test]
fn moved_pane_shows_at_new_place_after_render() {
    let mut canvas = Canvas::new(Size::new(8, 4), None);
    let mut compositor = Compositor::new(8, 4);
    let mut renderer = Renderer::new(8, 4, false);
    let decor = PaneDecor::Plain;
    let id = canvas.create_pane().rect(Rect { x: 0, y: 0, width: 2, height: 1 }).decor(decor).build(&mut canvas);
    canvas.pane_mut(id).unwrap().write_str(Point::new(0, 0), "ab", Style::new());
    let _ = canvas.render(&mut compositor, &mut renderer);
    assert!(canvas.move_pane(id, Point::new(5, 2), false));
    let bytes = canvas.render(&mut compositor, &mut renderer);
    let text = String::from_utf8_lossy(&bytes).to_string();
    assert!(text.contains("\x1b[3;6H"));
    assert!(text.contains("ab"));
}

#[test]
fn removed_pane_id_is_reused() {
    let mut canvas = Canvas::new(Size::new(10, 6), None);
    let a = canvas.create_pane().rect(Rect { x: 0, y: 0, width: 4, height: 3 }).build(&mut canvas);
    let b = canvas.create_pane().rect(Rect { x: 4, y: 0, width: 4, height: 3 }).build(&mut canvas);
    assert_eq!((a, b), (PaneId(0), PaneId(1)));
    canvas.focus(Some(a));
    assert!(canvas.remove_pane(a));
    assert!(canvas.pane(a).is_none());
    assert_eq!(canvas.focused(), None);
    assert!(!canvas.remove_pane(a));
    let c = canvas.create_pane().rect(Rect { x: 0, y: 3, width: 4, height: 3 }).build(&mut canvas);
    assert_eq!(c, PaneId(0));
    let d = canvas.create_pane().rect(Rect { x: 4, y: 3, width: 4, height: 3 }).build(&mut canvas);
    assert_eq!(d, PaneId(2));
    match canvas.hit_at(Point::new(1, 1)) {
        HitTarget::Background { .. } => {}
        other => panic!("unexpected {:?}", other),
    }
}

#[test]
fn render_writes_each_changed_run_once() {
    let mut canvas = Canvas::new(Size::new(4, 1), None);
    let mut compositor = Compositor::new(4, 1);
    let mut renderer = Renderer::new(4, 1, false);
    let id = canvas
        .create_pane()
        .rect(Rect { x: 1, y: 0, width: 2, height: 1 })
        .decor(PaneDecor::Plain)
        .build(&mut canvas);
    canvas.pane_mut(id).unwrap().write_str(Point::new(0, 0), "hi", Style::new().bold());
    let bytes = canvas.render(&mut compositor, &mut renderer);
    assert_eq!(bytes, b"\x1b[1;2H\x1b[1mhi\x1b[0m\x1b[?25l".to_vec());
    canvas.pane_mut(id).unwrap().write_str(Point::new(1, 0), "x", Style::new().bold());
    let again = canvas.render(&mut compositor, &mut renderer);
    assert_eq!(again, b"\x1b[1;3H\x1b[1mx\x1b[0m\x1b[?25l".to_vec());
}

#[test]
fn empty_or_reversed_range_leaves_row_unchanged() {
    let pairs = |row: &DamagedRow| row.spans().iter().map(|s| (s.start, s.end)).collect::<Vec<_>>();
    let mut row = DamagedRow::Clean;
    row.mark_range(4, 4);
    assert!(!row.is_damaged());
    row.mark_range(1, 3);
    row.mark_range(6, 9);
    let before = pairs(&row);
    row.mark_range(7, 2);
    assert_eq!(pairs(&row), before);
    row.mark_range(0, 0);
    assert_eq!(pairs(&row), before);
    assert_eq!(before, vec![(1, 3), (6, 9)]);
}

#[test]
fn render_writes_only_the_tail_when_damaged_cells_already_match() {
    let compositor = Compositor::new(3, 1);
    let mut renderer = Renderer::new(3, 1, false);
    let mut row = DamagedRow::Clean;
    row.mark_range(0, 3);
    let bytes = renderer.render(&compositor, &[row], None);
    assert_eq!(bytes, b"\x1b[0m\x1b[?25l".to_vec());
}

#[test]
fn point_and_size_conversions_and_arithmetic() {
    let r = Rect { x: 2, y: 3, width: 4, height: 5 };
    assert_eq!(Point::from(r), Point::new(2, 3));
    assert_eq!(Point::from((7usize, 8usize)), Point::new(7, 8));
    assert_eq!(Point::from((7u16, 8u16)), Point::new(7, 8));
    let t: (usize, usize) = Point::new(1, 9).into();
    assert_eq!(t, (1, 9));
    assert_eq!(Size::from(r), Size::new(4, 5));
    assert_eq!(Size::from((6usize, 2usize)), Size::new(6, 2));
    assert_eq!(Point::new(1, 2) + Point::new(3, 4), Point::new(4, 6));
    assert_eq!(Point::new(5, 6) - Point::new(3, 4), Point::new(2, 2));
}

#[test]
fn ansi_style_intensity_transitions() {
    let bold = Style::new().bold();
    let dim = Style::new().dim();
    let bold_dim = Style::new().bold().dim();
    let mut a = AnsiBuffer::new();
    a.push_style(bold, dim);
    assert_eq!(a.into_bytes(), b"\x1b[22;2m".to_vec());
    let mut b = AnsiBuffer::new();
    b.push_style(bold_dim, bold);
    assert_eq!(b.into_bytes(), b"\x1b[22;1m".to_vec());
    let mut c = AnsiBuffer::new();
    c.push_style(dim, bold_dim);
    assert_eq!(c.into_bytes(), b"\x1b[1m".to_vec());
    let mut d = AnsiBuffer::new();
    d.push_style(bold, Style::new().inverse());
    assert_eq!(d.into_bytes(), b"\x1b[22;7m".to_vec());
    let mut f = AnsiBuffer::new();
    f.push_style(Style::new().inverse(), Style::new());
    assert_eq!(f.into_bytes(), b"\x1b[27m".to_vec());
}

#[derive(Debug, Clone, Copy, PartialEq)]
struct Tagged {
    key: u64,
    payload: u8,
}

impl Keyed for Tagged {
    fn spec_key(&self) -> u64 {
        self.key
    }

    fn key(&self) -> u64 {
        self.key
    }
}

#[test]
fn indexed_vec_finds_values_after_every_change() {
    let t = |key: u64, payload: u8| Tagged { key, payload };
    let mut v: IndexedVec<Tagged> = IndexedVec::new();
    assert_eq!(v.insert(t(10, 1)), None);
    assert_eq!(v.insert(t(20, 2)), None);
    assert_eq!(v.insert(t(30, 3)), None);
    assert_eq!(v.insert(t(20, 4)), Some(t(20, 2)));
    assert_eq!(v.get(20), Some(&t(20, 4)));
    v.insert_at(0, t(5, 5));
    assert_eq!(v.as_slice().iter().map(|x| x.key).collect::<Vec<_>>(), vec![5, 10, 20, 30]);
    assert_eq!(v.position(30), Some(3));
    assert_eq!(v.remove(10), Some(t(10, 1)));
    assert_eq!(v.as_slice().iter().map(|x| x.key).collect::<Vec<_>>(), vec![5, 30, 20]);
    assert_eq!(v.position(30), Some(1));
    assert_eq!(v.get(10), None);
    if let Some(x) = v.get_mut(30) {
        x.payload = 9;
    }
    assert_eq!(v.get(30), Some(&t(30, 9)));
    assert_eq!(v.remove_at(0), t(5, 5));
    assert_eq!(v.position(20), Some(1));
    assert_eq!(v.len(), 2);
    assert_eq!(v.remove(99), None);
}

#[test]
fn atlas_interns_each_extended_pair_once() {
    let mut atlas = ColorAtlas::new();
    let teal = ColorPair::new(ColorSpec::Rgb(0, 128, 128), ColorSpec::Default);
    let grey = ColorPair::new(ColorSpec::Ansi256(244), ColorSpec::Rgb(1, 2, 3));
    let swapped = ColorPair::new(ColorSpec::Rgb(1, 2, 3), ColorSpec::Ansi256(244));
    let a = atlas.intern_pair(teal);
    let b = atlas.intern_pair(grey);
    let c = atlas.intern_pair(swapped);
    assert_eq!((a, b, c), (81, 82, 83));
    assert_eq!(atlas.intern_pair(grey), 82);
    assert_eq!(atlas.intern_pair(teal), 81);
    assert_eq!(atlas.resolve_pair(83), swapped);
    let builtin = atlas.intern_pair(ColorPair::new(ColorSpec::Ansi16(Color::Red), ColorSpec::Default));
    assert!(builtin < 81);
    assert_eq!(atlas.intern_pair(ColorPair::new(ColorSpec::Rgb(0, 128, 129), ColorSpec::Default)), 84);
}
