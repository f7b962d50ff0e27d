use quilltty::surface::canvas::{Canvas, HitTarget};
use quilltty::surface::geometry::{Point, Rect, Size};
use quilltty::surface::backend::{Compositor, Renderer};
use quilltty::surface::decor::PaneDecor;
use quilltty::surface::policy::PanePolicy;

#[test]
fn new_canvas_has_no_panes() {
    let canvas = Canvas::new(Size::new(10, 5), None);
    assert_eq!(canvas.size(), Size::new(10, 5));
    assert!(canvas.pane_ids().is_empty());
    assert_eq!(canvas.focused(), None);
}

#[test]
fn hit_at_background_is_clamped() {
    let canvas = Canvas::new(Size::new(10, 5), None);
    match canvas.hit_at(Point::new(20, 7)) {
        HitTarget::Background { global } => assert_eq!(global, Point::new(9, 4)),
        other => panic!("unexpected hit {:?}", other),
    }
}

#[test]
fn first_render_draws_everything() {
    let mut canvas = Canvas::new(Size::new(3, 2), None);
    let mut compositor = Compositor::new(3, 2);
    let mut renderer = Renderer::new(3, 2, true);
    let bytes = canvas.render(&mut compositor, &mut renderer);
    assert!(!bytes.is_empty());
    let again = canvas.render(&mut compositor, &mut renderer);
    assert!(again.is_empty());
    let _ = Rect::default();
}

#[test]
fn policies_and_decorations_follow_their_panes() {
    let mut canvas = Canvas::new(Size::new(20, 10), None);
    let fixed = PanePolicy { movable: false, resizable: false, focus_on_decor_press: true };
    let a = canvas.create_pane().rect(Rect { x: 0, y: 0, width: 6, height: 4 }).policy(fixed).build(&mut canvas);
    let b = canvas
        .create_pane()
        .rect(Rect { x: 8, y: 0, width: 6, height: 4 })
        .decor(PaneDecor::Plain)
        .build(&mut canvas);
    assert_eq!(canvas.pane_policy(a), Some(&fixed));
    assert_eq!(canvas.pane_policy(b), Some(&PanePolicy::default()));
    assert!(matches!(canvas.pane_decor(b), Some(PaneDecor::Plain)));
    if let Some(p) = canvas.pane_policy_mut(b) {
        p.resizable = false;
    }
    assert_eq!(canvas.pane_policy(b).map(|p| p.resizable), Some(false));
    assert_eq!(canvas.pane_policy(a), Some(&fixed));
    if let Some(d) = canvas.pane_decor_mut(a) {
        *d = PaneDecor::Plain;
    }
    assert!(matches!(canvas.pane_decor(a), Some(PaneDecor::Plain)));
    assert!(canvas.remove_pane(a));
    assert_eq!(canvas.pane_policy(a), None);
    assert!(canvas.pane_decor(a).is_none());
    assert!(canvas.pane_policy_mut(a).is_none());
    assert_eq!(canvas.pane_policy(b).map(|p| p.resizable), Some(false));
    let c = canvas.create_pane().rect(Rect { x: 0, y: 5, width: 6, height: 4 }).build(&mut canvas);
    assert_eq!(c, a);
    assert_eq!(canvas.pane_policy(c), Some(&PanePolicy::default()));
}
