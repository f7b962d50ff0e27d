//! Interaction policy of panes: what pressing on a pane's decoration does.
use vstd::prelude::*;

use crate::surface::geometry::Point;
use crate::surface::pane::PaneElement;

verus! {

/// Action resolved from a pane hit.
#[derive(Debug, Clone, Copy, PartialEq, Eq, Structural)]
pub enum PaneAction {
    NoOp,
    FocusOnly,
    BeginMove { grab_offset: Point },
    BeginResize,
}

/// Interaction policy applied to a pane.
#[derive(Debug, Clone, Copy, PartialEq, Eq, Structural)]
pub struct PanePolicy {
    pub movable: bool,
    pub resizable: bool,
    pub focus_on_decor_press: bool,
}

impl Default for PanePolicy {
    /// Movable, resizable, and focused by pressing its decoration.
    fn default() -> (p: Self)
        ensures
            p == (PanePolicy { movable: true, resizable: true, focus_on_decor_press: true }),
    {
        PanePolicy { movable: true, resizable: true, focus_on_decor_press: true }
    }
}

impl PanePolicy {
    /// The action that pressing `element` at pane-local `local` starts.
    pub open spec fn spec_action_for_hit(self, element: PaneElement, local: Point) -> PaneAction {
        match element {
            PaneElement::Content => PaneAction::NoOp,
            PaneElement::Resize => if self.resizable {
                PaneAction::BeginResize
            } else if self.focus_on_decor_press {
                PaneAction::FocusOnly
            } else {
                PaneAction::NoOp
            },
            PaneElement::Title | PaneElement::Border => if self.movable {
                PaneAction::BeginMove { grab_offset: local }
            } else if self.focus_on_decor_press {
                PaneAction::FocusOnly
            } else {
                PaneAction::NoOp
            },
        }
    }

    /// Resolves the action that should occur for the given pane element hit.
    pub fn action_for_hit(&self, element: PaneElement, local: Point) -> (a: PaneAction)
        ensures
            a == self.spec_action_for_hit(element, local),
    {
        match element {
            PaneElement::Content => PaneAction::NoOp,
            PaneElement::Resize => {
                if self.resizable {
                    PaneAction::BeginResize
                } else if self.focus_on_decor_press {
                    PaneAction::FocusOnly
                } else {
                    PaneAction::NoOp
                }
            },
            PaneElement::Title | PaneElement::Border => {
                if self.movable {
                    PaneAction::BeginMove { grab_offset: local }
                } else if self.focus_on_decor_press {
                    PaneAction::FocusOnly
                } else {
                    PaneAction::NoOp
                }
            },
        }
    }
}

} // verus!
