//! The drawing surface: geometry, styles, glyphs, panes, damage tracking and rendering.
pub mod geometry;
pub mod color;
pub mod style;
pub mod glyph;
pub mod damage;
pub mod grid;
pub mod backend;
pub mod pane;
pub mod decor;
pub mod policy;
pub mod indexed_vec;
pub mod canvas;

pub use backend::{Compositor, Layer, Renderer};
pub use canvas::{Canvas, HitTarget, PaneBuilder, PaneHit};
pub use color::{Color, ColorAtlas, ColorPair, ColorSpec};
pub use decor::{Insets, PaneDecor, WindowDecor};
pub use geometry::{Point, Rect, Size};
pub use glyph::{BorderKind, Glyph, Rune};
pub use pane::{Pane, PaneElement, PaneId};
pub use policy::{PaneAction, PanePolicy};
pub use style::{Style, StylePatch};
