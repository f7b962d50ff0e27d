//! Geometry types.
pub use crate::surface::{Point, Rect, Size};
