//! Composition and terminal output.
pub use crate::surface::{Compositor, Renderer};
