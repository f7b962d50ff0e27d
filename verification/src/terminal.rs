//! Options for entering the terminal mode that the application sets up.
use vstd::prelude::*;

verus! {

/// Configuration for entering terminal mode.
#[derive(Debug, Clone, Copy, PartialEq, Eq, Structural)]
pub struct TerminalOptions {
    /// Enables mouse capture while the terminal handle is alive.
    pub mouse_capture: bool,
}

impl Default for TerminalOptions {
    /// Mouse capture is off.
    fn default() -> (o: Self)
        ensures
            !o.mouse_capture,
    {
        TerminalOptions { mouse_capture: false }
    }
}

impl TerminalOptions {
    /// Creates default terminal options: mouse capture is off.
    pub fn new() -> (o: Self)
        ensures
            !o.mouse_capture,
    {
        TerminalOptions { mouse_capture: false }
    }

    /// Enables or disables mouse capture.
    pub fn with_mouse_capture(self, enabled: bool) -> (o: Self)
        ensures
            o.mouse_capture == enabled,
    {
        TerminalOptions { mouse_capture: enabled }
    }
}

} // verus!
