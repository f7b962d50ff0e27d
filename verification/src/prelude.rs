//! The types most applications use.
pub use crate::geom::{Point, Rect, Size};
pub use crate::style::{BorderKind, Color, Glyph, Style};
pub use crate::terminal::TerminalOptions;
pub use crate::ui::{
    ButtonWidget, CheckboxWidget, CustomWidget, Event, InputWidget, KeyCode, KeyEvent, LogWidget, MouseButton,
    MouseEvent, MouseEventKind, PaneDragKind, PaneId, StyledLine, StyledSpan, TextWidget, Ui, UiEvent, Widget,
    WidgetHit, WidgetId, WidgetLayout,
};
