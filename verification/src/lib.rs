//! Quilltty: interactive terminal interfaces built from panes and widgets.
pub mod surface;
pub mod terminal;
pub mod ui;

pub mod geom;
pub mod prelude;
pub mod render;
pub mod style;

pub use terminal::TerminalOptions;
pub use ui::{
    ButtonWidget, Canvas, CheckboxWidget, CustomWidget, InputWidget, InteractionStyle, LogWidget, Pane,
    PaneBuilder, PaneDragKind, PaneId, StyledLine, StyledSpan, TextWidget, Ui, UiEvent, Widget, WidgetAction,
    WidgetHit, WidgetId, WidgetLayout, WidgetStore,
};
