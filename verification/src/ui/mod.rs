//! Widgets, the widget store, and the interaction runtime that routes input to panes and
//! widgets.
pub mod state;

pub mod draw;
pub mod text;
pub mod log;
pub mod event;
pub mod button;
pub mod checkbox;
pub mod input;
pub mod bar;
pub mod widget;
pub mod runtime;
pub mod store;
pub mod builder;

pub use crate::surface::{Canvas, HitTarget, Pane, PaneBuilder, PaneElement, PaneHit, PaneId};
pub use builder::WidgetBuilder;
pub use button::ButtonWidget;
pub use checkbox::CheckboxWidget;
pub use event::{Event, KeyCode, KeyEvent, MouseButton, MouseEvent, MouseEventKind};
pub use input::InputWidget;
pub use log::LogWidget;
pub use runtime::{PaneDragKind, PointerDrag, Ui, UiEvent};
pub use state::{InteractionStyle, RichInteractionStyle, WidgetAction, WidgetState};
pub use store::{WidgetHit, WidgetId, WidgetLayout, WidgetStore};
pub use text::{StyledLine, StyledSpan, TextWidget};
pub use widget::{CustomWidget, Widget, WidgetRequest};
