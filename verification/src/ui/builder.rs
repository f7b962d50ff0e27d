//! Step-by-step configuration of a widget before it goes into a store.
use vstd::prelude::*;

use crate::surface::backend::Layer;
use crate::surface::pane::PaneId;
use crate::ui::store::{WidgetEntry, WidgetId, WidgetLayout, WidgetStore};
use crate::ui::widget::{CustomWidget, Widget};

verus! {

/// Settings for a widget that is about to be added to a pane.
pub struct WidgetBuilder<C> {
    /// Parent pane for the widget.
    pub pane_id: PaneId,
    /// Widget being inserted.
    pub widget: Widget<C>,
    /// Bounds for the widget; it must be assigned before building.
    pub layout: Option<WidgetLayout>,
    /// Rendering order for the widget.
    pub z_layer: Layer,
    /// Whether the widget is visible.
    pub visible: bool,
    /// Whether the widget is interactive.
    pub enabled: bool,
}

impl<C: CustomWidget> WidgetBuilder<C> {
    /// Starts configuring `widget` for pane `pane_id`: no layout yet, the bottom layer,
    /// visible and enabled.
    pub fn new(pane_id: PaneId, widget: Widget<C>) -> (b: Self)
        ensures
            b.pane_id == pane_id,
            b.widget == widget,
            b.layout is None,
            b.z_layer == Layer(0),
            b.visible,
            b.enabled,
    {
        WidgetBuilder { pane_id, widget, layout: None, z_layer: Layer(0), visible: true, enabled: true }
    }

    /// Assigns the widget layout.
    pub fn layout(self, layout: WidgetLayout) -> (b: Self)
        ensures
            b == (WidgetBuilder { layout: Some(layout), ..self }),
    {
        WidgetBuilder { layout: Some(layout), ..self }
    }

    /// Assigns the widget rendering layer.
    pub fn layer(self, z_layer: Layer) -> (b: Self)
        ensures
            b == (WidgetBuilder { z_layer, ..self }),
    {
        WidgetBuilder { z_layer, ..self }
    }

    /// Assigns whether the widget is visible.
    pub fn visible(self, visible: bool) -> (b: Self)
        ensures
            b == (WidgetBuilder { visible, ..self }),
    {
        WidgetBuilder { visible, ..self }
    }

    /// Assigns whether the widget is enabled.
    pub fn enabled(self, enabled: bool) -> (b: Self)
        ensures
            b == (WidgetBuilder { enabled, ..self }),
    {
        WidgetBuilder { enabled, ..self }
    }

    /// Inserts the configured widget into `store`, as `WidgetStore::insert_widget` does with
    /// these settings, and returns its identifier. A layout must have been assigned.
    pub fn build(self, store: &mut WidgetStore<C>) -> (id: WidgetId)
        requires
            self.layout is Some,
            self.widget.wf(),
            old(store).wf(),
            old(store).spec_next_id() < u32::MAX,
        ensures
            final(store).wf(),
            id == WidgetId(old(store).spec_next_id()),
            !old(store).has_widget(id),
            final(store).has_widget(id),
            final(store).spec_next_id() == old(store).spec_next_id() + 1,
            final(store).spec_entries().len() == old(store).spec_entries().len() + 1,
            ({
                let k = final(store).index_of(id);
                &&& 0 <= k <= old(store).spec_entries().len()
                &&& final(store).spec_entries() == old(store).spec_entries().insert(
                    k,
                    WidgetEntry {
                        id,
                        pane_id: self.pane_id,
                        layout: self.layout->0,
                        z_layer: self.z_layer,
                        visible: self.visible,
                        enabled: self.enabled,
                        widget: self.widget,
                    },
                )
                &&& forall|j: int|
                    0 <= j < k ==> (#[trigger] old(store).spec_entries()[j]).z_layer.0 <= self.z_layer.0
                &&& forall|j: int|
                    k <= j < old(store).spec_entries().len() ==> (#[trigger] old(store).spec_entries()[j]).z_layer.0
                        > self.z_layer.0
            }),
            final(store).spec_full() == old(store).spec_full().push(self.pane_id),
            final(store).spec_damaged() == old(store).spec_damaged().push(id),
            final(store).spec_hovered() == old(store).spec_hovered(),
            final(store).spec_pressed() == old(store).spec_pressed(),
            final(store).spec_focused() == old(store).spec_focused(),
    {
        let layout = self.layout.unwrap();
        store.insert_widget(self.pane_id, self.z_layer, self.visible, self.enabled, self.widget, layout)
    }
}

} // verus!
