//! A retained-mode scene layer for user-interface elements: pixel geometry,
//! hit testing, and a collection of renderable elements that is read in
//! z-order.

pub mod backing;
pub mod geometry;
pub mod order;
pub mod pipeline;
pub mod ui;

pub use geometry::{
    clip_vertices, to_clip_vertices, ClipCoord, ConfigurationError, Rectangle, Viewport,
};
pub use order::{is_layer_order, layer_order, precedes};
pub use pipeline::{pipeline_policy, BlendMode, ColorChannels, PipelinePolicy};
pub use ui::{
    record_outcome, AnyMut, AnyRef, AsAny, PrerenderDiagnostic, PrerenderFailure, UiBox,
    UiCollection, UiElement, UiInteractive,
};
