//! Paint layers of an immediate-mode GUI: which shapes exist, in what order,
//! in which coordinate space, and how one frame's layers are flattened into a
//! single paint-ready sequence.
//!
//! * [`paint_list`]: the shapes of one layer, with indices that stay valid.
//! * [`layer_id`] and [`id`]: which layer is which, and in what order the
//!   categories of layers are painted.
//! * [`graphic_layers`]: all layers of a frame and their drain at its end;
//!   [`layer_model`] says what a drain returns and proves what follows.
//! * [`layer_transforms`]: where each layer lies in global space.
//! * [`shape`]: the shapes themselves, which are those of `epaint`.
//! * [`hyperlink`]: link widgets and what a click on them asks for.
//! * [`storage`]: where an app keeps its state, and when it is to be saved.
//! * [`strip`]: which of its sizes the next cell of a strip takes.

pub mod graphic_layers;
pub mod hyperlink;
pub mod id;
pub mod layer_id;
pub mod layer_model;
pub mod layer_transforms;
pub mod paint_list;
pub mod shape;
pub mod storage;
pub mod strip;

pub use graphic_layers::GraphicLayers;
pub use hyperlink::{Hyperlink, Link, WidgetText};
pub use id::Id;
pub use layer_id::{LayerId, Order};
pub use layer_transforms::LayerTransforms;
pub use paint_list::{PaintList, ShapeIdx};
pub use shape::ClippedShape;
