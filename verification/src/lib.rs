//! Asset keys, the byte store they index and the rules that decide what a
//! load operation fetches next.

pub mod buffers;
pub mod camera;
pub mod color;
pub mod data_url;
pub mod dependencies;
pub mod error;
pub mod fetch;
pub mod format;
pub mod geometry;
pub mod key_list;
pub mod loaded;
pub mod loader;
pub mod material;
pub mod network;
pub mod path;
pub mod raw_assets;
pub mod source;
pub mod text;
pub mod texture;

pub use camera::Viewport;
pub use color::Srgba;
pub use error::Error;
pub use format::{deserialize, Deserialize, GeometryKind, ImageFormat, SceneFormat, Serialize};
pub use geometry::Indices;
pub use loaded::Loaded;
pub use material::{GeometryFunction, LightingModel, NormalDistributionFunction};
pub use raw_assets::RawAssets;
pub use texture::{Interpolation, Wrapping};
