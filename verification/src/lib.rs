//! Januas ADE core logic: the module-instance registry behind the subway tab
//! strip, and the pure decision and data-shaping steps of the terminal,
//! text, layout, image and GPU-upload paths.

pub mod gpu;
pub mod image;
pub mod layout;
pub mod modules;
pub mod terminal;
pub mod text;

pub use gpu::{
    choose_present_mode, choose_surface_format, frame_action, grown_capacity, image_batches,
    FrameAction, ImageBatch, ImageId, PresentMode, SurfaceStatus,
};
pub use image::{load_image_png, png_to_rgba8, DecodedImage, ImageDecodeError, PngLayout};
pub use layout::{push_gradient, CrossAlign, Direction, NO_GRADIENT};
pub use modules::{
    InstanceSet, InstanceSetError, InstanceSetView, ModuleInstance, ModuleInstanceId,
    ModuleInstanceMut, ModuleKind, Selection,
};
pub use terminal::{key_to_bytes, snapshot_grid, GridSize, KeyInput};
pub use text::text_extent;
