use vstd::prelude::*;

pub mod cache;
pub mod debounce;
pub mod index;
pub mod orient;
pub mod transform;
pub mod paths;
pub mod upload;

verus! {

/// The debounce window for filesystem change events, in milliseconds.
pub const DEFAULT_DEBOUNCE_MILLIS: u64 = 1000;

/// The default bound on a cached thumbnail's longer edge, in pixels.
pub const DEFAULT_MAX_CACHED_IMAGE_SIZE: u32 = 1000;

/// The default JPEG quality of cached thumbnails.
pub const DEFAULT_JPEG_IMAGE_QUALITY: u8 = 80;

/// Configuration values the serving pipeline depends on: where originals
/// live, where thumbnails are cached, and the transform parameters.
pub struct Configuration {
    pub storage: String,
    pub cache: String,
    pub max_cached_image_size: u32,
    pub jpeg_image_quality: u8,
}

} // verus!
