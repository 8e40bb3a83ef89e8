//! An image transform and face detection engine: pixel buffers, the
//! transforms on them, the border scanner, the detection contract and the
//! batch pipeline.

pub mod borders;
pub mod buffer;
pub mod detection;
pub mod error;
pub mod params;
pub mod pipeline;
pub mod processing;
pub mod raster;
pub mod rotation;
pub mod wobble;
