//! Object detection around an opaque inference backend: image decoding and
//! encoding, letterboxed tensor preparation, decoding of raw model output,
//! greedy per-class overlap suppression, and rendering of the surviving
//! detections onto the image.
//!
//! Fractions (confidences, class scores, thresholds) are fixed-point numbers
//! counted in millionths, so that every rule of the pipeline is exact integer
//! arithmetic.

pub mod codec;
pub mod detection;
pub mod engine;
pub mod error;
pub mod geometry;
pub mod letterbox;
pub mod pipeline;
pub mod raster;
pub mod render;
pub mod resample;
pub mod suppress;
pub mod tensor;
