//! Capture layer: RTU framer, serial settings and the capture engine.

pub mod engine;
pub mod framer;
pub mod serial;
