//! Recognition engines.

pub mod apple_vision;
pub mod dummy;
pub mod meikiocr;
pub mod postprocessing;
