//! Verified core of a Japanese pop-up dictionary.

pub mod dictionary;
pub mod floats;
pub mod gui;
pub mod input;
pub mod ocr;
pub mod order;
pub mod pipeline;
pub mod pixels;
pub mod platform;
pub mod runtime;
pub mod screenshot;
pub mod text;
pub mod text_map;
pub mod utils;
