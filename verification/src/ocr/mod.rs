//! Text recognition.

pub mod hit_scan;
pub mod interface;
pub mod keeping;
pub mod ocr;
pub mod providers;
