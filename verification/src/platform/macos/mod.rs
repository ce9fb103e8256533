//! Capture and pointer on macOS.

pub mod input;
pub mod picker;
pub mod screenshot;
pub mod source;
pub mod window_server;
