//! Capture and pointer on Wayland and X11.

pub mod gstreamer;
pub mod portal;
pub mod wayland;
pub mod x11;
