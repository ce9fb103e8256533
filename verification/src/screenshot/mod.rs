//! Screenshots of monitors.

pub mod interface;
pub mod screenmanager;
pub mod source;
