//! Observations of the pointer over one captured window.

pub mod interface;
pub mod macos;
