//! What the programs with a window decide.

pub mod focus;
pub mod fonts;
pub mod format;
pub mod frontend;
pub mod hotkey;
pub mod paths;
pub mod popup;
pub mod settings;
