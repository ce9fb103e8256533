//! The pointer and what is captured.

use crate::platform::interface::CaptureGeometry;
use vstd::prelude::*;

verus! {

/// The pointer and the captured area, observed together.
#[derive(Clone, Copy, Debug, PartialEq, Eq)]
pub struct PointerSnapshot {
    pub position: (i32, i32),
    pub capture_geometry: Option<CaptureGeometry>,
    pub target_available: bool,
}

/// A source of observations of the pointer.
pub trait PointerProvider {
    /// The pointer and the captured area as they are now.
    fn snapshot(&mut self) -> Result<PointerSnapshot, String>;
}

} // verus!
