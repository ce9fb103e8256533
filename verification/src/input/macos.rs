//! The pointer over a window of macOS.

use crate::input::interface::PointerSnapshot;
use crate::platform::interface::CaptureGeometry;
use crate::platform::macos::window_server;
use crate::platform::macos::window_server::WindowListSnapshot;
use vstd::prelude::*;

verus! {

/// The list of windows to use after an attempt to make a new one: the old one where that failed.
pub fn newer_window_list(
    new: Option<WindowListSnapshot>,
    old_list: Option<WindowListSnapshot>,
) -> (r: Option<WindowListSnapshot>)
    ensures
        r == (if new is Some {
            new
        } else {
            old_list
        }),
{
    match new {
        Some(list) => Some(list),
        None => old_list,
    }
}

/// The observation of a pointer at `position` over the window that is captured, if one is. The
/// window has the area `listed` in the list of windows, or else `queried`.
pub fn pointer_snapshot(
    position: (i32, i32),
    window_id: Option<u32>,
    windows: Option<&WindowListSnapshot>,
    listed: Option<CaptureGeometry>,
    queried: Option<CaptureGeometry>,
) -> (r: PointerSnapshot)
    ensures
        r == (match window_id {
            None => PointerSnapshot { position, capture_geometry: None, target_available: true },
            Some(id) => PointerSnapshot {
                position,
                capture_geometry: if listed is Some {
                    listed
                } else {
                    queried
                },
                target_available: windows is Some && window_server::frontmost(
                    windows->0.windows@,
                    position,
                ) == Some(id),
            },
        }),
{
    let id: u32 = match window_id {
        Some(id) => id,
        None => return PointerSnapshot {
            position,
            capture_geometry: None,
            target_available: true,
        },
    };
    let target_available = match windows {
        Some(windows) => windows.target_is_frontmost_at_point(id, position),
        None => false,
    };
    let capture_geometry = match listed {
        Some(geometry) => Some(geometry),
        None => queried,
    };
    PointerSnapshot { position, capture_geometry, target_available }
}

} // verus!
