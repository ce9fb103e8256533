//! Observations of the pointer.

use crate::platform::interface::PointerSnapshot;
use crate::platform::macos::source::CaptureSourceSnapshot;
use crate::platform::macos::window_server;
use crate::platform::macos::window_server::{WindowListSnapshot, WindowSummary};
use vstd::prelude::*;

verus! {

/// How long a list of windows is used, in nanoseconds.
pub const WINDOW_LIST_CACHE_DURATION: u64 = 50_000_000;

/// Whether the list of windows that was made at `last` is still used at `now`.
pub open spec fn is_fresh(last: Option<u64>, now: u64) -> bool {
    last is Some && now - last->0 < WINDOW_LIST_CACHE_DURATION
}

/// Whether the list of windows that was made at `last` is still used at `now`.
pub fn window_list_is_fresh(last: Option<u64>, now: u64) -> (r: bool)
    ensures
        r == is_fresh(last, now),
{
    match last {
        Some(last) => now < last || now - last < WINDOW_LIST_CACHE_DURATION,
        None => false,
    }
}

/// Whether an observation of the pointer needs the list of windows: it does where the source is
/// an available window.
pub fn needs_window_list(source: &Option<CaptureSourceSnapshot>) -> (r: bool)
    ensures
        r == (source is Some && source->0.available && source->0.window_id is Some),
{
    match source {
        Some(source) => source.available && source.window_id.is_some(),
        None => false,
    }
}

/// The observation of a pointer at `position` over a source, among windows from front to back.
pub open spec fn observation_of(
    position: (i32, i32),
    source: Option<CaptureSourceSnapshot>,
    windows: Option<Seq<WindowSummary>>,
) -> PointerSnapshot {
    match source {
        None => PointerSnapshot {
            position,
            capture_geometry: None,
            source_generation: 0,
            target_available: true,
        },
        Some(source) => PointerSnapshot {
            position,
            capture_geometry: if source.available {
                source.geometry
            } else {
                None
            },
            source_generation: source.generation,
            target_available: source.available && match source.window_id {
                None => true,
                Some(id) => windows is Some && window_server::frontmost(windows->0, position)
                    == Some(id),
            },
        },
    }
}

/// The observation of a pointer at `position`. Without windows to look at, a selected window is
/// taken to be covered.
pub fn pointer_snapshot(
    position: (i32, i32),
    source: &Option<CaptureSourceSnapshot>,
    windows: Option<&WindowListSnapshot>,
) -> (r: PointerSnapshot)
    ensures
        r == observation_of(
            position,
            *source,
            match windows {
                Some(windows) => Some(windows.windows@),
                None => None,
            },
        ),
{
    let source = match source {
        Some(source) => source,
        None => return PointerSnapshot {
            position,
            capture_geometry: None,
            source_generation: 0,
            target_available: true,
        },
    };
    if !source.available {
        return PointerSnapshot {
            position,
            capture_geometry: None,
            source_generation: source.generation,
            target_available: false,
        };
    }
    let target_available = match source.window_id {
        None => true,
        Some(id) => match windows {
            Some(windows) => windows.target_is_frontmost_at_point(id, position),
            None => false,
        },
    };
    PointerSnapshot {
        position,
        capture_geometry: source.geometry,
        source_generation: source.generation,
        target_available,
    }
}

/// A list of windows is used for less than a twentieth of a second.
pub proof fn law_window_lists_are_used_for_a_while(last: u64, now: u64)
    ensures
        !is_fresh(None, now),
        last <= now ==> (is_fresh(Some(last), now) <==> now - last < 50_000_000),
        last > now ==> is_fresh(Some(last), now),
{
}

/// An available source can be seen if it is no window, or if no window before it in the list
/// covers the pointer and it does; `k` is the first that does. A source that is not available
/// cannot be seen and has no area.
pub proof fn law_covered_windows_cannot_be_seen(
    position: (i32, i32),
    source: CaptureSourceSnapshot,
    windows: Seq<WindowSummary>,
    k: int,
)
    requires
        0 <= k <= windows.len(),
        forall|j: int|
            0 <= j < k ==> !window_server::is_seen_at(#[trigger] windows[j], position),
        k < windows.len() ==> window_server::is_seen_at(windows[k], position),
    ensures
        ({
            let seen = observation_of(position, Some(source), Some(windows));
            let blind = observation_of(position, Some(source), None);
            &&& seen.position == position && seen.source_generation == source.generation
            &&& !source.available ==> !seen.target_available && seen.capture_geometry is None
            &&& source.available ==> seen.capture_geometry == source.geometry
            &&& source.available && source.window_id is None ==> seen.target_available
                && blind.target_available
            &&& source.available && source.window_id is Some ==> !blind.target_available && (
            seen.target_available <==> k < windows.len() && windows[k].id == source.window_id->0)
        }),
        observation_of(position, None, Some(windows)).target_available,
{
    window_server::law_the_first_window_that_is_seen_is_frontmost(windows, position, k);
}

} // verus!
