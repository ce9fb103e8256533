//! The order of the windows on the screen.

use crate::floats;
use crate::floats::is_greater_64;
use crate::platform::interface::CaptureGeometry;
use vstd::prelude::*;

verus! {

/// A window: its number, its area, and how opaque it is (the bits of a double).
#[derive(Clone, Copy, Debug, PartialEq, Eq, Structural)]
pub struct WindowSummary {
    pub id: u32,
    pub bounds: CaptureGeometry,
    pub alpha: u64,
}

/// The windows on the screen, from front to back. A window that is not transparent covers its
/// whole area.
#[derive(Debug)]
pub struct WindowListSnapshot {
    pub windows: Vec<WindowSummary>,
}

/// Whether a window covers a point.
pub open spec fn covers(window: WindowSummary, point: (i32, i32)) -> bool {
    floats::greater_64(window.alpha, 0) && window.bounds.holds(point)
}

/// The number of the first window that covers a point.
pub open spec fn frontmost(windows: Seq<WindowSummary>, point: (i32, i32)) -> Option<u32>
    decreases windows.len(),
{
    if windows.len() == 0 {
        None
    } else if covers(windows[0], point) {
        Some(windows[0].id)
    } else {
        frontmost(windows.skip(1), point)
    }
}

impl WindowListSnapshot {
    /// The number of the frontmost window at a point.
    pub fn frontmost_window_at_point(&self, point: (i32, i32)) -> (r: Option<u32>)
        ensures
            r == frontmost(self.windows@, point),
    {
        let mut i: usize = 0;
        assert(self.windows@.skip(0) =~= self.windows@);
        while i < self.windows.len()
            invariant
                i <= self.windows@.len(),
                frontmost(self.windows@, point) == frontmost(self.windows@.skip(i as int), point),
            decreases self.windows@.len() - i,
        {
            let window = self.windows[i];
            assert(self.windows@.skip(i as int)[0] == window);
            if is_greater_64(window.alpha, 0) && window.bounds.contains(point) {
                return Some(window.id);
            }
            assert(self.windows@.skip(i as int).skip(1) =~= self.windows@.skip(i + 1));
            i += 1;
        }
        None
    }

    /// Whether a window is the frontmost at a point.
    pub fn target_is_frontmost_at_point(&self, window_id: u32, point: (i32, i32)) -> (r: bool)
        ensures
            r == (frontmost(self.windows@, point) == Some(window_id)),
    {
        match self.frontmost_window_at_point(point) {
            Some(id) => id == window_id,
            None => false,
        }
    }
}

/// A window that covers a point hides all windows behind it there.
pub proof fn law_front_windows_hide(
    before: Seq<WindowSummary>,
    window: WindowSummary,
    behind: Seq<WindowSummary>,
    point: (i32, i32),
)
    requires
        covers(window, point),
    ensures
        frontmost(before.push(window) + behind, point) == frontmost(before.push(window), point),
        frontmost(before, point) is None ==> frontmost(before.push(window) + behind, point) == Some(
            window.id,
        ),
    decreases before.len(),
{
    let all = before.push(window) + behind;
    if before.len() > 0 {
        assert(all[0] == before[0]);
        assert(before.push(window)[0] == before[0]);
        assert(all.skip(1) =~= before.skip(1).push(window) + behind);
        assert(before.push(window).skip(1) =~= before.skip(1).push(window));
        law_front_windows_hide(before.skip(1), window, behind, point);
    } else {
        assert(all[0] == window);
    }
}

/// Whether a window is not transparent, and a point less than its sides away from its corner.
pub open spec fn is_seen_at(window: WindowSummary, point: (i32, i32)) -> bool {
    &&& 0 < window.alpha <= 0x7ff0_0000_0000_0000
    &&& 0 <= point.0 - window.bounds.left < window.bounds.width
    &&& 0 <= point.1 - window.bounds.top < window.bounds.height
    &&& point.0 != 0x7fff_ffff
    &&& point.1 != 0x7fff_ffff
}

/// The frontmost window at a point is the first in the list that is not transparent and holds the
/// point; there is none where no window is so.
pub proof fn law_the_first_window_that_is_seen_is_frontmost(
    windows: Seq<WindowSummary>,
    point: (i32, i32),
    k: int,
)
    requires
        0 <= k <= windows.len(),
        forall|j: int| 0 <= j < k ==> !is_seen_at(#[trigger] windows[j], point),
        k < windows.len() ==> is_seen_at(windows[k], point),
    ensures
        k < windows.len() ==> frontmost(windows, point) == Some(windows[k].id),
        k == windows.len() ==> frontmost(windows, point) is None,
    decreases windows.len(),
{
    if windows.len() > 0 {
        let rest = windows.skip(1);
        assert(covers(windows[0], point) == is_seen_at(windows[0], point));
        if k > 0 {
            assert(!is_seen_at(windows[0], point));
            assert forall|j: int| 0 <= j < k - 1 implies !is_seen_at(#[trigger] rest[j], point) by {
                assert(rest[j] == windows[j + 1]);
            }
            if k < windows.len() {
                assert(rest[k - 1] == windows[k]);
            }
            law_the_first_window_that_is_seen_is_frontmost(rest, point, k - 1);
        }
    }
}

} // verus!
