//! Where and when the popup is shown.

use crate::dictionary::entry::{DictionaryEntry, KanjiEntry};
use crate::platform::interface::CaptureGeometry;
use crate::pipeline::PipelineEvent;
use vstd::prelude::*;

verus! {

/// The distance between the pointer and the popup.
pub const OFFSET: i32 = 16;

/// How long the popup stays after the pointer left a word, in milliseconds.
pub const HIDE_DELAY: u64 = 200;

/// The area of the popup.
#[derive(Clone, Copy, Debug, PartialEq, Eq, Structural)]
pub struct PopupBounds {
    pub x: i32,
    pub y: i32,
    pub width: i32,
    pub height: i32,
}

/// The sum of two coordinates, or the last coordinate in its direction where it is beyond.
pub open spec fn saturated_sum(a: i32, b: i32) -> int {
    if a + b > i32::MAX {
        i32::MAX as int
    } else if a + b < i32::MIN {
        i32::MIN as int
    } else {
        a + b
    }
}

fn saturating_sum(a: i32, b: i32) -> (r: i32)
    ensures
        r == saturated_sum(a, b),
{
    let sum: i64 = a as i64 + b as i64;
    if sum > 0x7fff_ffff {
        i32::MAX
    } else if sum < -0x8000_0000 {
        i32::MIN
    } else {
        sum as i32
    }
}

impl PopupBounds {
    /// Whether the popup covers a point.
    pub open spec fn covers(self, x: i32, y: i32) -> bool {
        &&& self.x <= x < saturated_sum(self.x, self.width)
        &&& self.y <= y < saturated_sum(self.y, self.height)
    }

    /// Whether the popup covers a point.
    pub fn contains(self, x: i32, y: i32) -> (r: bool)
        ensures
            r == self.covers(x, y),
    {
        x >= self.x && x < saturating_sum(self.x, self.width) && y >= self.y && y
            < saturating_sum(self.y, self.height)
    }
}

/// Where the popup begins in one direction: behind the pointer or, where it would end after
/// `end`, before it; then moved so that it begins at `start` or later and, if it can, ends at
/// `end` or earlier.
pub open spec fn placed(pointer: int, start: int, end: int, size: int) -> int {
    let wanted = if pointer + OFFSET + size > end {
        pointer - size - OFFSET
    } else {
        pointer + OFFSET
    };
    let latest = if end - size > start {
        end - size
    } else {
        start
    };
    if wanted < start {
        start
    } else if wanted > latest {
        latest
    } else {
        wanted
    }
}

/// Whether all sums that `placed` needs are coordinates: the place before the pointer is asked
/// for only where the popup does not fit behind it.
pub open spec fn can_place(pointer: int, start: int, length: int, size: int) -> bool {
    &&& i32::MIN <= start + length <= i32::MAX
    &&& pointer + OFFSET <= i32::MAX
    &&& i32::MIN <= pointer + OFFSET + size <= i32::MAX
    &&& pointer + OFFSET + size > start + length ==> {
        &&& i32::MIN <= pointer - size <= i32::MAX
        &&& i32::MIN <= pointer - size - OFFSET
    }
    &&& i32::MIN <= start + length - size <= i32::MAX
}

fn place(pointer: i32, start: i32, length: i32, size: i32) -> (r: i32)
    requires
        can_place(pointer as int, start as int, length as int, size as int),
    ensures
        r == placed(pointer as int, start as int, start + length, size as int),
{
    let end: i32 = start + length;
    let mut wanted: i32 = pointer + OFFSET;
    if wanted + size > end {
        wanted = pointer - size - OFFSET;
    }
    let latest: i32 = if end - size > start {
        end - size
    } else {
        start
    };
    if wanted < start {
        start
    } else if wanted > latest {
        latest
    } else {
        wanted
    }
}

/// Where the left upper corner of the popup goes.
pub fn calculate_popup_position(
    mouse_x: i32,
    mouse_y: i32,
    capture_geometry: &CaptureGeometry,
    popup_width: i32,
    popup_height: i32,
) -> (r: (i32, i32))
    requires
        can_place(
            mouse_x as int,
            capture_geometry.left as int,
            capture_geometry.width as i32 as int,
            popup_width as int,
        ),
        can_place(
            mouse_y as int,
            capture_geometry.top as int,
            capture_geometry.height as i32 as int,
            popup_height as int,
        ),
    ensures
        r.0 == placed(
            mouse_x as int,
            capture_geometry.left as int,
            capture_geometry.left + capture_geometry.width as i32,
            popup_width as int,
        ),
        r.1 == placed(
            mouse_y as int,
            capture_geometry.top as int,
            capture_geometry.top + capture_geometry.height as i32,
            popup_height as int,
        ),
{
    #[verifier::truncate]
    let width: i32 = capture_geometry.width as i32;
    #[verifier::truncate]
    let height: i32 = capture_geometry.height as i32;
    (
        place(mouse_x, capture_geometry.left, width, popup_width),
        place(mouse_y, capture_geometry.top, height, popup_height),
    )
}

/// Where it fits, the popup lies in the captured area.
pub proof fn law_popup_stays_inside(pointer: int, start: int, end: int, size: int)
    requires
        0 <= size <= end - start,
    ensures
        start <= placed(pointer, start, end, size),
        placed(pointer, start, end, size) + size <= end,
{
}

/// Where there is room behind or before the pointer, the popup does not cover it.
pub proof fn law_popup_leaves_the_pointer_free(pointer: int, start: int, end: int, size: int)
    requires
        start <= pointer < end,
        0 <= size,
        pointer + OFFSET + size <= end || start <= pointer - size - OFFSET,
    ensures
        !(placed(pointer, start, end, size) <= pointer < placed(pointer, start, end, size) + size),
{
}

/// What is known of the popup.
#[derive(Clone, Copy, Debug, PartialEq, Eq)]
pub struct PopupState {
    /// Its area, while it shows a lookup.
    pub bounds: Option<PopupBounds>,
    /// Where the pointer was when the popup was told to go, while it waits for that.
    pub hiding: Option<(i32, i32)>,
}

/// What is to be done with the popup.
pub enum PopupAction {
    /// Nothing.
    Nothing,
    /// It stays as it is, and counts as shown.
    Keep,
    /// It shows a lookup.
    Show {
        entries: Vec<DictionaryEntry>,
        kanji: Option<KanjiEntry>,
        mouse_x: i32,
        mouse_y: i32,
        capture_geometry: CaptureGeometry,
    },
    /// After a delay it may have to go.
    StartHiding,
    /// It shows an error.
    ShowError(String),
}

/// What is to be done when the delay is over.
#[derive(Clone, Copy, Debug, PartialEq, Eq, Structural)]
pub enum HideAction {
    /// The popup counts as shown.
    Keep,
    /// The popup goes.
    Hide,
}

/// Whether a popup goes from `before` to `after`, and does what `action` says, when something
/// happened in the pipeline.
pub open spec fn takes_event(
    before: PopupState,
    event: PipelineEvent,
    after: PopupState,
    action: PopupAction,
) -> bool {
    &&& after.bounds == before.bounds
    &&& match event {
        PipelineEvent::CaptureReady => action is Nothing && after.hiding == before.hiding,
        PipelineEvent::LookupResult { entries, kanji, mouse_x, mouse_y, capture_geometry } => {
            &&& after.hiding is None
            &&& action == (if before.covers(mouse_x, mouse_y) {
                PopupAction::Keep
            } else {
                PopupAction::Show { entries, kanji, mouse_x, mouse_y, capture_geometry }
            })
        },
        PipelineEvent::HidePopup { mouse_x, mouse_y } => action is StartHiding && after.hiding
            == Some((mouse_x, mouse_y)),
        PipelineEvent::Error(message) => action == PopupAction::ShowError(message)
            && after.hiding is None,
    }
}

/// Whether a popup that was told to go does so, from `before` to `after`, when the delay is over.
pub open spec fn ends_delay(before: PopupState, after: PopupState, action: HideAction) -> bool {
    let (x, y) = before.hiding->0;
    &&& if before.covers(x, y) {
        action == HideAction::Keep && after.bounds == before.bounds
    } else {
        action == HideAction::Hide && after.bounds is None
    }
    &&& after.hiding is None
}

impl PopupState {
    /// Whether the popup shows a lookup and covers a point.
    pub open spec fn covers(self, x: i32, y: i32) -> bool {
        self.bounds is Some && self.bounds->0.covers(x, y)
    }

    /// No popup is shown.
    pub fn new() -> (r: Self)
        ensures
            r == (PopupState { bounds: None, hiding: None }),
    {
        PopupState { bounds: None, hiding: None }
    }

    fn is_over(&self, x: i32, y: i32) -> (r: bool)
        ensures
            r == self.covers(x, y),
    {
        match self.bounds {
            Some(bounds) => bounds.contains(x, y),
            None => false,
        }
    }

    /// Something happened in the pipeline. A lookup of a place that the popup covers is a lookup
    /// of its own text and is left out.
    pub fn pipeline_event(&mut self, event: PipelineEvent) -> (r: PopupAction)
        ensures
            takes_event(*old(self), event, *final(self), r),
    {
        match event {
            PipelineEvent::CaptureReady => PopupAction::Nothing,
            PipelineEvent::LookupResult { entries, kanji, mouse_x, mouse_y, capture_geometry } => {
                self.hiding = None;
                if self.is_over(mouse_x, mouse_y) {
                    PopupAction::Keep
                } else {
                    PopupAction::Show { entries, kanji, mouse_x, mouse_y, capture_geometry }
                }
            },
            PipelineEvent::HidePopup { mouse_x, mouse_y } => {
                self.hiding = Some((mouse_x, mouse_y));
                PopupAction::StartHiding
            },
            PipelineEvent::Error(message) => {
                self.hiding = None;
                PopupAction::ShowError(message)
            },
        }
    }

    /// A lookup is shown, in a popup of this size. Returns where its left upper corner goes.
    pub fn shown(
        &mut self,
        mouse_x: i32,
        mouse_y: i32,
        capture_geometry: &CaptureGeometry,
        width: i32,
        height: i32,
    ) -> (r: (i32, i32))
        requires
            can_place(
                mouse_x as int,
                capture_geometry.left as int,
                capture_geometry.width as i32 as int,
                width as int,
            ),
            can_place(
                mouse_y as int,
                capture_geometry.top as int,
                capture_geometry.height as i32 as int,
                height as int,
            ),
        ensures
            r.0 == placed(
                mouse_x as int,
                capture_geometry.left as int,
                capture_geometry.left + capture_geometry.width as i32,
                width as int,
            ),
            r.1 == placed(
                mouse_y as int,
                capture_geometry.top as int,
                capture_geometry.top + capture_geometry.height as i32,
                height as int,
            ),
            final(self).bounds == Some(PopupBounds { x: r.0, y: r.1, width, height }),
            final(self).hiding == old(self).hiding,
    {
        let (x, y) = calculate_popup_position(mouse_x, mouse_y, capture_geometry, width, height);
        self.bounds = Some(PopupBounds { x, y, width, height });
        (x, y)
    }

    /// The delay is over: the popup goes, unless the pointer was over it.
    pub fn hide_due(&mut self) -> (r: HideAction)
        requires
            old(self).hiding is Some,
        ensures
            ends_delay(*old(self), *final(self), r),
    {
        let over = match self.hiding {
            Some((x, y)) => self.is_over(x, y),
            None => false,
        };
        self.hiding = None;
        if over {
            HideAction::Keep
        } else {
            self.bounds = None;
            HideAction::Hide
        }
    }
}

/// The popup begins 16 pixels behind the pointer where it fits there, and else ends 16 pixels
/// before it where it fits there; where it fits on neither side it goes to the edge.
pub proof fn law_popup_keeps_its_distance(pointer: int, start: int, end: int, size: int)
    requires
        size >= 0,
    ensures
        start <= pointer + 16 && pointer + 16 + size <= end ==> placed(pointer, start, end, size)
            == pointer + 16,
        pointer + 16 < start && pointer + 16 + size <= end ==> placed(pointer, start, end, size)
            == start,
        pointer + 16 + size > end && start <= pointer - 16 - size && pointer - 16 <= end ==> placed(
            pointer,
            start,
            end,
            size,
        ) + size + 16 == pointer,
        pointer + 16 + size > end && pointer - 16 - size < start ==> placed(
            pointer,
            start,
            end,
            size,
        ) == start,
        pointer - 16 > end && end - size >= start ==> placed(pointer, start, end, size) + size
            == end,
{
}

/// The popup covers as many pixels to the right and downwards as it is wide and high, but none at
/// the last coordinates.
pub proof fn law_popup_covers_its_area(bounds: PopupBounds, x: i32, y: i32)
    ensures
        bounds.covers(x, y) <==> {
            &&& 0 <= x - bounds.x < bounds.width
            &&& 0 <= y - bounds.y < bounds.height
            &&& x != 0x7fff_ffff
            &&& y != 0x7fff_ffff
        },
{
}

/// A popup that is told to go does so when the delay is over, unless it shows a lookup and the
/// pointer was over it when it was told; then it stays as it is. It waits for nothing more.
pub proof fn law_popups_go_unless_the_pointer_is_over_them(
    states: (PopupState, PopupState, PopupState),
    mouse_x: i32,
    mouse_y: i32,
    told: PopupAction,
    action: HideAction,
)
    requires
        takes_event(states.0, PipelineEvent::HidePopup { mouse_x, mouse_y }, states.1, told),
        ends_delay(states.1, states.2, action),
    ensures
        told is StartHiding,
        states.2.hiding is None,
        ({
            let over = match states.0.bounds {
                Some(bounds) => {
                    &&& 0 <= mouse_x - bounds.x < bounds.width
                    &&& 0 <= mouse_y - bounds.y < bounds.height
                    &&& mouse_x != 0x7fff_ffff
                    &&& mouse_y != 0x7fff_ffff
                },
                None => false,
            };
            &&& over ==> action == HideAction::Keep && states.2.bounds == states.0.bounds
            &&& !over ==> action == HideAction::Hide && states.2.bounds is None
        }),
{
    if states.0.bounds is Some {
        law_popup_covers_its_area(states.0.bounds->0, mouse_x, mouse_y);
    }
}

/// A lookup is shown with all that it found, unless the pointer is over the popup: what is under
/// the pointer then is the popup's own text. Either way a popup that was told to go stays.
pub proof fn law_lookups_under_the_popup_are_left_out(
    before: PopupState,
    event: PipelineEvent,
    after: PopupState,
    action: PopupAction,
)
    requires
        takes_event(before, event, after, action),
        event is LookupResult,
    ensures
        after.hiding is None && after.bounds == before.bounds,
        ({
            let x = event->LookupResult_mouse_x;
            let y = event->LookupResult_mouse_y;
            let over = match before.bounds {
                Some(bounds) => {
                    &&& 0 <= x - bounds.x < bounds.width
                    &&& 0 <= y - bounds.y < bounds.height
                    &&& x != 0x7fff_ffff
                    &&& y != 0x7fff_ffff
                },
                None => false,
            };
            match action {
                PopupAction::Keep => over,
                PopupAction::Show { entries, kanji, mouse_x, mouse_y, capture_geometry } => !over
                    && entries == event->entries && kanji == event->kanji && mouse_x == x && mouse_y
                    == y && capture_geometry == event->capture_geometry,
                _ => false,
            }
        }),
{
    if before.bounds is Some {
        law_popup_covers_its_area(
            before.bounds->0,
            event->LookupResult_mouse_x,
            event->LookupResult_mouse_y,
        );
    }
}

/// An error is shown and keeps a popup from going; that the source is ready changes nothing.
pub proof fn law_errors_are_shown(
    before: PopupState,
    event: PipelineEvent,
    after: PopupState,
    action: PopupAction,
)
    requires
        takes_event(before, event, after, action),
    ensures
        event matches PipelineEvent::Error(message) ==> action == PopupAction::ShowError(message)
            && after.hiding is None && after.bounds == before.bounds,
        event is CaptureReady ==> action is Nothing && after == before,
{
}

} // verus!
