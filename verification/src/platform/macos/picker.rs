//! What the system's picker for screen content returns.

use crate::platform::interface::CaptureGeometry;
use crate::text;
use crate::text::{joined, push_decimal};
use vstd::prelude::*;

verus! {

/// What is captured.
#[derive(Debug)]
pub enum CaptureTarget {
    Display { display_id: u32 },
    Window { window_id: u32, title: String },
    Selection,
}

impl CaptureTarget {
    /// The words for the target.
    pub open spec fn words(self) -> Seq<char> {
        match self {
            CaptureTarget::Display { display_id } => "display "@ + text::decimal_of(
                display_id as nat,
            ),
            CaptureTarget::Window { window_id, title } => "window "@ + text::decimal_of(
                window_id as nat,
            ) + " ("@ + title@ + ")"@,
            CaptureTarget::Selection => "selected content"@,
        }
    }

    /// The number of the window that is captured.
    pub open spec fn window(self) -> Option<u32> {
        match self {
            CaptureTarget::Window { window_id, .. } => Some(window_id),
            _ => None,
        }
    }

    /// The number of the window that is captured.
    pub fn window_id(&self) -> (r: Option<u32>)
        ensures
            r == self.window(),
    {
        match self {
            CaptureTarget::Window { window_id, .. } => Some(*window_id),
            _ => None,
        }
    }

    /// The words for the target.
    pub fn describe(&self) -> (r: String)
        ensures
            r@ == self.words(),
    {
        match self {
            CaptureTarget::Display { display_id } => {
                let mut words: String = "display ".to_owned();
                push_decimal(&mut words, *display_id as u64);
                words
            },
            CaptureTarget::Window { window_id, title } => {
                let mut words: String = "window ".to_owned();
                push_decimal(&mut words, *window_id as u64);
                words.append(" (");
                words.append(title.as_str());
                words.append(")");
                words
            },
            CaptureTarget::Selection => "selected content".to_owned(),
        }
    }
}

/// The content that was picked. An area that is no area is missing.
#[derive(Debug)]
pub struct PickedContent {
    /// The number and the area of the first display in it.
    pub display: Option<(u32, Option<CaptureGeometry>)>,
    /// The number, the title and the area of the first window in it.
    pub window: Option<(u32, Option<String>, Option<CaptureGeometry>)>,
    /// The area of the whole content.
    pub content: Option<CaptureGeometry>,
    pub pixel_size: (u32, u32),
}

/// What became of the picker.
#[derive(Debug)]
pub enum PickerOutcome {
    Picked(PickedContent),
    Cancelled,
    Failed(String),
    Closed,
}

/// A picked source.
#[derive(Debug)]
pub struct PickedSource {
    pub geometry: CaptureGeometry,
    pub pixel_size: (u32, u32),
    pub target: CaptureTarget,
}

/// The area of the picked content.
pub open spec fn picked_area(content: PickedContent) -> Option<CaptureGeometry> {
    if content.display is Some {
        content.display.unwrap().1
    } else if content.window is Some {
        content.window.unwrap().2
    } else {
        content.content
    }
}

/// What is said of content without an area.
pub open spec fn area_error(content: PickedContent) -> Seq<char> {
    if content.display is Some {
        "The macOS screen picker returned invalid display geometry"@
    } else if content.window is Some {
        "The macOS screen picker returned invalid window geometry"@
    } else {
        "The macOS screen picker returned invalid content geometry"@
    }
}

/// The number of pixels in each direction: as the picker says, or one for each unit of the area.
pub open spec fn picked_pixels(content: PickedContent, area: CaptureGeometry) -> (u32, u32) {
    if content.pixel_size.0 == 0 || content.pixel_size.1 == 0 {
        (area.width as u32, area.height as u32)
    } else {
        content.pixel_size
    }
}

/// Whether `target` stands for the picked content.
pub open spec fn is_target(content: PickedContent, target: CaptureTarget) -> bool {
    if content.display is Some {
        target == (CaptureTarget::Display { display_id: content.display.unwrap().0 })
    } else if content.window is Some {
        &&& target is Window
        &&& target->window_id == content.window.unwrap().0
        &&& target->title@ == (match content.window.unwrap().1 {
            Some(title) => title@,
            None => "Untitled"@,
        })
    } else {
        target is Selection
    }
}

/// Whether `result` is the source that was picked, or says why there is none.
pub open spec fn is_pick(
    outcome: PickerOutcome,
    result: Result<Option<PickedSource>, String>,
) -> bool {
    match outcome {
        PickerOutcome::Cancelled => result == Ok::<Option<PickedSource>, String>(None),
        PickerOutcome::Failed(error) => result is Err && result->Err_0@
            == "The macOS screen picker failed: "@ + error@,
        PickerOutcome::Closed => result is Err && result->Err_0@
            == "The macOS screen picker closed without a result"@,
        PickerOutcome::Picked(content) => match (picked_area(content), result) {
            (None, Err(message)) => message@ == area_error(content),
            (Some(area), Err(message)) => {
                &&& picked_pixels(content, area).0 == 0 || picked_pixels(content, area).1 == 0
                &&& message@ == "The macOS screen picker returned an empty selection"@
            },
            (Some(area), Ok(Some(source))) => {
                &&& picked_pixels(content, area).0 > 0 && picked_pixels(content, area).1 > 0
                &&& source.geometry == area
                &&& source.pixel_size == picked_pixels(content, area)
                &&& is_target(content, source.target)
            },
            _ => false,
        },
    }
}

/// The source that was picked; none where the picker was cancelled.
pub fn pick_source(outcome: PickerOutcome) -> (r: Result<Option<PickedSource>, String>)
    ensures
        is_pick(outcome, r),
{
    let content = match outcome {
        PickerOutcome::Picked(content) => content,
        PickerOutcome::Cancelled => return Ok(None),
        PickerOutcome::Failed(error) => return Err(
            joined("The macOS screen picker failed: ", error.as_str()),
        ),
        PickerOutcome::Closed => return Err(
            "The macOS screen picker closed without a result".to_owned(),
        ),
    };
    let ghost whole = content;
    let (geometry, target) = match content.display {
        Some((display_id, geometry)) => match geometry {
            Some(geometry) => (geometry, CaptureTarget::Display { display_id }),
            None => return Err(
                "The macOS screen picker returned invalid display geometry".to_owned(),
            ),
        },
        None => match content.window {
            Some((window_id, title, geometry)) => match geometry {
                Some(geometry) => {
                    let title = match title {
                        Some(title) => title,
                        None => "Untitled".to_owned(),
                    };
                    (geometry, CaptureTarget::Window { window_id, title })
                },
                None => return Err(
                    "The macOS screen picker returned invalid window geometry".to_owned(),
                ),
            },
            None => match content.content {
                Some(geometry) => (geometry, CaptureTarget::Selection),
                None => return Err(
                    "The macOS screen picker returned invalid content geometry".to_owned(),
                ),
            },
        },
    };
    assert(picked_area(whole) == Some(geometry));
    assert(is_target(whole, target));
    let pixel_size = if content.pixel_size.0 == 0 || content.pixel_size.1 == 0 {
        #[verifier::truncate]
        let width: u32 = geometry.width as u32;
        #[verifier::truncate]
        let height: u32 = geometry.height as u32;
        if width == 0 || height == 0 {
            return Err("The macOS screen picker returned an empty selection".to_owned());
        }
        (width, height)
    } else {
        content.pixel_size
    };
    Ok(Some(PickedSource { geometry, pixel_size, target }))
}

/// A source, where one has to be picked.
pub fn require_source(picked: Option<PickedSource>) -> (r: Result<PickedSource, String>)
    ensures
        match picked {
            Some(source) => r == Ok::<PickedSource, String>(source),
            None => r is Err && r->Err_0@ == "Screen selection was cancelled"@,
        },
{
    match picked {
        Some(source) => Ok(source),
        None => Err("Screen selection was cancelled".to_owned()),
    }
}

/// Of picked content a display counts before a window, and a window before the whole; the area
/// and the target are of what counts.
pub proof fn law_displays_come_before_windows(content: PickedContent, target: CaptureTarget)
    requires
        is_target(content, target),
    ensures
        content.display is Some ==> target is Display && target->display_id
            == content.display.unwrap().0 && picked_area(content) == content.display.unwrap().1
            && target.window() is None,
        content.display is None && content.window is Some ==> target is Window && target.window()
            == Some(content.window.unwrap().0) && picked_area(content)
            == content.window.unwrap().2,
        content.display is None && content.window is None ==> target is Selection && picked_area(
            content,
        ) == content.content && target.window() is None,
{
}

/// The picker's number of pixels counts where neither side is zero, and else that of the area.
pub proof fn law_pixels_are_counted_by_the_picker(content: PickedContent, area: CaptureGeometry)
    ensures
        content.pixel_size.0 > 0 && content.pixel_size.1 > 0 ==> picked_pixels(content, area)
            == content.pixel_size,
        (content.pixel_size.0 == 0 || content.pixel_size.1 == 0) && area.width <= u32::MAX
            && area.height <= u32::MAX ==> picked_pixels(content, area).0 == area.width
            && picked_pixels(content, area).1 == area.height,
{
}

/// A picked display or window is the source, with its own area and with pixels in both
/// directions; a cancelled picker gives none, and one that failed or closed is an error.
pub proof fn law_picked_content_is_the_source(
    outcome: PickerOutcome,
    result: Result<Option<PickedSource>, String>,
)
    requires
        is_pick(outcome, result),
    ensures
        outcome is Cancelled <==> result is Ok && result->Ok_0 is None,
        outcome is Failed || outcome is Closed ==> result is Err,
        result is Ok && result->Ok_0 is Some ==> {
            let source = result->Ok_0->0;
            let content = outcome->Picked_0;
            &&& outcome is Picked
            &&& source.pixel_size.0 > 0 && source.pixel_size.1 > 0
            &&& content.display is Some ==> source.target.window() is None
                && content.display.unwrap().1 == Some(source.geometry)
            &&& content.display is None && content.window is Some ==> source.target.window()
                == Some(content.window.unwrap().0) && content.window.unwrap().2 == Some(
                source.geometry,
            )
            &&& content.display is None && content.window is None ==> content.content == Some(
                source.geometry,
            )
            &&& content.pixel_size.0 > 0 && content.pixel_size.1 > 0 ==> source.pixel_size
                == content.pixel_size
        },
        outcome is Picked && picked_area(outcome->Picked_0) is Some
            && outcome->Picked_0.pixel_size.0 > 0 && outcome->Picked_0.pixel_size.1 > 0
            ==> result is Ok,
{
    if outcome is Picked && result is Ok && result->Ok_0 is Some {
        law_displays_come_before_windows(outcome->Picked_0, result->Ok_0->0.target);
    }
}

} // verus!
