//! Captured frames and observations of the pointer.

use crate::pixels;
use crate::pixels::bgra_to_rgb;
use crate::screenshot::interface;
use crate::screenshot::interface::{check_screenshot, RgbImage, RgbImageView, ScreenshotView};
use vstd::prelude::*;

verus! {

/// The part of the desktop that a capture source shows.
#[derive(Clone, Copy, Debug, PartialEq, Eq, Structural)]
pub struct CaptureGeometry {
    pub top: i32,
    pub left: i32,
    pub width: usize,
    pub height: usize,
}

/// The coordinate `length` behind `start`, or the last coordinate where there is none so far.
pub open spec fn far_edge(start: i32, length: usize) -> int {
    let limited = if length < u32::MAX {
        length as int
    } else {
        u32::MAX as int
    };
    if start + limited < i32::MAX {
        start + limited
    } else {
        i32::MAX as int
    }
}

impl CaptureGeometry {
    /// Whether the area holds a point.
    pub open spec fn holds(self, point: (i32, i32)) -> bool {
        &&& self.left <= point.0 < far_edge(self.left, self.width)
        &&& self.top <= point.1 < far_edge(self.top, self.height)
    }

    /// Whether the area holds `point`.
    pub fn contains(&self, point: (i32, i32)) -> (r: bool)
        ensures
            r == self.holds(point),
    {
        let right: i32 = edge_behind(self.left, self.width);
        let bottom: i32 = edge_behind(self.top, self.height);
        point.0 >= self.left && point.0 < right && point.1 >= self.top && point.1 < bottom
    }
}

fn edge_behind(start: i32, length: usize) -> (r: i32)
    ensures
        r == far_edge(start, length),
{
    let length: u64 = length as u64;
    let limited: i64 = if length < 0xffff_ffff {
        length as i64
    } else {
        0xffff_ffff
    };
    let edge: i64 = start as i64 + limited;
    if edge < 0x7fff_ffff {
        edge as i32
    } else {
        i32::MAX
    }
}

/// An area that ends before the last coordinate holds exactly the points less than its sides
/// away from its corner.
pub proof fn law_area_holds_its_points(area: CaptureGeometry, point: (i32, i32))
    requires
        area.left + area.width <= i32::MAX,
        area.top + area.height <= i32::MAX,
    ensures
        area.holds(point) <==> 0 <= point.0 - area.left < area.width && 0 <= point.1 - area.top
            < area.height,
{
}

/// `image::RgbImage::from_raw` makes an image of `data` where it has at least three bytes for
/// each pixel and those of a row can be counted, and none otherwise; `dimensions` and `into_raw`
/// give back what it was made of.
#[verifier::external_body]
fn image_from_raw(width: u32, height: u32, data: Vec<u8>) -> (r: Option<RgbImage>)
    ensures
        match r {
            Some(image) => width * 3 <= usize::MAX && width * height * 3 <= data@.len()
                && image.data@ == data@
                && image.width == width as usize && image.height == height as usize,
            None => width * 3 > usize::MAX || width * height * 3 > data@.len(),
        },
{
    let made = image::RgbImage::from_raw(width, height, data)?;
    let (width, height) = made.dimensions();
    Some(RgbImage { data: made.into_raw(), width: width as usize, height: height as usize })
}

/// A screenshot: rows of pixels with a blue, a green, a red and a fourth byte.
#[derive(Debug, PartialEq, Eq)]
pub struct Screenshot {
    pub raw: Vec<u8>,
    pub width: usize,
    pub height: usize,
}

impl View for Screenshot {
    type V = ScreenshotView;

    open spec fn view(&self) -> ScreenshotView {
        ScreenshotView { raw: self.raw@, width: self.width, height: self.height }
    }
}

/// A copy of a list of bytes.
pub fn copy_bytes(bytes: &Vec<u8>) -> (r: Vec<u8>)
    ensures
        r@ == bytes@,
{
    let mut r: Vec<u8> = Vec::new();
    let mut i: usize = 0;
    while i < bytes.len()
        invariant
            i <= bytes@.len(),
            r@ == bytes@.take(i as int),
        decreases bytes@.len() - i,
    {
        r.push(bytes[i]);
        assert(r@ =~= bytes@.take(i + 1));
        i += 1;
    }
    assert(r@ =~= bytes@);
    r
}

impl Clone for Screenshot {
    fn clone(&self) -> (r: Self)
        ensures
            r@ == self@,
    {
        Screenshot { raw: copy_bytes(&self.raw), width: self.width, height: self.height }
    }
}

/// Why a screenshot is no image.
pub open spec fn image_error(shot: ScreenshotView) -> Option<Seq<char>> {
    if interface::screenshot_error(shot) is Some {
        interface::screenshot_error(shot)
    } else if shot.width > u32::MAX {
        Some("screenshot width exceeds u32"@)
    } else if shot.height > u32::MAX {
        Some("screenshot height exceeds u32"@)
    } else if shot.width * 3 > usize::MAX {
        Some("failed to construct RGB screenshot"@)
    } else {
        None
    }
}

/// Whether an image holds the pixels of a screenshot.
pub open spec fn is_image_of(shot: ScreenshotView, image: RgbImageView) -> bool {
    &&& image.data == pixels::rgb_of(shot.raw)
    &&& image.width == shot.width
    &&& image.height == shot.height
}

impl Screenshot {
    /// Width and height.
    pub fn size(&self) -> (r: (usize, usize))
        ensures
            r == (self.width, self.height),
    {
        (self.width, self.height)
    }

    /// The screenshot as an image with three-byte pixels.
    pub fn to_rgb(&self) -> (r: Result<RgbImage, String>)
        ensures
            match r {
                Ok(image) => image_error(self@) is None && is_image_of(self@, image@),
                Err(message) => image_error(self@) == Some(message@),
            },
    {
        match check_screenshot(self.raw.len(), self.width, self.height) {
            Ok(_) => {},
            Err(message) => {
                assert(interface::screenshot_error(self@) == Some(message@));
                return Err(message);
            },
        }
        assert(interface::screenshot_error(self@) is None);
        if self.width as u64 > 0xffff_ffff {
            return Err("screenshot width exceeds u32".to_owned());
        }
        if self.height as u64 > 0xffff_ffff {
            return Err("screenshot height exceeds u32".to_owned());
        }
        let data = bgra_to_rgb(self.raw.as_slice());
        proof {
            pixels::law_rgb_size(self.raw@);
            let count = self.width * self.height;
            assert(self.raw@.len() == count * 4);
            assert(self.raw@.len() / 4 == count);
            assert(data@.len() == 3 * count);
            assert(self.width * self.height * 3 == 3 * count);
        }
        match image_from_raw(self.width as u32, self.height as u32, data) {
            Some(image) => Ok(image),
            None => Err("failed to construct RGB screenshot".to_owned()),
        }
    }
}

/// A frame and the area of the desktop that it showed when it was captured.
#[derive(Debug, PartialEq, Eq)]
pub struct CapturedFrame {
    /// Changes whenever the capture source changes or goes.
    pub source_generation: u64,
    pub sequence: u64,
    pub screenshot: Screenshot,
    pub geometry: CaptureGeometry,
}

/// The contents of a `CapturedFrame`.
#[verifier::ext_equal]
pub struct CapturedFrameView {
    pub source_generation: u64,
    pub sequence: u64,
    pub screenshot: ScreenshotView,
    pub geometry: CaptureGeometry,
}

impl View for CapturedFrame {
    type V = CapturedFrameView;

    open spec fn view(&self) -> CapturedFrameView {
        CapturedFrameView {
            source_generation: self.source_generation,
            sequence: self.sequence,
            screenshot: self.screenshot@,
            geometry: self.geometry,
        }
    }
}

impl Clone for CapturedFrame {
    fn clone(&self) -> (r: Self)
        ensures
            r@ == self@,
    {
        CapturedFrame {
            source_generation: self.source_generation,
            sequence: self.sequence,
            screenshot: self.screenshot.clone(),
            geometry: self.geometry,
        }
    }
}

/// The pointer and the capture source, observed together.
#[derive(Clone, Copy, Debug, PartialEq, Eq)]
pub struct PointerSnapshot {
    pub position: (i32, i32),
    pub capture_geometry: Option<CaptureGeometry>,
    pub source_generation: u64,
    pub target_available: bool,
}

/// A source of frames.
pub trait FrameProvider {
    /// The area that the source shows; none while nothing is captured.
    fn capture_geometry(&mut self) -> Result<Option<CaptureGeometry>, String>;

    /// A frame; none while no source is shared.
    fn capture_frame(&mut self) -> Result<Option<CapturedFrame>, String>;
}

/// A source of observations of the pointer.
pub trait PointerProvider {
    /// The pointer and the capture source as they are now.
    fn snapshot(&mut self) -> Result<PointerSnapshot, String>;
}

/// An area holds the points less than its sides away from its corner, but none at the last
/// coordinates.
pub proof fn law_areas_are_measured_from_their_corners(area: CaptureGeometry, point: (i32, i32))
    ensures
        area.holds(point) <==> {
            &&& 0 <= point.0 - area.left < area.width
            &&& 0 <= point.1 - area.top < area.height
            &&& point.0 != 0x7fff_ffff
            &&& point.1 != 0x7fff_ffff
        },
{
}

/// A screenshot becomes an image where it has four bytes for each pixel and its sides are less
/// than four thousand million; of several errors that of the bytes comes first, then that of the
/// width.
pub proof fn law_errors_of_images_come_in_order(shot: ScreenshotView)
    requires
        shot.raw.len() <= usize::MAX,
        shot.width * 3 <= usize::MAX,
    ensures
        image_error(shot) is None <==> {
            &&& shot.raw.len() == 4 * (shot.width * shot.height)
            &&& shot.width <= 0xffff_ffff
            &&& shot.height <= 0xffff_ffff
        },
        shot.raw.len() == 4 * (shot.width * shot.height) && shot.width > 0xffff_ffff
            ==> image_error(shot) == Some("screenshot width exceeds u32"@),
        shot.raw.len() == 4 * (shot.width * shot.height) && shot.width <= 0xffff_ffff && shot.height
            > 0xffff_ffff ==> image_error(shot) == Some("screenshot height exceeds u32"@),
        shot.raw.len() != 4 * (shot.width * shot.height) ==> image_error(shot)
            == interface::screenshot_error(shot),
{
}

/// An image of a screenshot keeps its sides and the red, the green and the blue byte of each
/// pixel.
pub proof fn law_images_show_the_screenshot(shot: ScreenshotView, image: RgbImageView, i: int)
    requires
        is_image_of(shot, image),
        0 <= i < shot.raw.len() / 4,
    ensures
        image.width == shot.width && image.height == shot.height,
        image.data.len() == 3 * (shot.raw.len() / 4),
        image.data[3 * i] == shot.raw[4 * i + 2],
        image.data[3 * i + 1] == shot.raw[4 * i + 1],
        image.data[3 * i + 2] == shot.raw[4 * i],
{
    pixels::law_rgb_size(shot.raw);
    pixels::law_rgb_keeps_pixels(shot.raw, i);
}

/// The contents of a frame are its numbers, its pixels with their sides, and its area.
pub proof fn law_captured_frames_are_told_by_their_parts(frame: CapturedFrame)
    ensures
        frame@.source_generation == frame.source_generation && frame@.sequence == frame.sequence,
        frame@.geometry == frame.geometry,
        frame@.screenshot.raw == frame.screenshot.raw@,
        frame@.screenshot.width == frame.screenshot.width && frame@.screenshot.height
            == frame.screenshot.height,
{
}

} // verus!
