//! Monitors, screenshots and where they come from.

use crate::pixels;
use crate::pixels::bgra_to_rgb;
use crate::text;
use crate::text::push_decimal;
use vstd::prelude::*;

verus! {

/// The part of the desktop that a monitor shows.
#[derive(Clone, Copy, Debug, PartialEq, Eq, Structural)]
pub struct Monitor {
    pub top: i32,
    pub left: i32,
    pub width: usize,
    pub height: usize,
}

/// A screenshot: rows of pixels with a blue, a green, a red and a fourth byte.
#[derive(Debug, PartialEq, Eq)]
pub struct Screenshot {
    pub raw: Vec<u8>,
    pub width: usize,
    pub height: usize,
}

/// The contents of a `Screenshot`.
#[verifier::ext_equal]
pub struct ScreenshotView {
    pub raw: Seq<u8>,
    pub width: usize,
    pub height: usize,
}

impl View for Screenshot {
    type V = ScreenshotView;

    open spec fn view(&self) -> ScreenshotView {
        ScreenshotView { raw: self.raw@, width: self.width, height: self.height }
    }
}

/// An image: rows of pixels with a red, a green and a blue byte.
#[derive(Debug, PartialEq, Eq)]
pub struct RgbImage {
    pub data: Vec<u8>,
    pub width: usize,
    pub height: usize,
}

/// The contents of an `RgbImage`.
#[verifier::ext_equal]
pub struct RgbImageView {
    pub data: Seq<u8>,
    pub width: usize,
    pub height: usize,
}

impl View for RgbImage {
    type V = RgbImageView;

    open spec fn view(&self) -> RgbImageView {
        RgbImageView { data: self.data@, width: self.width, height: self.height }
    }
}

/// What is wrong with a screenshot, if anything.
pub open spec fn screenshot_error(shot: ScreenshotView) -> Option<Seq<char>> {
    let expected = shot.width * shot.height * 4;
    if expected > usize::MAX {
        Some("screenshot dimensions are too large"@)
    } else if shot.raw.len() != expected {
        Some(
            "BGRA screenshot has "@ + text::decimal_of(shot.raw.len()) + " bytes, expected "@
                + text::decimal_of(expected as nat),
        )
    } else {
        None
    }
}

/// The outcome of turning a screenshot into an image.
pub open spec fn image_of(shot: ScreenshotView) -> Result<RgbImageView, Seq<char>> {
    match screenshot_error(shot) {
        Some(message) => Err(message),
        None => Ok(
            RgbImageView { data: pixels::rgb_of(shot.raw), width: shot.width, height: shot.height },
        ),
    }
}

/// Checks that the bytes of a screenshot fit its sides.
pub fn check_screenshot(len: usize, width: usize, height: usize) -> (r: Result<(), String>)
    ensures
        forall|shot: ScreenshotView|
            #![trigger screenshot_error(shot)]
            shot.raw.len() == len && shot.width == width && shot.height == height ==> match r {
                Ok(_) => screenshot_error(shot) is None,
                Err(message) => screenshot_error(shot) == Some(message@),
            },
{
    let pixels: usize = match width.checked_mul(height) {
        Some(pixels) => pixels,
        None => return Err("screenshot dimensions are too large".to_owned()),
    };
    let expected: usize = match pixels.checked_mul(4) {
        Some(expected) => expected,
        None => return Err("screenshot dimensions are too large".to_owned()),
    };
    if len != expected {
        let mut message: String = "BGRA screenshot has ".to_owned();
        push_decimal(&mut message, len as u64);
        message.append(" bytes, expected ");
        push_decimal(&mut message, expected as u64);
        return Err(message);
    }
    Ok(())
}

impl Screenshot {
    /// Width and height.
    pub fn size(&self) -> (r: (usize, usize))
        ensures
            r == (self.width, self.height),
    {
        (self.width, self.height)
    }

    /// The screenshot as an image with three-byte pixels.
    pub fn to_rgb(&self) -> (r: Result<RgbImage, String>)
        ensures
            match (r, image_of(self@)) {
                (Ok(image), Ok(wanted)) => image@ == wanted,
                (Err(message), Err(wanted)) => message@ == wanted,
                _ => false,
            },
    {
        match check_screenshot(self.raw.len(), self.width, self.height) {
            Ok(_) => {},
            Err(message) => {
                assert(screenshot_error(self@) == Some(message@));
                return Err(message);
            },
        }
        assert(screenshot_error(self@) is None);
        Ok(
            RgbImage {
                data: bgra_to_rgb(self.raw.as_slice()),
                width: self.width,
                height: self.height,
            },
        )
    }
}

/// An image made of a screenshot has three bytes per pixel.
pub proof fn law_image_has_three_bytes_per_pixel(shot: ScreenshotView)
    requires
        image_of(shot) is Ok,
    ensures
        image_of(shot)->Ok_0.data.len() == shot.width * shot.height * 3,
{
    pixels::law_rgb_size(shot.raw);
    let pixels = shot.width * shot.height;
    assert(shot.raw.len() == pixels * 4);
    assert(shot.raw.len() / 4 == pixels);
}

/// A request to a source of frames, with its answer.
pub enum FrameEvent {
    Monitors(Result<Seq<Monitor>, Seq<char>>),
    Frame(Monitor, Result<ScreenshotView, Seq<char>>),
}

/// A source of screenshots. Its history lists the requests made of it.
pub trait FrameProvider: Sized {
    /// The requests so far and their answers. A verified source defines this as its record
    /// of them; with the definition given here the promises of the methods cannot be proved.
    open spec fn history(&self) -> Seq<FrameEvent> {
        arbitrary()
    }

    /// The monitors there are.
    fn monitors(&mut self) -> (r: Result<Vec<Monitor>, String>)
        ensures
            final(self).history() == old(self).history().push(
                FrameEvent::Monitors(
                    match r {
                        Ok(monitors) => Ok(monitors@),
                        Err(message) => Err(message@),
                    },
                ),
            ),
    ;

    /// A screenshot of a monitor.
    fn frame(&mut self, monitor: &Monitor) -> (r: Result<Screenshot, String>)
        ensures
            final(self).history() == old(self).history().push(
                FrameEvent::Frame(
                    *monitor,
                    match r {
                        Ok(shot) => Ok(shot@),
                        Err(message) => Err(message@),
                    },
                ),
            ),
    ;
}

/// A screenshot becomes an image exactly where it has four bytes for each pixel.
pub proof fn law_whole_screenshots_become_images(shot: ScreenshotView)
    requires
        shot.raw.len() <= usize::MAX,
    ensures
        image_of(shot) is Ok <==> shot.raw.len() == 4 * (shot.width * shot.height),
        image_of(shot) == Err::<RgbImageView, Seq<char>>("screenshot dimensions are too large"@)
            || shot.width * shot.height * 4 <= usize::MAX,
{
}

/// An image keeps the sides of its screenshot and the red, the green and the blue byte of each
/// pixel.
pub proof fn law_images_keep_their_pixels(shot: ScreenshotView, i: int)
    requires
        image_of(shot) is Ok,
        0 <= i < shot.width * shot.height,
    ensures
        image_of(shot)->Ok_0.width == shot.width,
        image_of(shot)->Ok_0.height == shot.height,
        image_of(shot)->Ok_0.data[3 * i] == shot.raw[4 * i + 2],
        image_of(shot)->Ok_0.data[3 * i + 1] == shot.raw[4 * i + 1],
        image_of(shot)->Ok_0.data[3 * i + 2] == shot.raw[4 * i],
{
    let count = shot.width * shot.height;
    assert(shot.raw.len() == count * 4);
    assert(shot.raw.len() / 4 == count);
    pixels::law_rgb_keeps_pixels(shot.raw, i);
}

} // verus!
