//! Frames that GStreamer delivers.

use crate::pixels;
use crate::pixels::copy_strided_bgra;
use crate::platform::linux::wayland::{Frame, FrameView};
use crate::text;
use crate::text::{joined, push_signed_decimal};
use vstd::prelude::*;

verus! {

/// The order of the bytes of a pixel.
#[derive(Debug)]
pub enum VideoFormat {
    Bgra,
    Bgrx,
    Other(String),
}

/// A video frame of a sample. Strides and bytes are those of its first plane.
pub struct VideoSample<'a> {
    pub format: VideoFormat,
    pub width: u32,
    pub height: u32,
    pub stride: Option<i32>,
    pub data: &'a [u8],
}

/// Whether `result` is the frame of a sample of the screen at `position`, or says why there is
/// none.
pub open spec fn is_frame_of(
    sample: VideoSample,
    position: (i32, i32),
    result: Result<FrameView, Seq<char>>,
) -> bool {
    let width = sample.width as usize;
    let height = sample.height as usize;
    if sample.format is Other {
        result == Err::<FrameView, Seq<char>>(
            "Expected a BGRA or BGRx frame, received "@ + sample.format->0@,
        )
    } else if sample.stride is None {
        result == Err::<FrameView, Seq<char>>("GStreamer video frame has no plane stride"@)
    } else if sample.stride->0 < 0 {
        result == Err::<FrameView, Seq<char>>(
            "Negative GStreamer video stride is unsupported: "@ + text::signed_decimal_of(
                sample.stride->0 as int,
            ),
        )
    } else {
        let stride = sample.stride->0 as usize;
        match pixels::stride_error(sample.data@.len() as int, width, height, stride) {
            Some(error) => result == Err::<FrameView, Seq<char>>(
                pixels::frame_error_text(sample.data@.len() as int, stride, error),
            ),
            None => result == Ok::<FrameView, Seq<char>>(
                FrameView {
                    data: pixels::rows_of(
                        sample.data@,
                        0,
                        stride as int,
                        width * 4,
                        height as nat,
                    ),
                    width,
                    height,
                    left: position.0,
                    top: position.1,
                    logical_width: width,
                    logical_height: height,
                },
            ),
        }
    }
}

/// The contents of a frame, or the reason why there is none.
pub open spec fn result_view(result: Result<Frame, String>) -> Result<FrameView, Seq<char>> {
    match result {
        Ok(frame) => Ok(frame@),
        Err(message) => Err(message@),
    }
}

/// The frame of a sample of the screen at `position`.
pub fn process_sample(sample: &VideoSample, position: (i32, i32)) -> (r: Result<Frame, String>)
    ensures
        is_frame_of(*sample, position, result_view(r)),
{
    if let VideoFormat::Other(name) = &sample.format {
        return Err(joined("Expected a BGRA or BGRx frame, received ", name.as_str()));
    }
    let stride: i32 = match sample.stride {
        Some(stride) => stride,
        None => return Err("GStreamer video frame has no plane stride".to_owned()),
    };
    if stride < 0 {
        let mut message: String = "Negative GStreamer video stride is unsupported: ".to_owned();
        push_signed_decimal(&mut message, stride as i64);
        return Err(message);
    }
    let width: usize = sample.width as usize;
    let height: usize = sample.height as usize;
    match copy_strided_bgra(sample.data, width, height, stride as usize) {
        Ok(data) => Ok(
            Frame {
                data,
                width,
                height,
                left: position.0,
                top: position.1,
                logical_width: width,
                logical_height: height,
            },
        ),
        Err(message) => Err(message),
    }
}

/// A message of a GStreamer pipeline.
#[derive(Debug)]
pub enum BusMessage {
    Error { source: Option<String>, error: String, debug: Option<String> },
    EndOfStream,
    Other,
}

/// What a message says of the end of a capture, if it ends it.
pub open spec fn bus_error(message: BusMessage) -> Option<Seq<char>> {
    match message {
        BusMessage::Error { source, error, debug } => Some(
            "GStreamer error from "@ + (match source {
                Some(source) => source@,
                None => "unknown GStreamer element"@,
            }) + ": "@ + error@ + " ("@ + (match debug {
                Some(debug) => debug@,
                None => ""@,
            }) + ")"@,
        ),
        BusMessage::EndOfStream => Some("PipeWire stream ended"@),
        BusMessage::Other => None,
    }
}

/// What a message says of the end of a capture, if it ends it.
pub fn gstreamer_error(message: &BusMessage) -> (r: Option<String>)
    ensures
        match (r, bus_error(*message)) {
            (Some(said), Some(wanted)) => said@ == wanted,
            (None, None) => true,
            _ => false,
        },
{
    match message {
        BusMessage::Error { source, error, debug } => {
            let source: &str = match source {
                Some(source) => source.as_str(),
                None => "unknown GStreamer element",
            };
            let debug: &str = match debug {
                Some(debug) => debug.as_str(),
                None => "",
            };
            let mut said = joined("GStreamer error from ", source);
            said.append(": ");
            said.append(error.as_str());
            said.append(" (");
            said.append(debug);
            said.append(")");
            Some(said)
        },
        BusMessage::EndOfStream => Some("PipeWire stream ended".to_owned()),
        BusMessage::Other => None,
    }
}

/// A sample becomes a frame where its pixels are known, its rows lie at a distance of at least
/// four bytes for each pixel, and there are bytes for all of them. The frame has the sides of the
/// sample, in pixels and in logical units, and lies where the screen lies.
pub proof fn law_samples_become_frames(
    sample: VideoSample,
    position: (i32, i32),
    result: Result<FrameView, Seq<char>>,
)
    requires
        is_frame_of(sample, position, result),
        sample.data@.len() <= usize::MAX,
    ensures
        result is Ok <==> {
            &&& sample.format is Bgra || sample.format is Bgrx
            &&& sample.stride is Some && sample.stride->0 >= 4 * sample.width
            &&& sample.stride->0 * sample.height <= sample.data@.len()
        },
        result is Ok ==> {
            let frame = result->Ok_0;
            &&& frame.width == sample.width && frame.height == sample.height
            &&& frame.logical_width == sample.width && frame.logical_height == sample.height
            &&& frame.left == position.0 && frame.top == position.1
        },
{
    if sample.stride is Some && sample.stride->0 >= 0 {
        pixels::law_rows_that_fit_can_be_packed(
            sample.data@.len() as int,
            sample.width as usize,
            sample.height as usize,
            sample.stride->0 as usize,
        );
    }
}

/// Byte `b` of pixel (`x`, `y`) of a frame is that of the sample, whose rows lie at its distance.
pub proof fn law_frames_keep_the_pixels_of_samples(
    sample: VideoSample,
    position: (i32, i32),
    frame: FrameView,
    x: int,
    y: int,
    b: int,
)
    requires
        is_frame_of(sample, position, Ok(frame)),
        sample.data@.len() <= usize::MAX,
        0 <= x < sample.width,
        0 <= y < sample.height,
        0 <= b < 4,
    ensures
        frame.data[(y * sample.width + x) * 4 + b] == sample.data@[y * sample.stride->0 + x * 4
            + b],
{
    law_samples_become_frames(sample, position, Ok(frame));
    let stride = sample.stride->0 as int;
    let row = sample.width as usize * 4;
    let height = sample.height as nat;
    assert((height - 1) * stride + row <= stride * height) by (nonlinear_arith)
        requires
            row <= stride,
            height >= 1,
    ;
    pixels::law_rows_keep_their_bytes(sample.data@, 0, stride, row, height, y, x * 4 + b);
    assert(y * row + (x * 4 + b) == (y * sample.width + x) * 4 + b) by (nonlinear_arith)
        requires
            row == sample.width * 4,
    ;
}

/// A capture ends with an error and with the end of its stream, and with no other message.
pub proof fn law_errors_end_a_capture(message: BusMessage)
    ensures
        bus_error(message) is None <==> message is Other,
        message is EndOfStream ==> bus_error(message) == Some("PipeWire stream ended"@),
{
}

} // verus!
