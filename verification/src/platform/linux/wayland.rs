//! The state of a screen cast and what its buffers make of it.

use crate::pixels;
use crate::pixels::{copy_strided_bgra, crop_bgra};
use crate::platform::interface::{
    copy_bytes, CaptureGeometry, CapturedFrame, PointerSnapshot, Screenshot,
};
use crate::screenshot::interface;
use crate::screenshot::interface::Monitor;
use crate::text;
use crate::text::{joined, push_signed_decimal, trim};
use vstd::prelude::*;

verus! {

/// A frame of a screen cast: rows of four-byte pixels, and the area that they show.
#[derive(Debug)]
pub struct Frame {
    pub data: Vec<u8>,
    pub width: usize,
    pub height: usize,
    pub left: i32,
    pub top: i32,
    pub logical_width: usize,
    pub logical_height: usize,
}

/// The contents of a `Frame`.
#[verifier::ext_equal]
pub struct FrameView {
    pub data: Seq<u8>,
    pub width: usize,
    pub height: usize,
    pub left: i32,
    pub top: i32,
    pub logical_width: usize,
    pub logical_height: usize,
}

impl View for Frame {
    type V = FrameView;

    open spec fn view(&self) -> FrameView {
        FrameView {
            data: self.data@,
            width: self.width,
            height: self.height,
            left: self.left,
            top: self.top,
            logical_width: self.logical_width,
            logical_height: self.logical_height,
        }
    }
}

impl Clone for Frame {
    fn clone(&self) -> (r: Self)
        ensures
            r@ == self@,
    {
        Frame {
            data: copy_bytes(&self.data),
            width: self.width,
            height: self.height,
            left: self.left,
            top: self.top,
            logical_width: self.logical_width,
            logical_height: self.logical_height,
        }
    }
}

/// What is known of a screen cast.
#[derive(Debug)]
pub struct CaptureState {
    pub frame: Option<Frame>,
    pub frame_sequence: u64,
    pub pointer: Option<(i32, i32)>,
    pub pointer_sequence: u64,
    pub error: Option<String>,
    pub stopped: bool,
}

/// The number after `n`; zero follows the greatest.
pub open spec fn next_number(n: u64) -> u64 {
    if n == u64::MAX {
        0
    } else {
        (n + 1) as u64
    }
}

/// What one that waits for the first frame is to do.
#[derive(Debug)]
pub enum Readiness {
    /// Go on: there is a frame.
    Ready,
    /// Give up with this message.
    Failed(String),
    /// Give up: the time is over.
    TimedOut,
    /// Wait for a change.
    Wait,
}

/// Whether `readiness` is what one that waits for the first frame is to do.
pub open spec fn is_readiness(state: CaptureState, expired: bool, readiness: Readiness) -> bool {
    if state.frame is Some {
        readiness is Ready
    } else if state.error is Some {
        readiness is Failed && readiness->Failed_0@ == state.error->0@
    } else if state.stopped {
        readiness is Failed && readiness->Failed_0@
            == "Wayland capture stopped before receiving a frame"@
    } else if expired {
        readiness is TimedOut
    } else {
        readiness is Wait
    }
}

/// The area that a frame shows.
pub open spec fn frame_area(frame: Frame) -> CaptureGeometry {
    CaptureGeometry {
        top: frame.top,
        left: frame.left,
        width: frame.logical_width,
        height: frame.logical_height,
    }
}

/// Whether `result` is the pointer and the area of the last frame, observed together, or says why
/// there is no such observation.
pub open spec fn is_snapshot(
    state: CaptureState,
    position_override: Option<(i32, i32)>,
    result: Result<PointerSnapshot, String>,
) -> bool {
    let position = if position_override is Some {
        position_override
    } else {
        state.pointer
    };
    match result {
        Ok(snapshot) => position is Some && state.frame is Some && snapshot == (PointerSnapshot {
            position: position->0,
            capture_geometry: Some(frame_area(state.frame->0)),
            source_generation: 1,
            target_available: true,
        }),
        Err(message) => if position is None {
            message@ == "Neither X11 nor the Wayland screencast provided cursor coordinates"@
        } else {
            state.frame is None && message@ == "The Wayland screencast has not provided a frame yet"@
        },
    }
}

/// Whether the place of a cursor is a coordinate in logical units.
pub open spec fn can_scale(
    cursor: Option<(i32, i32)>,
    stream_position: (i32, i32),
    logical_size: (i32, i32),
    pixel_size: (u32, u32),
) -> bool {
    cursor is Some && pixel_size.0 != 0 && pixel_size.1 != 0 ==> {
        &&& i32::MIN <= stream_position.0 + scaled(
            cursor.unwrap().0,
            logical_size.0,
            pixel_size.0,
        ) <= i32::MAX
        &&& i32::MIN <= stream_position.1 + scaled(
            cursor.unwrap().1,
            logical_size.1,
            pixel_size.1,
        ) <= i32::MAX
    }
}

impl CaptureState {
    /// The state after a frame.
    pub open spec fn with_frame(self, frame: Frame) -> CaptureState {
        CaptureState {
            frame: Some(frame),
            frame_sequence: next_number(self.frame_sequence),
            ..self
        }
    }

    /// The state after an error.
    pub open spec fn failed(self, error: String) -> CaptureState {
        CaptureState {
            error: if self.error is None {
                Some(error)
            } else {
                self.error
            },
            stopped: true,
            ..self
        }
    }

    /// The state after the pointer was seen.
    pub open spec fn with_cursor(
        self,
        cursor: Option<(i32, i32)>,
        stream_position: (i32, i32),
        logical_size: (i32, i32),
        pixel_size: (u32, u32),
    ) -> CaptureState {
        if cursor is Some && pixel_size.0 != 0 && pixel_size.1 != 0 {
            CaptureState {
                pointer: Some(
                    (
                        (stream_position.0 + scaled(
                            cursor.unwrap().0,
                            logical_size.0,
                            pixel_size.0,
                        )) as i32,
                        (stream_position.1 + scaled(
                            cursor.unwrap().1,
                            logical_size.1,
                            pixel_size.1,
                        )) as i32,
                    ),
                ),
                pointer_sequence: next_number(self.pointer_sequence),
                ..self
            }
        } else {
            self
        }
    }

    /// Nothing is known yet.
    pub fn new() -> (r: Self)
        ensures
            r == (CaptureState {
                frame: None,
                frame_sequence: 0,
                pointer: None,
                pointer_sequence: 0,
                error: None,
                stopped: false,
            }),
    {
        CaptureState {
            frame: None,
            frame_sequence: 0,
            pointer: None,
            pointer_sequence: 0,
            error: None,
            stopped: false,
        }
    }

    /// A frame arrived.
    pub fn set_frame(&mut self, frame: Frame)
        ensures
            *final(self) == old(self).with_frame(frame),
    {
        self.frame_sequence = self.frame_sequence.wrapping_add(1);
        self.frame = Some(frame);
    }

    /// The screen cast failed. The first error is the one that counts.
    pub fn fail(&mut self, error: String)
        ensures
            *final(self) == old(self).failed(error),
    {
        if self.error.is_none() {
            self.error = Some(error);
        }
        self.stopped = true;
    }

    /// The screen cast ended.
    pub fn mark_stopped(&mut self)
        ensures
            *final(self) == (CaptureState { stopped: true, ..*old(self) }),
    {
        self.stopped = true;
    }

    /// What one that waits for the first frame is to do, where `expired` says whether its time
    /// is over.
    pub fn readiness(&self, expired: bool) -> (r: Readiness)
        ensures
            is_readiness(*self, expired, r),
    {
        if self.frame.is_some() {
            return Readiness::Ready;
        }
        if let Some(error) = &self.error {
            return Readiness::Failed(error.clone());
        }
        if self.stopped {
            return Readiness::Failed(
                "Wayland capture stopped before receiving a frame".to_owned(),
            );
        }
        if expired {
            Readiness::TimedOut
        } else {
            Readiness::Wait
        }
    }

    /// Whether one whose wait ended because its time was over is to give up at once.
    pub fn gives_up_after_wait(&self, timed_out: bool) -> (r: bool)
        ensures
            r == (timed_out && self.frame is None && self.error is None),
    {
        timed_out && self.frame.is_none() && self.error.is_none()
    }

    /// The pointer moved. Buffers without a usable cursor change nothing.
    pub fn update_cursor(
        &mut self,
        cursor: Option<(i32, i32)>,
        stream_position: (i32, i32),
        logical_size: (i32, i32),
        pixel_size: (u32, u32),
    )
        requires
            can_scale(cursor, stream_position, logical_size, pixel_size),
        ensures
            *final(self) == old(self).with_cursor(
                cursor,
                stream_position,
                logical_size,
                pixel_size,
            ),
    {
        let cursor = match cursor {
            Some(cursor) => cursor,
            None => return,
        };
        if pixel_size.0 == 0 || pixel_size.1 == 0 {
            return;
        }
        let x: i32 = stream_position.0 + scale_coordinate(cursor.0, logical_size.0, pixel_size.0);
        let y: i32 = stream_position.1 + scale_coordinate(cursor.1, logical_size.1, pixel_size.1);
        self.pointer = Some((x, y));
        self.pointer_sequence = self.pointer_sequence.wrapping_add(1);
    }

    /// The last observation of the pointer and its number.
    pub fn pipewire_observation(&self) -> (r: Option<((i32, i32), u64)>)
        ensures
            r == (match self.pointer {
                Some(pointer) => Some((pointer, self.pointer_sequence)),
                None => None,
            }),
    {
        match self.pointer {
            Some(pointer) => Some((pointer, self.pointer_sequence)),
            None => None,
        }
    }

    /// The pointer and the area of the last frame, observed together; `position_override` goes
    /// before the observed position.
    pub fn snapshot_with_position_override(&self, position_override: Option<(i32, i32)>) -> (r:
        Result<PointerSnapshot, String>)
        ensures
            is_snapshot(*self, position_override, r),
    {
        let position = match position_override {
            Some(position) => position,
            None => match self.pointer {
                Some(position) => position,
                None => return Err(
                    "Neither X11 nor the Wayland screencast provided cursor coordinates".to_owned(),
                ),
            },
        };
        match &self.frame {
            Some(frame) => Ok(
                PointerSnapshot {
                    position,
                    capture_geometry: Some(
                        CaptureGeometry {
                            top: frame.top,
                            left: frame.left,
                            width: frame.logical_width,
                            height: frame.logical_height,
                        },
                    ),
                    source_generation: 1,
                    target_available: true,
                },
            ),
            None => Err("The Wayland screencast has not provided a frame yet".to_owned()),
        }
    }

    /// The area of the last frame.
    pub fn selected_geometry(&self) -> (r: Result<CaptureGeometry, String>)
        ensures
            match r {
                Ok(geometry) => self.frame is Some && geometry == frame_area(self.frame->0),
                Err(message) => self.frame is None && message@ == "Invalid frame received"@,
            },
    {
        match &self.frame {
            Some(frame) => Ok(
                CaptureGeometry {
                    top: frame.top,
                    left: frame.left,
                    width: frame.logical_width,
                    height: frame.logical_height,
                },
            ),
            None => Err("Invalid frame received".to_owned()),
        }
    }

    /// The last frame.
    pub fn latest_captured_frame(&self) -> (r: Result<CapturedFrame, String>)
        ensures
            match r {
                Ok(captured) => {
                    &&& self.frame is Some
                    &&& captured.source_generation == 1
                    &&& captured.sequence == self.frame_sequence
                    &&& captured.geometry == frame_area(self.frame->0)
                    &&& captured.screenshot@ == (interface::ScreenshotView {
                        raw: self.frame->0.data@,
                        width: self.frame->0.width,
                        height: self.frame->0.height,
                    })
                },
                Err(message) => self.frame is None && message@ == "Invalid frame received"@,
            },
    {
        match &self.frame {
            Some(frame) => Ok(
                CapturedFrame {
                    source_generation: 1,
                    sequence: self.frame_sequence,
                    geometry: CaptureGeometry {
                        top: frame.top,
                        left: frame.left,
                        width: frame.logical_width,
                        height: frame.logical_height,
                    },
                    screenshot: Screenshot {
                        raw: copy_bytes(&frame.data),
                        width: frame.width,
                        height: frame.height,
                    },
                },
            ),
            None => Err("Invalid frame received".to_owned()),
        }
    }
}

/// The first error of a capture stays, whatever fails after it, and a frame does not clear it.
pub proof fn law_first_error_stays(state: CaptureState, first: String, later: String, frame: Frame)
    requires
        state.error is None,
    ensures
        state.failed(first).failed(later).error == Some(first),
        state.failed(first).with_frame(frame).error == Some(first),
        state.failed(first).with_frame(frame).stopped,
{
}

/// The quotient of `a` by a positive `b`, cut towards zero.
pub open spec fn quotient(a: int, b: int) -> int {
    if a < 0 {
        -((-a) / b)
    } else {
        a / b
    }
}

/// A pixel coordinate in logical units: the lower 32 bits of the quotient.
pub open spec fn scaled(position: i32, logical: i32, pixels: u32) -> i32 {
    (quotient(position * logical, pixels as int) as i64) as i32
}

/// Where a screen is shown pixel by pixel, coordinates stay as they are.
pub proof fn law_unscaled_screens_keep_coordinates(position: i32, pixels: u32)
    requires
        0 < pixels <= i32::MAX,
    ensures
        scaled(position, pixels as i32, pixels) == position,
{
    let p = position as int;
    let n = pixels as int;
    if p < 0 {
        assert((-(p * n)) / n == -p && p * n < 0) by (nonlinear_arith)
            requires
                n > 0,
                p < 0,
        ;
    } else {
        assert((p * n) / n == p && p * n >= 0) by (nonlinear_arith)
            requires
                n > 0,
                p >= 0,
        ;
    }
}

fn scale_coordinate(position: i32, logical: i32, pixels: u32) -> (r: i32)
    requires
        pixels > 0,
    ensures
        r == scaled(position, logical, pixels),
{
    assert(-0x4000_0000_0000_0000 <= position * logical <= 0x4000_0000_0000_0000)
        by (nonlinear_arith)
        requires
            -0x8000_0000 <= position < 0x8000_0000,
            -0x8000_0000 <= logical < 0x8000_0000,
    ;
    let product: i64 = position as i64 * logical as i64;
    let result: i64 = if product < 0 {
        let magnitude: u64 = (-product) as u64 / pixels as u64;
        assert(magnitude <= (-product)) by (nonlinear_arith)
            requires
                magnitude == (-product) / (pixels as int),
                product < 0,
                pixels > 0,
        ;
        -(magnitude as i64)
    } else {
        let magnitude: u64 = product as u64 / pixels as u64;
        assert(magnitude <= product) by (nonlinear_arith)
            requires
                magnitude == (product as int) / (pixels as int),
                product >= 0,
                pixels > 0,
        ;
        magnitude as i64
    };
    assert(result == quotient(position * logical, pixels as int));
    #[verifier::truncate]
    let r: i32 = result as i32;
    r
}

/// A buffer of a screen cast.
pub struct CastBuffer<'a> {
    /// The bytes, where they are mapped.
    pub mapped: Option<&'a [u8]>,
    pub offset: usize,
    pub size: usize,
    pub stride: i32,
}

impl<'a> CastBuffer<'a> {
    /// Whether the pixels, if there are any, begin in the mapped bytes.
    pub open spec fn can_be_read(self) -> bool {
        self.size > 0 && self.stride >= 0 && self.mapped is Some ==> self.offset
            <= self.mapped->0@.len()
    }
}

/// What a buffer means.
#[derive(Debug)]
pub enum BufferOutcome {
    /// There are no pixels in it.
    Ignored,
    /// A frame.
    Frame(Frame),
    /// The screen cast failed.
    Failed(String),
}

/// The part of the mapped bytes that holds pixels.
pub open spec fn pixel_bytes(mapped: Seq<u8>, offset: usize, size: usize) -> Seq<u8> {
    let end = if offset + size < mapped.len() {
        offset + size
    } else {
        mapped.len() as int
    };
    mapped.subrange(offset as int, end)
}

/// Whether `outcome` is what a buffer means.
pub open spec fn is_reading(
    buffer: CastBuffer,
    pixel_size: (u32, u32),
    stream_position: (i32, i32),
    logical_size: (i32, i32),
    outcome: BufferOutcome,
) -> bool {
    if buffer.size == 0 {
        outcome is Ignored
    } else if buffer.stride < 0 {
        outcome is Failed && outcome->Failed_0@ == "Negative PipeWire video stride: "@
            + text::signed_decimal_of(buffer.stride as int)
    } else if buffer.mapped is None {
        outcome is Failed && outcome->Failed_0@ == "PipeWire returned an unmapped video buffer"@
    } else {
        let bytes = pixel_bytes(buffer.mapped->0@, buffer.offset, buffer.size);
        let width = pixel_size.0 as usize;
        let height = pixel_size.1 as usize;
        let stride = buffer.stride as usize;
        match pixels::stride_error(bytes.len() as int, width, height, stride) {
            Some(error) => outcome is Failed && outcome->Failed_0@ == pixels::frame_error_text(
                bytes.len() as int,
                stride,
                error,
            ),
            None => outcome is Frame && outcome->Frame_0@ == (FrameView {
                data: pixels::rows_of(bytes, 0, stride as int, width * 4, height as nat),
                width,
                height,
                left: stream_position.0,
                top: stream_position.1,
                logical_width: if logical_size.0 > 0 {
                    logical_size.0 as usize
                } else {
                    0
                },
                logical_height: if logical_size.1 > 0 {
                    logical_size.1 as usize
                } else {
                    0
                },
            }),
        }
    }
}

/// What a buffer with pictures of `pixel_size` means, where the screen lies at
/// `stream_position` and is `logical_size` large.
pub fn read_buffer(
    buffer: &CastBuffer,
    pixel_size: (u32, u32),
    stream_position: (i32, i32),
    logical_size: (i32, i32),
) -> (r: BufferOutcome)
    requires
        buffer.can_be_read(),
    ensures
        is_reading(*buffer, pixel_size, stream_position, logical_size, r),
{
    if buffer.size == 0 {
        return BufferOutcome::Ignored;
    }
    if buffer.stride < 0 {
        let mut message: String = "Negative PipeWire video stride: ".to_owned();
        push_signed_decimal(&mut message, buffer.stride as i64);
        return BufferOutcome::Failed(message);
    }
    let mapped = match buffer.mapped {
        Some(mapped) => mapped,
        None => return BufferOutcome::Failed(
            "PipeWire returned an unmapped video buffer".to_owned(),
        ),
    };
    let len: usize = mapped.len();
    let end: usize = if buffer.size < len - buffer.offset {
        buffer.offset + buffer.size
    } else {
        len
    };
    let bytes = vstd::slice::slice_subrange(mapped, buffer.offset, end);
    let width: usize = pixel_size.0 as usize;
    let height: usize = pixel_size.1 as usize;
    match copy_strided_bgra(bytes, width, height, buffer.stride as usize) {
        Err(message) => BufferOutcome::Failed(message),
        Ok(data) => BufferOutcome::Frame(
            Frame {
                data,
                width,
                height,
                left: stream_position.0,
                top: stream_position.1,
                logical_width: if logical_size.0 > 0 {
                    logical_size.0 as usize
                } else {
                    0
                },
                logical_height: if logical_size.1 > 0 {
                    logical_size.1 as usize
                } else {
                    0
                },
            },
        ),
    }
}

/// The state after a buffer.
pub open spec fn is_after_buffer(
    before: CaptureState,
    after: CaptureState,
    cursor: Option<(i32, i32)>,
    outcome: Option<BufferOutcome>,
    stream_position: (i32, i32),
    logical_size: (i32, i32),
    pixel_size: (u32, u32),
) -> bool {
    let moved = before.with_cursor(cursor, stream_position, logical_size, pixel_size);
    match outcome {
        Some(BufferOutcome::Frame(frame)) => after == moved.with_frame(frame),
        Some(BufferOutcome::Failed(message)) => after == moved.failed(message),
        _ => after == moved,
    }
}

impl CaptureState {
    /// A buffer arrived, with the place of the cursor, with pixels, with both or with neither.
    pub fn process_buffer(
        &mut self,
        cursor: Option<(i32, i32)>,
        buffer: Option<&CastBuffer>,
        pixel_size: (u32, u32),
        stream_position: (i32, i32),
        logical_size: (i32, i32),
    )
        requires
            can_scale(cursor, stream_position, logical_size, pixel_size),
            buffer is Some ==> buffer->0.can_be_read(),
        ensures
            exists|outcome: Option<BufferOutcome>|
                {
                    &&& #[trigger] is_after_buffer(
                        *old(self),
                        *final(self),
                        cursor,
                        outcome,
                        stream_position,
                        logical_size,
                        pixel_size,
                    )
                    &&& outcome is Some == buffer is Some
                    &&& outcome is Some ==> is_reading(
                        *buffer->0,
                        pixel_size,
                        stream_position,
                        logical_size,
                        outcome->0,
                    )
                },
    {
        self.update_cursor(cursor, stream_position, logical_size, pixel_size);
        let outcome = match buffer {
            Some(buffer) => Some(read_buffer(buffer, pixel_size, stream_position, logical_size)),
            None => None,
        };
        let ghost what = outcome;
        match outcome {
            Some(BufferOutcome::Frame(frame)) => self.set_frame(frame),
            Some(BufferOutcome::Failed(message)) => self.fail(message),
            _ => {},
        }
        assert(is_after_buffer(
            *old(self),
            *self,
            cursor,
            what,
            stream_position,
            logical_size,
            pixel_size,
        ));
    }
}

/// Where a screen lies and how large it is, as the portal said; sides have to have a length.
pub fn stream_geometry(position: Option<(i32, i32)>, size: Option<(i32, i32)>) -> (r: Result<
    ((i32, i32), (i32, i32)),
    String,
>)
    ensures
        match r {
            Ok((at, logical)) => size == Some(logical) && logical.0 > 0 && logical.1 > 0 && at == (
            match position {
                Some(position) => position,
                None => (0i32, 0i32),
            }),
            Err(message) => (size is None || size.unwrap().0 <= 0 || size.unwrap().1 <= 0) && message@
                == "The Wayland portal returned invalid monitor geometry"@,
        },
{
    let at: (i32, i32) = match position {
        Some(position) => position,
        None => (0, 0),
    };
    match size {
        Some(size) => if size.0 > 0 && size.1 > 0 {
            Ok((at, size))
        } else {
            Err("The Wayland portal returned invalid monitor geometry".to_owned())
        },
        None => Err("The Wayland portal returned invalid monitor geometry".to_owned()),
    }
}

/// The token that restores an earlier selection, where the file with it could be read: its
/// contents without the white space around them, unless nothing is left.
pub fn restore_token(contents: Option<&str>) -> (r: Option<String>)
    ensures
        match r {
            Some(token) => contents is Some && token@ == text::trimmed(contents->0@) && token@.len()
                > 0,
            None => contents is None || text::trimmed(contents->0@).len() == 0,
        },
{
    match contents {
        Some(contents) => {
            let token = trim(contents);
            if token.as_str().is_empty() {
                None
            } else {
                Some(token)
            }
        },
        None => None,
    }
}

/// Checks the path of the file with the token.
pub fn check_token_path(token_path: &str) -> (r: Result<(), String>)
    ensures
        match r {
            Ok(_) => token_path@.len() > 0,
            Err(message) => token_path@.len() == 0 && message@ == "token_path must not be empty"@,
        },
{
    if token_path.is_empty() {
        Err("token_path must not be empty".to_owned())
    } else {
        Ok(())
    }
}

/// What a wait for the first frame ends with.
pub fn wait_result(readiness: Readiness) -> (r: Result<(), String>)
    requires
        !(readiness is Wait),
    ensures
        match readiness {
            Readiness::Ready => r is Ok,
            Readiness::Failed(message) => r == Err::<(), String>(message),
            _ => r is Err && r->Err_0@ == "Timed out waiting for the first Wayland frame"@,
        },
{
    match readiness {
        Readiness::Ready => Ok(()),
        Readiness::Failed(message) => Err(message),
        _ => Err("Timed out waiting for the first Wayland frame".to_owned()),
    }
}

/// What is said of the end of a capture: the first of what went wrong, if anything did, where
/// `stopping` and `closing` say how stopping its stream and closing its session went.
pub fn end_of_capture(
    result: Result<(), String>,
    stopping: Result<(), String>,
    closing: Result<(), String>,
) -> (r: Result<(), String>)
    ensures
        match (result, stopping, closing) {
            (Err(error), _, _) => r == Err::<(), String>(error),
            (Ok(_), Err(error), _) => r is Err && r->Err_0@
                == "Could not stop GStreamer pipeline: "@ + error@,
            (Ok(_), Ok(_), Err(error)) => r is Err && r->Err_0@
                == "Could not close ScreenCast session: "@ + error@,
            (Ok(_), Ok(_), Ok(_)) => r is Ok,
        },
{
    match result {
        Err(error) => Err(error),
        Ok(_) => match stopping {
            Err(error) => Err(joined("Could not stop GStreamer pipeline: ", error.as_str())),
            Ok(_) => match closing {
                Err(error) => Err(joined("Could not close ScreenCast session: ", error.as_str())),
                Ok(_) => Ok(()),
            },
        },
    }
}

/// The monitors of a screen cast: the whole desktop and the one screen in it, which are the
/// same.
pub fn cast_monitors(frame: &Frame) -> (r: Vec<Monitor>)
    ensures
        r@ == seq![frame_monitor(*frame), frame_monitor(*frame)],
{
    let monitor = Monitor {
        top: frame.top,
        left: frame.left,
        width: frame.width,
        height: frame.height,
    };
    let mut r: Vec<Monitor> = Vec::new();
    r.push(monitor);
    r.push(monitor);
    assert(r@ =~= seq![frame_monitor(*frame), frame_monitor(*frame)]);
    r
}

/// The monitor that a frame shows.
pub open spec fn frame_monitor(frame: Frame) -> Monitor {
    Monitor { top: frame.top, left: frame.left, width: frame.width, height: frame.height }
}

/// Whether a screenshot is the part of a frame that a monitor shows, cut to the frame.
pub open spec fn is_grab(
    frame: FrameView,
    monitor: Monitor,
    shot: interface::ScreenshotView,
) -> bool {
    pixels::is_crop(
        frame.data,
        frame.width,
        frame.height,
        (monitor.left - frame.left, monitor.top - frame.top),
        ((monitor.width as i64) as int, (monitor.height as i64) as int),
        shot.raw,
        shot.width,
        shot.height,
    )
}

/// The part of a frame that a monitor shows.
pub fn grab_screenshot(frame: &Frame, monitor: &Monitor) -> (r: Result<
    interface::Screenshot,
    String,
>)
    ensures
        match r {
            Ok(shot) => is_grab(frame@, *monitor, shot@),
            Err(message) => if frame.width == 0 || frame.height == 0 {
                message@ == "frame dimensions must be greater than zero"@
            } else if frame.width * 4 * frame.height > usize::MAX {
                message@ == "frame dimensions are too large"@
            } else {
                frame.width * 4 * frame.height > frame.data@.len() && message@
                    == "BGRA buffer is smaller than its declared dimensions"@
            },
        },
{
    #[verifier::truncate]
    let width: i64 = monitor.width as i64;
    #[verifier::truncate]
    let height: i64 = monitor.height as i64;
    match crop_bgra(
        frame.data.as_slice(),
        frame.width,
        frame.height,
        monitor.left as i64 - frame.left as i64,
        monitor.top as i64 - frame.top as i64,
        width,
        height,
    ) {
        Ok((raw, width, height)) => Ok(interface::Screenshot { raw, width, height }),
        Err(message) => Err(message.to_owned()),
    }
}

/// A frame replaces the last one and is counted; what else is known stays.
pub proof fn law_frames_are_counted(state: CaptureState, frame: Frame)
    ensures
        ({
            let after = state.with_frame(frame);
            &&& after.frame == Some(frame)
            &&& state.frame_sequence < u64::MAX ==> after.frame_sequence == state.frame_sequence + 1
            &&& state.frame_sequence == u64::MAX ==> after.frame_sequence == 0
            &&& after.pointer == state.pointer && after.pointer_sequence == state.pointer_sequence
            &&& after.error == state.error && after.stopped == state.stopped
        }),
{
}

/// A cursor in a picture of pixels becomes a place on the desktop: where the screen lies, and as
/// far from there as the screen is scaled, counted as one more observation. Without a cursor, and
/// in pictures without pixels, nothing changes.
pub proof fn law_cursors_are_scaled_to_the_desktop(
    state: CaptureState,
    cursor: (i32, i32),
    stream_position: (i32, i32),
    logical_size: (i32, i32),
    pixel_size: (u32, u32),
)
    requires
        can_scale(Some(cursor), stream_position, logical_size, pixel_size),
    ensures
        state.with_cursor(None, stream_position, logical_size, pixel_size) == state,
        ({
            let after = state.with_cursor(
                Some(cursor),
                stream_position,
                logical_size,
                pixel_size,
            );
            &&& pixel_size.0 == 0 || pixel_size.1 == 0 ==> after == state
            &&& pixel_size.0 > 0 && pixel_size.1 > 0 ==> {
                &&& after.pointer is Some
                &&& after.pointer.unwrap().0 - stream_position.0 == scaled(
                    cursor.0,
                    logical_size.0,
                    pixel_size.0,
                )
                &&& after.pointer.unwrap().1 - stream_position.1 == scaled(
                    cursor.1,
                    logical_size.1,
                    pixel_size.1,
                )
                &&& state.pointer_sequence < u64::MAX ==> after.pointer_sequence
                    == state.pointer_sequence + 1
                &&& after.frame == state.frame && after.frame_sequence == state.frame_sequence
                &&& after.error == state.error && after.stopped == state.stopped
            }
        }),
{
}

/// A coordinate is scaled as the logical side is to the side in pixels, cut towards zero.
pub proof fn law_coordinates_are_scaled_by_sides(position: i32, logical: i32, pixels: u32)
    requires
        pixels > 0,
        logical >= 0,
        logical <= pixels,
    ensures
        position >= 0 ==> scaled(position, logical, pixels) * pixels <= position * logical
            < scaled(position, logical, pixels) * pixels + pixels,
        position <= 0 ==> scaled(position, logical, pixels) * pixels >= position * logical
            > scaled(position, logical, pixels) * pixels - pixels,
{
    let n = pixels as int;
    let product = position * logical;
    let size = if product < 0 {
        -product
    } else {
        product
    };
    let q = size / n;
    vstd::arithmetic::div_mod::lemma_fundamental_div_mod(size, n);
    vstd::arithmetic::div_mod::lemma_mod_bound(size, n);
    let p = if position < 0 {
        -(position as int)
    } else {
        position as int
    };
    assert(size == p * logical) by (nonlinear_arith)
        requires
            product == position * logical,
            logical >= 0,
            size == (if product < 0 {
                -product
            } else {
                product
            }),
            p == (if position < 0 {
                -(position as int)
            } else {
                position as int
            }),
    ;
    assert(p * logical <= p * n) by (nonlinear_arith)
        requires
            0 <= p,
            0 <= logical <= n,
    ;
    assert(0 <= q <= p) by (nonlinear_arith)
        requires
            size == n * q + size % n,
            0 <= size % n,
            size <= p * n,
            n > 0,
            0 <= size,
            q == size / n,
    ;
    assert(n * q == q * n) by (nonlinear_arith);
    if position > 0 {
        assert(product >= 0) by (nonlinear_arith)
            requires
                product == position * logical,
                position > 0,
                logical >= 0,
        ;
    }
    if position < 0 {
        assert(product <= 0) by (nonlinear_arith)
            requires
                product == position * logical,
                position < 0,
                logical >= 0,
        ;
    }
    let s = scaled(position, logical, pixels) as int;
    if product < 0 {
        assert(s == -q);
        assert(s * n == -(q * n)) by (nonlinear_arith)
            requires
                s == -q,
        ;
    } else {
        if position < 0 {
            assert(q == 0) by (nonlinear_arith)
                requires
                    q == size / n,
                    size == 0,
                    n > 0,
            ;
        }
        assert(s == q);
    }
}

/// What a buffer means is told by its size, its distance of rows and its bytes: an empty one
/// means nothing, and any other is a frame exactly where its bytes are mapped and hold all rows.
pub proof fn law_buffers_hold_whole_frames(
    buffer: CastBuffer,
    pixel_size: (u32, u32),
    stream_position: (i32, i32),
    logical_size: (i32, i32),
    outcome: BufferOutcome,
)
    requires
        buffer.can_be_read(),
        is_reading(buffer, pixel_size, stream_position, logical_size, outcome),
        buffer.mapped is Some ==> buffer.mapped->0@.len() <= usize::MAX,
    ensures
        outcome is Ignored <==> buffer.size == 0,
        outcome is Frame <==> {
            &&& buffer.size > 0 && buffer.mapped is Some
            &&& buffer.stride >= 4 * pixel_size.0
            &&& buffer.stride * pixel_size.1 <= buffer.size
            &&& buffer.offset + buffer.stride * pixel_size.1 <= buffer.mapped->0@.len()
        },
        outcome is Frame ==> {
            let frame = outcome->Frame_0;
            &&& frame.width == pixel_size.0 && frame.height == pixel_size.1
            &&& frame.left == stream_position.0 && frame.top == stream_position.1
            &&& logical_size.0 >= 0 ==> frame.logical_width == logical_size.0
            &&& logical_size.1 >= 0 ==> frame.logical_height == logical_size.1
            &&& logical_size.0 < 0 ==> frame.logical_width == 0
            &&& logical_size.1 < 0 ==> frame.logical_height == 0
        },
{
    if buffer.size > 0 && buffer.stride >= 0 && buffer.mapped is Some {
        let bytes = pixel_bytes(buffer.mapped->0@, buffer.offset, buffer.size);
        pixels::law_rows_that_fit_can_be_packed(
            bytes.len() as int,
            pixel_size.0 as usize,
            pixel_size.1 as usize,
            buffer.stride as usize,
        );
        if outcome is Frame {
            let frame = outcome->Frame_0@;
            assert(outcome->Frame_0.width == frame.width && outcome->Frame_0.height == frame.height);
            assert(outcome->Frame_0.left == frame.left && outcome->Frame_0.top == frame.top);
        }
    }
}

/// Byte `b` of pixel (`x`, `y`) of a frame is that of the buffer, whose pixels begin at its offset
/// and whose rows lie at its distance.
pub proof fn law_frames_keep_the_pixels_of_buffers(
    buffer: CastBuffer,
    pixel_size: (u32, u32),
    stream_position: (i32, i32),
    logical_size: (i32, i32),
    frame: Frame,
    x: int,
    y: int,
    b: int,
)
    requires
        buffer.can_be_read(),
        is_reading(
            buffer,
            pixel_size,
            stream_position,
            logical_size,
            BufferOutcome::Frame(frame),
        ),
        buffer.mapped is Some ==> buffer.mapped->0@.len() <= usize::MAX,
        0 <= x < pixel_size.0,
        0 <= y < pixel_size.1,
        0 <= b < 4,
    ensures
        frame.data@[(y * pixel_size.0 + x) * 4 + b] == buffer.mapped->0@[buffer.offset + y
            * buffer.stride + x * 4 + b],
{
    law_buffers_hold_whole_frames(
        buffer,
        pixel_size,
        stream_position,
        logical_size,
        BufferOutcome::Frame(frame),
    );
    let bytes = pixel_bytes(buffer.mapped->0@, buffer.offset, buffer.size);
    let stride = buffer.stride as int;
    let row = pixel_size.0 as usize * 4;
    let height = pixel_size.1 as nat;
    assert(frame.data@ == frame@.data);
    assert((height - 1) * stride + row <= stride * height) by (nonlinear_arith)
        requires
            row <= stride,
            height >= 1,
    ;
    pixels::law_rows_keep_their_bytes(bytes, 0, stride, row, height, y, x * 4 + b);
    assert(y * row + (x * 4 + b) == (y * pixel_size.0 + x) * 4 + b) by (nonlinear_arith)
        requires
            row == pixel_size.0 * 4,
    ;
    assert(0 <= y * stride) by (nonlinear_arith)
        requires
            0 <= y,
            0 <= stride,
    ;
    assert(y * stride <= (height - 1) * stride) by (nonlinear_arith)
        requires
            0 <= y <= height - 1,
            0 <= stride,
    ;
    assert((height - 1) * stride + stride == stride * height) by (nonlinear_arith);
}

/// After a buffer the cursor has been taken note of in any case; a frame is kept, a failure ends
/// the capture and keeps its last frame.
pub proof fn law_buffers_change_the_state(
    before: CaptureState,
    after: CaptureState,
    cursor: Option<(i32, i32)>,
    outcome: Option<BufferOutcome>,
    stream_position: (i32, i32),
    logical_size: (i32, i32),
    pixel_size: (u32, u32),
)
    requires
        is_after_buffer(
            before,
            after,
            cursor,
            outcome,
            stream_position,
            logical_size,
            pixel_size,
        ),
    ensures
        ({
            let moved = before.with_cursor(cursor, stream_position, logical_size, pixel_size);
            &&& after.pointer == moved.pointer && after.pointer_sequence == moved.pointer_sequence
            &&& match outcome {
                Some(BufferOutcome::Frame(frame)) => after.frame == Some(frame) && after.stopped
                    == before.stopped && after.error == before.error,
                Some(BufferOutcome::Failed(message)) => after.frame == before.frame
                    && after.stopped && after.error == (if before.error is Some {
                    before.error
                } else {
                    Some(message)
                }),
                _ => after.frame == before.frame && after.stopped == before.stopped && after.error
                    == before.error && after.frame_sequence == before.frame_sequence,
            }
        }),
{
}

/// The screenshot of a monitor that lies in the frame has the sides of the monitor and shows the
/// same points of the desktop: byte `b` of its pixel for the point `x`, `y` is that of the
/// frame's pixel for that point.
pub proof fn law_screenshots_show_the_monitor(
    frame: FrameView,
    monitor: Monitor,
    shot: interface::ScreenshotView,
    x: int,
    y: int,
    b: int,
)
    requires
        is_grab(frame, monitor, shot),
        monitor.width <= i64::MAX && monitor.height <= i64::MAX,
        frame.left <= monitor.left <= x < monitor.left + monitor.width,
        frame.top <= monitor.top <= y < monitor.top + monitor.height,
        monitor.left + monitor.width <= frame.left + frame.width,
        monitor.top + monitor.height <= frame.top + frame.height,
        0 <= b < 4,
    ensures
        shot.width == monitor.width && shot.height == monitor.height,
        shot.raw[((y - monitor.top) * shot.width + (x - monitor.left)) * 4 + b] == frame.data[((y
            - frame.top) * frame.width + (x - frame.left)) * 4 + b],
{
    let from = (monitor.left - frame.left, monitor.top - frame.top);
    pixels::law_crops_show_their_rectangle(
        frame.data,
        frame.width,
        frame.height,
        from,
        (monitor.width as int, monitor.height as int),
        shot.raw,
        shot.width,
        shot.height,
        x - monitor.left,
        y - monitor.top,
        b,
    );
    assert(from.1 + (y - monitor.top) == y - frame.top);
    assert((from.1 + (y - monitor.top)) * frame.width + from.0 + (x - monitor.left) == (y
        - frame.top) * frame.width + (x - frame.left)) by {
        assert((from.1 + (y - monitor.top)) * frame.width == (y - frame.top) * frame.width);
    }
}

/// A frame shows an area with its logical sides and a monitor with its sides in pixels, both at
/// the place of the frame.
pub proof fn law_frames_show_an_area(frame: Frame)
    ensures
        frame_area(frame).left == frame.left && frame_area(frame).top == frame.top,
        frame_area(frame).width == frame.logical_width && frame_area(frame).height
            == frame.logical_height,
        frame_monitor(frame).left == frame.left && frame_monitor(frame).top == frame.top,
        frame_monitor(frame).width == frame.width && frame_monitor(frame).height == frame.height,
        frame@.data == frame.data@ && frame@.width == frame.width && frame@.height == frame.height,
        frame@.left == frame.left && frame@.top == frame.top,
        frame@.logical_width == frame.logical_width && frame@.logical_height
            == frame.logical_height,
{
}

/// One that waits for the first frame goes on as soon as there is one, even of a capture that
/// failed after it; without a frame it gives up with the first failure, or when its time is over.
pub proof fn law_the_first_frame_is_waited_for(
    state: CaptureState,
    frame: Frame,
    failure: String,
    expired: bool,
    readiness: Readiness,
)
    ensures
        is_readiness(state.with_frame(frame), expired, readiness) ==> readiness is Ready,
        is_readiness(state.with_frame(frame).failed(failure), expired, readiness)
            ==> readiness is Ready,
        state.frame is None && state.error is None && is_readiness(
            state.failed(failure),
            expired,
            readiness,
        ) ==> readiness is Failed && readiness->Failed_0@ == failure@,
        state.frame is None && state.error is None && !state.stopped && is_readiness(
            state,
            expired,
            readiness,
        ) ==> (if expired {
            readiness is TimedOut
        } else {
            readiness is Wait
        }),
{
}

/// An observation needs a frame and a place of the pointer; a place that is given goes before the
/// one that was observed.
pub proof fn law_given_places_go_before_observed_ones(
    state: CaptureState,
    given: Option<(i32, i32)>,
    result: Result<PointerSnapshot, String>,
)
    requires
        is_snapshot(state, given, result),
    ensures
        result is Ok <==> state.frame is Some && (given is Some || state.pointer is Some),
        result is Ok && given is Some ==> result->Ok_0.position == given->0,
        result is Ok && given is None ==> result->Ok_0.position == state.pointer->0,
        result is Ok ==> {
            let area = result->Ok_0.capture_geometry->0;
            &&& result->Ok_0.capture_geometry is Some
            &&& area.left == state.frame->0.left && area.top == state.frame->0.top
            &&& area.width == state.frame->0.logical_width && area.height
                == state.frame->0.logical_height
            &&& result->Ok_0.target_available && result->Ok_0.source_generation == 1
        },
{
}

} // verus!
