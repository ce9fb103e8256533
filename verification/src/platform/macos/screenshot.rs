//! The frames of a ScreenCaptureKit stream.

use crate::pixels;
use crate::pixels::pack_sample;
use crate::platform::interface::{CaptureGeometry, CapturedFrame, CapturedFrameView, Screenshot};
use crate::platform::linux::wayland;
use crate::platform::macos::picker::{CaptureTarget, PickedSource};
use crate::platform::macos::source::CaptureSourceSnapshot;
use crate::screenshot::interface;
use vstd::prelude::*;

verus! {

/// How long a frame is waited for, in nanoseconds.
pub const FRAME_TIMEOUT: u64 = 1_500_000_000;

/// How long the area of a window is used without asking for it again, in nanoseconds.
pub const GEOMETRY_LIFETIME: u64 = 200_000_000;

/// What a stream does.
#[derive(Clone, Copy, Debug, PartialEq, Eq, Structural)]
pub enum StreamState {
    Starting,
    Streaming,
    Suspended,
    Stopped,
}

/// What a sample says of itself.
#[derive(Clone, Copy, Debug, PartialEq, Eq, Structural)]
pub enum SampleStatus {
    Complete,
    Started,
    Idle,
    Blank,
    Suspended,
    Stopped,
}

/// What is to be done with a sample.
#[derive(Clone, Copy, Debug, PartialEq, Eq, Structural)]
pub enum SampleStep {
    /// Nothing.
    Ignore,
    /// Those who wait for frames are to be told that there are none.
    Interrupted,
    /// Its picture is to be read.
    Read,
}

/// What one that waits for a frame is to do.
#[derive(Debug)]
pub enum FrameStep {
    /// Take the frame.
    Deliver(CapturedFrame),
    /// Give up: there is no frame.
    Idle,
    /// Wait for a change.
    Wait,
}

/// The last frame of a stream, and what the stream does.
#[derive(Debug)]
pub struct CaptureState {
    pub frame: Option<CapturedFrame>,
    pub frame_sequence: u64,
    pub stream_state: StreamState,
}

/// The contents of a `CaptureState`.
#[verifier::ext_equal]
pub struct CaptureStateView {
    pub frame: Option<CapturedFrameView>,
    pub frame_sequence: u64,
    pub stream_state: StreamState,
}

impl View for CaptureState {
    type V = CaptureStateView;

    open spec fn view(&self) -> CaptureStateView {
        CaptureStateView {
            frame: match self.frame {
                Some(frame) => Some(frame@),
                None => None,
            },
            frame_sequence: self.frame_sequence,
            stream_state: self.stream_state,
        }
    }
}

/// Whether a sample with this status takes the source away for a while or for good.
pub open spec fn interrupts(status: Option<SampleStatus>) -> bool {
    status == Some(SampleStatus::Blank) || status == Some(SampleStatus::Suspended) || status
        == Some(SampleStatus::Stopped)
}

/// What is to be done with a sample.
pub open spec fn step_for(is_screen: bool, status: Option<SampleStatus>) -> SampleStep {
    if !is_screen || status == Some(SampleStatus::Idle) {
        SampleStep::Ignore
    } else if interrupts(status) {
        SampleStep::Interrupted
    } else {
        SampleStep::Read
    }
}

/// The state after a sample with this status.
pub open spec fn after_status(
    state: CaptureStateView,
    status: Option<SampleStatus>,
) -> CaptureStateView {
    if interrupts(status) {
        CaptureStateView {
            frame: None,
            stream_state: if status == Some(SampleStatus::Stopped) {
                StreamState::Stopped
            } else {
                StreamState::Suspended
            },
            ..state
        }
    } else {
        state
    }
}

/// The state after a picture.
pub open spec fn after_picture(
    state: CaptureStateView,
    generation: u64,
    screenshot: interface::ScreenshotView,
    geometry: CaptureGeometry,
) -> CaptureStateView {
    if state.stream_state == StreamState::Stopped {
        state
    } else {
        CaptureStateView {
            frame: Some(
                CapturedFrameView {
                    source_generation: generation,
                    sequence: wayland::next_number(state.frame_sequence),
                    screenshot,
                    geometry,
                },
            ),
            frame_sequence: wayland::next_number(state.frame_sequence),
            stream_state: StreamState::Streaming,
        }
    }
}

/// Whether a frame has as many pixels as were asked for.
pub open spec fn has_pixel_size(frame: CapturedFrameView, size: (u32, u32)) -> bool {
    frame.screenshot.width == size.0 && frame.screenshot.height == size.1
}

/// Whether `step` is what one that waits for a frame of this size is to do.
pub open spec fn is_next(
    state: CaptureStateView,
    size: (u32, u32),
    expired: bool,
    step: FrameStep,
) -> bool {
    if state.frame is Some && has_pixel_size(state.frame->0, size) {
        step is Deliver && step->Deliver_0@ == state.frame->0
    } else if state.stream_state == StreamState::Suspended || state.stream_state
        == StreamState::Stopped || expired {
        step is Idle
    } else {
        step is Wait
    }
}

/// Whether a frame has as many pixels as were asked for.
pub fn frame_matches_pixel_size(frame: &CapturedFrame, expected_pixel_size: (u32, u32)) -> (r: bool)
    ensures
        r == has_pixel_size(frame@, expected_pixel_size),
{
    frame.screenshot.width == expected_pixel_size.0 as usize && frame.screenshot.height
        == expected_pixel_size.1 as usize
}

/// Whether a frame is new and has as many pixels as were asked for.
pub fn frame_is_usable(
    frame: &CapturedFrame,
    minimum_sequence: u64,
    expected_pixel_size: (u32, u32),
) -> (r: bool)
    ensures
        r == (frame.sequence > minimum_sequence && has_pixel_size(frame@, expected_pixel_size)),
{
    frame.sequence > minimum_sequence && frame_matches_pixel_size(frame, expected_pixel_size)
}

impl CaptureState {
    /// A stream that has not begun.
    pub fn new() -> (r: Self)
        ensures
            r@ == (CaptureStateView {
                frame: None,
                frame_sequence: 0,
                stream_state: StreamState::Starting,
            }),
    {
        CaptureState { frame: None, frame_sequence: 0, stream_state: StreamState::Starting }
    }

    /// A sample arrived. Samples without new content keep the last frame; blank, suspended and
    /// stopped ones take the source away.
    pub fn begin_sample(
        &mut self,
        source: &mut CaptureSourceSnapshot,
        generation: u64,
        is_screen: bool,
        status: Option<SampleStatus>,
    ) -> (r: SampleStep)
        ensures
            r == step_for(is_screen, status),
            final(self)@ == (if is_screen {
                after_status(old(self)@, status)
            } else {
                old(self)@
            }),
            *final(source) == (if is_screen && interrupts(status) {
                old(source).with_availability(generation, false)
            } else {
                *old(source)
            }),
    {
        if !is_screen {
            return SampleStep::Ignore;
        }
        match status {
            Some(SampleStatus::Idle) => SampleStep::Ignore,
            Some(SampleStatus::Blank) | Some(SampleStatus::Suspended) => {
                self.frame = None;
                self.stream_state = StreamState::Suspended;
                source.set_source_available(generation, false);
                SampleStep::Interrupted
            },
            Some(SampleStatus::Stopped) => {
                self.frame = None;
                self.stream_state = StreamState::Stopped;
                source.set_source_available(generation, false);
                SampleStep::Interrupted
            },
            _ => SampleStep::Read,
        }
    }

    /// The picture of a sample was read. A picture that cannot be used changes nothing, nor
    /// does one that comes after the stream stopped. Returns whether those who wait for frames
    /// are to be woken.
    pub fn end_sample(
        &mut self,
        source: &mut CaptureSourceSnapshot,
        generation: u64,
        picture: Result<(Screenshot, CaptureGeometry), String>,
    ) -> (r: bool)
        ensures
            match picture {
                Ok((screenshot, geometry)) => {
                    &&& final(self)@ == after_picture(old(self)@, generation, screenshot@, geometry)
                    &&& *final(source) == (if old(self).stream_state == StreamState::Stopped {
                        *old(source)
                    } else {
                        old(source).with_frame(generation, geometry)
                    })
                    &&& r == (old(self).stream_state != StreamState::Stopped)
                },
                Err(_) => r && *final(self) == *old(self) && *final(source) == *old(source),
            },
    {
        match picture {
            Ok((screenshot, geometry)) => {
                if self.stream_state == StreamState::Stopped {
                    return false;
                }
                self.frame_sequence = self.frame_sequence.wrapping_add(1);
                let sequence: u64 = self.frame_sequence;
                self.frame = Some(
                    CapturedFrame { source_generation: generation, sequence, screenshot, geometry },
                );
                self.stream_state = StreamState::Streaming;
                source.update_source_from_frame(generation, geometry);
                true
            },
            Err(_) => true,
        }
    }

    /// What one that waits for a frame is to do, where `expired` says whether its time is over.
    /// The frame stays, so that it can be delivered again while the content does not change.
    pub fn next_frame(&self, expected_pixel_size: (u32, u32), expired: bool) -> (r: FrameStep)
        ensures
            is_next(self@, expected_pixel_size, expired, r),
    {
        if let Some(frame) = &self.frame {
            if frame_matches_pixel_size(frame, expected_pixel_size) {
                return FrameStep::Deliver(frame.clone());
            }
        }
        if self.stream_state == StreamState::Suspended || self.stream_state
            == StreamState::Stopped {
            return FrameStep::Idle;
        }
        if expired {
            FrameStep::Idle
        } else {
            FrameStep::Wait
        }
    }

    /// Whether one whose wait ended because its time was over is to give up at once.
    pub fn gives_up_after_wait(&self, timed_out: bool, expected_pixel_size: (u32, u32)) -> (r: bool)
        ensures
            r == (timed_out && !(self@.frame is Some && has_pixel_size(
                self@.frame->0,
                expected_pixel_size,
            ))),
    {
        timed_out && match &self.frame {
            Some(frame) => !frame_matches_pixel_size(frame, expected_pixel_size),
            None => true,
        }
    }
}

/// A picture that comes after the stream stopped does not revive it. No status gives it a frame,
/// and only a blank or a suspended sample makes it a suspended stream.
pub proof fn law_pictures_do_not_revive_a_stream(
    state: CaptureStateView,
    generation: u64,
    screenshot: interface::ScreenshotView,
    geometry: CaptureGeometry,
    status: Option<SampleStatus>,
)
    requires
        state.stream_state == StreamState::Stopped,
        state.frame is None,
    ensures
        after_picture(state, generation, screenshot, geometry) == state,
        after_status(state, status).frame is None,
        status != Some(SampleStatus::Blank) && status != Some(SampleStatus::Suspended)
            ==> after_status(state, status).stream_state == StreamState::Stopped,
{
}

/// After every sample the stream has no frame unless it streams, if that was so before.
pub proof fn law_interrupted_streams_have_no_frame(
    state: CaptureStateView,
    generation: u64,
    screenshot: interface::ScreenshotView,
    geometry: CaptureGeometry,
    status: Option<SampleStatus>,
)
    requires
        state.frame is Some ==> state.stream_state == StreamState::Streaming,
    ensures
        after_status(state, status).frame is Some ==> after_status(state, status).stream_state
            == StreamState::Streaming,
        after_picture(state, generation, screenshot, geometry).frame is Some ==> after_picture(
            state,
            generation,
            screenshot,
            geometry,
        ).stream_state == StreamState::Streaming,
{
}

/// What was picked, and how the stream of it is set up.
#[derive(Debug)]
pub struct CaptureSession {
    pub geometry: Option<CaptureGeometry>,
    pub pixel_size: Option<(u32, u32)>,
    pub target: Option<CaptureTarget>,
    pub has_stream: bool,
    pub capture: CaptureState,
    pub source_generation: u64,
    /// When the area of the window was asked for, in nanoseconds.
    pub last_geometry_check: u64,
}

impl CaptureSession {
    /// Everything of a source is known, or nothing is.
    pub open spec fn wf(self) -> bool {
        &&& self.geometry is Some <==> self.pixel_size is Some
        &&& self.geometry is Some <==> self.target is Some
    }

    /// A session with what was picked, if anything.
    pub fn new(
        picked: Option<PickedSource>,
        source: &mut CaptureSourceSnapshot,
        now: u64,
    ) -> (r: Self)
        ensures
            r.wf(),
            *final(source) == old(source).selected(
                match picked {
                    Some(picked) => Some((picked.geometry, picked.target.window())),
                    None => None,
                },
            ),
            r.source_generation == final(source).generation,
            !r.has_stream,
            r.capture@ == (CaptureStateView {
                frame: None,
                frame_sequence: 0,
                stream_state: StreamState::Starting,
            }),
            r.last_geometry_check == now,
            match picked {
                Some(picked) => r.geometry == Some(picked.geometry) && r.pixel_size == Some(
                    picked.pixel_size,
                ) && r.target == Some(picked.target),
                None => r.geometry is None,
            },
    {
        let capture = CaptureState::new();
        match picked {
            Some(picked) => {
                let window_id = picked.target.window_id();
                let source_generation: u64 = source.select(Some((picked.geometry, window_id)));
                CaptureSession {
                    geometry: Some(picked.geometry),
                    pixel_size: Some(picked.pixel_size),
                    target: Some(picked.target),
                    has_stream: false,
                    capture,
                    source_generation,
                    last_geometry_check: now,
                }
            },
            None => {
                let source_generation: u64 = source.select(None);
                CaptureSession {
                    geometry: None,
                    pixel_size: None,
                    target: None,
                    has_stream: false,
                    capture,
                    source_generation,
                    last_geometry_check: now,
                }
            },
        }
    }

    /// Gives up what was picked.
    pub fn release_source(&mut self, source: &mut CaptureSourceSnapshot)
        ensures
            final(self).wf(),
            final(self).geometry is None,
            !final(self).has_stream,
            final(self).last_geometry_check == old(self).last_geometry_check,
            final(self).capture@ == (CaptureStateView {
                frame: None,
                frame_sequence: old(self).capture.frame_sequence,
                stream_state: StreamState::Starting,
            }),
            *final(source) == old(source).released(old(self).source_generation),
            final(self).source_generation == (if old(source).generation
                == old(self).source_generation {
                final(source).generation
            } else {
                old(self).source_generation
            }),
    {
        self.has_stream = false;
        self.geometry = None;
        self.pixel_size = None;
        self.target = None;
        self.capture.frame = None;
        self.capture.stream_state = StreamState::Starting;
        self.source_generation = source.release(self.source_generation);
    }

    /// The size of the stream that is to be started before frames can come; none where it runs.
    /// A frame of an earlier stream is dropped.
    pub fn prepare_stream(&mut self) -> (r: Result<Option<(u32, u32)>, String>)
        requires
            old(self).wf(),
        ensures
            final(self).wf(),
            if old(self).has_stream {
                *final(self) == *old(self) && r == Ok::<Option<(u32, u32)>, String>(None)
            } else {
                &&& final(self).capture@ == (CaptureStateView { frame: None, ..old(self).capture@ })
                &&& *final(self) == (CaptureSession {
                    capture: final(self).capture,
                    ..*old(self)
                })
                &&& match old(self).pixel_size {
                    Some(size) => r == Ok::<Option<(u32, u32)>, String>(Some(size)),
                    None => r is Err && r->Err_0@ == "No capture source is currently shared"@,
                }
            },
    {
        if self.has_stream {
            return Ok(None);
        }
        self.capture.frame = None;
        match self.pixel_size {
            Some(size) => Ok(Some(size)),
            None => Err("No capture source is currently shared".to_owned()),
        }
    }

    /// The stream was set up: it has a handler for its output, and it started or not.
    pub fn stream_started(&mut self, has_handler: bool, started: Result<(), String>) -> (r: Result<
        (),
        String,
    >)
        ensures
            *final(self) == (CaptureSession {
                has_stream: old(self).has_stream || (has_handler && started is Ok),
                ..*old(self)
            }),
            if has_handler {
                r == started
            } else {
                r is Err && r->Err_0@ == "ScreenCaptureKit rejected the screen output handler"@
            },
    {
        if !has_handler {
            return Err("ScreenCaptureKit rejected the screen output handler".to_owned());
        }
        if started.is_ok() {
            self.has_stream = true;
        }
        started
    }

    /// The window whose area is to be asked for at `now`, if any.
    pub fn begin_refresh(&mut self, now: u64) -> (r: Option<u32>)
        ensures
            ({
                let window = match old(self).target {
                    Some(target) => target.window(),
                    None => None,
                };
                if window is Some && now - old(self).last_geometry_check >= GEOMETRY_LIFETIME {
                    r == window && *final(self) == (CaptureSession {
                        last_geometry_check: now,
                        ..*old(self)
                    })
                } else {
                    r is None && *final(self) == *old(self)
                }
            }),
    {
        let window_id = match &self.target {
            Some(target) => target.window_id(),
            None => None,
        };
        match window_id {
            Some(id) => {
                if now < self.last_geometry_check || now - self.last_geometry_check
                    < GEOMETRY_LIFETIME {
                    return None;
                }
                self.last_geometry_check = now;
                Some(id)
            },
            None => None,
        }
    }

    /// The window has the area `live`, which takes `requested` pixels. Where it lies is noted at
    /// once; the size counts as soon as the stream was set to it. Returns the size that the
    /// stream is to be set to, if it is to change.
    pub fn window_observed(
        &mut self,
        source: &mut CaptureSourceSnapshot,
        live: &CaptureGeometry,
        requested: (u32, u32),
    ) -> (r: Option<(u32, u32)>)
        requires
            old(self).wf(),
        ensures
            final(self).wf(),
            *final(self) == (CaptureSession {
                geometry: match old(self).geometry {
                    Some(geometry) => Some(
                        CaptureGeometry { left: live.left, top: live.top, ..geometry },
                    ),
                    None => None,
                },
                ..*old(self)
            }),
            *final(source) == old(source).with_origin(
                old(self).source_generation,
                live.left,
                live.top,
            ),
            r == (if old(self).pixel_size is None || requested.0 == 0 || requested.1 == 0
                || old(self).pixel_size == Some(requested) {
                None
            } else {
                Some(requested)
            }),
    {
        if let Some(geometry) = self.geometry {
            self.geometry = Some(
                CaptureGeometry { left: live.left, top: live.top, ..geometry },
            );
        }
        source.update_shared_origin(self.source_generation, live.left, live.top);
        match self.pixel_size {
            Some(size) => {
                if requested.0 == 0 || requested.1 == 0 || (requested.0 == size.0 && requested.1
                    == size.1) {
                    None
                } else {
                    Some(requested)
                }
            },
            None => None,
        }
    }

    /// The stream was to be set to another size. Where that failed the old size stays, so that
    /// it is tried again.
    pub fn stream_resized(&mut self, requested: (u32, u32), accepted: bool)
        requires
            old(self).wf(),
            old(self).pixel_size is Some,
        ensures
            final(self).wf(),
            *final(self) == (CaptureSession {
                pixel_size: if accepted {
                    Some(requested)
                } else {
                    old(self).pixel_size
                },
                ..*old(self)
            }),
    {
        if accepted {
            self.pixel_size = Some(requested);
        }
    }

    /// A frame was delivered: its area is the area of the source.
    pub fn frame_delivered(&mut self, frame: &CapturedFrame)
        requires
            old(self).wf(),
            old(self).geometry is Some,
        ensures
            final(self).wf(),
            *final(self) == (CaptureSession {
                geometry: Some(frame.geometry),
                ..*old(self)
            }),
    {
        self.geometry = Some(frame.geometry);
    }
}

/// The area that a picture shows: where the window was last seen, with the size that the picture
/// has in logical units, where that is known and not empty.
pub fn frame_geometry(
    window: Option<CaptureGeometry>,
    fallback: CaptureGeometry,
    logical_size: Option<(usize, usize)>,
) -> (r: CaptureGeometry)
    ensures
        ({
            let seen = match window {
                Some(geometry) => geometry,
                None => fallback,
            };
            r == (match logical_size {
                Some((width, height)) => if width > 0 && height > 0 {
                    CaptureGeometry { width, height, ..seen }
                } else {
                    seen
                },
                None => seen,
            })
        }),
{
    let seen = match window {
        Some(geometry) => geometry,
        None => fallback,
    };
    match logical_size {
        Some((width, height)) => if width > 0 && height > 0 {
            CaptureGeometry { width, height, ..seen }
        } else {
            seen
        },
        None => seen,
    }
}

/// The picture of a sample, without the padding between its rows.
pub fn pack_bgra(data: &[u8], width: usize, height: usize, stride: usize) -> (r: Result<
    Screenshot,
    String,
>)
    requires
        stride > 0 || width > 0,
    ensures
        match (r, pixels::stride_error(data@.len() as int, width, height, stride)) {
            (Ok(shot), None) => shot@ == (interface::ScreenshotView {
                raw: pixels::rows_of(data@, 0, stride as int, width * 4, height as nat),
                width,
                height,
            }),
            (Err(message), Some(error)) => message@ == pixels::sample_error_text(
                data@.len() as int,
                stride,
                error,
            ),
            _ => false,
        },
{
    match pack_sample(data, width, height, stride) {
        Ok(raw) => Ok(Screenshot { raw, width, height }),
        Err(message) => Err(message),
    }
}

/// What one that waits for a new frame is to do.
#[derive(Debug)]
pub enum NewFrameStep {
    /// Take the frame.
    Deliver(CapturedFrame),
    /// Give up with this message.
    Failed(String),
    /// Wait for a change.
    Wait,
}

/// What one that waits for a frame with a number above `minimum_sequence` is to do, where
/// `expired` says whether its time is over.
pub fn next_frame_after(
    frame: &Option<CapturedFrame>,
    error: &Option<String>,
    minimum_sequence: u64,
    expected_pixel_size: (u32, u32),
    expired: bool,
) -> (r: NewFrameStep)
    ensures
        if *frame is Some && (*frame)->0.sequence > minimum_sequence && has_pixel_size(
            (*frame)->0@,
            expected_pixel_size,
        ) {
            r is Deliver && r->Deliver_0@ == (*frame)->0@
        } else if *error is Some {
            r is Failed && r->Failed_0@ == (*error)->0@
        } else if expired {
            r is Failed && r->Failed_0@ == "Timed out waiting for a new ScreenCaptureKit frame"@
        } else {
            r is Wait
        },
{
    if let Some(frame) = frame {
        if frame_is_usable(frame, minimum_sequence, expected_pixel_size) {
            return NewFrameStep::Deliver(frame.clone());
        }
    }
    if let Some(error) = error {
        return NewFrameStep::Failed(error.clone());
    }
    if expired {
        NewFrameStep::Failed("Timed out waiting for a new ScreenCaptureKit frame".to_owned())
    } else {
        NewFrameStep::Wait
    }
}

/// The number that a new frame has to exceed after the last one that was delivered and, where
/// the stream was set to another size, after the last one before that.
pub fn minimum_sequence(last_delivered: u64, before_resize: Option<u64>) -> (r: u64)
    ensures
        r >= last_delivered,
        before_resize is Some ==> r >= before_resize->0,
        r == last_delivered || Some(r) == before_resize,
{
    match before_resize {
        Some(sequence) => if sequence > last_delivered {
            sequence
        } else {
            last_delivered
        },
        None => last_delivered,
    }
}

/// Blank, suspended and stopped samples take the frame away, and the stream is stopped after a
/// stopped one and suspended after the others; samples of any other status change nothing.
pub proof fn law_samples_interrupt_by_their_status(
    state: CaptureStateView,
    status: Option<SampleStatus>,
)
    ensures
        ({
            let after = after_status(state, status);
            let takes = match status {
                Some(SampleStatus::Blank) => true,
                Some(SampleStatus::Suspended) => true,
                Some(SampleStatus::Stopped) => true,
                _ => false,
            };
            &&& after.frame_sequence == state.frame_sequence
            &&& interrupts(status) == takes
            &&& !takes ==> after == state
            &&& takes ==> after.frame is None
            &&& takes && status == Some(SampleStatus::Stopped) ==> after.stream_state
                == StreamState::Stopped
            &&& takes && status != Some(SampleStatus::Stopped) ==> after.stream_state
                == StreamState::Suspended
        }),
{
}

/// A picture of a stream that has not stopped becomes its frame, with the next number, and the
/// stream runs.
pub proof fn law_pictures_become_frames(
    state: CaptureStateView,
    generation: u64,
    screenshot: interface::ScreenshotView,
    geometry: CaptureGeometry,
)
    requires
        state.stream_state != StreamState::Stopped,
    ensures
        ({
            let after = after_picture(state, generation, screenshot, geometry);
            let frame = after.frame->0;
            &&& after.frame is Some
            &&& after.stream_state == StreamState::Streaming
            &&& state.frame_sequence < u64::MAX ==> after.frame_sequence == state.frame_sequence + 1
            &&& state.frame_sequence == u64::MAX ==> after.frame_sequence == 0
            &&& frame.sequence == after.frame_sequence
            &&& frame.source_generation == generation
            &&& frame.screenshot == screenshot
            &&& frame.geometry == geometry
        }),
{
}

/// A frame has as many pixels as were asked for where both sides agree.
pub proof fn law_frames_are_measured_in_pixels(frame: CapturedFrameView, size: (u32, u32))
    ensures
        has_pixel_size(frame, size) <==> frame.screenshot.width == size.0
            && frame.screenshot.height == size.1,
{
}

/// A picture is delivered to one that waits for frames of its size, in time or not; one that
/// waits for another size waits on until its time is over.
pub proof fn law_pictures_are_delivered(
    state: CaptureStateView,
    generation: u64,
    screenshot: interface::ScreenshotView,
    geometry: CaptureGeometry,
    size: (u32, u32),
    expired: bool,
    step: FrameStep,
)
    requires
        state.stream_state != StreamState::Stopped,
        is_next(after_picture(state, generation, screenshot, geometry), size, expired, step),
    ensures
        screenshot.width == size.0 && screenshot.height == size.1 ==> step is Deliver
            && step->Deliver_0@.screenshot == screenshot && step->Deliver_0@.geometry == geometry
            && step->Deliver_0@.source_generation == generation,
        screenshot.width != size.0 || screenshot.height != size.1 ==> (step is Idle <==> expired)
            && (step is Wait <==> !expired),
{
}

/// After a blank, a suspended or a stopped sample nobody waits, and nothing is delivered.
pub proof fn law_nobody_waits_for_interrupted_streams(
    state: CaptureStateView,
    status: SampleStatus,
    size: (u32, u32),
    expired: bool,
    step: FrameStep,
)
    requires
        status == SampleStatus::Blank || status == SampleStatus::Suspended || status
            == SampleStatus::Stopped,
        is_next(after_status(state, Some(status)), size, expired, step),
    ensures
        step is Idle,
        step_for(true, Some(status)) == SampleStep::Interrupted,
{
}

/// Pictures are read of complete and started samples of the screen, and of those that say
/// nothing; other samples of the screen without new content, and all that are not of the screen,
/// are left alone.
pub proof fn law_complete_samples_are_read(status: Option<SampleStatus>)
    ensures
        step_for(false, status) == SampleStep::Ignore,
        step_for(true, None) == SampleStep::Read,
        step_for(true, Some(SampleStatus::Complete)) == SampleStep::Read,
        step_for(true, Some(SampleStatus::Started)) == SampleStep::Read,
        step_for(true, Some(SampleStatus::Idle)) == SampleStep::Ignore,
{
}

} // verus!
