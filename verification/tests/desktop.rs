use std::cell::Cell;

use meikipop::input::macos as input_macos;
use meikipop::platform::interface::{
    CaptureGeometry, CapturedFrame, FrameProvider, PointerProvider, PointerSnapshot, Screenshot,
};
use meikipop::platform::linux::gstreamer::{
    gstreamer_error, process_sample, BusMessage, VideoFormat, VideoSample,
};
use meikipop::platform::linux::portal::{
    cursor_size, portal_step, stream_failure_text, PortalAnswer, PortalStage, StreamStage,
};
use meikipop::platform::linux::wayland::{
    cast_monitors, check_token_path, end_of_capture, grab_screenshot, read_buffer, restore_token,
    stream_geometry, wait_result, BufferOutcome, CastBuffer, CaptureState, Frame, Readiness,
};
use meikipop::platform::linux::x11::{
    next_sequence, preferred_position, x11_position, ScreenPointer,
};
use meikipop::platform::macos::input::{needs_window_list, pointer_snapshot, window_list_is_fresh};
use meikipop::platform::macos::picker::{
    pick_source, require_source, CaptureTarget, PickedContent, PickedSource, PickerOutcome,
};
use meikipop::platform::macos::screenshot;
use meikipop::platform::macos::screenshot::{
    frame_geometry, frame_is_usable, frame_matches_pixel_size, minimum_sequence, next_frame_after,
    pack_bgra, CaptureSession, FrameStep, NewFrameStep, SampleStatus, SampleStep, StreamState,
};
use meikipop::platform::macos::source::CaptureSourceSnapshot;
use meikipop::platform::macos::window_server::{WindowListSnapshot, WindowSummary};
use meikipop::platform::{create_desktop_providers, Desktop};

fn area(left: i32, top: i32, width: usize, height: usize) -> CaptureGeometry {
    CaptureGeometry {
        left,
        top,
        width,
        height,
    }
}

#[test]
fn pipewire_position_is_preferred_without_querying_x11() {
    let queried = Cell::new(false);
    let position = preferred_position(Some(((10, 20), 2)), Some(1), || {
        queried.set(true);
        Ok((30, 40))
    })
    .unwrap();

    assert_eq!(position, (10, 20));
    assert!(!queried.get());
}

#[test]
fn x11_position_is_used_when_pipewire_has_none() {
    let position = preferred_position(None, None, || Ok((30, 40))).unwrap();
    assert_eq!(position, (30, 40));
}

#[test]
fn x11_position_is_used_when_pipewire_observation_stalls() {
    let position = preferred_position(Some(((10, 20), 2)), Some(2), || Ok((30, 40))).unwrap();
    assert_eq!(position, (30, 40));
}

#[test]
fn cached_pipewire_position_survives_an_x11_failure() {
    let position = preferred_position(Some(((10, 20), 2)), Some(2), || {
        Err("X11 query failed".into())
    })
    .unwrap();
    assert_eq!(position, (10, 20));
}

#[test]
fn without_any_position_the_failure_is_told() {
    assert_eq!(
        preferred_position(None, Some(2), || Err("X11 query failed".into())).unwrap_err(),
        "PipeWire has not provided cursor coordinates and X11 fallback failed: X11 query failed"
    );
}

#[test]
fn an_observation_counts_once() {
    let observation = Some(((10, 20), 2));
    let last = next_sequence(observation, None);

    assert_eq!(last, Some(2));
    assert_eq!(
        preferred_position(observation, last, || Ok((30, 40))),
        Ok((30, 40))
    );
    assert_eq!(next_sequence(None, last), Some(2));
}

#[test]
fn the_pointer_is_on_the_screen_that_has_it() {
    let elsewhere = ScreenPointer {
        same_screen: false,
        root_x: 1,
        root_y: 2,
    };
    let here = ScreenPointer {
        same_screen: true,
        root_x: -3,
        root_y: 4,
    };

    assert_eq!(x11_position(&vec![elsewhere, here]), Ok((-3, 4)));
    assert_eq!(
        x11_position(&vec![elsewhere]).unwrap_err(),
        "X11 did not report the pointer on any screen"
    );
}

#[test]
fn screenshots_lose_their_fourth_byte() {
    let screenshot = Screenshot {
        raw: vec![1, 2, 3, 255, 4, 5, 6, 255],
        width: 2,
        height: 1,
    };

    let image = screenshot.to_rgb().unwrap();
    assert_eq!(screenshot.size(), (2, 1));
    assert_eq!((image.width, image.height), (2, 1));
    assert_eq!(image.data, [3, 2, 1, 6, 5, 4]);
}

#[test]
fn screenshots_without_their_pixels_are_refused() {
    let short = Screenshot {
        raw: vec![1, 2, 3, 255],
        width: 2,
        height: 1,
    };
    assert_eq!(
        short.to_rgb().unwrap_err(),
        "BGRA screenshot has 4 bytes, expected 8"
    );
    let wide = Screenshot {
        raw: Vec::new(),
        width: u32::MAX as usize + 1,
        height: 0,
    };
    assert_eq!(wide.to_rgb().unwrap_err(), "screenshot width exceeds u32");
    let tall = Screenshot {
        raw: Vec::new(),
        width: 0,
        height: u32::MAX as usize + 1,
    };
    assert_eq!(tall.to_rgb().unwrap_err(), "screenshot height exceeds u32");
    let large = Screenshot {
        raw: Vec::new(),
        width: usize::MAX,
        height: 2,
    };
    assert_eq!(
        large.to_rgb().unwrap_err(),
        "screenshot dimensions are too large"
    );
}

#[test]
fn areas_hold_their_first_points_and_not_their_last() {
    let geometry = area(-5, 10, 10, 10);

    assert!(geometry.contains((-5, 10)));
    assert!(geometry.contains((4, 19)));
    assert!(!geometry.contains((5, 10)));
    assert!(!geometry.contains((0, 20)));
}

#[derive(Debug)]
struct NoFrames;

impl FrameProvider for NoFrames {
    fn capture_geometry(&mut self) -> Result<Option<CaptureGeometry>, String> {
        Ok(None)
    }

    fn capture_frame(&mut self) -> Result<Option<CapturedFrame>, String> {
        Ok(None)
    }
}

#[derive(Debug)]
struct NoPointer;

impl PointerProvider for NoPointer {
    fn snapshot(&mut self) -> Result<PointerSnapshot, String> {
        Err("no pointer".into())
    }
}

#[test]
fn desktops_without_providers_are_told() {
    let start = |_: String| Ok((NoFrames, NoPointer));

    assert!(create_desktop_providers(Desktop::Linux, "token".into(), start).is_ok());
    assert_eq!(
        create_desktop_providers(Desktop::Other, "token".into(), start).unwrap_err(),
        "No desktop providers are implemented for this platform"
    );
    assert_eq!(
        create_desktop_providers(Desktop::Linux, String::new(), start).unwrap_err(),
        "token_path must not be empty"
    );
    assert!(create_desktop_providers(Desktop::MacOs, String::new(), start).is_ok());
    let failing = |_: String| Err::<(NoFrames, NoPointer), String>("not started".into());
    assert_eq!(
        create_desktop_providers(Desktop::Linux, "token".into(), failing).unwrap_err(),
        "not started"
    );
}

#[test]
fn the_portal_is_asked_in_order() {
    let mut stage = PortalStage::Connect;
    let mut stages = vec![stage];
    while stage != PortalStage::Open {
        let answer = match stage {
            PortalStage::CursorModes => PortalAnswer::CursorModes { metadata: true },
            PortalStage::Start => PortalAnswer::Started {
                has_stream: true,
                has_token: true,
                has_parent: true,
            },
            _ => PortalAnswer::Done,
        };
        stage = portal_step(stage, Ok(answer)).unwrap();
        stages.push(stage);
    }
    assert_eq!(stages.len(), 9);
    assert!(stages.contains(&PortalStage::SaveToken));
}

#[test]
fn portal_failures_name_their_step() {
    let failures = [
        (
            PortalStage::Connect,
            "Failed to connect to ScreenCast portal: e",
        ),
        (
            PortalStage::CreateSession,
            "Failed to create ScreenCast session: e",
        ),
        (
            PortalStage::CursorModes,
            "Failed to query ScreenCast cursor modes: e",
        ),
        (
            PortalStage::SelectSources,
            "Failed to select ScreenCast source: e",
        ),
        (
            PortalStage::Start,
            "Failed to start ScreenCast session: e",
        ),
        (
            PortalStage::TokenDirectory,
            "Failed to create ScreenCast token directory: e",
        ),
        (
            PortalStage::SaveToken,
            "Failed to save ScreenCast restore token: e",
        ),
        (
            PortalStage::OpenRemote,
            "Failed to open PipeWire remote: e",
        ),
    ];
    for (stage, message) in failures {
        assert_eq!(portal_step(stage, Err("e".into())).unwrap_err(), message);
    }
    assert_eq!(
        portal_step(
            PortalStage::CursorModes,
            Ok(PortalAnswer::CursorModes { metadata: false })
        )
        .unwrap_err(),
        "The Wayland ScreenCast portal does not support cursor metadata"
    );
    let started = |has_stream, has_token| PortalAnswer::Started {
        has_stream,
        has_token,
        has_parent: false,
    };
    assert_eq!(
        portal_step(PortalStage::Start, Ok(started(false, true))).unwrap_err(),
        "ScreenCast portal returned no streams"
    );
    assert_eq!(
        portal_step(PortalStage::Start, Ok(started(true, true))),
        Ok(PortalStage::SaveToken)
    );
    assert_eq!(
        portal_step(PortalStage::Start, Ok(started(true, false))),
        Ok(PortalStage::OpenRemote)
    );
    assert_eq!(
        stream_failure_text(StreamStage::Connect, "e"),
        "Could not connect PipeWire stream: e"
    );
    assert_eq!(cursor_size(28, 64), 28 + 64 * 64 * 4);
}

fn cast_frame() -> Frame {
    Frame {
        data: vec![9; 2 * 4],
        width: 2,
        height: 1,
        left: 100,
        top: 50,
        logical_width: 4,
        logical_height: 2,
    }
}

#[test]
fn frames_and_pointers_are_observed_together() {
    let mut state = CaptureState::new();
    assert_eq!(
        state.selected_geometry().unwrap_err(),
        "Invalid frame received"
    );
    assert_eq!(
        state.snapshot_with_position_override(None).unwrap_err(),
        "Neither X11 nor the Wayland screencast provided cursor coordinates"
    );
    assert_eq!(
        state
            .snapshot_with_position_override(Some((1, 2)))
            .unwrap_err(),
        "The Wayland screencast has not provided a frame yet"
    );
    assert!(state.pipewire_observation().is_none());

    state.set_frame(cast_frame());
    state.update_cursor(Some((1, 0)), (100, 50), (4, 2), (2, 1));

    assert_eq!(state.selected_geometry(), Ok(area(100, 50, 4, 2)));
    assert_eq!(state.pipewire_observation(), Some(((102, 50), 1)));
    let snapshot = state.snapshot_with_position_override(None).unwrap();
    assert_eq!(snapshot.position, (102, 50));
    assert_eq!(snapshot.capture_geometry, Some(area(100, 50, 4, 2)));
    assert!(snapshot.target_available);
    let frame = state.latest_captured_frame().unwrap();
    assert_eq!(frame.sequence, 1);
    assert_eq!(frame.screenshot.size(), (2, 1));
}

#[test]
fn the_first_failure_of_a_capture_stays() {
    let mut state = CaptureState::new();
    assert!(matches!(state.readiness(false), Readiness::Wait));
    assert!(matches!(state.readiness(true), Readiness::TimedOut));
    assert!(state.gives_up_after_wait(true));

    state.fail("first".into());
    state.fail("later".into());

    assert_eq!(state.error.as_deref(), Some("first"));
    assert!(state.stopped);
    assert_eq!(wait_result(state.readiness(false)).unwrap_err(), "first");
    assert_eq!(
        wait_result(Readiness::TimedOut).unwrap_err(),
        "Timed out waiting for the first Wayland frame"
    );

    let mut stopped = CaptureState::new();
    stopped.mark_stopped();
    assert_eq!(
        wait_result(stopped.readiness(false)).unwrap_err(),
        "Wayland capture stopped before receiving a frame"
    );
    stopped.set_frame(cast_frame());
    assert_eq!(wait_result(stopped.readiness(false)), Ok(()));
}

#[test]
fn unscaled_screens_keep_coordinates() {
    let mut state = CaptureState::new();
    state.update_cursor(Some((7, 8)), (0, 0), (1920, 1080), (1920, 1080));
    assert_eq!(state.pointer, Some((7, 8)));
    state.update_cursor(None, (0, 0), (1920, 1080), (1920, 1080));
    state.update_cursor(Some((1, 1)), (0, 0), (1920, 1080), (0, 1080));
    assert_eq!(state.pipewire_observation(), Some(((7, 8), 1)));
}

#[test]
fn cast_buffers_become_frames() {
    let data: Vec<u8> = (0..24).collect();
    let buffer = |mapped, offset, size, stride| CastBuffer {
        mapped,
        offset,
        size,
        stride,
    };
    let read = |buffer: CastBuffer| read_buffer(&buffer, (1, 2), (3, 4), (0, 0));

    match read(buffer(Some(&data[..]), 4, 16, 8)) {
        BufferOutcome::Frame(frame) => {
            assert_eq!(frame.data, [4, 5, 6, 7, 12, 13, 14, 15]);
            assert_eq!((frame.left, frame.top), (3, 4));
            assert_eq!((frame.logical_width, frame.logical_height), (0, 0));
        }
        other => panic!("unexpected {other:?}"),
    }
    assert!(matches!(
        read(buffer(Some(&data[..]), 0, 0, 8)),
        BufferOutcome::Ignored
    ));
    match read(buffer(Some(&data[..]), 0, 16, -8)) {
        BufferOutcome::Failed(message) => {
            assert_eq!(message, "Negative PipeWire video stride: -8")
        }
        other => panic!("unexpected {other:?}"),
    }
    match read(buffer(None, 0, 16, 8)) {
        BufferOutcome::Failed(message) => {
            assert_eq!(message, "PipeWire returned an unmapped video buffer")
        }
        other => panic!("unexpected {other:?}"),
    }
    assert!(matches!(
        read(buffer(Some(&data[..]), 20, 16, 8)),
        BufferOutcome::Failed(_)
    ));

    let mut state = CaptureState::new();
    state.process_buffer(
        Some((0, 0)),
        Some(&buffer(Some(&data[..]), 0, 16, 8)),
        (1, 2),
        (3, 4),
        (1, 2),
    );
    assert_eq!(state.frame_sequence, 1);
    assert_eq!(state.pointer, Some((3, 4)));
}

#[test]
fn streams_need_a_size() {
    assert_eq!(
        stream_geometry(Some((5, 6)), Some((7, 8))),
        Ok(((5, 6), (7, 8)))
    );
    assert_eq!(stream_geometry(None, Some((7, 8))), Ok(((0, 0), (7, 8))));
    for size in [None, Some((0, 8)), Some((7, -1))] {
        assert_eq!(
            stream_geometry(Some((5, 6)), size).unwrap_err(),
            "The Wayland portal returned invalid monitor geometry"
        );
    }
}

#[test]
fn tokens_are_kept_without_the_space_around_them() {
    assert_eq!(restore_token(Some(" token\n")), Some("token".into()));
    assert_eq!(restore_token(Some(" \n")), None);
    assert_eq!(restore_token(None), None);
    assert_eq!(check_token_path("path"), Ok(()));
    assert_eq!(
        check_token_path("").unwrap_err(),
        "token_path must not be empty"
    );
}

#[test]
fn the_first_failure_ends_a_capture() {
    let fail = |text: &str| Err::<(), String>(text.into());

    assert_eq!(end_of_capture(Ok(()), Ok(()), Ok(())), Ok(()));
    assert_eq!(
        end_of_capture(fail("capture"), fail("stop"), fail("close")).unwrap_err(),
        "capture"
    );
    assert_eq!(
        end_of_capture(Ok(()), fail("e"), fail("close")).unwrap_err(),
        "Could not stop GStreamer pipeline: e"
    );
    assert_eq!(
        end_of_capture(Ok(()), Ok(()), fail("e")).unwrap_err(),
        "Could not close ScreenCast session: e"
    );
}

#[test]
fn parts_of_a_cast_are_grabbed() {
    let frame = Frame {
        data: (0..32).collect(),
        width: 4,
        height: 2,
        left: 10,
        top: 20,
        logical_width: 4,
        logical_height: 2,
    };
    let mut monitors = cast_monitors(&frame);
    assert_eq!(monitors.len(), 2);

    let whole = grab_screenshot(&frame, &monitors[1]).unwrap();
    assert_eq!((whole.width, whole.height), (4, 2));
    monitors[1].left = 11;
    monitors[1].top = 21;
    monitors[1].width = 2;
    monitors[1].height = 1;
    let part = grab_screenshot(&frame, &monitors[1]).unwrap();
    assert_eq!(part.raw, [20, 21, 22, 23, 24, 25, 26, 27]);
}

#[test]
fn gstreamer_samples_become_frames() {
    let data = [1, 2, 3, 4, 0, 0, 0, 0, 5, 6, 7, 8, 0, 0, 0, 0];
    let sample = |format, stride| VideoSample {
        format,
        width: 1,
        height: 2,
        stride,
        data: &data,
    };

    let frame = process_sample(&sample(VideoFormat::Bgra, Some(8)), (3, 4)).unwrap();
    assert_eq!(frame.data, [1, 2, 3, 4, 5, 6, 7, 8]);
    assert_eq!((frame.left, frame.top), (3, 4));
    assert!(process_sample(&sample(VideoFormat::Bgrx, Some(8)), (3, 4)).is_ok());
    assert_eq!(
        process_sample(&sample(VideoFormat::Other("I420".into()), Some(8)), (3, 4)).unwrap_err(),
        "Expected a BGRA or BGRx frame, received I420"
    );
    assert_eq!(
        process_sample(&sample(VideoFormat::Bgra, None), (3, 4)).unwrap_err(),
        "GStreamer video frame has no plane stride"
    );
    assert_eq!(
        process_sample(&sample(VideoFormat::Bgra, Some(-8)), (3, 4)).unwrap_err(),
        "Negative GStreamer video stride is unsupported: -8"
    );
}

#[test]
fn gstreamer_errors_name_their_element() {
    let error = |source: Option<&str>, debug: Option<&str>| BusMessage::Error {
        source: source.map(str::to_owned),
        error: "broken".into(),
        debug: debug.map(str::to_owned),
    };

    assert_eq!(
        gstreamer_error(&error(Some("sink"), Some("details"))).unwrap(),
        "GStreamer error from sink: broken (details)"
    );
    assert_eq!(
        gstreamer_error(&error(None, None)).unwrap(),
        "GStreamer error from unknown GStreamer element: broken ()"
    );
    assert_eq!(
        gstreamer_error(&BusMessage::EndOfStream).unwrap(),
        "PipeWire stream ended"
    );
    assert_eq!(gstreamer_error(&BusMessage::Other), None);
}

fn captured_frame(sequence: u64, width: usize, height: usize) -> CapturedFrame {
    CapturedFrame {
        source_generation: 1,
        sequence,
        screenshot: Screenshot {
            raw: vec![0; width * height * 4],
            width,
            height,
        },
        geometry: area(0, 0, width, height),
    }
}

#[test]
fn rejects_pre_resize_frames() {
    assert!(!frame_matches_pixel_size(
        &captured_frame(5, 100, 50),
        (200, 100)
    ));
    assert!(frame_matches_pixel_size(
        &captured_frame(5, 200, 100),
        (200, 100)
    ));
}

#[test]
fn screenshot_removes_screen_capture_row_padding() {
    let data = [
        1, 2, 3, 4, 5, 6, 7, 8, 99, 99, 99, 99, 9, 10, 11, 12, 13, 14, 15, 16, 88, 88, 88, 88,
    ];
    let screenshot = pack_bgra(&data, 2, 2, 12).unwrap();
    assert_eq!((screenshot.width, screenshot.height), (2, 2));
    assert_eq!(
        screenshot.raw,
        [1, 2, 3, 4, 5, 6, 7, 8, 9, 10, 11, 12, 13, 14, 15, 16]
    );
}

#[test]
fn macos_removes_screen_capture_row_padding() {
    let data = [
        1, 2, 3, 4, 5, 6, 7, 8, 99, 99, 99, 99, 9, 10, 11, 12, 13, 14, 15, 16, 88, 88, 88, 88,
    ];
    let screenshot = pack_bgra(&data, 2, 2, 12).unwrap();
    assert_eq!((screenshot.width, screenshot.height), (2, 2));
    assert_eq!(
        screenshot.raw,
        [1, 2, 3, 4, 5, 6, 7, 8, 9, 10, 11, 12, 13, 14, 15, 16]
    );
    assert!(pack_bgra(&data, 2, 3, 12).is_err());
}

#[test]
fn availability_updates_cannot_cross_source_generations() {
    let mut source = CaptureSourceSnapshot {
        generation: 2,
        available: false,
        geometry: None,
        window_id: None,
    };

    source.set_source_available(1, true);
    assert!(!source.available);

    source.set_source_available(2, true);
    assert!(source.available);
}

fn capture_with_state(
    stream_state: StreamState,
    frame: Option<CapturedFrame>,
) -> screenshot::CaptureState {
    let mut state = screenshot::CaptureState::new();
    state.stream_state = stream_state;
    state.frame = frame;
    state
}

#[test]
fn suspended_capture_returns_idle_without_waiting_for_a_timeout() {
    let state = capture_with_state(StreamState::Suspended, None);

    assert!(matches!(
        state.next_frame((10, 10), false),
        FrameStep::Idle
    ));
}

#[test]
fn delivering_a_frame_retains_a_cheap_cached_copy() {
    let state = capture_with_state(StreamState::Streaming, Some(captured_frame(1, 10, 10)));

    let delivered = state.next_frame((10, 10), false);
    assert!(matches!(delivered, FrameStep::Deliver(_)));
    assert!(state.frame.is_some());
}

#[test]
fn running_streams_are_waited_for() {
    let state = capture_with_state(StreamState::Streaming, Some(captured_frame(1, 20, 10)));

    assert!(matches!(state.next_frame((10, 10), false), FrameStep::Wait));
    assert!(matches!(state.next_frame((10, 10), true), FrameStep::Idle));
    assert!(state.gives_up_after_wait(true, (10, 10)));
    assert!(!state.gives_up_after_wait(true, (20, 10)));
}

fn window(id: u32, left: i32, top: i32, width: usize, height: usize) -> WindowSummary {
    WindowSummary {
        id,
        bounds: area(left, top, width, height),
        alpha: 1.0_f64.to_bits(),
    }
}

#[test]
fn frontmost_window_uses_window_server_order() {
    let snapshot = WindowListSnapshot {
        windows: vec![window(20, 100, 100, 300, 300), window(10, 0, 0, 500, 500)],
    };

    assert!(snapshot.target_is_frontmost_at_point(20, (150, 150)));
    assert!(!snapshot.target_is_frontmost_at_point(10, (150, 150)));
    assert!(snapshot.target_is_frontmost_at_point(10, (50, 50)));
    assert!(!snapshot.target_is_frontmost_at_point(20, (50, 50)));
}

#[test]
fn frontmost_window_ignores_transparent_and_noncontaining_windows() {
    let mut transparent = window(30, 0, 0, 500, 500);
    transparent.alpha = 0.0_f64.to_bits();
    let snapshot = WindowListSnapshot {
        windows: vec![
            transparent,
            window(20, 300, 300, 100, 100),
            window(10, 0, 0, 500, 500),
        ],
    };

    assert!(snapshot.target_is_frontmost_at_point(10, (150, 150)));
}

#[test]
fn rejects_cached_or_pre_resize_frames() {
    assert!(!frame_is_usable(
        &captured_frame(4, 200, 100),
        4,
        (200, 100)
    ));
    assert!(!frame_is_usable(&captured_frame(5, 100, 50), 4, (200, 100)));
    assert!(frame_is_usable(&captured_frame(5, 200, 100), 4, (200, 100)));
}

#[test]
fn new_frames_are_waited_for() {
    let frame = Some(captured_frame(5, 200, 100));
    let none: Option<String> = None;

    assert!(matches!(
        next_frame_after(&frame, &none, 4, (200, 100), false),
        NewFrameStep::Deliver(_)
    ));
    assert!(matches!(
        next_frame_after(&frame, &none, 5, (200, 100), false),
        NewFrameStep::Wait
    ));
    match next_frame_after(&frame, &none, 5, (200, 100), true) {
        NewFrameStep::Failed(message) => assert_eq!(
            message,
            "Timed out waiting for a new ScreenCaptureKit frame"
        ),
        other => panic!("unexpected {other:?}"),
    }
    match next_frame_after(&frame, &Some("broken".into()), 5, (200, 100), false) {
        NewFrameStep::Failed(message) => assert_eq!(message, "broken"),
        other => panic!("unexpected {other:?}"),
    }
    assert_eq!(minimum_sequence(3, None), 3);
    assert_eq!(minimum_sequence(3, Some(5)), 5);
    assert_eq!(minimum_sequence(7, Some(5)), 7);
}

fn picked_window() -> PickedSource {
    PickedSource {
        geometry: area(10, 20, 100, 50),
        pixel_size: (200, 100),
        target: CaptureTarget::Window {
            window_id: 7,
            title: "Reader".into(),
        },
    }
}

#[test]
fn interrupted_streams_lose_their_frame() {
    let mut source = CaptureSourceSnapshot::new();
    let mut session = CaptureSession::new(Some(picked_window()), &mut source, 0);
    let generation = session.source_generation;
    let picture = || Ok((captured_frame(0, 200, 100).screenshot, area(11, 21, 100, 50)));

    assert_eq!(
        session
            .capture
            .begin_sample(&mut source, generation, true, Some(SampleStatus::Complete)),
        SampleStep::Read
    );
    assert!(session
        .capture
        .end_sample(&mut source, generation, picture()));
    assert_eq!(session.capture.frame.as_ref().unwrap().sequence, 1);
    assert!(source.available);
    assert_eq!(source.geometry, Some(area(11, 21, 100, 50)));

    assert_eq!(
        session
            .capture
            .begin_sample(&mut source, generation, true, Some(SampleStatus::Idle)),
        SampleStep::Ignore
    );
    assert!(session.capture.frame.is_some());
    assert_eq!(
        session
            .capture
            .begin_sample(&mut source, generation, true, Some(SampleStatus::Blank)),
        SampleStep::Interrupted
    );
    assert!(session.capture.frame.is_none());
    assert_eq!(session.capture.stream_state, StreamState::Suspended);
    assert!(!source.available);

    session
        .capture
        .begin_sample(&mut source, generation, true, Some(SampleStatus::Stopped));
    assert!(!session
        .capture
        .end_sample(&mut source, generation, picture()));
    assert_eq!(session.capture.stream_state, StreamState::Stopped);
    assert!(session
        .capture
        .end_sample(&mut source, generation, Err("unreadable".into())));
    assert_eq!(
        session
            .capture
            .begin_sample(&mut source, generation, false, None),
        SampleStep::Ignore
    );
}

#[test]
fn sessions_follow_their_window() {
    let mut source = CaptureSourceSnapshot::new();
    let mut session = CaptureSession::new(Some(picked_window()), &mut source, 0);
    let first = session.source_generation;
    assert_eq!(source.window_id, Some(7));

    assert_eq!(session.prepare_stream(), Ok(Some((200, 100))));
    assert_eq!(
        session.stream_started(false, Ok(())).unwrap_err(),
        "ScreenCaptureKit rejected the screen output handler"
    );
    assert_eq!(session.stream_started(true, Ok(())), Ok(()));
    assert_eq!(session.prepare_stream(), Ok(None));

    assert_eq!(session.begin_refresh(100_000_000), None);
    assert_eq!(session.begin_refresh(200_000_000), Some(7));
    assert_eq!(
        session.window_observed(&mut source, &area(30, 40, 120, 60), (240, 120)),
        Some((240, 120))
    );
    assert_eq!(session.geometry, Some(area(30, 40, 100, 50)));
    assert_eq!(source.geometry, Some(area(30, 40, 100, 50)));
    session.stream_resized((240, 120), false);
    assert_eq!(session.pixel_size, Some((200, 100)));
    session.stream_resized((240, 120), true);
    assert_eq!(session.pixel_size, Some((240, 120)));
    session.frame_delivered(&captured_frame(1, 240, 120));
    assert_eq!(session.geometry, Some(area(0, 0, 240, 120)));

    session.release_source(&mut source);
    assert_ne!(session.source_generation, first);
    assert_eq!(source.geometry, None);
    source.set_source_available(first, true);
    assert!(!source.available);
    assert_eq!(
        session.prepare_stream().unwrap_err(),
        "No capture source is currently shared"
    );
}

#[test]
fn pictures_lie_where_the_window_was_seen() {
    let fallback = area(0, 0, 10, 10);

    assert_eq!(frame_geometry(None, fallback, None), fallback);
    assert_eq!(
        frame_geometry(Some(area(1, 2, 3, 4)), fallback, Some((5, 6))),
        area(1, 2, 5, 6)
    );
    assert_eq!(
        frame_geometry(Some(area(1, 2, 3, 4)), fallback, Some((0, 6))),
        area(1, 2, 3, 4)
    );
}

fn picked() -> PickedContent {
    PickedContent {
        display: None,
        window: None,
        content: None,
        pixel_size: (0, 0),
    }
}

#[test]
fn picked_content_becomes_a_source() {
    let display = PickedContent {
        display: Some((3, Some(area(0, 0, 100, 50)))),
        ..picked()
    };
    let source = pick_source(PickerOutcome::Picked(display)).unwrap().unwrap();
    assert_eq!(source.pixel_size, (100, 50));
    assert_eq!(source.target.describe(), "display 3");
    assert_eq!(source.target.window_id(), None);

    let window = PickedContent {
        window: Some((4, None, Some(area(0, 0, 100, 50)))),
        pixel_size: (200, 100),
        ..picked()
    };
    let source = pick_source(PickerOutcome::Picked(window)).unwrap().unwrap();
    assert_eq!(source.pixel_size, (200, 100));
    assert_eq!(source.target.describe(), "window 4 (Untitled)");
    assert_eq!(source.target.window_id(), Some(4));

    let content = PickedContent {
        content: Some(area(0, 0, 100, 50)),
        ..picked()
    };
    let source = pick_source(PickerOutcome::Picked(content)).unwrap().unwrap();
    assert_eq!(source.target.describe(), "selected content");
}

#[test]
fn content_without_an_area_is_refused() {
    let refused = |outcome| pick_source(outcome).unwrap_err();
    let of = |content| refused(PickerOutcome::Picked(content));

    assert!(pick_source(PickerOutcome::Cancelled).unwrap().is_none());
    assert_eq!(
        require_source(None).unwrap_err(),
        "Screen selection was cancelled"
    );
    assert!(require_source(Some(picked_window())).is_ok());
    assert_eq!(
        refused(PickerOutcome::Failed("e".into())),
        "The macOS screen picker failed: e"
    );
    assert_eq!(
        refused(PickerOutcome::Closed),
        "The macOS screen picker closed without a result"
    );
    assert_eq!(
        of(PickedContent {
            display: Some((3, None)),
            ..picked()
        }),
        "The macOS screen picker returned invalid display geometry"
    );
    assert_eq!(
        of(PickedContent {
            window: Some((3, None, None)),
            ..picked()
        }),
        "The macOS screen picker returned invalid window geometry"
    );
    assert_eq!(
        of(picked()),
        "The macOS screen picker returned invalid content geometry"
    );
    assert_eq!(
        of(PickedContent {
            content: Some(area(0, 0, 0, 50)),
            ..picked()
        }),
        "The macOS screen picker returned an empty selection"
    );
}

#[test]
fn hidden_windows_are_not_available() {
    let windows = WindowListSnapshot {
        windows: vec![window(20, 100, 100, 300, 300), window(10, 0, 0, 500, 500)],
    };
    let source = Some(CaptureSourceSnapshot {
        generation: 3,
        geometry: Some(area(0, 0, 500, 500)),
        window_id: Some(10),
        available: true,
    });

    assert!(needs_window_list(&source));
    assert!(!needs_window_list(&None));
    let hidden = pointer_snapshot((150, 150), &source, Some(&windows));
    assert!(!hidden.target_available);
    assert_eq!(hidden.source_generation, 3);
    let seen = pointer_snapshot((50, 50), &source, Some(&windows));
    assert!(seen.target_available);
    assert_eq!(seen.capture_geometry, Some(area(0, 0, 500, 500)));
    assert!(!pointer_snapshot((50, 50), &source, None).target_available);
    assert!(pointer_snapshot((50, 50), &None, None).target_available);
}

#[test]
fn window_lists_are_kept_for_a_while() {
    assert!(!window_list_is_fresh(None, 100));
    assert!(window_list_is_fresh(Some(100), 100 + 49_999_999));
    assert!(!window_list_is_fresh(Some(100), 100 + 50_000_000));
}

#[test]
fn the_older_window_list_is_kept_where_there_is_no_new_one() {
    let list = |id| WindowListSnapshot {
        windows: vec![window(id, 0, 0, 10, 10)],
    };

    let kept = input_macos::newer_window_list(None, Some(list(1))).unwrap();
    assert_eq!(kept.windows[0].id, 1);
    let kept = input_macos::newer_window_list(Some(list(2)), Some(list(1))).unwrap();
    assert_eq!(kept.windows[0].id, 2);

    let windows = list(1);
    let snapshot = input_macos::pointer_snapshot(
        (5, 5),
        Some(1),
        Some(&windows),
        Some(area(0, 0, 10, 10)),
        None,
    );
    assert!(snapshot.target_available);
    assert_eq!(snapshot.capture_geometry, Some(area(0, 0, 10, 10)));
}
