use std::cell::RefCell;
use std::collections::VecDeque;
use std::rc::Rc;

use meikipop::pixels::{
    bgra_to_rgb, check_rgb_buffer, copy_strided_bgra, crop_bgra, pack_rows, pack_sample,
    rgb_to_rgbx, RgbBufferError, StrideError,
};
use meikipop::screenshot::interface::{FrameProvider, Monitor, RgbImage, Screenshot};
use meikipop::screenshot::screenmanager::{
    ScreenManager, ScreenManagerConfig, ScreenManagerRuntime, SECOND,
};

type CallLog = Rc<RefCell<Vec<&'static str>>>;

struct FakeFrameProvider {
    log: CallLog,
    monitors: Vec<Monitor>,
    screenshots: VecDeque<Screenshot>,
}

impl FrameProvider for FakeFrameProvider {
    fn monitors(&mut self) -> Result<Vec<Monitor>, String> {
        Ok(self.monitors.clone())
    }

    fn frame(&mut self, _monitor: &Monitor) -> Result<Screenshot, String> {
        self.log.borrow_mut().push("frame");
        self.screenshots
            .pop_front()
            .ok_or_else(|| "no screenshot queued".into())
    }
}

struct FakeRuntime {
    log: CallLog,
    running: bool,
    config: ScreenManagerConfig,
    mouse_positions: VecDeque<(i32, i32)>,
    ocr_images: Vec<RgbImage>,
    slept: Vec<u64>,
    screenshot_triggers: usize,
    hit_scan_triggers: usize,
    screen_lock_acquires: usize,
    screen_lock_releases: usize,
    now: u64,
}

impl ScreenManagerRuntime for FakeRuntime {
    fn running(&mut self) -> bool {
        self.running
    }
    fn config(&mut self) -> ScreenManagerConfig {
        self.config
    }
    fn wait_for_screenshot_trigger(&mut self) {}
    fn clear_screenshot_trigger(&mut self) {}
    fn get_mouse_pos(&mut self) -> (i32, i32) {
        self.mouse_positions.front().copied().unwrap_or_default()
    }
    fn screen_lock_acquire(&mut self) {
        self.log.borrow_mut().push("acquire");
        self.screen_lock_acquires += 1;
    }
    fn screen_lock_release(&mut self) {
        self.log.borrow_mut().push("release");
        self.screen_lock_releases += 1;
    }
    fn put_ocr(&mut self, image: RgbImage) {
        self.ocr_images.push(image);
    }
    fn sleep(&mut self, interval: u64) {
        self.slept.push(interval);
    }
    fn set_screenshot_trigger(&mut self) {
        self.screenshot_triggers += 1;
    }
    fn trigger_hit_scan(&mut self) {
        self.hit_scan_triggers += 1;
    }
    fn now(&mut self) -> u64 {
        self.now
    }
}

fn monitor() -> Monitor {
    Monitor {
        top: 20,
        left: 10,
        width: 1,
        height: 1,
    }
}

fn screenshot(pixel: [u8; 4]) -> Screenshot {
    Screenshot {
        raw: pixel.to_vec(),
        width: 1,
        height: 1,
    }
}

fn manager(screenshots: Vec<Screenshot>) -> ScreenManager<FakeFrameProvider> {
    logged_manager(screenshots, CallLog::default())
}

fn logged_manager(
    screenshots: Vec<Screenshot>,
    log: CallLog,
) -> ScreenManager<FakeFrameProvider> {
    let backend = FakeFrameProvider {
        log,
        monitors: vec![monitor()],
        screenshots: screenshots.into(),
    };
    let mut manager = ScreenManager::new(backend);
    manager.monitor = Some(monitor());
    manager
}

fn runtime() -> FakeRuntime {
    FakeRuntime {
        log: CallLog::default(),
        running: true,
        config: ScreenManagerConfig {
            auto_scan_mode: false,
            is_enabled: true,
            auto_scan_interval: SECOND / 2,
            auto_scan_on_mouse_move: false,
        },
        mouse_positions: VecDeque::from([(100, 200)]),
        ocr_images: Vec::new(),
        slept: Vec::new(),
        screenshot_triggers: 0,
        hit_scan_triggers: 0,
        screen_lock_acquires: 0,
        screen_lock_releases: 0,
        now: 10 * SECOND,
    }
}

#[test]
fn converts_and_puts_a_changed_screenshot() {
    let mut manager = manager(vec![screenshot([10, 20, 30, 255])]);
    let mut runtime = runtime();

    manager.run_once(&mut runtime).unwrap();

    assert_eq!(runtime.ocr_images[0].data, [30, 20, 10]);
    assert_eq!(manager.last_mouse_pos, Some((100, 200)));
    assert!(manager.last_ocr_put_time.is_some());
}

#[test]
fn skips_unchanged_screen_content() {
    let mut manager = manager(vec![screenshot([10, 20, 30, 255])]);
    manager.last_screenshot = Some(screenshot([10, 20, 30, 255]));
    let mut runtime = runtime();

    manager.run_once(&mut runtime).unwrap();

    assert!(runtime.ocr_images.is_empty());
    assert_eq!(runtime.hit_scan_triggers, 1);
}

#[test]
fn auto_mode_skips_scans_without_mouse_movement() {
    let mut manager = manager(vec![screenshot([10, 20, 30, 255])]);
    manager.last_mouse_pos = Some((100, 200));
    let mut runtime = runtime();
    runtime.config.auto_scan_mode = true;
    runtime.config.auto_scan_on_mouse_move = true;

    manager.run_once(&mut runtime).unwrap();

    assert!(runtime.ocr_images.is_empty());
}

#[test]
fn paused_auto_mode_sleeps_and_retriggers_screenshot() {
    let mut manager = manager(Vec::new());
    let mut runtime = runtime();
    runtime.config.auto_scan_mode = true;
    runtime.config.is_enabled = false;

    manager.run_once(&mut runtime).unwrap();

    assert_eq!(runtime.slept, [SECOND]);
    assert_eq!(runtime.screenshot_triggers, 1);
}

#[test]
fn auto_mode_respects_the_upstream_scan_interval() {
    let mut manager = manager(Vec::new());
    let mut runtime = runtime();
    manager.last_ocr_put_time = Some(runtime.now);
    runtime.config.auto_scan_mode = true;

    manager.run_once(&mut runtime).unwrap();

    assert_eq!(runtime.slept.len(), 1);
    assert!(runtime.slept[0] <= SECOND / 2);
    assert_eq!(runtime.screenshot_triggers, 1);
    assert!(runtime.ocr_images.is_empty());
}

#[test]
fn capture_errors_still_release_the_screen_lock() {
    let mut manager = manager(Vec::new());
    let mut runtime = runtime();

    assert!(manager.run_once(&mut runtime).is_err());

    assert_eq!(runtime.screen_lock_acquires, 1);
    assert_eq!(runtime.screen_lock_releases, 1);
}

#[test]
fn screenshots_are_taken_while_the_lock_is_held() {
    let log = CallLog::default();
    let mut manager = logged_manager(vec![screenshot([10, 20, 30, 255])], log.clone());
    let mut runtime = runtime();
    runtime.log = log.clone();

    manager.run_once(&mut runtime).unwrap();
    assert_eq!(*log.borrow(), ["acquire", "frame", "release"]);

    manager.monitor = None;
    assert!(manager.run_once(&mut runtime).is_err());
    assert_eq!(log.borrow()[3..], ["acquire", "release"]);
}

#[test]
fn a_failed_round_is_followed_by_a_second_of_leave() {
    let mut manager = manager(Vec::new());
    let mut runtime = runtime();

    assert!(matches!(manager.run_turn(&mut runtime), Some(Err(_))));
    assert_eq!(runtime.hit_scan_triggers, 1);
    assert!(runtime.slept.is_empty());

    runtime.config.auto_scan_mode = true;
    runtime.mouse_positions = VecDeque::from([(1, 1)]);
    assert!(matches!(manager.run_turn(&mut runtime), Some(Err(_))));
    assert_eq!(runtime.slept, [SECOND]);
    assert_eq!(runtime.screenshot_triggers, 1);

    runtime.running = false;
    assert_eq!(manager.run_turn(&mut runtime), None);
}

#[test]
fn force_screenshot_trigger_clears_upstream_state() {
    let mut manager = manager(Vec::new());
    manager.last_screenshot = Some(screenshot([10, 20, 30, 255]));
    manager.last_mouse_pos = Some((100, 200));

    manager.force_screenshot_trigger();

    assert!(manager.last_screenshot.is_none());
    assert!(manager.last_mouse_pos.is_none());
}

#[test]
fn set_scan_screen_uses_mss_style_monitor_indices() {
    let mut manager = manager(Vec::new());
    manager.monitor = None;

    manager.set_scan_screen(0).unwrap();

    assert_eq!(manager.monitor, Some(monitor()));
    assert_eq!(manager.get_scan_geometry(), (10, 20, 1, 1));
}

#[test]
fn invalid_screen_index_keeps_the_previous_monitor() {
    let mut manager = manager(Vec::new());
    let previous_monitor = manager.monitor;

    manager.set_scan_screen(10).unwrap();

    assert_eq!(manager.monitor, previous_monitor);
}

#[test]
fn cancelled_region_selection_keeps_the_previous_monitor() {
    let mut manager = manager(Vec::new());
    let previous_monitor = manager.monitor;

    assert!(!manager.set_scan_region(None));

    assert_eq!(manager.monitor, previous_monitor);
}

#[test]
fn a_chosen_region_is_scanned() {
    let mut manager = manager(vec![screenshot([1, 2, 3, 4])]);
    let region = Monitor {
        top: 1,
        left: 2,
        width: 3,
        height: 4,
    };

    assert!(manager.set_scan_region(Some(region)));
    assert_eq!(manager.get_scan_geometry(), (2, 1, 3, 4));
    assert_eq!(manager.take_screenshot().unwrap().raw, [1, 2, 3, 4]);
    assert_eq!(manager.get_screens().unwrap(), [monitor()]);
}

#[test]
fn without_a_region_nothing_is_scanned() {
    let mut manager = manager(vec![screenshot([1, 2, 3, 4])]);
    manager.monitor = None;

    assert_eq!(manager.get_scan_geometry(), (0, 0, 0, 0));
    assert!(manager.take_screenshot().is_err());
}

#[test]
fn screenshots_have_a_size_and_fit_it() {
    let shot = screenshot([10, 20, 30, 255]);
    assert_eq!(shot.size(), (1, 1));
    assert_eq!(shot.to_rgb().unwrap().data, [30, 20, 10]);

    let short = Screenshot {
        raw: vec![0; 3],
        width: 1,
        height: 1,
    };
    assert_eq!(
        short.to_rgb().unwrap_err(),
        "BGRA screenshot has 3 bytes, expected 4"
    );
    let large = Screenshot {
        raw: Vec::new(),
        width: usize::MAX,
        height: 2,
    };
    assert_eq!(
        large.to_rgb().unwrap_err(),
        "screenshot dimensions are too large"
    );
}

#[test]
fn crops_rows_from_a_bgra_frame() {
    let frame: Vec<u8> = (0..24).collect();
    let (cropped, width, height) = crop_bgra(&frame, 3, 2, 1, 0, 2, 2).unwrap();

    assert_eq!((width, height), (2, 2));
    assert_eq!(
        cropped,
        [4, 5, 6, 7, 8, 9, 10, 11, 16, 17, 18, 19, 20, 21, 22, 23]
    );
}

#[test]
fn clamps_a_crop_to_the_frame() {
    let frame: Vec<u8> = (0..24).collect();
    let (cropped, width, height) = crop_bgra(&frame, 3, 2, -2, -1, 3, 2).unwrap();

    assert_eq!((width, height), (1, 1));
    assert_eq!(cropped, [0, 1, 2, 3]);
}

#[test]
fn rejects_an_incomplete_frame() {
    let error = crop_bgra(&[0; 7], 2, 1, 0, 0, 1, 1).unwrap_err();
    assert_eq!(error, "BGRA buffer is smaller than its declared dimensions");
}

const PADDED: [u8; 24] = [
    1, 2, 3, 4, 5, 6, 7, 8, 99, 99, 99, 99, 9, 10, 11, 12, 13, 14, 15, 16, 88, 88, 88, 88,
];

#[test]
fn wayland_removes_row_padding() {
    let packed = copy_strided_bgra(&PADDED, 2, 2, 12).unwrap();
    assert_eq!(
        packed,
        [1, 2, 3, 4, 5, 6, 7, 8, 9, 10, 11, 12, 13, 14, 15, 16]
    );
}

#[test]
fn wayland_rejects_a_short_stride() {
    let error = copy_strided_bgra(&[0; 8], 2, 1, 4).unwrap_err();
    assert!(error.contains("smaller"));
    assert_eq!(error, "Captured frame stride 4 is smaller than its 8-byte row");
}

#[test]
fn wayland_mss_shim_removes_row_padding() {
    let packed = copy_strided_bgra(&PADDED, 2, 2, 12).unwrap();
    assert_eq!(
        packed,
        [1, 2, 3, 4, 5, 6, 7, 8, 9, 10, 11, 12, 13, 14, 15, 16]
    );
}

#[test]
fn wayland_mss_shim_rejects_a_short_stride() {
    let error = copy_strided_bgra(&[0; 8], 2, 1, 4).unwrap_err();
    assert!(error.contains("smaller"));
}

#[test]
fn frames_that_cannot_be_packed_are_told_apart() {
    assert_eq!(
        pack_rows(&[], usize::MAX, 1, 1),
        Err(StrideError::WidthTooLarge)
    );
    assert_eq!(
        pack_rows(&[], 1, 1, 3),
        Err(StrideError::ShortStride { row_bytes: 4 })
    );
    assert_eq!(pack_rows(&[], 1, 2, usize::MAX), Err(StrideError::TooLarge));
    assert_eq!(
        pack_rows(&[0; 7], 1, 2, 4),
        Err(StrideError::ShortBuffer { required: 8 })
    );
    assert_eq!(
        copy_strided_bgra(&[0; 7], 1, 2, 4).unwrap_err(),
        "Captured frame has 7 bytes, but its dimensions and stride require 8"
    );
    assert_eq!(
        pack_sample(&[0; 7], 1, 2, 4).unwrap_err(),
        "ScreenCaptureKit frame has 7 bytes, expected at least 8"
    );
    assert_eq!(
        pack_sample(&[0; 7], 1, 2, 3).unwrap_err(),
        "ScreenCaptureKit row stride 3 is smaller than 4"
    );
    assert_eq!(
        pack_sample(&[], 1, 2, 0).unwrap_err(),
        "ScreenCaptureKit row stride 0 is smaller than 4"
    );
}

#[test]
fn pixels_change_their_order() {
    assert_eq!(bgra_to_rgb(&[1, 2, 3, 4, 5, 6, 7, 8]), [3, 2, 1, 7, 6, 5]);
    assert_eq!(rgb_to_rgbx(&[1, 2, 3, 4, 5, 6]), [1, 2, 3, 0, 4, 5, 6, 0]);
}

#[test]
fn image_buffers_fit_their_sides() {
    assert_eq!(check_rgb_buffer(6, 2, 1), Ok(()));
    assert_eq!(
        check_rgb_buffer(5, 2, 1),
        Err(RgbBufferError::WrongLength { expected: 6 })
    );
    assert_eq!(check_rgb_buffer(0, 0, 1), Err(RgbBufferError::Empty));
    assert_eq!(
        check_rgb_buffer(0, usize::MAX, 2),
        Err(RgbBufferError::TooLarge)
    );
}
