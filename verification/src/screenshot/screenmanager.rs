//! When screenshots are taken and handed on for recognition.

use crate::screenshot::interface;
use crate::screenshot::interface::{
    FrameEvent, FrameProvider, Monitor, RgbImage, RgbImageView, Screenshot, ScreenshotView,
};
use crate::screenshot::source::{FrameSource, SourceEvent};
use vstd::prelude::*;

verus! {

/// Nanoseconds in a second.
pub const SECOND: u64 = 1_000_000_000;

/// How long to wait when the screen did not change.
pub const UNCHANGED_PAUSE: u64 = 100_000_000;

/// When screenshots are to be taken. The interval is in nanoseconds.
#[derive(Clone, Copy, Debug, PartialEq, Eq, Structural)]
pub struct ScreenManagerConfig {
    pub auto_scan_mode: bool,
    pub is_enabled: bool,
    pub auto_scan_interval: u64,
    pub auto_scan_on_mouse_move: bool,
}

/// A call of the runtime, with its answer.
pub enum RuntimeEvent {
    Running(bool),
    Config(ScreenManagerConfig),
    WaitForTrigger,
    ClearTrigger,
    MousePos((i32, i32)),
    AcquireLock,
    ReleaseLock,
    PutOcr(RgbImageView),
    Sleep(u64),
    SetTrigger,
    TriggerHitScan,
    Now(u64),
}

/// What surrounds the screen manager. Its history lists the calls made of it.
pub trait ScreenManagerRuntime: Sized {
    /// The calls so far and their answers. A verified runtime defines this as its record of
    /// them; with the definition given here the promises of the methods cannot be proved.
    open spec fn history(&self) -> Seq<RuntimeEvent> {
        arbitrary()
    }

    /// Whether the program goes on.
    fn running(&mut self) -> (r: bool)
        ensures
            final(self).history() == old(self).history().push(RuntimeEvent::Running(r)),
    ;

    /// The settings as they are now.
    fn config(&mut self) -> (r: ScreenManagerConfig)
        ensures
            final(self).history() == old(self).history().push(RuntimeEvent::Config(r)),
    ;

    /// Waits until a screenshot is asked for.
    fn wait_for_screenshot_trigger(&mut self)
        ensures
            final(self).history() == old(self).history().push(RuntimeEvent::WaitForTrigger),
    ;

    /// Forgets that a screenshot was asked for.
    fn clear_screenshot_trigger(&mut self)
        ensures
            final(self).history() == old(self).history().push(RuntimeEvent::ClearTrigger),
    ;

    /// Where the pointer is.
    fn get_mouse_pos(&mut self) -> (r: (i32, i32))
        ensures
            final(self).history() == old(self).history().push(RuntimeEvent::MousePos(r)),
    ;

    /// Takes the lock on the screen.
    fn screen_lock_acquire(&mut self)
        ensures
            final(self).history() == old(self).history().push(RuntimeEvent::AcquireLock),
    ;

    /// Gives the lock on the screen back.
    fn screen_lock_release(&mut self)
        ensures
            final(self).history() == old(self).history().push(RuntimeEvent::ReleaseLock),
    ;

    /// Hands an image on for recognition.
    fn put_ocr(&mut self, image: RgbImage)
        ensures
            final(self).history() == old(self).history().push(RuntimeEvent::PutOcr(image@)),
    ;

    /// Sleeps for a number of nanoseconds.
    fn sleep(&mut self, interval: u64)
        ensures
            final(self).history() == old(self).history().push(RuntimeEvent::Sleep(interval)),
    ;

    /// Asks for a screenshot.
    fn set_screenshot_trigger(&mut self)
        ensures
            final(self).history() == old(self).history().push(RuntimeEvent::SetTrigger),
    ;

    /// Asks for the text under the pointer to be found again.
    fn trigger_hit_scan(&mut self)
        ensures
            final(self).history() == old(self).history().push(RuntimeEvent::TriggerHitScan),
    ;

    /// Nanoseconds on a clock that never goes back.
    fn now(&mut self) -> (r: u64)
        ensures
            final(self).history() == old(self).history().push(RuntimeEvent::Now(r)),
    ;
}

/// Takes screenshots of the area to scan. Times are nanoseconds on the clock of the runtime.
pub struct ScreenManager<B> {
    pub monitor: Option<Monitor>,
    pub last_ocr_put_time: Option<u64>,
    pub last_screenshot: Option<Screenshot>,
    pub last_mouse_pos: Option<(i32, i32)>,
    pub frame_provider: FrameSource<B>,
}

/// What a screen manager remembers.
#[verifier::ext_equal]
pub struct ManagerView {
    pub monitor: Option<Monitor>,
    pub last_ocr_put_time: Option<u64>,
    pub last_screenshot: Option<ScreenshotView>,
    pub last_mouse_pos: Option<(i32, i32)>,
}

/// The message of a screenshot without a monitor.
pub open spec fn no_monitor_text() -> Seq<char> {
    "scan monitor is not set"@
}

/// The events of leaving the loop for a while: with automatic scanning a pause and then a
/// request for a screenshot, else a request for a hit scan.
pub open spec fn leaves(events: Seq<RuntimeEvent>, pause: u64) -> bool {
    &&& events.len() > 0
    &&& events[0] matches RuntimeEvent::Config(config)
    &&& if config.auto_scan_mode {
        events == seq![
            RuntimeEvent::Config(config),
            RuntimeEvent::Sleep(pause),
            RuntimeEvent::SetTrigger,
        ]
    } else {
        events == seq![RuntimeEvent::Config(config), RuntimeEvent::TriggerHitScan]
    }
}

/// A screenshot was taken (`shot`): what follows, from `before` to `after`.
pub open spec fn handles_shot(
    before: ManagerView,
    shot: Result<ScreenshotView, Seq<char>>,
    events: Seq<RuntimeEvent>,
    after: ManagerView,
    outcome: Result<(), Seq<char>>,
) -> bool {
    match shot {
        Err(message) => {
            &&& events.len() == 0
            &&& after == before
            &&& outcome == Err::<(), Seq<char>>(message)
        },
        Ok(shot) => if before.last_screenshot is Some && before.last_screenshot->0.raw == shot.raw {
            &&& leaves(events, UNCHANGED_PAUSE)
            &&& after == before
            &&& outcome is Ok
        } else {
            &&& events.len() > 0
            &&& events[0] matches RuntimeEvent::MousePos(mouse)
            &&& match interface::image_of(shot) {
                Err(message) => {
                    &&& events.len() == 1
                    &&& after == (ManagerView {
                        last_screenshot: Some(shot),
                        last_mouse_pos: Some(mouse),
                        ..before
                    })
                    &&& outcome == Err::<(), Seq<char>>(message)
                },
                Ok(image) => {
                    &&& events.len() == 3
                    &&& events[1] == RuntimeEvent::PutOcr(image)
                    &&& events[2] matches RuntimeEvent::Now(now)
                    &&& after == (ManagerView {
                        last_screenshot: Some(shot),
                        last_mouse_pos: Some(mouse),
                        last_ocr_put_time: Some(now),
                        ..before
                    })
                    &&& outcome is Ok
                },
            }
        },
    }
}

/// It is time for a screenshot: unless the pointer has to move first and did not, one is taken
/// under the lock.
pub open spec fn scans(
    before: ManagerView,
    config: ScreenManagerConfig,
    shot: Result<ScreenshotView, Seq<char>>,
    events: Seq<RuntimeEvent>,
    after: ManagerView,
    outcome: Result<(), Seq<char>>,
) -> bool {
    &&& events.len() > 0
    &&& events[0] matches RuntimeEvent::MousePos(mouse)
    &&& if config.auto_scan_mode && config.auto_scan_on_mouse_move && before.last_mouse_pos == Some(
        mouse,
    ) {
        &&& events.len() == 1
        &&& after == before
        &&& outcome is Ok
    } else {
        &&& events.len() >= 4
        &&& events[1] matches RuntimeEvent::MousePos(again)
        &&& events[2] is AcquireLock
        &&& events[3] is ReleaseLock
        &&& handles_shot(
            ManagerView { last_mouse_pos: Some(again), ..before },
            shot,
            events.skip(4),
            after,
            outcome,
        )
    }
}

/// Nanoseconds since `then` at `now`.
pub open spec fn elapsed(then: u64, now: u64) -> int {
    if now > then {
        now - then
    } else {
        0
    }
}

/// The screen manager was woken: it waits when the last recognition was too short a time ago.
pub open spec fn wakes(
    before: ManagerView,
    shot: Result<ScreenshotView, Seq<char>>,
    events: Seq<RuntimeEvent>,
    after: ManagerView,
    outcome: Result<(), Seq<char>>,
) -> bool {
    &&& events.len() > 0
    &&& events[0] matches RuntimeEvent::Config(config)
    &&& match before.last_ocr_put_time {
        None => scans(before, config, shot, events.skip(1), after, outcome),
        Some(then) => {
            &&& events.len() > 1
            &&& events[1] matches RuntimeEvent::Now(now)
            &&& if config.auto_scan_mode && elapsed(then, now) < config.auto_scan_interval {
                &&& leaves(
                    events.skip(2),
                    (config.auto_scan_interval - elapsed(then, now)) as u64,
                )
                &&& after == before
                &&& outcome is Ok
            } else {
                scans(before, config, shot, events.skip(2), after, outcome)
            }
        },
    }
}

/// One round of the screen manager: `events` are the calls that it makes, with their answers,
/// and `shot` is the answer to the request for a screenshot where one is made.
pub open spec fn is_round(
    before: ManagerView,
    shot: Result<ScreenshotView, Seq<char>>,
    events: Seq<RuntimeEvent>,
    after: ManagerView,
    outcome: Result<(), Seq<char>>,
) -> bool {
    &&& events.len() > 0
    &&& events[0] matches RuntimeEvent::Config(config)
    &&& if config.auto_scan_mode && !config.is_enabled {
        &&& leaves(events.skip(1), SECOND)
        &&& after == before
        &&& outcome is Ok
    } else {
        &&& events.len() >= 4
        &&& events[1] is WaitForTrigger
        &&& events[2] is ClearTrigger
        &&& events[3] matches RuntimeEvent::Running(running)
        &&& if running {
            wakes(before, shot, events.skip(4), after, outcome)
        } else {
            &&& events.len() == 4
            &&& after == before
            &&& outcome is Ok
        }
    }
}

/// One turn of the screen manager's loop: unless the program stops, a round and, after a round
/// that failed, a second's leave. The round makes the first `count` calls behind the question
/// whether the program runs.
pub open spec fn is_turn(
    before: ManagerView,
    shot: Result<ScreenshotView, Seq<char>>,
    events: Seq<RuntimeEvent>,
    count: int,
    after: ManagerView,
    outcome: Option<Result<(), Seq<char>>>,
) -> bool {
    &&& events.len() > 0
    &&& events[0] matches RuntimeEvent::Running(running)
    &&& 0 <= count < events.len()
    &&& match outcome {
        None => !running && events.len() == 1 && after == before,
        Some(outcome) => {
            &&& running
            &&& is_round(before, shot, events.subrange(1, 1 + count), after, outcome)
            &&& if outcome is Ok {
                events.len() == 1 + count
            } else {
                leaves(events.skip(1 + count), SECOND)
            }
        },
    }
}

/// The contents of an outcome.
pub open spec fn outcome_of(r: Result<(), String>) -> Result<(), Seq<char>> {
    match r {
        Ok(_) => Ok(()),
        Err(message) => Err(message@),
    }
}

/// The contents of the outcome of a turn.
pub open spec fn turn_outcome(r: Option<Result<(), String>>) -> Option<Result<(), Seq<char>>> {
    match r {
        Some(r) => Some(outcome_of(r)),
        None => None,
    }
}

/// The contents of the answer to a request for a screenshot.
pub open spec fn shot_of(r: Result<Screenshot, String>) -> Result<ScreenshotView, Seq<char>> {
    match r {
        Ok(shot) => Ok(shot@),
        Err(message) => Err(message@),
    }
}

/// Whether two lists of bytes are equal.
fn same_bytes(a: &Vec<u8>, b: &Vec<u8>) -> (r: bool)
    ensures
        r == (a@ == b@),
{
    if a.len() != b.len() {
        return false;
    }
    let mut i: usize = 0;
    while i < a.len()
        invariant
            i <= a@.len(),
            a@.len() == b@.len(),
            forall|k: int| 0 <= k < i ==> a@[k] == b@[k],
        decreases a@.len() - i,
    {
        if a[i] != b[i] {
            return false;
        }
        i += 1;
    }
    assert(a@ =~= b@);
    true
}

impl<B> ScreenManager<B> {
    /// What the screen manager remembers.
    pub open spec fn memory(&self) -> ManagerView {
        ManagerView {
            monitor: self.monitor,
            last_ocr_put_time: self.last_ocr_put_time,
            last_screenshot: match self.last_screenshot {
                Some(shot) => Some(shot@),
                None => None,
            },
            last_mouse_pos: self.last_mouse_pos,
        }
    }
}

impl<B: FrameProvider> ScreenManager<B> {
    /// A screen manager that remembers nothing.
    pub fn new(frame_provider: B) -> (r: Self)
        ensures
            r.memory() == (ManagerView {
                monitor: None,
                last_ocr_put_time: None,
                last_screenshot: None,
                last_mouse_pos: None,
            }),
            r.frame_provider.provider() == frame_provider,
            r.frame_provider.record() == Seq::<SourceEvent>::empty(),
    {
        ScreenManager {
            monitor: None,
            last_ocr_put_time: None,
            last_screenshot: None,
            last_mouse_pos: None,
            frame_provider: FrameSource::new(frame_provider),
        }
    }

    /// A screenshot of the area to scan.
    pub fn take_screenshot(&mut self) -> (r: Result<Screenshot, String>)
        ensures
            final(self).memory() == old(self).memory(),
            match old(self).monitor {
                None => r is Err && r->Err_0@ == no_monitor_text() && final(self).frame_provider
                    == old(self).frame_provider,
                Some(monitor) => {
                    &&& final(self).frame_provider.history() == old(
                        self,
                    ).frame_provider.history().push(
                        FrameEvent::Frame(
                            monitor,
                            match r {
                                Ok(shot) => Ok(shot@),
                                Err(message) => Err(message@),
                            },
                        ),
                    )
                    &&& final(self).frame_provider.record() == old(
                        self,
                    ).frame_provider.record().push(SourceEvent::FrameAsked(monitor))
                },
            },
    {
        let monitor = match self.monitor {
            Some(monitor) => monitor,
            None => return Err("scan monitor is not set".to_owned()),
        };
        self.frame_provider.frame(&monitor)
    }

    /// Sets the area to scan, unless its selection was cancelled; says whether it was set.
    pub fn set_scan_region(&mut self, scan_rect: Option<Monitor>) -> (r: bool)
        ensures
            r == scan_rect is Some,
            final(self).memory() == (ManagerView {
                monitor: if scan_rect is Some {
                    scan_rect
                } else {
                    old(self).monitor
                },
                ..old(self).memory()
            }),
            final(self).frame_provider == old(self).frame_provider,
    {
        match scan_rect {
            Some(scan_rect) => {
                self.monitor = Some(scan_rect);
                true
            },
            None => false,
        }
    }

    /// Sets the area to scan to a monitor; an index without a monitor changes nothing.
    pub fn set_scan_screen(&mut self, screen_index: usize) -> (r: Result<(), String>)
        ensures
            ({
                let history = final(self).frame_provider.history();
                let before = old(self).frame_provider.history();
                &&& history.len() == before.len() + 1
                &&& history.take(before.len() as int) == before
                &&& final(self).frame_provider.record() == old(self).frame_provider.record()
                &&& match history.last() {
                    FrameEvent::Monitors(Ok(monitors)) => {
                        &&& r is Ok
                        &&& final(self).memory() == (ManagerView {
                            monitor: if screen_index < monitors.len() {
                                Some(monitors[screen_index as int])
                            } else {
                                old(self).monitor
                            },
                            ..old(self).memory()
                        })
                    },
                    FrameEvent::Monitors(Err(message)) => {
                        &&& r is Err && r->Err_0@ == message
                        &&& final(self).memory() == old(self).memory()
                    },
                    _ => false,
                }
            }),
    {
        let ghost before = self.frame_provider.history();
        let monitors = match self.frame_provider.monitors() {
            Ok(monitors) => monitors,
            Err(message) => {
                assert(self.frame_provider.history().take(before.len() as int) =~= before);
                return Err(message);
            },
        };
        assert(self.frame_provider.history().take(before.len() as int) =~= before);
        if screen_index < monitors.len() {
            self.monitor = Some(monitors[screen_index]);
        }
        Ok(())
    }

    /// Left, top, width and height of the area to scan; zeros where none is set.
    pub fn get_scan_geometry(&self) -> (r: (i32, i32, usize, usize))
        ensures
            r == (match self.monitor {
                Some(monitor) => (monitor.left, monitor.top, monitor.width, monitor.height),
                None => (0i32, 0i32, 0usize, 0usize),
            }),
    {
        match &self.monitor {
            Some(monitor) => (monitor.left, monitor.top, monitor.width, monitor.height),
            None => (0, 0, 0, 0),
        }
    }

    /// Forgets the last screenshot and the last place of the pointer, so that the next round
    /// scans.
    pub fn force_screenshot_trigger(&mut self)
        ensures
            final(self).memory() == (ManagerView {
                last_screenshot: None,
                last_mouse_pos: None,
                ..old(self).memory()
            }),
            final(self).frame_provider == old(self).frame_provider,
    {
        self.last_screenshot = None;
        self.last_mouse_pos = None;
    }

    /// The monitors there are.
    pub fn get_screens(&mut self) -> (r: Result<Vec<Monitor>, String>)
        ensures
            final(self).memory() == old(self).memory(),
            final(self).frame_provider.record() == old(self).frame_provider.record(),
            final(self).frame_provider.history() == old(self).frame_provider.history().push(
                FrameEvent::Monitors(
                    match r {
                        Ok(monitors) => Ok(monitors@),
                        Err(message) => Err(message@),
                    },
                ),
            ),
    {
        self.frame_provider.monitors()
    }

    /// Leaves the loop for a while.
    pub fn sleep_and_handle_loop_exit<R: ScreenManagerRuntime>(
        &self,
        runtime: &mut R,
        interval: u64,
    )
        ensures
            leaves(
                final(runtime).history().skip(old(runtime).history().len() as int),
                interval,
            ),
            old(runtime).history().is_prefix_of(final(runtime).history()),
    {
        let ghost before = runtime.history();
        let config = runtime.config();
        if config.auto_scan_mode {
            runtime.sleep(interval);
            runtime.set_screenshot_trigger();
            assert(runtime.history().skip(before.len() as int) =~= seq![
                RuntimeEvent::Config(config),
                RuntimeEvent::Sleep(interval),
                RuntimeEvent::SetTrigger,
            ]);
        } else {
            runtime.trigger_hit_scan();
            assert(runtime.history().skip(before.len() as int) =~= seq![
                RuntimeEvent::Config(config),
                RuntimeEvent::TriggerHitScan,
            ]);
        }
        assert(runtime.history().subrange(0, before.len() as int) =~= before);
    }
}

/// Whether the lock on the screen was taken.
pub open spec fn takes_lock(events: Seq<RuntimeEvent>) -> bool {
    exists|i: int| 0 <= i < events.len() && (#[trigger] events[i]) is AcquireLock
}

/// Whether the source of frames was asked, once, for a screenshot of the monitor and gave
/// `shot`; without a monitor it is not asked.
pub open spec fn gave_shot(
    monitor: Option<Monitor>,
    before: Seq<FrameEvent>,
    after: Seq<FrameEvent>,
    shot: Result<ScreenshotView, Seq<char>>,
) -> bool {
    match monitor {
        None => after == before && shot == Err::<ScreenshotView, Seq<char>>(no_monitor_text()),
        Some(monitor) => after == before.push(FrameEvent::Frame(monitor, shot)),
    }
}

/// What is recorded of a screenshot of the monitor: the lock is taken, the screenshot asked for,
/// and the lock given back. Without a monitor nothing is asked for.
pub open spec fn locked_record(monitor: Option<Monitor>) -> Seq<SourceEvent> {
    match monitor {
        None => seq![SourceEvent::LockAcquired, SourceEvent::LockReleased],
        Some(monitor) => seq![
            SourceEvent::LockAcquired,
            SourceEvent::FrameAsked(monitor),
            SourceEvent::LockReleased,
        ],
    }
}

/// Whether the source of frames was asked for a screenshot, and gave `shot`, while the lock on
/// the screen was held; where the lock was not taken, it was not asked.
pub open spec fn asked_under_lock<B: FrameProvider>(
    monitor: Option<Monitor>,
    before: FrameSource<B>,
    after: FrameSource<B>,
    shot: Result<ScreenshotView, Seq<char>>,
    events: Seq<RuntimeEvent>,
) -> bool {
    if takes_lock(events) {
        &&& gave_shot(monitor, before.history(), after.history(), shot)
        &&& after.record() == before.record() + locked_record(monitor)
    } else {
        after.history() == before.history() && after.record() == before.record()
    }
}

/// Every screenshot is asked for right after the lock on the screen was taken, and the lock is
/// given back right after that.
pub proof fn law_screenshots_are_taken_under_the_lock<B: FrameProvider>(
    monitor: Option<Monitor>,
    before: FrameSource<B>,
    after: FrameSource<B>,
    shot: Result<ScreenshotView, Seq<char>>,
    events: Seq<RuntimeEvent>,
    i: int,
)
    requires
        asked_under_lock(monitor, before, after, shot, events),
        before.record().len() <= i < after.record().len(),
        after.record()[i] is FrameAsked,
    ensures
        before.record().len() < i < after.record().len() - 1,
        after.record()[i - 1] is LockAcquired,
        after.record()[i + 1] is LockReleased,
{
}

/// The calls made of a runtime between two of its states.
pub open spec fn calls_between<R: ScreenManagerRuntime>(before: R, after: R) -> Seq<RuntimeEvent> {
    after.history().skip(before.history().len() as int)
}

impl<B: FrameProvider> ScreenManager<B> {
    /// Deals with a screenshot.
    fn finish_shot<R: ScreenManagerRuntime>(
        &mut self,
        runtime: &mut R,
        shot: Result<Screenshot, String>,
    ) -> (r: Result<(), String>)
        ensures
            old(runtime).history().is_prefix_of(final(runtime).history()),
            handles_shot(
                old(self).memory(),
                shot_of(shot),
                calls_between(*old(runtime), *final(runtime)),
                final(self).memory(),
                outcome_of(r),
            ),
            !takes_lock(calls_between(*old(runtime), *final(runtime))),
            final(self).frame_provider == old(self).frame_provider,
    {
        let ghost start = runtime.history();
        let shot = match shot {
            Ok(shot) => shot,
            Err(message) => {
                assert(runtime.history().subrange(0, start.len() as int) =~= start);
                return Err(message);
            },
        };
        let unchanged = match &self.last_screenshot {
            Some(last) => same_bytes(&last.raw, &shot.raw),
            None => false,
        };
        if unchanged {
            self.sleep_and_handle_loop_exit(runtime, UNCHANGED_PAUSE);
            return Ok(());
        }
        let image = shot.to_rgb();
        self.last_screenshot = Some(shot);
        let mouse = runtime.get_mouse_pos();
        self.last_mouse_pos = Some(mouse);
        match image {
            Err(message) => {
                assert(runtime.history().subrange(0, start.len() as int) =~= start);
                assert(runtime.history().skip(start.len() as int) =~= seq![
                    RuntimeEvent::MousePos(mouse),
                ]);
                Err(message)
            },
            Ok(image) => {
                let ghost image_view = image@;
                runtime.put_ocr(image);
                let now: u64 = runtime.now();
                self.last_ocr_put_time = Some(now);
                assert(runtime.history().subrange(0, start.len() as int) =~= start);
                assert(runtime.history().skip(start.len() as int) =~= seq![
                    RuntimeEvent::MousePos(mouse),
                    RuntimeEvent::PutOcr(image_view),
                    RuntimeEvent::Now(now),
                ]);
                Ok(())
            },
        }
    }

    /// Takes a screenshot, unless the pointer has to move first and did not.
    fn scan_now<R: ScreenManagerRuntime>(
        &mut self,
        runtime: &mut R,
        config: ScreenManagerConfig,
    ) -> (r: Result<(), String>)
        ensures
            old(runtime).history().is_prefix_of(final(runtime).history()),
            exists|shot: Result<ScreenshotView, Seq<char>>| #[trigger]
                scans(
                    old(self).memory(),
                    config,
                    shot,
                    calls_between(*old(runtime), *final(runtime)),
                    final(self).memory(),
                    outcome_of(r),
                ) && asked_under_lock(
                    old(self).monitor,
                    old(self).frame_provider,
                    final(self).frame_provider,
                    shot,
                    calls_between(*old(runtime), *final(runtime)),
                ),
    {
        let ghost start = runtime.history();
        let ghost begin = *runtime;
        let ghost provider = self.frame_provider;
        let ghost monitor = self.monitor;
        let ghost memory = self.memory();
        let mouse = runtime.get_mouse_pos();
        if config.auto_scan_mode && config.auto_scan_on_mouse_move && self.last_mouse_pos == Some(
            mouse,
        ) {
            proof {
                let events = calls_between(begin, *runtime);
                assert(events =~= seq![RuntimeEvent::MousePos(mouse)]);
                assert(runtime.history().subrange(0, start.len() as int) =~= start);
                let shot = Ok::<ScreenshotView, Seq<char>>(
                    ScreenshotView { raw: Seq::empty(), width: 0, height: 0 },
                );
                assert(scans(memory, config, shot, events, self.memory(), Ok(())));
            }
            return Ok(());
        }
        let again = runtime.get_mouse_pos();
        self.last_mouse_pos = Some(again);
        self.frame_provider.acquire(runtime);
        let shot = self.take_screenshot();
        self.frame_provider.release(runtime);
        let ghost shot_view = shot_of(shot);
        let ghost middle = *runtime;
        assert(middle.history() =~= start + seq![
            RuntimeEvent::MousePos(mouse),
            RuntimeEvent::MousePos(again),
            RuntimeEvent::AcquireLock,
            RuntimeEvent::ReleaseLock,
        ]);
        let r = self.finish_shot(runtime, shot);
        proof {
            let events = calls_between(begin, *runtime);
            let tail = calls_between(middle, *runtime);
            lemma_calls_compose(start, middle.history(), runtime.history());
            assert(events[2] is AcquireLock);
            assert(takes_lock(events));
            assert(events.skip(4) =~= tail);
            assert(self.frame_provider.record() =~= provider.record() + locked_record(monitor));
            assert(gave_shot(
                monitor,
                provider.history(),
                self.frame_provider.history(),
                shot_view,
            ));
            assert(scans(memory, config, shot_view, events, self.memory(), outcome_of(r)));
        }
        r
    }

    /// Goes on after a request for a screenshot.
    fn wake<R: ScreenManagerRuntime>(&mut self, runtime: &mut R) -> (r: Result<(), String>)
        ensures
            old(runtime).history().is_prefix_of(final(runtime).history()),
            exists|shot: Result<ScreenshotView, Seq<char>>| #[trigger]
                wakes(
                    old(self).memory(),
                    shot,
                    calls_between(*old(runtime), *final(runtime)),
                    final(self).memory(),
                    outcome_of(r),
                ) && asked_under_lock(
                    old(self).monitor,
                    old(self).frame_provider,
                    final(self).frame_provider,
                    shot,
                    calls_between(*old(runtime), *final(runtime)),
                ),
    {
        let ghost start = runtime.history();
        let ghost begin = *runtime;
        let ghost provider = self.frame_provider;
        let ghost monitor = self.monitor;
        let ghost memory = self.memory();
        let config = runtime.config();
        let ghost mut head: Seq<RuntimeEvent> = seq![RuntimeEvent::Config(config)];
        if let Some(then) = self.last_ocr_put_time {
            let now: u64 = runtime.now();
            proof {
                head = head.push(RuntimeEvent::Now(now));
            }
            let passed: u64 = if now > then {
                now - then
            } else {
                0
            };
            if config.auto_scan_mode && passed < config.auto_scan_interval {
                let ghost middle = *runtime;
                assert(middle.history() =~= start + head);
                self.sleep_and_handle_loop_exit(runtime, config.auto_scan_interval - passed);
                proof {
                    let events = calls_between(begin, *runtime);
                    lemma_calls_compose(start, middle.history(), runtime.history());
                    assert(events.skip(2) =~= calls_between(middle, *runtime));
                    assert(!takes_lock(events)) by {
                        assert forall|i: int| 0 <= i < events.len() implies !(
                        #[trigger] events[i] is AcquireLock) by {
                            if i >= 2 {
                                assert(events[i] == events.skip(2)[i - 2]);
                            }
                        }
                    }
                    let shot = Ok::<ScreenshotView, Seq<char>>(
                        ScreenshotView { raw: Seq::empty(), width: 0, height: 0 },
                    );
                    assert(wakes(memory, shot, events, self.memory(), Ok(())));
                }
                return Ok(());
            }
        }
        let ghost middle = *runtime;
        assert(middle.history() =~= start + head);
        let r = self.scan_now(runtime, config);
        proof {
            let events = calls_between(begin, *runtime);
            let tail = calls_between(middle, *runtime);
            lemma_calls_compose(start, middle.history(), runtime.history());
            assert(events =~= head + tail);
            assert(events.skip(head.len() as int) =~= tail);
            lemma_lock_in_tail(head, tail);
            let shot = choose|shot: Result<ScreenshotView, Seq<char>>| #[trigger]
                scans(memory, config, shot, tail, self.memory(), outcome_of(r)) && asked_under_lock(
                    monitor,
                    provider,
                    self.frame_provider,
                    shot,
                    tail,
                );
            assert(wakes(memory, shot, events, self.memory(), outcome_of(r)));
        }
        r
    }

    /// One round: waits for a request and, where one is due, takes a screenshot and hands it on
    /// for recognition.
    pub fn run_once<R: ScreenManagerRuntime>(&mut self, runtime: &mut R) -> (r: Result<(), String>)
        ensures
            old(runtime).history().is_prefix_of(final(runtime).history()),
            exists|shot: Result<ScreenshotView, Seq<char>>| #[trigger]
                is_round(
                    old(self).memory(),
                    shot,
                    calls_between(*old(runtime), *final(runtime)),
                    final(self).memory(),
                    outcome_of(r),
                ) && asked_under_lock(
                    old(self).monitor,
                    old(self).frame_provider,
                    final(self).frame_provider,
                    shot,
                    calls_between(*old(runtime), *final(runtime)),
                ),
    {
        let ghost start = runtime.history();
        let ghost begin = *runtime;
        let ghost provider = self.frame_provider;
        let ghost monitor = self.monitor;
        let ghost memory = self.memory();
        let ghost no_shot = Ok::<ScreenshotView, Seq<char>>(
            ScreenshotView { raw: Seq::empty(), width: 0, height: 0 },
        );
        let config = runtime.config();
        if config.auto_scan_mode && !config.is_enabled {
            let ghost middle = *runtime;
            assert(middle.history() =~= start + seq![RuntimeEvent::Config(config)]);
            self.sleep_and_handle_loop_exit(runtime, SECOND);
            proof {
                let events = calls_between(begin, *runtime);
                lemma_calls_compose(start, middle.history(), runtime.history());
                assert(events.skip(1) =~= calls_between(middle, *runtime));
                assert(!takes_lock(events)) by {
                    assert forall|i: int| 0 <= i < events.len() implies !(#[trigger] events[i]
                        is AcquireLock) by {
                        if i >= 1 {
                            assert(events[i] == events.skip(1)[i - 1]);
                        }
                    }
                }
                assert(is_round(memory, no_shot, events, self.memory(), Ok(())));
            }
            return Ok(());
        }
        runtime.wait_for_screenshot_trigger();
        runtime.clear_screenshot_trigger();
        let running = runtime.running();
        let ghost head = seq![
            RuntimeEvent::Config(config),
            RuntimeEvent::WaitForTrigger,
            RuntimeEvent::ClearTrigger,
            RuntimeEvent::Running(running),
        ];
        let ghost middle = *runtime;
        assert(middle.history() =~= start + head);
        if !running {
            proof {
                assert(calls_between(begin, *runtime) =~= head);
                assert(runtime.history().subrange(0, start.len() as int) =~= start);
                assert(is_round(memory, no_shot, head, self.memory(), Ok(())));
            }
            return Ok(());
        }
        let r = self.wake(runtime);
        proof {
            let events = calls_between(begin, *runtime);
            let tail = calls_between(middle, *runtime);
            lemma_calls_compose(start, middle.history(), runtime.history());
            assert(events =~= head + tail);
            assert(events.skip(4) =~= tail);
            lemma_lock_in_tail(head, tail);
            let shot = choose|shot: Result<ScreenshotView, Seq<char>>| #[trigger]
                wakes(memory, shot, tail, self.memory(), outcome_of(r)) && asked_under_lock(
                    monitor,
                    provider,
                    self.frame_provider,
                    shot,
                    tail,
                );
            assert(is_round(memory, shot, events, self.memory(), outcome_of(r)));
        }
        r
    }

    /// One turn of the loop: unless the program stops, a round and, after a round that failed, a
    /// second's leave. Gives the outcome of the round; without one the loop is to end.
    pub fn run_turn<R: ScreenManagerRuntime>(&mut self, runtime: &mut R) -> (r: Option<
        Result<(), String>,
    >)
        ensures
            old(runtime).history().is_prefix_of(final(runtime).history()),
            exists|shot: Result<ScreenshotView, Seq<char>>, count: int| #[trigger]
                is_turn(
                    old(self).memory(),
                    shot,
                    calls_between(*old(runtime), *final(runtime)),
                    count,
                    final(self).memory(),
                    turn_outcome(r),
                ) && asked_under_lock(
                    old(self).monitor,
                    old(self).frame_provider,
                    final(self).frame_provider,
                    shot,
                    calls_between(*old(runtime), *final(runtime)).subrange(1, 1 + count),
                ),
    {
        let ghost begin = *runtime;
        let ghost start = runtime.history();
        let ghost provider = self.frame_provider;
        let ghost monitor = self.monitor;
        let ghost memory = self.memory();
        let running = runtime.running();
        let ghost middle = *runtime;
        let ghost head = seq![RuntimeEvent::Running(running)];
        assert(middle.history() =~= start + head);
        assert(middle.history().subrange(0, start.len() as int) =~= start);
        if !running {
            proof {
                let no_shot = Ok::<ScreenshotView, Seq<char>>(
                    ScreenshotView { raw: Seq::empty(), width: 0, height: 0 },
                );
                let events = calls_between(begin, *runtime);
                assert(events =~= head);
                assert(events.subrange(1, 1) =~= Seq::empty());
                assert(!takes_lock(events.subrange(1, 1)));
                assert(is_turn(memory, no_shot, events, 0, self.memory(), None));
            }
            return None;
        }
        let r = self.run_once(runtime);
        let ghost round = calls_between(middle, *runtime);
        let ghost after_round = *runtime;
        let ghost remembered = self.memory();
        let ghost shot = choose|shot: Result<ScreenshotView, Seq<char>>| #[trigger]
            is_round(memory, shot, round, remembered, outcome_of(r)) && asked_under_lock(
                monitor,
                provider,
                self.frame_provider,
                shot,
                round,
            );
        proof {
            lemma_calls_compose(start, middle.history(), after_round.history());
            assert(calls_between(begin, after_round) =~= head + round);
        }
        if r.is_err() {
            self.sleep_and_handle_loop_exit(runtime, SECOND);
            proof {
                assert(after_round.history().subrange(0, start.len() as int) =~= start);
                lemma_calls_compose(start, after_round.history(), runtime.history());
                assert(calls_between(begin, *runtime).skip((1 + round.len()) as int) =~= calls_between(
                    after_round,
                    *runtime,
                ));
            }
        }
        proof {
            let events = calls_between(begin, *runtime);
            assert(events.subrange(1, (1 + round.len()) as int) =~= round);
            assert(is_turn(
                memory,
                shot,
                events,
                round.len() as int,
                self.memory(),
                Some(outcome_of(r)),
            ));
        }
        Some(r)
    }
}

proof fn lemma_calls_compose(
    first: Seq<RuntimeEvent>,
    second: Seq<RuntimeEvent>,
    third: Seq<RuntimeEvent>,
)
    requires
        first.len() <= second.len(),
        second.subrange(0, first.len() as int) =~= first,
        second.is_prefix_of(third),
    ensures
        first.is_prefix_of(third),
        third.skip(first.len() as int) == second.skip(first.len() as int) + third.skip(
            second.len() as int,
        ),
{
    assert(third.subrange(0, second.len() as int) =~= second);
    assert(third.subrange(0, first.len() as int) =~= first) by {
        assert forall|i: int| 0 <= i < first.len() implies third[i] == first[i] by {
            assert(third.subrange(0, second.len() as int)[i] == second[i]);
            assert(second.subrange(0, first.len() as int)[i] == first[i]);
        }
    }
    assert(third.skip(first.len() as int) =~= second.skip(first.len() as int) + third.skip(
        second.len() as int,
    )) by {
        assert forall|i: int| 0 <= i < second.len() implies third[i] == second[i] by {
            assert(third.subrange(0, second.len() as int)[i] == second[i]);
        }
    }
}

proof fn lemma_lock_in_tail(head: Seq<RuntimeEvent>, tail: Seq<RuntimeEvent>)
    requires
        !takes_lock(head),
    ensures
        takes_lock(head + tail) == takes_lock(tail),
{
    let all = head + tail;
    if takes_lock(tail) {
        let i = choose|i: int| 0 <= i < tail.len() && (#[trigger] tail[i]) is AcquireLock;
        assert(all[head.len() + i] is AcquireLock);
    }
    if takes_lock(all) {
        let i = choose|i: int| 0 <= i < all.len() && (#[trigger] all[i]) is AcquireLock;
        if i < head.len() {
            assert(head[i] is AcquireLock);
        } else {
            assert(tail[i - head.len()] is AcquireLock);
        }
    }
}

/// Whether the lock is given back right after it was taken, every time.
pub open spec fn lock_is_released(events: Seq<RuntimeEvent>) -> bool {
    forall|i: int|
        0 <= i < events.len() && (#[trigger] events[i]) is AcquireLock ==> i + 1 < events.len()
            && events[i + 1] is ReleaseLock
}

proof fn lemma_release_in_tail(events: Seq<RuntimeEvent>, n: int)
    requires
        0 <= n <= events.len(),
        forall|i: int| 0 <= i < n ==> !((#[trigger] events[i]) is AcquireLock),
        lock_is_released(events.skip(n)),
    ensures
        lock_is_released(events),
{
    let tail = events.skip(n);
    assert forall|i: int| 0 <= i < events.len() && (#[trigger] events[i]) is AcquireLock implies i
        + 1 < events.len() && events[i + 1] is ReleaseLock by {
        assert(tail[i - n] is AcquireLock);
        assert(tail[i - n + 1] is ReleaseLock);
    }
}

/// The lock on the screen is always given back, also when the screenshot fails.
pub proof fn law_lock_is_always_released(
    before: ManagerView,
    shot: Result<ScreenshotView, Seq<char>>,
    events: Seq<RuntimeEvent>,
    after: ManagerView,
    outcome: Result<(), Seq<char>>,
)
    requires
        is_round(before, shot, events, after, outcome),
    ensures
        lock_is_released(events),
{
    let config = events[0]->Config_0;
    if config.auto_scan_mode && !config.is_enabled {
        lemma_release_in_tail(events, 1);
    } else if events[3] == RuntimeEvent::Running(true) {
        let woken = events.skip(4);
        lemma_release_woken(before, shot, woken, after, outcome);
        lemma_release_in_tail(events, 4);
    }
}

proof fn lemma_release_woken(
    before: ManagerView,
    shot: Result<ScreenshotView, Seq<char>>,
    events: Seq<RuntimeEvent>,
    after: ManagerView,
    outcome: Result<(), Seq<char>>,
)
    requires
        wakes(before, shot, events, after, outcome),
    ensures
        lock_is_released(events),
{
    let config = events[0]->Config_0;
    let n: int = if before.last_ocr_put_time is Some {
        2
    } else {
        1
    };
    let tail = events.skip(n);
    if !(leaves(tail, 0) || exists|pause: u64| leaves(tail, pause)) {
        assert(scans(before, config, shot, tail, after, outcome));
        if tail.len() > 1 {
            let rest = tail.skip(4);
            assert(lock_is_released(rest)) by {
                if rest.len() > 0 {
                    if exists|pause: u64| leaves(rest, pause) {
                        let pause = choose|pause: u64| leaves(rest, pause);
                        assert(leaves(rest, pause));
                    }
                }
            }
            assert forall|i: int|
                0 <= i < tail.len() && (#[trigger] tail[i]) is AcquireLock implies i + 1
                < tail.len() && tail[i + 1] is ReleaseLock by {
                if i >= 4 {
                    assert(rest[i - 4] is AcquireLock);
                    assert(rest[i - 3] is ReleaseLock);
                }
            }
        }
    }
    lemma_release_in_tail(events, n);
}

/// An image is handed on only when a screenshot was taken that differs from the last one.
pub proof fn law_only_changed_screens_are_recognised(
    before: ManagerView,
    shot: Result<ScreenshotView, Seq<char>>,
    events: Seq<RuntimeEvent>,
    after: ManagerView,
    outcome: Result<(), Seq<char>>,
    i: int,
)
    requires
        is_round(before, shot, events, after, outcome),
        0 <= i < events.len(),
        events[i] is PutOcr,
    ensures
        shot is Ok,
        before.last_screenshot is Some ==> before.last_screenshot->0.raw != shot->Ok_0.raw,
        events[i] == RuntimeEvent::PutOcr(interface::image_of(shot->Ok_0)->Ok_0),
        after.last_screenshot == Some(shot->Ok_0),
{
    let config = events[0]->Config_0;
    if config.auto_scan_mode && !config.is_enabled {
        assert(events.skip(1)[i - 1] == events[i]);
    } else {
        let woken = events.skip(4);
        assert(woken[i - 4] == events[i]);
        let n: int = if before.last_ocr_put_time is Some {
            2
        } else {
            1
        };
        let tail = woken.skip(n);
        assert(tail[i - 4 - n] == events[i]);
        if tail.len() >= 4 {
            let rest = tail.skip(4);
            if i - 4 - n >= 4 {
                assert(rest[i - 8 - n] == events[i]);
            }
        }
    }
}

/// Whether the calls from `k` on are those of a leave: a question for the settings and, with
/// automatic scanning, a sleep of `pause` nanoseconds and a request for a screenshot, else a
/// request for a hit scan.
pub open spec fn pauses_at(events: Seq<RuntimeEvent>, k: int, pause: int) -> bool {
    &&& events.len() > k
    &&& match events[k] {
        RuntimeEvent::Config(config) => {
            &&& (config.auto_scan_mode ==> events.len() == k + 3 && match events[k + 1] {
                RuntimeEvent::Sleep(slept) => slept == pause,
                _ => false,
            } && events[k + 2] is SetTrigger)
            &&& (!config.auto_scan_mode ==> events.len() == k + 2 && events[k
                + 1] is TriggerHitScan)
        },
        _ => false,
    }
}

proof fn lemma_pauses(events: Seq<RuntimeEvent>, k: int, pause: u64)
    requires
        0 <= k <= events.len(),
        leaves(events.skip(k), pause),
    ensures
        pauses_at(events, k, pause as int),
{
    let rest = events.skip(k);
    assert(rest[0] == events[k]);
    assert(rest.len() == 2 || rest.len() == 3);
    assert(rest[1] == events[k + 1]);
    if rest.len() == 3 {
        assert(rest[2] == events[k + 2]);
    }
}

/// Automatic scanning that is disabled takes no screenshot: it waits a second.
pub proof fn law_disabled_scanning_waits(
    before: ManagerView,
    shot: Result<ScreenshotView, Seq<char>>,
    events: Seq<RuntimeEvent>,
    after: ManagerView,
    outcome: Result<(), Seq<char>>,
    config: ScreenManagerConfig,
)
    requires
        is_round(before, shot, events, after, outcome),
        events[0] == RuntimeEvent::Config(config),
        config.auto_scan_mode,
        !config.is_enabled,
    ensures
        pauses_at(events, 1, 1_000_000_000),
        after == before,
        outcome is Ok,
{
    lemma_pauses(events, 1, SECOND);
}

/// The place of the question for the pointer in a round that scans: behind the settings, the
/// request, its clearing, the question whether the program runs, the settings again and, after an
/// earlier recognition, the time.
pub open spec fn pointer_call(before: ManagerView) -> int {
    if before.last_ocr_put_time is Some {
        6
    } else {
        5
    }
}

/// Otherwise a round waits for a request and clears it. When the program stops it ends there.
/// With automatic scanning, a round within the interval since the last recognition pauses for
/// the rest of the interval, and one at which the pointer has not moved, where it has to, ends.
pub proof fn law_rounds_wait_for_their_time(
    before: ManagerView,
    shot: Result<ScreenshotView, Seq<char>>,
    events: Seq<RuntimeEvent>,
    after: ManagerView,
    outcome: Result<(), Seq<char>>,
    first: ScreenManagerConfig,
)
    requires
        is_round(before, shot, events, after, outcome),
        events[0] == RuntimeEvent::Config(first),
        first.is_enabled || !first.auto_scan_mode,
    ensures
        events.len() >= 4,
        events[1] is WaitForTrigger && events[2] is ClearTrigger,
        match events[3] {
            RuntimeEvent::Running(true) => events.len() > 5 && events[4] is Config,
            RuntimeEvent::Running(false) => events.len() == 4 && after == before && outcome is Ok,
            _ => false,
        },
        events[3] == RuntimeEvent::Running(true) ==> {
            let config = events[4]->Config_0;
            let k = pointer_call(before);
            let early = config.auto_scan_mode && before.last_ocr_put_time is Some && {
                let waited = events[5]->Now_0 - before.last_ocr_put_time->0;
                waited < config.auto_scan_interval && config.auto_scan_interval > 0
            };
            &&& (before.last_ocr_put_time is Some ==> events[5] is Now)
            &&& if early {
                let waited = events[5]->Now_0 - before.last_ocr_put_time->0;
                &&& after == before && outcome is Ok
                &&& (waited >= 0 ==> pauses_at(events, 6, config.auto_scan_interval - waited))
                &&& (waited < 0 ==> pauses_at(events, 6, config.auto_scan_interval as int))
            } else {
                &&& events.len() > k
                &&& events[k] is MousePos
                &&& (config.auto_scan_mode && config.auto_scan_on_mouse_move
                    && before.last_mouse_pos == Some(events[k]->MousePos_0) ==> events.len() == k
                    + 1 && after == before && outcome is Ok)
            }
        },
{
    if events[3] == RuntimeEvent::Running(true) {
        let woken = events.skip(4);
        assert(woken[0] == events[4]);
        let config = events[4]->Config_0;
        match before.last_ocr_put_time {
            None => {
                assert(woken.skip(1)[0] == events[5]);
            },
            Some(then) => {
                assert(woken[1] == events[5]);
                let now = events[5]->Now_0;
                assert(woken.skip(2) =~= events.skip(6));
                if config.auto_scan_mode && elapsed(then, now) < config.auto_scan_interval {
                    lemma_pauses(
                        events,
                        6,
                        (config.auto_scan_interval - elapsed(then, now)) as u64,
                    );
                } else {
                    assert(woken.skip(2)[0] == events[6]);
                }
            },
        }
    }
}

/// A round whose time has come, and at which the pointer has moved where it has to, takes a
/// screenshot under the lock and remembers the pointer. A failure is passed on. A screenshot with
/// the bytes of the last one is followed by a pause of a tenth of a second; any other is
/// remembered, turned into an image and handed on, and the time of that is remembered.
pub proof fn law_rounds_hand_new_screenshots_on(
    before: ManagerView,
    shot: Result<ScreenshotView, Seq<char>>,
    events: Seq<RuntimeEvent>,
    after: ManagerView,
    outcome: Result<(), Seq<char>>,
    first: ScreenManagerConfig,
    config: ScreenManagerConfig,
)
    requires
        is_round(before, shot, events, after, outcome),
        events[0] == RuntimeEvent::Config(first),
        first.is_enabled || !first.auto_scan_mode,
        events.len() > 4 && events[3] == RuntimeEvent::Running(true),
        events[4] == RuntimeEvent::Config(config),
        config.auto_scan_mode ==> {
            &&& (before.last_ocr_put_time is Some ==> events[5] is Now && events[5]->Now_0
                - before.last_ocr_put_time->0 >= config.auto_scan_interval)
            &&& (config.auto_scan_on_mouse_move ==> events[pointer_call(before)] is MousePos
                && before.last_mouse_pos != Some(events[pointer_call(before)]->MousePos_0))
        },
    ensures
        ({
            let k = pointer_call(before);
            &&& events.len() >= k + 4
            &&& events[k] is MousePos && events[k + 1] is MousePos
            &&& events[k + 2] is AcquireLock && events[k + 3] is ReleaseLock
            &&& after.monitor == before.monitor
            &&& match shot {
                Err(message) => {
                    &&& events.len() == k + 4
                    &&& outcome == Err::<(), Seq<char>>(message)
                    &&& after.last_screenshot == before.last_screenshot
                    &&& after.last_ocr_put_time == before.last_ocr_put_time
                    &&& after.last_mouse_pos == Some(events[k + 1]->MousePos_0)
                },
                Ok(taken) => if before.last_screenshot is Some && taken.raw
                    == before.last_screenshot->0.raw {
                    &&& pauses_at(events, k + 4, 100_000_000)
                    &&& outcome is Ok
                    &&& after.last_screenshot == before.last_screenshot
                    &&& after.last_ocr_put_time == before.last_ocr_put_time
                    &&& after.last_mouse_pos == Some(events[k + 1]->MousePos_0)
                } else {
                    &&& events.len() > k + 4 && events[k + 4] is MousePos
                    &&& after.last_screenshot == Some(taken)
                    &&& after.last_mouse_pos == Some(events[k + 4]->MousePos_0)
                    &&& match interface::image_of(taken) {
                        Ok(image) => {
                            &&& events.len() == k + 7
                            &&& events[k + 5] == RuntimeEvent::PutOcr(image)
                            &&& events[k + 6] is Now
                            &&& after.last_ocr_put_time == Some(events[k + 6]->Now_0)
                            &&& outcome is Ok
                        },
                        Err(message) => {
                            &&& events.len() == k + 5
                            &&& after.last_ocr_put_time == before.last_ocr_put_time
                            &&& outcome == Err::<(), Seq<char>>(message)
                        },
                    }
                },
            }
        }),
{
    law_rounds_wait_for_their_time(before, shot, events, after, outcome, first);
    let k = pointer_call(before);
    let woken = events.skip(4);
    assert(woken[0] == events[4]);
    if before.last_ocr_put_time is Some {
        assert(woken[1] == events[5]);
    }
    let tail = woken.skip(k - 4);
    assert(tail =~= events.skip(k));
    assert(scans(before, config, shot, tail, after, outcome));
    assert(tail[0] == events[k]);
    let rest = tail.skip(4);
    assert(tail[1] == events[k + 1]);
    assert(tail[2] == events[k + 2]);
    assert(tail[3] == events[k + 3]);
    assert(rest =~= events.skip(k + 4));
    if shot is Ok {
        if before.last_screenshot is Some && shot->Ok_0.raw == before.last_screenshot->0.raw {
            lemma_pauses(events, k + 4, UNCHANGED_PAUSE);
        } else {
            assert(rest[0] == events[k + 4]);
            if interface::image_of(shot->Ok_0) is Ok {
                assert(rest[1] == events[k + 5]);
                assert(rest[2] == events[k + 6]);
            }
        }
    }
}

/// The loop ends when the program stops, and only then. After a round that failed there is a
/// leave of a second.
pub proof fn law_failed_rounds_are_followed_by_a_pause(
    before: ManagerView,
    shot: Result<ScreenshotView, Seq<char>>,
    events: Seq<RuntimeEvent>,
    count: int,
    after: ManagerView,
    outcome: Option<Result<(), Seq<char>>>,
)
    requires
        is_turn(before, shot, events, count, after, outcome),
    ensures
        events[0] == RuntimeEvent::Running(outcome is Some),
        outcome is None ==> events.len() == 1 && after == before,
        outcome is Some && outcome->0 is Ok ==> events.len() == count + 1,
        outcome is Some && outcome->0 is Err ==> pauses_at(events, count + 1, 1_000_000_000),
        outcome is Some ==> is_round(
            before,
            shot,
            events.subrange(1, count + 1),
            after,
            outcome->0,
        ),
{
    if outcome is Some && outcome->0 is Err {
        lemma_pauses(events, count + 1, SECOND);
    }
}

/// What a screen manager remembers are its monitor, the time of the last recognition, the last
/// screenshot and the last place of the pointer.
pub proof fn law_memories_are_told_by_their_parts<B>(manager: ScreenManager<B>)
    ensures
        manager.memory().monitor == manager.monitor,
        manager.memory().last_ocr_put_time == manager.last_ocr_put_time,
        manager.memory().last_mouse_pos == manager.last_mouse_pos,
        manager.memory().last_screenshot is Some == manager.last_screenshot is Some,
        manager.last_screenshot is Some ==> manager.memory().last_screenshot->0.raw
            == manager.last_screenshot->0.raw@ && manager.memory().last_screenshot->0.width
            == manager.last_screenshot->0.width && manager.memory().last_screenshot->0.height
            == manager.last_screenshot->0.height,
{
}

} // verus!
