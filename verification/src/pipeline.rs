//! From frames and pointer observations to lookups.
//!
//! Each stage runs in a worker of its own. What a worker decides in one round stands here.

use crate::dictionary::engine;
use crate::dictionary::engine::{CachedLookup, CachedLookupView, LookupEngine};
use crate::dictionary::entry;
use crate::dictionary::entry::{
    DictionaryEntry, DictionaryEntryView, KanjiEntry, KanjiEntryView,
};
use crate::dictionary::ranking::PriorityParts;
use crate::floats;
use crate::floats::is_equal_64;
use crate::input::interface::PointerSnapshot;
use crate::ocr::hit_scan;
use crate::ocr::hit_scan::{ParagraphFacts, PointerFractions};
use crate::ocr::interface::Paragraph;
use crate::platform::interface as platform_interface;
use crate::platform::interface::{CaptureGeometry, CapturedFrame};
use crate::screenshot::interface::RgbImage;
use crate::text::joined;
use vstd::prelude::*;

verus! {

/// How a pipeline is set up.
#[derive(Debug)]
pub struct PipelineConfig {
    pub dictionary_path: String,
    pub screencast_token_path: String,
    pub max_dict_entries: usize,
    pub max_lookup_length: usize,
    pub show_kanji: bool,
    /// In milliseconds.
    pub capture_interval: u64,
}

/// What a pipeline tells those who show its results.
pub enum PipelineEvent {
    CaptureReady,
    LookupResult {
        entries: Vec<DictionaryEntry>,
        kanji: Option<KanjiEntry>,
        mouse_x: i32,
        mouse_y: i32,
        capture_geometry: CaptureGeometry,
    },
    HidePopup { mouse_x: i32, mouse_y: i32 },
    Error(String),
}

/// The contents of a `PipelineEvent`.
#[verifier::ext_equal]
pub enum PipelineEventView {
    CaptureReady,
    LookupResult {
        entries: Seq<DictionaryEntryView>,
        kanji: Option<KanjiEntryView>,
        mouse_x: i32,
        mouse_y: i32,
        capture_geometry: CaptureGeometry,
    },
    HidePopup { mouse_x: i32, mouse_y: i32 },
    Error(Seq<char>),
}

impl View for PipelineEvent {
    type V = PipelineEventView;

    open spec fn view(&self) -> PipelineEventView {
        match *self {
            PipelineEvent::CaptureReady => PipelineEventView::CaptureReady,
            PipelineEvent::LookupResult { entries, kanji, mouse_x, mouse_y, capture_geometry } =>
                PipelineEventView::LookupResult {
                entries: entry::entry_views(entries@),
                kanji: match kanji {
                    Some(kanji) => Some(kanji@),
                    None => None,
                },
                mouse_x,
                mouse_y,
                capture_geometry,
            },
            PipelineEvent::HidePopup { mouse_x, mouse_y } => PipelineEventView::HidePopup {
                mouse_x,
                mouse_y,
            },
            PipelineEvent::Error(message) => PipelineEventView::Error(message@),
        }
    }
}

/// The contents of an event, if there is one.
pub open spec fn event_view(event: Option<PipelineEvent>) -> Option<PipelineEventView> {
    match event {
        Some(event) => Some(event@),
        None => None,
    }
}

/// The steps by which a pipeline starts, in their order.
#[derive(Clone, Copy, Debug, PartialEq, Eq, Structural)]
pub enum StartupStage {
    Providers,
    Geometry,
    Ocr,
    Dictionary,
    Workers,
}

/// The words for what went wrong at a step.
pub open spec fn failure_words(stage: StartupStage) -> Seq<char> {
    match stage {
        StartupStage::Providers => "Failed to initialize desktop providers"@,
        StartupStage::Geometry => "Failed to get capture geometry"@,
        StartupStage::Ocr => "Failed to initialize OCR"@,
        StartupStage::Dictionary => "Failed to load dictionary"@,
        StartupStage::Workers => ""@,
    }
}

/// The step after another.
pub open spec fn stage_after(stage: StartupStage) -> StartupStage {
    match stage {
        StartupStage::Providers => StartupStage::Geometry,
        StartupStage::Geometry => StartupStage::Ocr,
        StartupStage::Ocr => StartupStage::Dictionary,
        StartupStage::Dictionary => StartupStage::Workers,
        StartupStage::Workers => StartupStage::Workers,
    }
}

/// What follows the outcome of a step: the next step, or none where the pipeline does not start;
/// and what is told of it. The first that is told is that the capture source is ready.
pub fn startup_step(stage: StartupStage, outcome: Result<(), String>) -> (r: (
    Option<StartupStage>,
    Option<PipelineEvent>,
))
    requires
        stage != StartupStage::Workers,
    ensures
        match outcome {
            Ok(_) => {
                &&& r.0 == Some(stage_after(stage))
                &&& event_view(r.1) == (if stage == StartupStage::Geometry {
                    Some(PipelineEventView::CaptureReady)
                } else {
                    None
                })
            },
            Err(error) => {
                &&& r.0 is None
                &&& event_view(r.1) == Some(
                    PipelineEventView::Error(failure_words(stage) + ": "@ + error@),
                )
            },
        },
{
    match outcome {
        Ok(_) => match stage {
            StartupStage::Providers => (Some(StartupStage::Geometry), None),
            StartupStage::Geometry => (Some(StartupStage::Ocr), Some(PipelineEvent::CaptureReady)),
            StartupStage::Ocr => (Some(StartupStage::Dictionary), None),
            _ => (Some(StartupStage::Workers), None),
        },
        Err(error) => {
            let words: &str = match stage {
                StartupStage::Providers => "Failed to initialize desktop providers",
                StartupStage::Geometry => "Failed to get capture geometry",
                StartupStage::Ocr => "Failed to initialize OCR",
                _ => "Failed to load dictionary",
            };
            let mut message = joined(words, ": ");
            message.append(error.as_str());
            (None, Some(PipelineEvent::Error(message)))
        },
    }
}

/// A frame and where the pointer was.
#[derive(Debug)]
pub struct OcrWorkItem {
    pub frame: CapturedFrame,
    pub pointer: PointerSnapshot,
}

/// The text of a frame.
#[derive(Debug)]
pub struct RecognizedFrame {
    pub sequence: u64,
    pub paragraphs: Vec<Paragraph>,
    pub capture_geometry: CaptureGeometry,
}

/// What is to be looked up, and where the pointer is.
#[derive(Debug)]
pub struct LookupRequest {
    pub lookup_string: Option<String>,
    pub mouse_x: i32,
    pub mouse_y: i32,
    pub capture_geometry: CaptureGeometry,
}

/// How long to wait while the popup shows, in milliseconds.
pub const POPUP_PAUSE: u64 = 20;

/// Whether a picture is taken now, and how many milliseconds to wait afterwards: none is taken
/// while the popup shows, and that is looked at again after a short while.
pub fn capture_pause(popup_visible: bool, interval: u64) -> (r: (bool, u64))
    ensures
        r == (!popup_visible, if popup_visible {
            POPUP_PAUSE
        } else {
            interval
        }),
{
    if popup_visible {
        (false, POPUP_PAUSE)
    } else {
        (true, interval)
    }
}

/// What the capture worker hands to text recognition: a frame, once the pointer was seen.
pub fn capture_step(frame: Result<CapturedFrame, String>, latest_pointer: &Option<PointerSnapshot>) -> (r:
    Option<OcrWorkItem>)
    ensures
        match (frame, *latest_pointer) {
            (Ok(frame), Some(pointer)) => r == Some(OcrWorkItem { frame, pointer }),
            _ => r is None,
        },
{
    match frame {
        Ok(frame) => match latest_pointer {
            Some(pointer) => Some(OcrWorkItem { frame, pointer: *pointer }),
            None => None,
        },
        Err(_) => None,
    }
}

/// Whether anything that a lookup depends on is new.
pub fn lookup_input_changed(
    last_pointer: Option<(i32, i32)>,
    last_capture_geometry: Option<&CaptureGeometry>,
    last_target_available: Option<bool>,
    pointer: (i32, i32),
    capture_geometry: &CaptureGeometry,
    target_available: bool,
    ocr_changed: bool,
) -> (r: bool)
    ensures
        r == (ocr_changed || last_pointer != Some(pointer) || last_capture_geometry != Some(
            capture_geometry,
        ) || last_target_available != Some(target_available)),
{
    let same_pointer = match last_pointer {
        Some(last) => last.0 == pointer.0 && last.1 == pointer.1,
        None => false,
    };
    let same_geometry = match last_capture_geometry {
        Some(last) => *last == *capture_geometry,
        None => false,
    };
    let same_target = match last_target_available {
        Some(last) => last == target_available,
        None => false,
    };
    ocr_changed || !same_pointer || !same_geometry || !same_target
}

/// Where the pointer lies in an area, as fractions of its sides.
pub open spec fn pointer_place(pointer: (i32, i32), area: CaptureGeometry) -> Option<
    PointerFractions,
> {
    if area.holds(pointer) {
        Some(
            PointerFractions {
                x: (pointer.0 - area.left) as i64,
                width: area.width,
                y: (pointer.1 - area.top) as i64,
                height: area.height,
            },
        )
    } else {
        None
    }
}

/// Where the pointer lies in an area, as fractions of its sides; nowhere where it lies outside.
pub fn normalized_pointer_position(pointer: (i32, i32), capture_geometry: &CaptureGeometry) -> (r:
    Option<PointerFractions>)
    ensures
        r == pointer_place(pointer, *capture_geometry),
{
    if !capture_geometry.contains(pointer) {
        return None;
    }
    Some(
        PointerFractions {
            x: pointer.0 as i64 - capture_geometry.left as i64,
            width: capture_geometry.width,
            y: pointer.1 as i64 - capture_geometry.top as i64,
            height: capture_geometry.height,
        },
    )
}

/// A pointer that lies in an area lies at fractions of at least zero and less than one.
pub proof fn law_places_are_proper_fractions(pointer: (i32, i32), area: CaptureGeometry)
    requires
        area.holds(pointer),
    ensures
        ({
            let place = pointer_place(pointer, area)->0;
            0 <= place.x < place.width && 0 <= place.y < place.height
        }),
{
}

/// A place as a pair of doubles, given by their bits.
#[derive(Clone, Copy, Debug, PartialEq, Eq, Structural)]
pub struct NormalizedPoint {
    pub x: u64,
    pub y: u64,
}

/// Whether two places are equal as numbers.
pub open spec fn equal_points(a: NormalizedPoint, b: NormalizedPoint) -> bool {
    floats::equal_64(a.x, b.x) && floats::equal_64(a.y, b.y)
}

fn same_bytes(a: &Vec<u8>, b: &Vec<u8>) -> (r: bool)
    ensures
        r == (a@ == b@),
{
    if a.len() != b.len() {
        return false;
    }
    let mut i: usize = 0;
    while i < a.len()
        invariant
            i <= a@.len(),
            a@.len() == b@.len(),
            forall|j: int| 0 <= j < i ==> a@[j] == b@[j],
        decreases a@.len() - i,
    {
        if a[i] != b[i] {
            assert(a@[i as int] != b@[i as int]);
            return false;
        }
        i += 1;
    }
    assert(a@ =~= b@);
    true
}

/// The last frame in which text was recognised, and the place that was looked at.
#[derive(Debug)]
pub struct OcrWorker {
    pub last_scan: Option<(Vec<u8>, NormalizedPoint)>,
}

/// Whether `planned` is the place at which a frame is to be scanned: none where the source is
/// covered, where the pointer is outside, and where the frame was scanned there already.
pub open spec fn is_planned<N: FnOnce(PointerFractions) -> NormalizedPoint>(
    worker: OcrWorker,
    work: OcrWorkItem,
    normalize: N,
    planned: Option<NormalizedPoint>,
) -> bool {
    let place = pointer_place(work.pointer.position, work.frame.geometry);
    if !work.pointer.target_available || place is None {
        planned is None
    } else {
        exists|focus: NormalizedPoint| #[trigger]
            call_ensures(normalize, (place->0,), focus) && planned == (if worker.was_scanned(
                work.frame.screenshot.raw@,
                focus,
            ) {
                None
            } else {
                Some(focus)
            })
    }
}

/// Whether a scan of a frame at a place takes a worker from `before` to `after` and gives
/// `result`: only a scan that succeeded is remembered.
pub open spec fn is_scanned<S: FnOnce(&RgbImage, NormalizedPoint) -> Result<Vec<Paragraph>, String>>(
    before: OcrWorker,
    work: OcrWorkItem,
    focus: NormalizedPoint,
    scan: S,
    after: OcrWorker,
    result: Result<RecognizedFrame, String>,
) -> bool {
    match platform_interface::image_error(work.frame.screenshot@) {
        Some(message) => {
            &&& result is Err && result->Err_0@ == message
            &&& after == before
        },
        None => exists|image: RgbImage, found: Result<Vec<Paragraph>, String>|
            {
                &&& #[trigger] call_ensures(scan, (&image, focus), found)
                &&& platform_interface::is_image_of(work.frame.screenshot@, image@)
                &&& match found {
                    Ok(paragraphs) => {
                        &&& result == Ok::<RecognizedFrame, String>(
                            RecognizedFrame {
                                sequence: work.frame.sequence,
                                paragraphs,
                                capture_geometry: work.frame.geometry,
                            },
                        )
                        &&& after.last_scan == Some((work.frame.screenshot.raw, focus))
                    },
                    Err(message) => {
                        &&& result == Err::<RecognizedFrame, String>(message)
                        &&& after == before
                    },
                }
            },
    }
}

impl OcrWorker {
    /// Whether a frame and a place were the last to be scanned.
    pub open spec fn was_scanned(self, raw: Seq<u8>, focus: NormalizedPoint) -> bool {
        self.last_scan is Some && self.last_scan.unwrap().0@ == raw && equal_points(
            self.last_scan.unwrap().1,
            focus,
        )
    }

    /// Nothing was scanned yet.
    pub fn new() -> (r: Self)
        ensures
            r.last_scan is None,
    {
        OcrWorker { last_scan: None }
    }

    /// The place at which a frame is to be scanned. There is none where the source is covered,
    /// where the pointer is outside, and where the frame was scanned there already. `normalize`
    /// divides the fractions of a place.
    pub fn plan_scan<N: FnOnce(PointerFractions) -> NormalizedPoint>(
        &self,
        work: &OcrWorkItem,
        normalize: N,
    ) -> (r: Option<NormalizedPoint>)
        requires
            forall|place: PointerFractions| #[trigger] call_requires(normalize, (place,)),
        ensures
            is_planned(*self, *work, normalize, r),
    {
        if !work.pointer.target_available {
            return None;
        }
        let place = match normalized_pointer_position(work.pointer.position, &work.frame.geometry) {
            Some(place) => place,
            None => return None,
        };
        let focus = normalize(place);
        if let Some((raw, last)) = &self.last_scan {
            if same_bytes(raw, &work.frame.screenshot.raw) && is_equal_64(last.x, focus.x)
                && is_equal_64(last.y, focus.y) {
                return None;
            }
        }
        Some(focus)
    }

    /// Scans a frame at a place. Only where that succeeded is the frame not scanned again.
    /// `scan` recognises the text in an image.
    pub fn scan_frame<S: FnOnce(&RgbImage, NormalizedPoint) -> Result<Vec<Paragraph>, String>>(
        &mut self,
        work: OcrWorkItem,
        focus: NormalizedPoint,
        scan: S,
    ) -> (r: Result<RecognizedFrame, String>)
        requires
            forall|image: RgbImage, focus: NormalizedPoint| #[trigger]
                call_requires(scan, (&image, focus)),
        ensures
            is_scanned(*old(self), work, focus, scan, *final(self), r),
    {
        let image = match work.frame.screenshot.to_rgb() {
            Ok(image) => image,
            Err(message) => return Err(message),
        };
        match scan(&image, focus) {
            Ok(paragraphs) => {
                self.last_scan = Some((work.frame.screenshot.raw, focus));
                Ok(
                    RecognizedFrame {
                        sequence: work.frame.sequence,
                        paragraphs,
                        capture_geometry: work.frame.geometry,
                    },
                )
            },
            Err(message) => Err(message),
        }
    }
}

/// What the worker that follows the pointer knows.
#[derive(Debug)]
pub struct HitScanWorker {
    /// The area that is captured where an observation does not say.
    pub capture_geometry: CaptureGeometry,
    pub recognized_frame: Option<RecognizedFrame>,
    pub last_mouse_pos: Option<(i32, i32)>,
    pub last_capture_geometry: Option<CaptureGeometry>,
    pub last_target_available: Option<bool>,
    pub last_ocr_sequence: Option<u64>,
    pub last_pointer_error: Option<String>,
}

/// What the worker that follows the pointer does in a round.
#[derive(Debug)]
pub enum HitScanStep {
    /// The pointer could not be observed; it says whether that is new.
    PointerFailed { is_new: bool },
    /// Nothing is new.
    Unchanged,
    /// A lookup is to be made.
    Request(LookupRequest),
}

/// Whether `facts` says of each word of each paragraph where it lies.
pub open spec fn fit(paragraphs: Seq<Paragraph>, facts: Seq<ParagraphFacts>) -> bool {
    &&& facts.len() == paragraphs.len()
    &&& forall|i: int|
        0 <= i < facts.len() ==> (#[trigger] facts[i]).words@.len() == paragraphs[i].words@.len()
}

impl HitScanWorker {
    /// Nothing was observed yet.
    pub fn new(capture_geometry: CaptureGeometry) -> (r: Self)
        ensures
            r == (HitScanWorker {
                capture_geometry,
                recognized_frame: None,
                last_mouse_pos: None,
                last_capture_geometry: None,
                last_target_available: None,
                last_ocr_sequence: None,
                last_pointer_error: None,
            }),
    {
        HitScanWorker {
            capture_geometry,
            recognized_frame: None,
            last_mouse_pos: None,
            last_capture_geometry: None,
            last_target_available: None,
            last_ocr_sequence: None,
            last_pointer_error: None,
        }
    }

    /// Text was recognised in a frame.
    pub fn set_recognized(&mut self, frame: RecognizedFrame)
        ensures
            *final(self) == (HitScanWorker { recognized_frame: Some(frame), ..*old(self) }),
    {
        self.recognized_frame = Some(frame);
    }

    /// The area that counts for an observation.
    pub open spec fn active_area(self, pointer: PointerSnapshot) -> CaptureGeometry {
        match pointer.capture_geometry {
            Some(geometry) => geometry,
            None => self.capture_geometry,
        }
    }

    /// The number of the frame in which text was recognised.
    pub open spec fn sequence(self) -> Option<u64> {
        match self.recognized_frame {
            Some(frame) => Some(frame.sequence),
            None => None,
        }
    }

    /// Whether an observation brings nothing new.
    pub open spec fn is_unchanged(self, pointer: PointerSnapshot) -> bool {
        &&& self.last_ocr_sequence == self.sequence()
        &&& self.last_mouse_pos == Some(pointer.position)
        &&& self.last_capture_geometry == Some(self.active_area(pointer))
        &&& self.last_target_available == Some(pointer.target_available)
    }

    /// The place at which the recognised text is looked at: there is one where the source can
    /// be seen, the text was recognised in an area of the same size, and the pointer is in it.
    pub open spec fn place(self, pointer: PointerSnapshot) -> Option<PointerFractions> {
        let area = self.active_area(pointer);
        if pointer.target_available && self.recognized_frame is Some
            && self.recognized_frame->0.capture_geometry.width == area.width
            && self.recognized_frame->0.capture_geometry.height == area.height {
            pointer_place(pointer.position, area)
        } else {
            None
        }
    }

    /// One round: the pointer was observed, or could not be. `facts` says of each word of the
    /// recognised text how it lies to a place.
    pub fn step<F: FnOnce(&Vec<Paragraph>, PointerFractions) -> Vec<ParagraphFacts>>(
        &mut self,
        observation: Result<PointerSnapshot, String>,
        facts: F,
    ) -> (r: HitScanStep)
        requires
            forall|paragraphs: Vec<Paragraph>, place: PointerFractions| #[trigger]
                call_requires(facts, (&paragraphs, place)),
            forall|
                paragraphs: Vec<Paragraph>,
                place: PointerFractions,
                given: Vec<ParagraphFacts>,
            | #[trigger]
                call_ensures(facts, (&paragraphs, place), given) ==> fit(paragraphs@, given@),
        ensures
            final(self).capture_geometry == old(self).capture_geometry,
            final(self).recognized_frame == old(self).recognized_frame,
            takes_observation(*old(self), observation, facts, *final(self), r),
    {
        let pointer = match observation {
            Ok(pointer) => pointer,
            Err(message) => {
                let is_new = match &self.last_pointer_error {
                    Some(last) => *last != message,
                    None => true,
                };
                if is_new {
                    self.last_pointer_error = Some(message);
                }
                return HitScanStep::PointerFailed { is_new };
            },
        };
        self.last_pointer_error = None;
        let area = match pointer.capture_geometry {
            Some(geometry) => geometry,
            None => self.capture_geometry,
        };
        let sequence: Option<u64> = match &self.recognized_frame {
            Some(frame) => Some(frame.sequence),
            None => None,
        };
        let ocr_changed = match (self.last_ocr_sequence, sequence) {
            (Some(last), Some(now)) => last != now,
            (None, None) => false,
            _ => true,
        };
        let last_area = self.last_capture_geometry;
        let last_area_ref = match &last_area {
            Some(last) => Some(last),
            None => None,
        };
        if !lookup_input_changed(
            self.last_mouse_pos,
            last_area_ref,
            self.last_target_available,
            pointer.position,
            &area,
            pointer.target_available,
            ocr_changed,
        ) {
            return HitScanStep::Unchanged;
        }
        self.last_mouse_pos = Some(pointer.position);
        self.last_capture_geometry = Some(area);
        self.last_target_available = Some(pointer.target_available);
        self.last_ocr_sequence = sequence;
        let mut lookup_string: Option<String> = None;
        if let Some(frame) = &self.recognized_frame {
            if pointer.target_available && frame.capture_geometry.width == area.width
                && frame.capture_geometry.height == area.height {
                if let Some(place) = normalized_pointer_position(pointer.position, &area) {
                    let given = facts(&frame.paragraphs, place);
                    lookup_string = hit_scan::hit_scan(&frame.paragraphs, &given);
                }
            }
        }
        HitScanStep::Request(
            LookupRequest {
                lookup_string,
                mouse_x: pointer.position.0,
                mouse_y: pointer.position.1,
                capture_geometry: area,
            },
        )
    }
}

/// Whether an observation, or the failure of one, takes a worker from `before` to `after` and
/// gives `step`.
pub open spec fn takes_observation<
    F: FnOnce(&Vec<Paragraph>, PointerFractions) -> Vec<ParagraphFacts>,
>(
    before: HitScanWorker,
    observation: Result<PointerSnapshot, String>,
    facts: F,
    after: HitScanWorker,
    step: HitScanStep,
) -> bool {
    match observation {
        Err(message) => {
            &&& step == (HitScanStep::PointerFailed {
                is_new: before.last_pointer_error is None || before.last_pointer_error->0@
                    != message@,
            })
            &&& after.last_pointer_error is Some
            &&& after.last_pointer_error->0@ == message@
            &&& after == (HitScanWorker { last_pointer_error: after.last_pointer_error, ..before })
        },
        Ok(pointer) => if before.is_unchanged(pointer) {
            &&& step is Unchanged
            &&& after == (HitScanWorker { last_pointer_error: None, ..before })
        } else {
            &&& after == observed(before, pointer)
            &&& step is Request
            &&& step->Request_0.mouse_x == pointer.position.0
            &&& step->Request_0.mouse_y == pointer.position.1
            &&& step->Request_0.capture_geometry == before.active_area(pointer)
            &&& match before.place(pointer) {
                None => step->Request_0.lookup_string is None,
                Some(place) => exists|given: Vec<ParagraphFacts>|
                    {
                        &&& #[trigger] call_ensures(
                            facts,
                            (&before.recognized_frame->0.paragraphs, place),
                            given,
                        )
                        &&& match (
                            step->Request_0.lookup_string,
                            hit_scan::first_text_under(
                                before.recognized_frame->0.paragraphs@,
                                given@,
                                0,
                            ),
                        ) {
                            (Some(found), Some(wanted)) => found@ == wanted,
                            (None, None) => true,
                            _ => false,
                        }
                    },
            }
        },
    }
}

/// The worker after an observation.
pub open spec fn observed(worker: HitScanWorker, pointer: PointerSnapshot) -> HitScanWorker {
    HitScanWorker {
        last_mouse_pos: Some(pointer.position),
        last_capture_geometry: Some(worker.active_area(pointer)),
        last_target_available: Some(pointer.target_available),
        last_ocr_sequence: worker.sequence(),
        last_pointer_error: None,
        ..worker
    }
}

/// An observation asks for a lookup once: where nothing changes, the next ones bring nothing new.
pub proof fn law_observations_ask_once(worker: HitScanWorker, pointer: PointerSnapshot)
    ensures
        observed(worker, pointer).is_unchanged(pointer),
{
}

/// What is told after a lookup: its outcome where something was found, and otherwise that the
/// popup is to go where it is shown.
pub open spec fn answer_event(
    outcome: Option<CachedLookupView>,
    mouse_x: i32,
    mouse_y: i32,
    capture_geometry: CaptureGeometry,
    popup_is_visible: bool,
) -> Option<PipelineEventView> {
    if outcome is Some && (outcome->0.entries.len() > 0 || outcome->0.kanji_entry is Some) {
        Some(
            PipelineEventView::LookupResult {
                entries: outcome->0.entries,
                kanji: outcome->0.kanji_entry,
                mouse_x,
                mouse_y,
                capture_geometry,
            },
        )
    } else if popup_is_visible {
        Some(PipelineEventView::HidePopup { mouse_x, mouse_y })
    } else {
        None
    }
}

/// What is told after a lookup, and whether the popup is shown then.
pub fn answer(
    outcome: Option<CachedLookup>,
    mouse_x: i32,
    mouse_y: i32,
    capture_geometry: CaptureGeometry,
    popup_is_visible: &mut bool,
) -> (r: Option<PipelineEvent>)
    ensures
        event_view(r) == answer_event(
            match outcome {
                Some(outcome) => Some(outcome@),
                None => None,
            },
            mouse_x,
            mouse_y,
            capture_geometry,
            *old(popup_is_visible),
        ),
        *final(popup_is_visible) == (event_view(r) is Some && event_view(r)->0 is LookupResult),
{
    if let Some(outcome) = outcome {
        assert(outcome@.entries.len() == outcome.entries@.len());
        if outcome.entries.len() > 0 || outcome.kanji_entry.is_some() {
            *popup_is_visible = true;
            return Some(
                PipelineEvent::LookupResult {
                    entries: outcome.entries,
                    kanji: outcome.kanji_entry,
                    mouse_x,
                    mouse_y,
                    capture_geometry,
                },
            );
        }
    }
    let was_visible = *popup_is_visible;
    *popup_is_visible = false;
    if was_visible {
        Some(PipelineEvent::HidePopup { mouse_x, mouse_y })
    } else {
        None
    }
}

/// Told once that the popup is to go, those who show it are not told again before it is shown
/// again.
pub proof fn law_hiding_is_told_once(
    outcome: Option<CachedLookupView>,
    x: i32,
    y: i32,
    area: CaptureGeometry,
)
    ensures
        answer_event(outcome, x, y, area, false) is None || answer_event(
            outcome,
            x,
            y,
            area,
            false,
        )->0 is LookupResult,
{
}

/// One round of the lookup worker: looks up what is asked for, and says what is told of it.
/// `priority` gives the priority of a hit.
pub fn lookup_step<F: Fn(PriorityParts) -> u64>(
    lookup_engine: &mut LookupEngine,
    request: LookupRequest,
    max_lookup_length: usize,
    show_kanji: bool,
    priority: F,
    popup_is_visible: &mut bool,
) -> (r: Option<PipelineEvent>)
    requires
        old(lookup_engine).wf(),
        forall|parts: PriorityParts| #[trigger] call_requires(priority, (parts,)),
    ensures
        final(lookup_engine).wf(),
        *final(popup_is_visible) == (event_view(r) is Some && event_view(r)->0 is LookupResult),
        match request.lookup_string {
            None => {
                &&& *final(lookup_engine) == *old(lookup_engine)
                &&& event_view(r) == answer_event(
                    None,
                    request.mouse_x,
                    request.mouse_y,
                    request.capture_geometry,
                    *old(popup_is_visible),
                )
            },
            Some(lookup_string) => exists|outcome: CachedLookupView|
                {
                    &&& #[trigger] engine::is_cached_lookup(
                        *old(lookup_engine),
                        *final(lookup_engine),
                        lookup_string@,
                        max_lookup_length,
                        show_kanji,
                        priority,
                        outcome,
                    )
                    &&& event_view(r) == answer_event(
                        Some(outcome),
                        request.mouse_x,
                        request.mouse_y,
                        request.capture_geometry,
                        *old(popup_is_visible),
                    )
                },
        },
{
    let outcome = match &request.lookup_string {
        Some(lookup_string) => Some(
            lookup_engine.lookup_cached(
                lookup_string.as_str(),
                max_lookup_length,
                show_kanji,
                priority,
            ),
        ),
        None => None,
    };
    answer(
        outcome,
        request.mouse_x,
        request.mouse_y,
        request.capture_geometry,
        popup_is_visible,
    )
}

/// The hit that was looked up last, by a worker that looks nothing up twice in a row.
#[derive(Debug)]
pub struct LookupGate {
    pub last_hit: Option<String>,
}

/// The contents of a text, if there is one.
pub open spec fn text_view(t: Option<String>) -> Option<Seq<char>> {
    match t {
        Some(t) => Some(t@),
        None => None,
    }
}

impl LookupGate {
    /// Whether a hit is to be looked up: it is another one than the last.
    pub fn admits(&mut self, hit: Option<String>) -> (r: bool)
        ensures
            r == (text_view(hit) != text_view(old(self).last_hit)),
            text_view(final(self).last_hit) == text_view(hit),
    {
        let is_same = match (&self.last_hit, &hit) {
            (Some(last), Some(hit)) => *last == *hit,
            (None, None) => true,
            _ => false,
        };
        self.last_hit = hit;
        !is_same
    }
}

/// A pipeline starts with its providers; then come the captured area, text recognition, the
/// dictionary and at last the workers.
pub proof fn law_startup_ends_with_the_workers()
    ensures
        stage_after(StartupStage::Providers) == StartupStage::Geometry,
        stage_after(stage_after(StartupStage::Providers)) == StartupStage::Ocr,
        stage_after(stage_after(stage_after(StartupStage::Providers))) == StartupStage::Dictionary,
        stage_after(stage_after(stage_after(stage_after(StartupStage::Providers))))
            == StartupStage::Workers,
{
}

/// A pointer has a place in an area where it is less than the sides away from the corner: the
/// distances, out of the sides.
pub proof fn law_places_are_distances_from_the_corner(pointer: (i32, i32), area: CaptureGeometry)
    ensures
        ({
            let x = pointer.0 - area.left;
            let y = pointer.1 - area.top;
            let inside = 0 <= x < area.width && 0 <= y < area.height && pointer.0 != 0x7fff_ffff
                && pointer.1 != 0x7fff_ffff;
            match pointer_place(pointer, area) {
                Some(place) => inside && place.x == x && place.y == y && place.width == area.width
                    && place.height == area.height,
                None => !inside,
            }
        }),
{
    platform_interface::law_areas_are_measured_from_their_corners(area, pointer);
}

/// A frame counts as scanned if the last scan was of the same bytes at the same place.
pub proof fn law_scans_are_told_by_bytes_and_place(
    worker: OcrWorker,
    raw: Seq<u8>,
    focus: NormalizedPoint,
)
    ensures
        worker.last_scan is None ==> !worker.was_scanned(raw, focus),
        worker.last_scan is Some ==> {
            let last = worker.last_scan->0;
            worker.was_scanned(raw, focus) <==> {
                &&& last.0@.len() == raw.len()
                &&& forall|i: int| 0 <= i < raw.len() ==> #[trigger] last.0@[i] == raw[i]
                &&& floats::equal_64(last.1.x, focus.x)
                &&& floats::equal_64(last.1.y, focus.y)
            }
        },
{
    if worker.last_scan is Some {
        let last = worker.last_scan->0;
        if last.0@.len() == raw.len() && forall|i: int|
            0 <= i < raw.len() ==> #[trigger] last.0@[i] == raw[i] {
            assert(last.0@ =~= raw);
        }
    }
}

/// An observation brings something new if it is the first, or if the pointer, the area that it
/// is in, whether the source can be seen, or the recognised frame is another than last time; the
/// area that a worker was made with counts where an observation has none.
pub proof fn law_observations_are_compared_in_full(worker: HitScanWorker, pointer: PointerSnapshot)
    ensures
        ({
            let area = if pointer.capture_geometry is Some {
                pointer.capture_geometry->0
            } else {
                worker.capture_geometry
            };
            let same_frame = match (worker.last_ocr_sequence, worker.recognized_frame) {
                (Some(last), Some(frame)) => last == frame.sequence,
                (None, None) => true,
                _ => false,
            };
            &&& worker.is_unchanged(pointer) <==> {
                &&& same_frame
                &&& worker.last_mouse_pos is Some && worker.last_mouse_pos->0 == pointer.position
                &&& worker.last_capture_geometry is Some && worker.last_capture_geometry->0 == area
                &&& worker.last_target_available is Some && worker.last_target_available->0
                    == pointer.target_available
            }
            &&& worker.active_area(pointer) == area
        }),
{
}

/// The recognised text is looked at where the source can be seen, the pointer is in the area and
/// the area has the sides that it had when the text was recognised, wherever it was then.
pub proof fn law_text_is_looked_at_in_areas_of_its_size(
    worker: HitScanWorker,
    pointer: PointerSnapshot,
)
    ensures
        ({
            let area = worker.active_area(pointer);
            &&& worker.recognized_frame is None ==> worker.place(pointer) is None
            &&& !pointer.target_available ==> worker.place(pointer) is None
            &&& worker.recognized_frame is Some && pointer.target_available ==> worker.place(
                pointer,
            ) == (if worker.recognized_frame->0.capture_geometry.width != area.width
                || worker.recognized_frame->0.capture_geometry.height != area.height {
                None
            } else {
                pointer_place(pointer.position, area)
            })
        }),
{
}

/// A lookup is shown where it found an entry or a kanji, with all that it found; else the popup
/// goes where it is shown, and nothing is told where it is not.
pub proof fn law_what_was_found_is_shown(
    outcome: Option<CachedLookupView>,
    x: i32,
    y: i32,
    area: CaptureGeometry,
    visible: bool,
)
    ensures
        ({
            let found = match outcome {
                Some(found) => found.entries.len() > 0 || found.kanji_entry is Some,
                None => false,
            };
            match answer_event(outcome, x, y, area, visible) {
                Some(
                    PipelineEventView::LookupResult {
                        entries,
                        kanji,
                        mouse_x,
                        mouse_y,
                        capture_geometry,
                    },
                ) => {
                    &&& found
                    &&& entries == outcome->0.entries && kanji == outcome->0.kanji_entry
                    &&& mouse_x == x && mouse_y == y && capture_geometry == area
                },
                Some(PipelineEventView::HidePopup { mouse_x, mouse_y }) => !found && visible
                    && mouse_x == x && mouse_y == y,
                Some(_) => false,
                None => !found && !visible,
            }
        }),
{
}

/// A frame that was scanned at a place is not scanned there again, and one whose scan failed is,
/// if it had not been scanned there before: `again` is what is planned for it at that place.
pub proof fn law_frames_are_scanned_until_it_succeeds<
    S: FnOnce(&RgbImage, NormalizedPoint) -> Result<Vec<Paragraph>, String>,
    N: FnOnce(PointerFractions) -> NormalizedPoint,
>(
    before: OcrWorker,
    work: OcrWorkItem,
    focus: NormalizedPoint,
    scan: S,
    after: OcrWorker,
    result: Result<RecognizedFrame, String>,
    normalize: N,
    again: Option<NormalizedPoint>,
)
    requires
        is_scanned(before, work, focus, scan, after, result),
        is_planned(after, work, normalize, again),
        floats::equal_64(focus.x, focus.x) && floats::equal_64(focus.y, focus.y),
        forall|place: PointerFractions, given: NormalizedPoint| #[trigger]
            call_ensures(normalize, (place,), given) ==> given == focus,
    ensures
        result is Ok ==> again is None,
        result is Err && !before.was_scanned(work.frame.screenshot.raw@, focus) ==> again == (
        if work.pointer.target_available && pointer_place(
            work.pointer.position,
            work.frame.geometry,
        ) is Some {
            Some(focus)
        } else {
            None
        }),
        result is Ok ==> result->Ok_0.sequence == work.frame.sequence
            && result->Ok_0.capture_geometry == work.frame.geometry,
        result is Err ==> after == before,
{
}

/// Frames are scanned only while their source can be seen and the pointer is in their area.
pub proof fn law_frames_are_scanned_under_the_pointer<
    N: FnOnce(PointerFractions) -> NormalizedPoint,
>(worker: OcrWorker, work: OcrWorkItem, normalize: N, planned: Option<NormalizedPoint>)
    requires
        is_planned(worker, work, normalize, planned),
        planned is Some,
    ensures
        work.pointer.target_available,
        0 <= work.pointer.position.0 - work.frame.geometry.left < work.frame.geometry.width,
        0 <= work.pointer.position.1 - work.frame.geometry.top < work.frame.geometry.height,
        !worker.was_scanned(work.frame.screenshot.raw@, planned->0),
{
    law_places_are_distances_from_the_corner(work.pointer.position, work.frame.geometry);
}

/// An observation that brings something new asks for a lookup at the pointer, and the same
/// observation after it for none; what the pointer is not over, or cannot be over, has no text.
pub proof fn law_new_observations_ask_for_lookups<
    F: FnOnce(&Vec<Paragraph>, PointerFractions) -> Vec<ParagraphFacts>,
    G: FnOnce(&Vec<Paragraph>, PointerFractions) -> Vec<ParagraphFacts>,
>(
    workers: (HitScanWorker, HitScanWorker, HitScanWorker),
    pointer: PointerSnapshot,
    facts: F,
    more_facts: G,
    steps: (HitScanStep, HitScanStep),
)
    requires
        takes_observation(workers.0, Ok(pointer), facts, workers.1, steps.0),
        takes_observation(workers.1, Ok(pointer), more_facts, workers.2, steps.1),
    ensures
        steps.1 is Unchanged,
        workers.2 == workers.1,
        workers.1.last_pointer_error is None,
        steps.0 is Request ==> {
            let request = steps.0->Request_0;
            &&& request.mouse_x == pointer.position.0 && request.mouse_y == pointer.position.1
            &&& pointer.capture_geometry is Some ==> request.capture_geometry
                == pointer.capture_geometry->0
            &&& pointer.capture_geometry is None ==> request.capture_geometry
                == workers.0.capture_geometry
            &&& !pointer.target_available || workers.0.recognized_frame is None
                ==> request.lookup_string is None
        },
        !(steps.0 is Request) ==> steps.0 is Unchanged && workers.0.is_unchanged(pointer),
{
    law_observations_ask_once(workers.0, pointer);
}

/// A failure to observe the pointer is told as new once: the same failure after it is not, until
/// an observation succeeds.
pub proof fn law_failures_are_new_once<
    F: FnOnce(&Vec<Paragraph>, PointerFractions) -> Vec<ParagraphFacts>,
    G: FnOnce(&Vec<Paragraph>, PointerFractions) -> Vec<ParagraphFacts>,
>(
    workers: (HitScanWorker, HitScanWorker, HitScanWorker),
    first: String,
    second: String,
    facts: F,
    more_facts: G,
    steps: (HitScanStep, HitScanStep),
)
    requires
        takes_observation(workers.0, Err(first), facts, workers.1, steps.0),
        takes_observation(workers.1, Err(second), more_facts, workers.2, steps.1),
    ensures
        workers.0.last_pointer_error is None ==> steps.0 == (HitScanStep::PointerFailed {
            is_new: true,
        }),
        steps.1 == (HitScanStep::PointerFailed { is_new: first@ != second@ }),
        workers.2.last_mouse_pos == workers.0.last_mouse_pos && workers.2.recognized_frame
            == workers.0.recognized_frame && workers.2.last_ocr_sequence
            == workers.0.last_ocr_sequence,
{
}

/// The contents of an event are what it tells: its kind, and of a lookup the entries, the kanji,
/// the place of the pointer and the area.
pub proof fn law_events_are_told_by_their_parts(event: PipelineEvent)
    ensures
        event@ is CaptureReady <==> event is CaptureReady,
        event@ is LookupResult <==> event is LookupResult,
        event@ is HidePopup <==> event is HidePopup,
        event@ is Error <==> event is Error,
        match (event, event@) {
            (
                PipelineEvent::LookupResult { entries, kanji, mouse_x, mouse_y, capture_geometry },
                PipelineEventView::LookupResult {
                    entries: shown,
                    kanji: shown_kanji,
                    mouse_x: x,
                    mouse_y: y,
                    capture_geometry: area,
                },
            ) => {
                &&& shown.len() == entries@.len()
                &&& forall|i: int| 0 <= i < shown.len() ==> #[trigger] shown[i] == entries@[i]@
                &&& kanji is Some == shown_kanji is Some
                &&& kanji is Some ==> shown_kanji->0 == kanji->0@
                &&& x == mouse_x && y == mouse_y && area == capture_geometry
            },
            (
                PipelineEvent::HidePopup { mouse_x, mouse_y },
                PipelineEventView::HidePopup { mouse_x: x, mouse_y: y },
            ) => x == mouse_x && y == mouse_y,
            (PipelineEvent::Error(message), PipelineEventView::Error(text)) => text == message@,
            _ => true,
        },
{
}

} // verus!
