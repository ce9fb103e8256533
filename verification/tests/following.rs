use std::collections::HashMap;

use meikipop::dictionary::deconjugator::Deconjugator;
use meikipop::dictionary::engine::{CachedLookup, LookupEngine};
use meikipop::dictionary::entry::KanjiEntry;
use meikipop::ocr::hit_scan::{ParagraphFacts, PointerFractions, WordFacts};
use meikipop::ocr::interface::{BoundingBox, Paragraph, Word};
use meikipop::pipeline::{
    answer, capture_pause, capture_step, lookup_input_changed, lookup_step, normalized_pointer_position,
    startup_step, HitScanStep, HitScanWorker, LookupGate, LookupRequest, NormalizedPoint,
    OcrWorkItem, OcrWorker, PipelineEvent, RecognizedFrame, StartupStage,
};
use meikipop::input::interface::PointerSnapshot;
use meikipop::platform::interface::{CaptureGeometry, CapturedFrame, Screenshot};
use meikipop::text_map::TextMap;

fn geometry(left: i32, top: i32, width: usize, height: usize) -> CaptureGeometry {
    CaptureGeometry {
        left,
        top,
        width,
        height,
    }
}

#[test]
fn capture_source_movement_invalidates_a_stationary_pointer_lookup() {
    let previous = geometry(0, 0, 800, 600);
    let moved = geometry(100, 50, 800, 600);

    assert!(lookup_input_changed(
        Some((200, 150)),
        Some(&previous),
        Some(true),
        (200, 150),
        &moved,
        true,
        false,
    ));
    assert!(!lookup_input_changed(
        Some((200, 150)),
        Some(&moved),
        Some(true),
        (200, 150),
        &moved,
        true,
        false,
    ));
}

#[test]
fn target_occlusion_invalidates_a_stationary_pointer_lookup() {
    let target = geometry(0, 0, 800, 600);

    assert!(lookup_input_changed(
        Some((200, 150)),
        Some(&target),
        Some(true),
        (200, 150),
        &target,
        false,
        false,
    ));
}

fn divided(place: PointerFractions) -> NormalizedPoint {
    NormalizedPoint {
        x: (place.x as f64 / place.width as f64).to_bits(),
        y: (place.y as f64 / place.height as f64).to_bits(),
    }
}

fn point(x: f64, y: f64) -> NormalizedPoint {
    NormalizedPoint {
        x: x.to_bits(),
        y: y.to_bits(),
    }
}

#[test]
fn pointer_normalization_rejects_invalid_or_outside_geometry() {
    assert_eq!(
        normalized_pointer_position((150, 100), &geometry(100, 50, 200, 100)).map(divided),
        Some(point(0.25, 0.5)),
    );
    assert_eq!(
        normalized_pointer_position((99, 100), &geometry(100, 50, 200, 100)),
        None,
    );
    assert_eq!(
        normalized_pointer_position((300, 100), &geometry(100, 50, 200, 100)),
        None,
    );
    assert_eq!(
        normalized_pointer_position((100, 50), &geometry(100, 50, 0, 100)),
        None,
    );
    assert_eq!(
        normalized_pointer_position(
            (i32::MAX - 1, 0),
            &geometry(i32::MIN, 0, u32::MAX as usize, 1),
        )
        .map(divided),
        Some(point((u32::MAX as f64 - 1.0) / u32::MAX as f64, 0.0)),
    );
}

fn pointer_at(position: (i32, i32), target_available: bool) -> PointerSnapshot {
    PointerSnapshot {
        position,
        capture_geometry: None,
        target_available,
    }
}

fn frame(byte: u8) -> CapturedFrame {
    CapturedFrame {
        source_generation: 1,
        sequence: 7,
        screenshot: Screenshot {
            raw: vec![byte; 4 * 4 * 4],
            width: 4,
            height: 4,
        },
        geometry: geometry(0, 0, 4, 4),
    }
}

#[test]
fn frames_are_handed_on_once_the_pointer_was_seen() {
    assert_eq!(capture_pause(true, 300), (false, 20));
    assert_eq!(capture_pause(false, 300), (true, 300));
    assert!(capture_step(Ok(frame(0)), &None).is_none());
    assert!(capture_step(Err("broken".into()), &Some(pointer_at((1, 1), true))).is_none());
    let work = capture_step(Ok(frame(0)), &Some(pointer_at((1, 1), true))).unwrap();
    assert_eq!(work.frame.sequence, 7);
    assert_eq!(work.pointer.position, (1, 1));
}

#[test]
fn startup_goes_on_to_the_workers() {
    let mut stage = StartupStage::Providers;
    let mut seen_ready = false;
    while stage != StartupStage::Workers {
        let (next, event) = startup_step(stage, Ok(()));
        seen_ready |= matches!(event, Some(PipelineEvent::CaptureReady));
        stage = next.unwrap();
    }
    assert!(seen_ready);

    for (stage, message) in [
        (
            StartupStage::Providers,
            "Failed to initialize desktop providers: e",
        ),
        (StartupStage::Geometry, "Failed to get capture geometry: e"),
        (StartupStage::Ocr, "Failed to initialize OCR: e"),
        (StartupStage::Dictionary, "Failed to load dictionary: e"),
    ] {
        let (next, event) = startup_step(stage, Err("e".into()));
        assert!(next.is_none());
        match event {
            Some(PipelineEvent::Error(text)) => assert_eq!(text, message),
            _ => panic!("an error was expected"),
        }
    }
}

fn paragraph(text: &str) -> Paragraph {
    let bounds = BoundingBox::new(0, 0, 0, 0);
    Paragraph {
        full_text: text.into(),
        words: vec![Word {
            text: text.into(),
            separator: String::new(),
            bounds,
        }],
        bounds,
        is_vertical: false,
    }
}

fn work(byte: u8, position: (i32, i32), target_available: bool) -> OcrWorkItem {
    OcrWorkItem {
        frame: frame(byte),
        pointer: pointer_at(position, target_available),
    }
}

#[test]
fn a_frame_is_scanned_once_at_a_place() {
    let mut worker = OcrWorker::new();
    assert_eq!(
        worker.plan_scan(&work(1, (1, 1), false), divided),
        None,
        "covered"
    );
    assert_eq!(
        worker.plan_scan(&work(1, (9, 1), true), divided),
        None,
        "outside"
    );
    let focus = worker.plan_scan(&work(1, (1, 2), true), divided).unwrap();
    assert_eq!(focus, point(0.25, 0.5));

    assert_eq!(
        worker
            .scan_frame(work(1, (1, 2), true), focus, |_, _| Err("broken".into()))
            .unwrap_err(),
        "broken"
    );
    assert!(worker.plan_scan(&work(1, (1, 2), true), divided).is_some());
    let recognized = worker
        .scan_frame(work(1, (1, 2), true), focus, |image, _| {
            assert_eq!(image.data.len(), 4 * 4 * 3);
            Ok(vec![paragraph("猫")])
        })
        .unwrap();
    assert_eq!(recognized.sequence, 7);
    assert_eq!(recognized.paragraphs.len(), 1);

    assert!(worker.plan_scan(&work(1, (1, 2), true), divided).is_none());
    assert!(worker.plan_scan(&work(1, (2, 2), true), divided).is_some());
    assert!(worker.plan_scan(&work(2, (1, 2), true), divided).is_some());
}

fn hits(paragraphs: &Vec<Paragraph>, _: PointerFractions) -> Vec<ParagraphFacts> {
    paragraphs
        .iter()
        .map(|paragraph| ParagraphFacts {
            is_inside: true,
            words: paragraph
                .words
                .iter()
                .map(|_| WordFacts {
                    is_hit: true,
                    offset: 1,
                })
                .collect(),
        })
        .collect()
}

fn requested(step: HitScanStep) -> LookupRequest {
    match step {
        HitScanStep::Request(request) => request,
        other => panic!("unexpected {other:?}"),
    }
}

#[test]
fn observations_ask_once() {
    let area = geometry(0, 0, 4, 4);
    let mut worker = HitScanWorker::new(area);

    let request = requested(worker.step(Ok(pointer_at((1, 1), true)), hits));
    assert_eq!(request.lookup_string, None);
    assert!(matches!(
        worker.step(Ok(pointer_at((1, 1), true)), hits),
        HitScanStep::Unchanged
    ));

    worker.set_recognized(RecognizedFrame {
        sequence: 1,
        paragraphs: vec![paragraph("日本語")],
        capture_geometry: area,
    });
    let request = requested(worker.step(Ok(pointer_at((1, 1), true)), hits));
    assert_eq!(request.lookup_string.as_deref(), Some("本語"));
    assert_eq!((request.mouse_x, request.mouse_y), (1, 1));
    assert_eq!(request.capture_geometry, area);

    let request = requested(worker.step(Ok(pointer_at((1, 1), false)), hits));
    assert_eq!(request.lookup_string, None);
    let request = requested(worker.step(Ok(pointer_at((9, 1), true)), hits));
    assert_eq!(request.lookup_string, None);
    let mut resized = pointer_at((1, 1), true);
    resized.capture_geometry = Some(geometry(0, 0, 8, 8));
    let request = requested(worker.step(Ok(resized), hits));
    assert_eq!(request.lookup_string, None);
}

#[test]
fn pointer_failures_are_told_once() {
    let mut worker = HitScanWorker::new(geometry(0, 0, 4, 4));
    let fail = |text: &str| Err::<PointerSnapshot, String>(text.into());

    for (text, expected) in [("a", true), ("a", false), ("b", true)] {
        match worker.step(fail(text), hits) {
            HitScanStep::PointerFailed { is_new } => assert_eq!(is_new, expected),
            other => panic!("unexpected {other:?}"),
        }
    }
    worker.step(Ok(pointer_at((1, 1), true)), hits);
    assert!(matches!(
        worker.step(fail("b"), hits),
        HitScanStep::PointerFailed { is_new: true }
    ));
}

fn kanji() -> KanjiEntry {
    KanjiEntry {
        character: "猫".into(),
        meanings: vec!["cat".into()],
        readings: vec!["ねこ".into()],
        components: Vec::new(),
        examples: Vec::new(),
    }
}

#[test]
fn hiding_is_told_once() {
    let area = geometry(0, 0, 4, 4);
    let found = || {
        Some(CachedLookup {
            entries: Vec::new(),
            kanji_entry: Some(kanji()),
        })
    };
    let nothing = || {
        Some(CachedLookup {
            entries: Vec::new(),
            kanji_entry: None,
        })
    };
    let mut visible = false;

    assert!(answer(nothing(), 1, 2, area, &mut visible).is_none());
    assert!(matches!(
        answer(found(), 1, 2, area, &mut visible),
        Some(PipelineEvent::LookupResult {
            mouse_x: 1,
            mouse_y: 2,
            ..
        })
    ));
    assert!(visible);
    assert!(matches!(
        answer(nothing(), 3, 4, area, &mut visible),
        Some(PipelineEvent::HidePopup {
            mouse_x: 3,
            mouse_y: 4
        })
    ));
    assert!(!visible);
    assert!(answer(None, 3, 4, area, &mut visible).is_none());
}

#[test]
fn requests_are_looked_up() {
    let mut kanji_entries = TextMap::new();
    kanji_entries.insert("猫".to_owned(), kanji());
    let mut engine = LookupEngine::new(
        HashMap::new(),
        TextMap::new(),
        kanji_entries,
        Deconjugator::new(Vec::new()),
        10,
    );
    let request = |text: Option<&str>| LookupRequest {
        lookup_string: text.map(str::to_owned),
        mouse_x: 1,
        mouse_y: 2,
        capture_geometry: geometry(0, 0, 4, 4),
    };
    let mut visible = false;

    let event = lookup_step(&mut engine, request(Some("猫だ")), 25, true, |_| 0, &mut visible);
    match event {
        Some(PipelineEvent::LookupResult { kanji: shown, .. }) => {
            assert_eq!(shown, Some(kanji()))
        }
        _ => panic!("a result was expected"),
    }
    let event = lookup_step(&mut engine, request(None), 25, true, |_| 0, &mut visible);
    assert!(matches!(event, Some(PipelineEvent::HidePopup { .. })));
}

#[test]
fn the_same_hit_is_not_looked_up_twice_in_a_row() {
    let mut gate = LookupGate { last_hit: None };

    assert!(!gate.admits(None));
    assert!(gate.admits(Some("猫".into())));
    assert!(!gate.admits(Some("猫".into())));
    assert!(gate.admits(Some("犬".into())));
    assert!(gate.admits(None));
}
