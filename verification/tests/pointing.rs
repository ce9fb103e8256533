use meikipop::ocr::hit_scan::{
    hit_scan, normalize_mouse_position, ParagraphFacts, PointerFractions, WordFacts,
};
use meikipop::ocr::interface::{BoundingBox, Paragraph, Word};
use meikipop::ocr::keeping::OcrProcessor;
use meikipop::ocr::providers::dummy;
use meikipop::ocr::providers::dummy::{DummyProvider, PixelBox};
use meikipop::screenshot::interface::RgbImage;

fn bounding_box(cx: f64, cy: f64, w: f64, h: f64) -> BoundingBox {
    BoundingBox::new(cx.to_bits(), cy.to_bits(), w.to_bits(), h.to_bits())
}

fn floats(b: &BoundingBox) -> (f64, f64, f64, f64) {
    (
        f64::from_bits(b.center_x),
        f64::from_bits(b.center_y),
        f64::from_bits(b.width),
        f64::from_bits(b.height),
    )
}

fn is_in_box(point: (f64, f64), b: Option<&BoundingBox>) -> bool {
    let Some(b) = b else {
        return false;
    };
    let (cx, cy, w, h) = floats(b);
    (cx - w / 2.0 <= point.0 && point.0 <= cx + w / 2.0)
        && (cy - h / 2.0 <= point.1 && point.1 <= cy + h / 2.0)
}

fn is_in_box_ex(
    point: (f64, f64),
    before: Option<&BoundingBox>,
    b: &BoundingBox,
    after: Option<&BoundingBox>,
    is_vertical: bool,
) -> bool {
    let (cx, cy, w, h) = floats(b);
    let (mut left, mut right) = (cx - w / 2.0, cx + w / 2.0);
    let (mut top, mut bottom) = (cy - h / 2.0, cy + h / 2.0);
    if let Some(before) = before {
        let (bx, by, bw, bh) = floats(before);
        if is_vertical {
            top = f64::min(top, by + bh / 2.0);
        } else {
            left = f64::min(left, bx + bw / 2.0);
        }
    }
    if let Some(after) = after {
        let (ax, ay, aw, ah) = floats(after);
        if is_vertical {
            bottom = f64::max(bottom, ay - ah / 2.0);
        } else {
            right = f64::max(right, ax - aw / 2.0);
        }
    }
    (left <= point.0 && point.0 <= right) && (top <= point.1 && point.1 <= bottom)
}

fn offset(word: &Word, is_vertical: bool, point: (f64, f64)) -> usize {
    let (cx, cy, w, h) = floats(&word.bounds);
    let (start, size, at) = if is_vertical {
        (cy - h / 2.0, h, point.1)
    } else {
        (cx - w / 2.0, w, point.0)
    };
    if size > 0.0 {
        (((at - start) / size).clamp(0.0, 1.0) * word.text.chars().count() as f64) as usize
    } else {
        0
    }
}

fn facts(paragraphs: &[Paragraph], point: (f64, f64)) -> Vec<ParagraphFacts> {
    paragraphs
        .iter()
        .map(|paragraph| {
            let words = &paragraph.words;
            ParagraphFacts {
                is_inside: is_in_box(point, Some(&paragraph.bounds)),
                words: (0..words.len())
                    .map(|i| WordFacts {
                        is_hit: is_in_box_ex(
                            point,
                            i.checked_sub(1).map(|before| &words[before].bounds),
                            &words[i].bounds,
                            words.get(i + 1).map(|word| &word.bounds),
                            paragraph.is_vertical,
                        ),
                        offset: offset(&words[i], paragraph.is_vertical, point),
                    })
                    .collect(),
            }
        })
        .collect()
}

fn scan(paragraphs: Vec<Paragraph>, x: f64, y: f64) -> Option<String> {
    let facts = facts(&paragraphs, (x, y));
    hit_scan(&paragraphs, &facts)
}

#[test]
fn point_inside_box_is_detected() {
    let paragraph = || paragraph_with_word("日", bounding_box(0.5, 0.5, 0.4, 0.2), false);

    assert!(scan(vec![paragraph()], 0.5, 0.5).is_some());
    assert!(scan(vec![paragraph()], 0.3, 0.5).is_some());
    assert!(scan(vec![paragraph()], 0.2, 0.5).is_none());
}

#[test]
fn missing_box_never_contains_point() {
    assert!(!is_in_box((0.5, 0.5), None));
    assert_eq!(scan(Vec::new(), 0.5, 0.5), None);
}

fn divided(place: PointerFractions) -> (f64, f64) {
    (
        place.x as f64 / place.width as f64,
        place.y as f64 / place.height as f64,
    )
}

#[test]
fn normalizes_mouse_position_against_scan_geometry() {
    assert_eq!(
        divided(normalize_mouse_position((150, 100), (100, 50, 200, 100)).unwrap()),
        (0.25, 0.5)
    );
}

#[test]
fn rejects_an_empty_scan_geometry() {
    assert!(normalize_mouse_position((0, 0), (0, 0, 0, 100)).is_err());
    assert_eq!(
        normalize_mouse_position((0, 0), (0, 0, 100, 0)).unwrap_err(),
        "cannot normalize mouse position against an empty scan geometry"
    );
}

fn two_words(first: BoundingBox, second: BoundingBox, is_vertical: bool) -> Paragraph {
    Paragraph {
        full_text: "前後".into(),
        words: vec![
            Word {
                text: "前".into(),
                separator: String::new(),
                bounds: first,
            },
            Word {
                text: "後".into(),
                separator: String::new(),
                bounds: second,
            },
        ],
        bounds: bounding_box(0.5, 0.5, 1.0, 1.0),
        is_vertical,
    }
}

#[test]
fn horizontal_extended_box_includes_gap_before_word() {
    let before = bounding_box(0.2, 0.5, 0.2, 0.2);
    let current = bounding_box(0.5, 0.5, 0.2, 0.2);

    assert!(!is_in_box((0.35, 0.5), Some(&current)));
    assert!(is_in_box_ex(
        (0.35, 0.5),
        Some(&before),
        &current,
        None,
        false
    ));
    assert_eq!(
        scan(vec![two_words(before, current, false)], 0.35, 0.5),
        Some("前後".into())
    );
}

#[test]
fn vertical_extended_box_includes_gap_before_word() {
    let before = bounding_box(0.5, 0.2, 0.2, 0.2);
    let current = bounding_box(0.5, 0.5, 0.2, 0.2);

    assert!(!is_in_box((0.5, 0.35), Some(&current)));
    assert!(is_in_box_ex(
        (0.5, 0.35),
        Some(&before),
        &current,
        None,
        true
    ));
    assert_eq!(
        scan(vec![two_words(before, current, true)], 0.5, 0.35),
        Some("前後".into())
    );
}

fn paragraph_with_word(text: &str, bounds: BoundingBox, is_vertical: bool) -> Paragraph {
    Paragraph {
        full_text: text.into(),
        words: vec![Word {
            text: text.into(),
            separator: String::new(),
            bounds,
        }],
        bounds,
        is_vertical,
    }
}

#[test]
fn horizontal_scan_returns_japanese_suffix() {
    let paragraph = paragraph_with_word("日本語", bounding_box(0.5, 0.5, 0.6, 0.2), false);

    assert_eq!(scan(vec![paragraph], 0.5, 0.5), Some("本語".into()));
}

#[test]
fn scan_outside_paragraph_returns_none() {
    let paragraph = paragraph_with_word("日本語", bounding_box(0.5, 0.5, 0.4, 0.2), false);

    assert_eq!(scan(vec![paragraph], 0.1, 0.1), None);
}

#[test]
fn empty_paragraph_list_returns_none() {
    assert_eq!(scan(vec![], 0.5, 0.5), None);
}

#[test]
fn vertical_scan_returns_japanese_suffix() {
    let paragraph = paragraph_with_word("縦書き", bounding_box(0.5, 0.5, 0.2, 0.6), true);

    assert_eq!(scan(vec![paragraph], 0.5, 0.5), Some("書き".into()));
}

#[test]
fn horizontal_scan_at_trailing_edge_returns_last_character() {
    let paragraph = paragraph_with_word("日本語", bounding_box(0.5, 0.5, 0.6, 0.2), false);

    assert_eq!(scan(vec![paragraph], 0.8, 0.5), Some("語".into()));
}

#[test]
fn vertical_scan_at_trailing_edge_returns_last_character() {
    let paragraph = paragraph_with_word("縦書き", bounding_box(0.5, 0.5, 0.2, 0.6), true);

    assert_eq!(scan(vec![paragraph], 0.5, 0.8), Some("き".into()));
}

#[test]
fn empty_selected_word_is_skipped() {
    let paragraph = paragraph_with_word("", bounding_box(0.5, 0.5, 0.4, 0.2), false);

    assert_eq!(scan(vec![paragraph], 0.5, 0.5), None);
}

#[test]
fn paragraph_without_words_returns_none() {
    let paragraph = Paragraph {
        full_text: "日本語".into(),
        words: Vec::new(),
        bounds: bounding_box(0.5, 0.5, 0.6, 0.2),
        is_vertical: false,
    };

    assert_eq!(scan(vec![paragraph], 0.5, 0.5), None);
}

#[test]
fn zero_width_word_selects_its_first_character() {
    let paragraph = paragraph_with_word("日本語", bounding_box(0.5, 0.5, 0.0, 0.2), false);

    assert_eq!(scan(vec![paragraph], 0.5, 0.5), Some("日本語".into()));
}

#[test]
fn zero_height_vertical_word_selects_its_first_character() {
    let paragraph = paragraph_with_word("縦書き", bounding_box(0.5, 0.5, 0.2, 0.0), true);

    assert_eq!(scan(vec![paragraph], 0.5, 0.5), Some("縦書き".into()));
}

#[test]
fn scan_skips_paragraphs_that_do_not_contain_point() {
    let outside = paragraph_with_word("外", bounding_box(0.1, 0.1, 0.1, 0.1), false);
    let inside = paragraph_with_word("日本語", bounding_box(0.5, 0.5, 0.6, 0.2), false);

    assert_eq!(scan(vec![outside, inside], 0.5, 0.5), Some("本語".into()));
}

#[test]
fn first_matching_paragraph_wins() {
    let first = paragraph_with_word("第一", bounding_box(0.5, 0.5, 0.6, 0.2), false);
    let second = paragraph_with_word("第二", bounding_box(0.5, 0.5, 0.6, 0.2), false);

    assert_eq!(scan(vec![first, second], 0.2, 0.5), Some("第一".into()));
}

fn paragraph_with_multiple_words() -> Paragraph {
    Paragraph {
        full_text: "日本語です".into(),
        words: vec![
            Word {
                text: "日本".into(),
                separator: String::new(),
                bounds: bounding_box(0.25, 0.5, 0.3, 0.2),
            },
            Word {
                text: "語です".into(),
                separator: String::new(),
                bounds: bounding_box(0.65, 0.5, 0.4, 0.2),
            },
        ],
        bounds: bounding_box(0.475, 0.5, 0.75, 0.2),
        is_vertical: false,
    }
}

#[test]
fn scan_calculates_offset_of_second_word() {
    let paragraph = paragraph_with_multiple_words();

    assert_eq!(scan(vec![paragraph], 0.46, 0.5), Some("語です".into()));
}

#[test]
fn gap_between_words_is_assigned_to_preceding_word() {
    let paragraph = paragraph_with_multiple_words();

    assert_eq!(scan(vec![paragraph], 0.425, 0.5), Some("本語です".into()));
}

#[test]
fn inconsistent_full_text_does_not_produce_invalid_slice() {
    let mut paragraph = paragraph_with_word("日本語", bounding_box(0.5, 0.5, 0.6, 0.2), false);
    paragraph.full_text = "日".into();

    assert_eq!(scan(vec![paragraph], 0.8, 0.5), None);
}

fn normalized_pixels(b: PixelBox, width: usize, height: usize) -> BoundingBox {
    bounding_box(
        (b.x as f64 + b.w as f64 / 2.0) / width as f64,
        (b.y as f64 + b.h as f64 / 2.0) / height as f64,
        b.w as f64 / width as f64,
        b.h as f64 / height as f64,
    )
}

#[test]
fn keeps_paragraphs_in_rust_for_later_hit_scans() {
    let mut processor = OcrProcessor {
        ocr_backend: Some(DummyProvider::new(normalized_pixels)),
        available_providers: vec![dummy::NAME],
        last_ocr_result: None,
    };
    let image = RgbImage {
        data: vec![0; 800 * 600 * 3],
        width: 800,
        height: 600,
    };

    assert_eq!(processor.scan(&image).unwrap(), 2);
    let kept = processor.last_ocr_result.as_ref().unwrap();
    assert_eq!(kept.len(), 2);
    let facts = facts(kept, (0.15, 0.28));
    assert!(processor.hit_scan(&facts).is_some());
}
