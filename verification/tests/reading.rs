use meikipop::floats::{is_equal_64, is_greater_64, is_less_32, total_key_32, total_key_64};
use meikipop::ocr::interface::{BoundingBox, OcrProvider, Paragraph, Word};
use meikipop::ocr::ocr::{
    available_providers, OcrProcessor, OcrProviderKind, DEFAULT_PROVIDER_ID,
};
use meikipop::ocr::providers::apple_vision::{
    paragraphs_of, rgbx_image, text_is_vertical, utf16_ranges, words_from_ranges,
    AppleVisionOcrProvider, Observation,
};
use meikipop::ocr::providers::dummy;
use meikipop::ocr::providers::dummy::{DummyProvider, PixelBox};
use meikipop::ocr::providers::meikiocr::detection::{
    batch_ranges, detected_boxes, plan_crops, split_by_orientation, CropMetadata, PixelRect,
    ScaledLine, ScaledSegment, TextBox,
};
use meikipop::ocr::providers::meikiocr::provider::{
    image_dimensions, is_japanese_character, to_paragraphs, DimensionError,
};
use meikipop::ocr::providers::meikiocr::punctuation::{is_punctuation, is_punctuation_category};
use meikipop::ocr::providers::meikiocr::recognition::{
    fix_swapped_pairs, postprocess_recognition, read_line, suppress_overlaps, Candidate,
    OcrResult, Overlap, RawChar, RecognitionSettings, RecognizedChar,
};
use meikipop::ocr::providers::postprocessing::{
    classify_lines_by_size, group_lines_into_paragraphs, line_sizes, merge_lines_into_paragraph,
    middle_values,
};
use meikipop::ocr::{keeping, providers};
use meikipop::screenshot::interface::RgbImage;

fn bounding_box(cx: f64, cy: f64, w: f64, h: f64) -> BoundingBox {
    BoundingBox::new(cx.to_bits(), cy.to_bits(), w.to_bits(), h.to_bits())
}

fn floats(b: &BoundingBox) -> (f64, f64, f64, f64) {
    (
        f64::from_bits(b.center_x),
        f64::from_bits(b.center_y),
        f64::from_bits(b.width),
        f64::from_bits(b.height),
    )
}

fn assert_close(actual: f64, expected: f64) {
    assert!(
        (actual - expected).abs() < 1e-10,
        "expected {expected}, got {actual}"
    );
}

fn merge(boxes: &Vec<BoundingBox>) -> BoundingBox {
    if boxes.is_empty() {
        return bounding_box(0.0, 0.0, 0.0, 0.0);
    }
    let (mut left, mut right) = (f64::MAX, f64::MIN);
    let (mut top, mut bottom) = (f64::MAX, f64::MIN);
    for b in boxes {
        let (cx, cy, w, h) = floats(b);
        left = left.min(cx - w / 2.0);
        right = right.max(cx + w / 2.0);
        top = top.min(cy - h / 2.0);
        bottom = bottom.max(cy + h / 2.0);
    }
    let (w, h) = (right - left, bottom - top);
    bounding_box(left + w / 2.0, top + h / 2.0, w, h)
}

fn adjacent(first: &Paragraph, second: &Paragraph) -> bool {
    let (x1, y1, w1, h1) = floats(&first.bounds);
    let (x2, y2, w2, h2) = floats(&second.bounds);
    let overlap = |a: f64, la: f64, b: f64, lb: f64| {
        f64::max(
            0.0,
            f64::min(a + la / 2.0, b + lb / 2.0) - f64::max(a - la / 2.0, b - lb / 2.0),
        )
    };
    if first.is_vertical {
        overlap(y1, h1, y2, h2) > f64::min(h1, h2) * 0.5
            && f64::abs(x1 - x2) < 1.9 * f64::max(w1, w2)
    } else {
        overlap(x1, w1, x2, w2) > f64::min(w1, w2) * 0.5
            && f64::abs(y1 - y2) < 1.9 * f64::max(h1, h2)
    }
}

fn median(values: &[f64]) -> f64 {
    let bits: Vec<u64> = values.iter().map(|value| value.to_bits()).collect();
    let (low, high) = middle_values(&bits);
    (f64::from_bits(low) + f64::from_bits(high)) / 2.0
}

fn limit(low: u64, high: u64) -> u64 {
    ((f64::from_bits(low) + f64::from_bits(high)) / 2.0 * 0.65).to_bits()
}

fn group(lines: Vec<Paragraph>) -> Vec<Paragraph> {
    group_lines_into_paragraphs(&lines, &limit, &adjacent, &merge)
}

fn merge_lines(lines: Vec<Paragraph>) -> Option<Paragraph> {
    let all: Vec<usize> = (0..lines.len()).collect();
    merge_lines_into_paragraph(&merge, &lines, &all)
}

#[test]
fn merging_no_lines_returns_none() {
    assert!(merge_lines(Vec::new()).is_none());
}

fn line(text: &str, bounds: BoundingBox, is_vertical: bool) -> Paragraph {
    Paragraph {
        full_text: text.into(),
        words: vec![Word {
            text: text.into(),
            separator: String::new(),
            bounds,
        }],
        bounds,
        is_vertical,
    }
}

#[test]
fn merging_horizontal_lines_orders_them_top_to_bottom() {
    let bottom = line("下", bounding_box(0.5, 0.6, 0.4, 0.1), false);
    let top = line("上", bounding_box(0.5, 0.2, 0.4, 0.1), false);

    let result = merge_lines(vec![bottom, top]).unwrap();

    assert_eq!(result.full_text, "上下");
    assert_eq!(result.words[0].text, "上");
    assert_eq!(result.words[1].text, "下");
    assert!(!result.is_vertical);

    let (cx, cy, w, h) = floats(&result.bounds);
    assert_close(cx, 0.5);
    assert_close(cy, 0.4);
    assert_close(w, 0.4);
    assert_close(h, 0.5);
}

#[test]
fn merging_vertical_lines_orders_them_right_to_left() {
    let left = line("左", bounding_box(0.3, 0.5, 0.1, 0.4), true);
    let right = line("右", bounding_box(0.7, 0.5, 0.1, 0.4), true);

    let result = merge_lines(vec![left, right]).unwrap();

    assert_eq!(result.full_text, "右左");
    assert_eq!(result.words[0].text, "右");
    assert_eq!(result.words[1].text, "左");
    assert!(result.is_vertical);

    let (cx, cy, w, h) = floats(&result.bounds);
    assert_close(cx, 0.5);
    assert_close(cy, 0.5);
    assert_close(w, 0.5);
    assert_close(h, 0.4);
}

#[test]
fn median_returns_middle_value_for_an_odd_length() {
    assert_close(median(&[3.0, 1.0, 2.0]), 2.0);
}

#[test]
fn median_averages_middle_values_for_an_even_length() {
    assert_close(median(&[4.0, 1.0, 3.0, 2.0]), 2.5);
}

#[test]
fn classifies_thin_vertical_lines_as_furigana() {
    let normal1 = line("本文一", bounding_box(0.7, 0.5, 0.4, 0.8), true);
    let furigana = line("ふり", bounding_box(0.5, 0.5, 0.1, 0.8), true);
    let normal2 = line("本文二", bounding_box(0.3, 0.5, 0.4, 0.8), true);
    let lines = vec![normal1, furigana, normal2];
    let (low, high) = middle_values(&line_sizes(&lines, true));

    let (main, furigana) = classify_lines_by_size(&lines, true, Some(limit(low, high)));

    assert_eq!(main.len(), 2);
    assert_eq!(furigana.len(), 1);
    assert_eq!(lines[furigana[0]].full_text, "ふり");
}

#[test]
fn grouping_connects_transitively_adjacent_lines() {
    let first = line("一", bounding_box(0.5, 0.10, 0.4, 0.1), false);
    let second = line("二", bounding_box(0.5, 0.27, 0.4, 0.1), false);
    let third = line("三", bounding_box(0.5, 0.44, 0.4, 0.1), false);

    assert!(!adjacent(&first, &third));

    let result = group(vec![third, first, second]);

    assert_eq!(result.len(), 1);
    assert_eq!(result[0].full_text, "一二三");
    assert_eq!(result[0].words.len(), 3);
}

#[test]
fn grouping_keeps_distant_lines_separate() {
    let first = line("上", bounding_box(0.5, 0.1, 0.4, 0.1), false);
    let second = line("下", bounding_box(0.5, 0.8, 0.4, 0.1), false);

    assert_eq!(group(vec![first, second]).len(), 2);
}

#[test]
fn grouping_keeps_small_lines_apart_and_loses_none() {
    let lines = vec![
        line("本文一", bounding_box(0.7, 0.5, 0.4, 0.8), true),
        line("ふり", bounding_box(0.5, 0.5, 0.1, 0.8), true),
        line("本文二", bounding_box(0.3, 0.5, 0.4, 0.8), true),
        line("横", bounding_box(0.5, 0.95, 0.4, 0.05), false),
    ];

    let result = group(lines);

    let texts: Vec<&str> = result
        .iter()
        .map(|paragraph| paragraph.full_text.as_str())
        .collect();
    assert_eq!(texts, ["本文一本文二", "横", "ふり"]);
}

fn normalized(bbox: PixelRect, width: f64, height: f64) -> BoundingBox {
    let (w, h) = ((bbox.x2 - bbox.x1) as f64, (bbox.y2 - bbox.y1) as f64);
    bounding_box(
        (bbox.x1 as f64 + w / 2.0) / width,
        (bbox.y1 as f64 + h / 2.0) / height,
        w / width,
        h / height,
    )
}

fn upright(b: BoundingBox) -> bool {
    let (_, _, w, h) = floats(&b);
    w * 1.5 < h
}

fn paragraphs(results: Vec<OcrResult>) -> Vec<Paragraph> {
    to_paragraphs(
        &results,
        &|bbox: PixelRect| normalized(bbox, 100.0, 100.0),
        &upright,
        &limit,
        &adjacent,
        &merge,
    )
}

#[test]
fn converts_meikiocr_results_to_normalized_paragraphs() {
    let results = vec![OcrResult {
        text: " 日本語 ".to_owned(),
        chars: vec![RecognizedChar {
            character: '日',
            bbox: PixelRect {
                x1: 10,
                y1: 20,
                x2: 30,
                y2: 60,
            },
            conf: 0.9_f32.to_bits(),
        }],
        is_vertical: false,
    }];

    let paragraphs = paragraphs(results);

    assert_eq!(paragraphs.len(), 1);
    assert_eq!(paragraphs[0].full_text, "日本語");
    assert_eq!(paragraphs[0].words[0].text, "日");
    let (cx, cy, w, h) = floats(&paragraphs[0].bounds);
    assert!((cx - 0.2).abs() < f64::EPSILON);
    assert!((cy - 0.4).abs() < f64::EPSILON);
    assert!((w - 0.2).abs() < f64::EPSILON);
    assert!((h - 0.4).abs() < f64::EPSILON);
    assert!(paragraphs[0].is_vertical);
}

#[test]
fn filters_non_japanese_results() {
    let results = vec![OcrResult {
        text: "hello".to_owned(),
        chars: vec![RecognizedChar {
            character: 'h',
            bbox: PixelRect {
                x1: 0,
                y1: 0,
                x2: 10,
                y2: 10,
            },
            conf: 0.9_f32.to_bits(),
        }],
        is_vertical: false,
    }];

    assert!(paragraphs(results).is_empty());
}

#[test]
fn japanese_characters_are_kana_and_kanji() {
    assert!(is_japanese_character('あ'));
    assert!(is_japanese_character('ア'));
    assert!(is_japanese_character('日'));
    assert!(!is_japanese_character('a'));
    assert!(!is_japanese_character('、'));
}

#[test]
fn images_need_sides_that_can_be_counted() {
    assert_eq!(image_dimensions(3, 4), Ok((3, 4)));
    assert_eq!(image_dimensions(0, 4), Err(DimensionError::Empty));
    assert_eq!(
        image_dimensions(u32::MAX, 4),
        Err(DimensionError::OutOfRange)
    );
}

#[test]
fn fixes_swapped_pairs_in_text_and_characters() {
    let mut text = "これは儡傀です".to_owned();
    let mut chars: Vec<_> = text
        .chars()
        .map(|character| RecognizedChar {
            character,
            ..RecognizedChar::default()
        })
        .collect();

    fix_swapped_pairs(&mut text, &mut chars);

    assert_eq!(text, "これは傀儡です");
    assert_eq!(
        chars.iter().map(|item| item.character).collect::<String>(),
        text
    );
}

#[test]
fn punctuation_is_told_by_its_category() {
    for character in "、。「」!?-_«»".chars() {
        assert!(is_punctuation(character), "{character}");
    }
    for character in "あ日a1 +$".chars() {
        assert!(!is_punctuation(character), "{character}");
    }
    assert!(is_punctuation_category("Pd"));
    assert!(!is_punctuation_category("Lo"));
}

fn rect(x1: i32, y1: i32, x2: i32, y2: i32) -> PixelRect {
    PixelRect { x1, y1, x2, y2 }
}

#[test]
fn detected_lines_come_from_the_top_down() {
    let boxes = vec![
        rect(0, 50, 100, 60),
        rect(0, 10, 100, 20),
        rect(0, 30, 100, 40),
    ];
    let scores = vec![0.9_f32.to_bits(), 0.8_f32.to_bits(), 0.2_f32.to_bits()];

    let found = detected_boxes(&boxes, &scores, 0.5_f32.to_bits());

    assert_eq!(
        found,
        [
            TextBox {
                bbox: rect(0, 10, 100, 20)
            },
            TextBox {
                bbox: rect(0, 50, 100, 60)
            },
        ]
    );
}

#[test]
fn lines_have_one_direction() {
    let boxes = vec![
        TextBox {
            bbox: rect(0, 0, 100, 20),
        },
        TextBox {
            bbox: rect(0, 0, 20, 100),
        },
    ];

    assert_eq!(split_by_orientation(&boxes), (vec![0], vec![1]));
}

#[test]
fn batches_cover_all_lines() {
    assert_eq!(batch_ranges(5, 2), [(0, 2), (2, 4), (4, 5)]);
    assert!(batch_ranges(0, 2).is_empty());
}

#[test]
fn long_vertical_lines_are_split() {
    let boxes = vec![
        TextBox {
            bbox: rect(0, 0, 100, 20),
        },
        TextBox {
            bbox: rect(0, 0, 20, 1_000),
        },
        TextBox {
            bbox: rect(5, 5, 5, 5),
        },
    ];
    let lines = vec![
        ScaledLine::Horizontal {
            full_height_w: 160,
            full_width_h: 19,
        },
        ScaledLine::Vertical {
            split: true,
            segments: vec![
                ScaledSegment {
                    top: 0,
                    bottom: 525,
                    scaled_h: 840,
                },
                ScaledSegment {
                    top: 475,
                    bottom: 1_000,
                    scaled_h: 300,
                },
                ScaledSegment {
                    top: 1_000,
                    bottom: 1_000,
                    scaled_h: 0,
                },
            ],
        },
        ScaledLine::Horizontal {
            full_height_w: 0,
            full_width_h: 0,
        },
    ];

    let (owners, crops) = plan_crops(&boxes, &vec![0, 1, 2], &lines);

    assert_eq!(owners, [0, 1, 1]);
    assert_eq!(
        crops[1],
        CropMetadata {
            orig_bbox: rect(0, 0, 20, 525),
            effective_w: 32,
            effective_h: 420,
            segment_idx: 0,
        }
    );
    assert_eq!(crops[2].effective_h, 300);
    assert_eq!(crops[2].segment_idx, 1);
    assert_eq!(crops[0].orig_bbox, rect(0, 0, 100, 20));
}

fn clashes(overlap: Overlap) -> bool {
    let shorter = overlap.candidate_len.min(overlap.accepted_len);
    shorter > 0 && overlap.common as f64 / shorter as f64 > 0.3
}

fn candidate(character: char, conf: f32, start: i32, end: i32) -> Candidate {
    Candidate {
        character,
        bbox: rect(start, 0, end, 10),
        conf: conf.to_bits(),
        start,
        end,
    }
}

#[test]
fn candidates_that_overlap_too_far_are_dropped() {
    let candidates = vec![
        candidate('日', 0.9, 0, 10),
        candidate('目', 0.8, 1, 11),
        candidate('本', 0.7, 10, 20),
    ];

    let kept: String = suppress_overlaps(&clashes, &candidates)
        .iter()
        .map(|candidate| candidate.character)
        .collect();
    assert_eq!(kept, "日本");
}

#[test]
fn lines_are_read_in_order() {
    let candidates = vec![
        candidate('本', 0.95, 10, 20),
        candidate('目', 0.5, 1, 11),
        candidate('日', 0.9, 0, 10),
    ];

    let result = read_line(&clashes, &candidates, false);

    assert_eq!(result.text, "日本");
    assert_eq!(result.chars.len(), 2);
    assert!(!result.is_vertical);
}

#[test]
fn answers_become_the_text_of_their_line() {
    let settings = RecognitionSettings {
        threshold: 0.5_f32.to_bits(),
        punct_conf_factor: 0.2_f32.to_bits(),
        is_vertical: false,
    };
    let raw = |character: char, score: f32, x1: i32, x2: i32| RawChar {
        label: character as i32,
        score: score.to_bits(),
        weighted_score: (score * 0.2).to_bits(),
        is_beyond: false,
        offset: rect(x1, 0, x2, 10),
    };
    let rows = vec![vec![
        raw('、', 0.9, 0, 10),
        raw('猫', 0.8, 0, 10),
        raw('犬', 0.4, 20, 30),
        RawChar {
            is_beyond: true,
            ..raw('鳥', 0.9, 30, 40)
        },
        RawChar {
            label: 0xd800,
            ..raw('鳥', 0.9, 40, 50)
        },
        raw('鳥', 0.05, i32::MAX, i32::MAX),
    ]];
    let crops = vec![CropMetadata {
        orig_bbox: rect(100, 200, 300, 220),
        effective_w: 160,
        effective_h: 32,
        segment_idx: 0,
    }];
    let mut results = vec![OcrResult::default(), OcrResult::default()];

    postprocess_recognition(&clashes, &rows, &vec![1, 9], &crops, settings, &mut results);

    assert_eq!(results[0].text, "");
    assert_eq!(results[1].text, "猫");
    assert_eq!(results[1].chars[0].bbox, rect(100, 200, 110, 210));
}

fn normalized_pixels(b: PixelBox, width: usize, height: usize) -> BoundingBox {
    bounding_box(
        (b.x as f64 + b.w as f64 / 2.0) / width as f64,
        (b.y as f64 + b.h as f64 / 2.0) / height as f64,
        b.w as f64 / width as f64,
        b.h as f64 / height as f64,
    )
}

type Dummy = DummyProvider<fn(PixelBox, usize, usize) -> BoundingBox>;

fn dummy_provider() -> Dummy {
    DummyProvider::new(normalized_pixels)
}

fn image(width: usize, height: usize) -> RgbImage {
    RgbImage {
        data: vec![0; width * height * 3],
        width,
        height,
    }
}

#[test]
fn returns_the_upstream_mock_paragraphs() {
    let paragraphs = dummy_provider().scan(800, 600).unwrap();

    assert_eq!(paragraphs.len(), 2);
    assert_eq!(paragraphs[0].full_text, "これは横書きテキストです");
    assert_eq!(paragraphs[0].words.len(), 3);
    assert!(!paragraphs[0].is_vertical);
    assert_eq!(paragraphs[1].full_text, "縦書き");
    assert_eq!(paragraphs[1].words.len(), 3);
    assert!(paragraphs[1].is_vertical);
}

#[test]
fn rejects_zero_sized_images() {
    assert!(dummy_provider().scan(0, 600).is_err());
    assert!(dummy_provider().scan(800, 0).is_err());
}

#[test]
fn dummy_boxes_are_cut_to_small_images() {
    let unit = 0.0..=1.0;
    for (width, height) in [(100, 100), (1, 1), (500, 160), (800, 600)] {
        for paragraph in dummy_provider().scan(width, height).unwrap() {
            let words = paragraph.words.iter().map(|word| word.bounds);
            for bounds in words.chain([paragraph.bounds]) {
                assert!(unit.contains(&f64::from_bits(bounds.center_x)));
                assert!(unit.contains(&f64::from_bits(bounds.center_y)));
                assert!(unit.contains(&f64::from_bits(bounds.width)));
                assert!(unit.contains(&f64::from_bits(bounds.height)));
            }
        }
    }
    let line = &dummy_provider().scan(200, 300).unwrap()[0];
    assert_eq!(line.bounds, bounding_box(0.75, 170.0 / 300.0, 0.5, 40.0 / 300.0));
}

fn scan_with<P: OcrProvider>(provider: &mut P, image: &RgbImage) -> Vec<Paragraph> {
    provider.scan(image).unwrap()
}

#[test]
fn can_be_used_as_an_ocr_provider_trait_object() {
    let mut provider = dummy_provider();
    let image = image(800, 600);

    assert_eq!(provider.name(), dummy::NAME);
    assert_eq!(scan_with(&mut provider, &image).len(), 2);
}

#[test]
fn ocr_discovers_the_native_meikiocr_provider() {
    for on_macos in [false, true] {
        assert!(
            available_providers(on_macos)
                .iter()
                .any(|provider| provider.id == DEFAULT_PROVIDER_ID),
            "the local OCR provider should be available on every platform"
        );
    }
    assert_eq!(
        keeping::discover_providers(),
        [keeping::DEFAULT_PROVIDER_NAME]
    );
}

#[test]
fn provider_ids_are_unique_and_separate_from_display_names() {
    for on_macos in [false, true] {
        let providers = available_providers(on_macos);
        let ids: std::collections::HashSet<_> =
            providers.iter().map(|provider| provider.id).collect();

        assert_eq!(ids.len(), providers.len());
        assert!(providers
            .iter()
            .all(|provider| provider.id != provider.name));
    }
}

#[test]
fn an_unknown_provider_does_not_replace_the_active_backend() {
    let mut processor = OcrProcessor {
        ocr_backend: dummy_provider(),
        active: OcrProviderKind::MeikiOcr,
    };

    assert_eq!(
        processor
            .switch_provider(true, "not_registered", |_| Ok(dummy_provider()))
            .unwrap_err(),
        "Unknown OCR provider: 'not_registered'"
    );
    assert_eq!(processor.active_provider_id(), DEFAULT_PROVIDER_ID);
    assert_eq!(processor.ocr_backend.name(), dummy::NAME);
}

#[test]
fn returns_provider_paragraphs_directly() {
    let mut processor = OcrProcessor {
        ocr_backend: dummy_provider(),
        active: OcrProviderKind::MeikiOcr,
    };

    assert_eq!(processor.scan(&image(800, 600)).unwrap().len(), 2);
}

#[test]
fn engines_are_switched_only_where_they_start() {
    let mut processor = OcrProcessor {
        ocr_backend: dummy_provider(),
        active: OcrProviderKind::MeikiOcr,
    };

    assert_eq!(
        processor.switch_provider(true, "meikiocr", |_| Err("not asked".into())),
        Ok(false)
    );
    assert_eq!(
        processor.switch_provider(true, "apple_vision", |_| Err("does not start".into())),
        Err("does not start".into())
    );
    assert_eq!(processor.active, OcrProviderKind::MeikiOcr);
    assert!(processor
        .switch_provider(false, "apple_vision", |_| Ok(dummy_provider()))
        .is_err());
    assert_eq!(
        processor.switch_provider(true, "apple_vision", |_| Ok(dummy_provider())),
        Ok(true)
    );
    assert_eq!(processor.active_provider_id(), "apple_vision");
}

#[test]
fn the_default_engine_stands_in_for_one_that_does_not_start() {
    let create = |kind: OcrProviderKind| match kind {
        OcrProviderKind::MeikiOcr => Ok(dummy_provider()),
        OcrProviderKind::AppleVision => Err("does not start".to_owned()),
    };

    for id in [None, Some("meikiocr"), Some("apple_vision"), Some("other")] {
        let processor = OcrProcessor::new_with_provider(true, id, &create).unwrap();
        assert_eq!(processor.active, OcrProviderKind::MeikiOcr);
    }
    let failing = |_: OcrProviderKind| Err::<Dummy, String>("nothing starts".to_owned());
    assert_eq!(
        OcrProcessor::new_with_provider(true, Some("apple_vision"), &failing)
            .err()
            .unwrap(),
        "nothing starts"
    );
    let willing = |_: OcrProviderKind| Ok(dummy_provider());
    let processor =
        OcrProcessor::new_with_provider(true, Some("apple_vision"), &willing).unwrap();
    assert_eq!(processor.active, OcrProviderKind::AppleVision);
}

#[test]
fn workers_need_an_image_that_fits() {
    let mut processor = keeping::OcrProcessor {
        ocr_backend: Some(dummy_provider()),
        available_providers: keeping::discover_providers(),
        last_ocr_result: None,
    };

    assert_eq!(
        processor.work(&None).unwrap_err(),
        "OCR queue returned no image"
    );
    let short = RgbImage {
        data: vec![0; 5],
        width: 2,
        height: 1,
    };
    assert_eq!(
        processor.work(&Some(short)).unwrap_err(),
        "RGB image buffer has 5 bytes, expected 6"
    );
    let empty = RgbImage {
        data: Vec::new(),
        width: 0,
        height: 1,
    };
    assert_eq!(
        processor.scan_rgb(&empty).unwrap_err(),
        "image dimensions must be greater than zero"
    );
    let large = RgbImage {
        data: Vec::new(),
        width: usize::MAX,
        height: 3,
    };
    assert_eq!(
        processor.scan_rgb(&large).unwrap_err(),
        "image dimensions are too large"
    );
    assert_eq!(processor.work(&Some(image(2, 1))), Ok(2));

    let after = keeping::after_work(&Ok(2), false);
    assert!(after.trigger_hit_scan && after.error.is_none() && !after.schedule_screenshot);
    let after = keeping::after_work(&Err("broken".into()), true);
    assert!(!after.trigger_hit_scan && after.schedule_screenshot);
    assert_eq!(
        after.error.as_deref(),
        Some("An unexpected error occurred in the ocr loop. Continuing: broken")
    );
}

#[test]
fn a_kept_result_goes_with_its_engine() {
    let create = || Ok::<Dummy, String>(dummy_provider());
    let mut processor =
        keeping::OcrProcessor::with_providers(keeping::discover_providers(), &create).unwrap();
    processor.scan(&image(800, 600)).unwrap();
    assert_eq!(processor.provider_name(), Some(dummy::NAME));

    assert_eq!(
        processor.switch_provider("other", &create).unwrap_err(),
        "Attempted to switch to an unknown provider: 'other'"
    );
    assert!(processor.last_ocr_result.is_some());
    assert_eq!(processor.switch_provider(dummy::NAME, &create), Ok(()));
    assert!(processor.last_ocr_result.is_some());
    let failing = || Err::<Dummy, String>("does not start".to_owned());
    assert!(processor
        .switch_provider(keeping::DEFAULT_PROVIDER_NAME, &failing)
        .is_err());
    assert!(processor.ocr_backend.is_some());
    assert_eq!(
        processor.switch_provider(keeping::DEFAULT_PROVIDER_NAME, &create),
        Ok(())
    );
    assert!(processor.last_ocr_result.is_none());

    let none: Vec<&'static str> = Vec::new();
    assert_eq!(
        keeping::OcrProcessor::with_providers(none, &create)
            .err()
            .unwrap(),
        "No OCR providers found! The application cannot continue."
    );
    let mut bare: keeping::OcrProcessor<Dummy> = keeping::OcrProcessor {
        ocr_backend: None,
        available_providers: Vec::new(),
        last_ocr_result: None,
    };
    assert_eq!(
        bare.scan(&image(1, 1)).unwrap_err(),
        "OCR provider was not initialized"
    );
    assert_eq!(bare.hit_scan(&Vec::new()), None);
}

fn boxes_are_equal(left: BoundingBox, right: BoundingBox) -> bool {
    let (lx, ly, lw, lh) = floats(&left);
    let (rx, ry, rw, rh) = floats(&right);
    (lx - rx).abs() <= 1e-7
        && (ly - ry).abs() <= 1e-7
        && (lw - rw).abs() <= 1e-7
        && (lh - rh).abs() <= 1e-7
}

fn goes_down(first: BoundingBox, last: BoundingBox) -> bool {
    let (fx, fy, _, _) = floats(&first);
    let (lx, ly, _, _) = floats(&last);
    (ly - fy).abs() > (lx - fx).abs()
}

#[test]
fn uses_utf16_ranges_and_groups_word_precision_boxes() {
    let fallback = bounding_box(0.5, 0.5, 1.0, 0.2);
    let first = bounding_box(0.2, 0.5, 0.3, 0.2);
    let second = bounding_box(0.7, 0.5, 0.3, 0.2);
    let ranges = utf16_ranges("日😀 本");
    assert_eq!(ranges, [(0, 1), (1, 2), (3, 1), (4, 1)]);

    let boxes: Vec<Option<BoundingBox>> = ranges
        .iter()
        .map(|range| match range.0 {
            0 | 1 => Some(first),
            3 => None,
            4 => Some(second),
            _ => unreachable!(),
        })
        .collect();
    let words = words_from_ranges("日😀 本", fallback, &boxes, &boxes_are_equal);

    assert_eq!(words.len(), 2);
    assert_eq!(words[0].text, "日😀");
    assert_eq!(words[0].separator, " ");
    assert_eq!(words[1].text, "本");
}

#[test]
fn text_without_boxes_is_one_word() {
    let fallback = bounding_box(0.5, 0.5, 1.0, 0.2);
    let words = words_from_ranges("日本", fallback, &vec![None, None], &boxes_are_equal);

    assert_eq!(words.len(), 1);
    assert_eq!(words[0].text, "日本");
    assert_eq!(words[0].bounds, fallback);
    assert!(words_from_ranges("", fallback, &Vec::new(), &boxes_are_equal).is_empty());
}

#[test]
fn detects_vertical_text_from_word_progression() {
    let paragraph = bounding_box(0.5, 0.5, 0.1, 0.8);
    let words = vec![
        Word {
            text: "日".to_owned(),
            separator: String::new(),
            bounds: bounding_box(0.5, 0.2, 0.1, 0.1),
        },
        Word {
            text: "本".to_owned(),
            separator: String::new(),
            bounds: bounding_box(0.5, 0.8, 0.1, 0.1),
        },
    ];

    assert!(text_is_vertical(
        paragraph,
        &words,
        &boxes_are_equal,
        &goes_down
    ));
    assert!(text_is_vertical(
        paragraph,
        &Vec::new(),
        &boxes_are_equal,
        &goes_down
    ));
}

#[test]
fn observations_with_japanese_text_become_paragraphs() {
    let bounds = bounding_box(0.5, 0.5, 0.8, 0.1);
    let observation = |text: Option<&str>| Observation {
        text: text.map(str::to_owned),
        bounds,
        boxes: vec![Some(bounds); text.map_or(0, |text| text.chars().count())],
    };
    let observations = vec![
        observation(Some("日本")),
        observation(Some("hello")),
        observation(None),
    ];

    let paragraphs = paragraphs_of(&observations, &boxes_are_equal, &goes_down);

    assert_eq!(paragraphs.len(), 1);
    assert_eq!(paragraphs[0].full_text, "日本");
    assert_eq!(paragraphs[0].words.len(), 1);
    assert!(!paragraphs[0].is_vertical);
}

#[test]
fn creates_a_cg_image_from_rgb_pixels() {
    let (pixels, bytes_per_row) = rgbx_image(&[10, 20, 30].repeat(6), 2, 3).unwrap();

    assert_eq!(bytes_per_row, 8);
    assert_eq!(pixels.len(), 24);
    assert_eq!(&pixels[..4], &[10, 20, 30, 0]);
}

#[test]
fn images_for_vision_have_to_fit() {
    assert_eq!(
        rgbx_image(&[], 0, 1).unwrap_err(),
        "cannot recognize an empty image"
    );
    assert_eq!(
        rgbx_image(&[], usize::MAX, 1).unwrap_err(),
        "Apple Vision image row is too large"
    );
    assert_eq!(
        rgbx_image(&[], usize::MAX / 3, 2).unwrap_err(),
        "Apple Vision image is too large"
    );
    assert_eq!(
        rgbx_image(&[0; 2], 1, 1).unwrap_err(),
        "Apple Vision received invalid RGB image storage"
    );
    let provider = AppleVisionOcrProvider::new().unwrap();
    assert_eq!(provider.name(), "apple_vision (macOS)");
}

#[test]
fn numbers_are_compared_by_their_bits() {
    let values = [
        f64::NEG_INFINITY,
        -2.5,
        -0.0,
        0.0,
        1e-300,
        0.1,
        60.0,
        f64::INFINITY,
        f64::NAN,
    ];
    for a in values {
        for b in values {
            assert_eq!(is_greater_64(a.to_bits(), b.to_bits()), a > b);
            assert_eq!(is_equal_64(a.to_bits(), b.to_bits()), a == b);
            assert_eq!(
                total_key_64(a.to_bits()) < total_key_64(b.to_bits()),
                a.total_cmp(&b).is_lt()
            );
            let (x, y) = (a as f32, b as f32);
            assert_eq!(is_less_32(x.to_bits(), y.to_bits()), x < y);
            assert_eq!(
                total_key_32(x.to_bits()) < total_key_32(y.to_bits()),
                x.total_cmp(&y).is_lt()
            );
        }
    }
}

#[test]
fn lines_of_the_providers_share_their_rules() {
    assert!(providers::meikiocr::provider::contains_japanese_text("abcあ"));
    assert!(!providers::meikiocr::provider::contains_japanese_text("abc"));
}
