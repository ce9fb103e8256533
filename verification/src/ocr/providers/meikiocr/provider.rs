//! The paragraphs that recognised lines make.

use crate::ocr::interface::{BoundingBox, Paragraph, Word};
use crate::ocr::providers::meikiocr::detection::PixelRect;
use crate::ocr::providers::meikiocr::recognition::{OcrResult, RecognizedChar};
use crate::ocr::providers::postprocessing;
use crate::ocr::providers::postprocessing::group_lines_into_paragraphs;
use crate::text;
use crate::text::{chars_of, trim};
use vstd::prelude::*;

verus! {

/// The least score of a detected line, the single 0.5.
pub const DET_CONFIDENCE_THRESHOLD: u32 = 0x3f00_0000;

/// The least score of a recognised character, the single 0.1.
pub const REC_CONFIDENCE_THRESHOLD: u32 = 0x3dcc_cccd;

/// The factor for the confidence of punctuation, the single 0.2.
pub const PUNCT_CONF_FACTOR: u32 = 0x3e4c_cccd;

/// Why an image cannot be scanned.
#[derive(Clone, Copy, Debug, PartialEq, Eq, Structural)]
pub enum DimensionError {
    /// A side is too long.
    OutOfRange,
    /// A side has no pixels.
    Empty,
}

/// The sides of an image as coordinates.
pub fn image_dimensions(width: u32, height: u32) -> (r: Result<(i32, i32), DimensionError>)
    ensures
        match r {
            Ok((w, h)) => 0 < width <= i32::MAX && 0 < height <= i32::MAX && w == width && h
                == height,
            Err(DimensionError::OutOfRange) => width > i32::MAX || height > i32::MAX,
            Err(DimensionError::Empty) => width <= i32::MAX && height <= i32::MAX && (width == 0
                || height == 0),
        },
{
    if width > 0x7fff_ffff || height > 0x7fff_ffff {
        return Err(DimensionError::OutOfRange);
    }
    if width == 0 || height == 0 {
        return Err(DimensionError::Empty);
    }
    Ok((width as i32, height as i32))
}

/// Whether `c` is a kana or a kanji.
pub open spec fn japanese(c: char) -> bool {
    let code = c as int;
    ||| 0x3040 <= code <= 0x309f
    ||| 0x30a0 <= code <= 0x30ff
    ||| 0x4e00 <= code <= 0x9faf
}

/// Whether `character` is a kana or a kanji.
pub fn is_japanese_character(character: char) -> (r: bool)
    ensures
        r == japanese(character),
{
    let code: u32 = character as u32;
    (0x3040 <= code && code <= 0x309f) || (0x30a0 <= code && code <= 0x30ff) || (0x4e00 <= code
        && code <= 0x9faf)
}

/// Whether `s` holds a kana or a kanji.
pub open spec fn has_japanese(s: Seq<char>) -> bool {
    exists|i: int| 0 <= i < s.len() && japanese(#[trigger] s[i])
}

/// Whether `text` holds a kana or a kanji.
pub fn contains_japanese_text(text: &str) -> (r: bool)
    ensures
        r == has_japanese(text@),
{
    let chars: Vec<char> = chars_of(text);
    let mut i: usize = 0;
    while i < chars.len()
        invariant
            i <= chars@.len(),
            chars@ == text@,
            forall|k: int| 0 <= k < i ==> !japanese(#[trigger] text@[k]),
        decreases chars@.len() - i,
    {
        if is_japanese_character(chars[i]) {
            assert(japanese(text@[i as int]));
            return true;
        }
        i += 1;
    }
    false
}

/// Whether what was read in a line is kept: it has characters, and some text besides white
/// space with a Japanese character in it.
pub open spec fn is_kept(result: OcrResult) -> bool {
    let clean = text::trimmed(result.text@);
    clean.len() > 0 && result.chars@.len() > 0 && has_japanese(clean)
}

/// The smallest rectangle around two.
pub open spec fn around(a: PixelRect, b: PixelRect) -> PixelRect {
    PixelRect {
        x1: if a.x1 < b.x1 {
            a.x1
        } else {
            b.x1
        },
        y1: if a.y1 < b.y1 {
            a.y1
        } else {
            b.y1
        },
        x2: if a.x2 > b.x2 {
            a.x2
        } else {
            b.x2
        },
        y2: if a.y2 > b.y2 {
            a.y2
        } else {
            b.y2
        },
    }
}

/// The smallest rectangle around all characters.
pub open spec fn around_all(chars: Seq<RecognizedChar>) -> PixelRect
    decreases chars.len(),
{
    if chars.len() <= 1 {
        chars[0].bbox
    } else {
        around(around_all(chars.drop_last()), chars.last().bbox)
    }
}

/// The smallest rectangle around all characters of a line holds each of them.
pub proof fn law_line_box_holds_its_characters(chars: Seq<RecognizedChar>, i: int)
    requires
        0 <= i < chars.len(),
    ensures
        around_all(chars).x1 <= chars[i].bbox.x1,
        around_all(chars).y1 <= chars[i].bbox.y1,
        around_all(chars).x2 >= chars[i].bbox.x2,
        around_all(chars).y2 >= chars[i].bbox.y2,
    decreases chars.len(),
{
    if chars.len() > 1 && i < chars.len() - 1 {
        law_line_box_holds_its_characters(chars.drop_last(), i);
        assert(chars.drop_last()[i] == chars[i]);
    }
}

/// Whether `line` is what becomes of `result`: each character is a word, `normalize` gives the
/// boxes, and `upright` tells from the box of the line whether it is vertical.
pub open spec fn is_line<N: Fn(PixelRect) -> BoundingBox, U: Fn(BoundingBox) -> bool>(
    normalize: N,
    upright: U,
    result: OcrResult,
    line: Paragraph,
) -> bool {
    &&& line.full_text@ == text::trimmed(result.text@)
    &&& line.words@.len() == result.chars@.len()
    &&& forall|k: int|
        0 <= k < result.chars@.len() ==> {
            &&& (#[trigger] line.words@[k]).text@ == seq![result.chars@[k].character]
            &&& line.words@[k].separator@ == Seq::<char>::empty()
            &&& call_ensures(normalize, (result.chars@[k].bbox,), line.words@[k].bounds)
        }
    &&& call_ensures(normalize, (around_all(result.chars@),), line.bounds)
    &&& call_ensures(upright, (line.bounds,), line.is_vertical)
}

/// The positions of the results that are kept.
pub open spec fn kept_places(results: Seq<OcrResult>) -> Seq<int>
    decreases results.len(),
{
    if results.len() == 0 {
        Seq::empty()
    } else {
        let before = kept_places(results.drop_last());
        if is_kept(results.last()) {
            before.push(results.len() - 1)
        } else {
            before
        }
    }
}

/// Whether `lines` are what becomes of the results that are kept.
pub open spec fn are_lines<N: Fn(PixelRect) -> BoundingBox, U: Fn(BoundingBox) -> bool>(
    normalize: N,
    upright: U,
    results: Seq<OcrResult>,
    lines: Seq<Paragraph>,
) -> bool {
    let places = kept_places(results);
    &&& lines.len() == places.len()
    &&& forall|k: int|
        0 <= k < lines.len() ==> is_line(
            normalize,
            upright,
            results[places[k]],
            #[trigger] lines[k],
        )
}

fn min_of(a: i32, b: i32) -> (r: i32)
    ensures
        r == (if a < b {
            a
        } else {
            b
        }),
{
    if a < b {
        a
    } else {
        b
    }
}

fn max_of(a: i32, b: i32) -> (r: i32)
    ensures
        r == (if a > b {
            a
        } else {
            b
        }),
{
    if a > b {
        a
    } else {
        b
    }
}

/// The smallest rectangle around all characters.
fn line_rect(chars: &Vec<RecognizedChar>) -> (r: PixelRect)
    requires
        chars@.len() > 0,
    ensures
        r == around_all(chars@),
{
    let mut r = chars[0].bbox;
    let mut i: usize = 1;
    assert(chars@.take(1)[0] == chars@[0]);
    while i < chars.len()
        invariant
            1 <= i <= chars@.len(),
            r == around_all(chars@.take(i as int)),
        decreases chars@.len() - i,
    {
        assert(chars@.take(i + 1).drop_last() =~= chars@.take(i as int));
        let b = chars[i].bbox;
        r = PixelRect {
            x1: min_of(r.x1, b.x1),
            y1: min_of(r.y1, b.y1),
            x2: max_of(r.x2, b.x2),
            y2: max_of(r.y2, b.y2),
        };
        i += 1;
    }
    assert(chars@.take(i as int) =~= chars@);
    r
}

/// What becomes of one result.
fn make_line<N: Fn(PixelRect) -> BoundingBox, U: Fn(BoundingBox) -> bool>(
    normalize: &N,
    upright: &U,
    result: &OcrResult,
    full_text: String,
) -> (r: Paragraph)
    requires
        forall|b: PixelRect| #[trigger] call_requires(*normalize, (b,)),
        forall|b: BoundingBox| #[trigger] call_requires(*upright, (b,)),
        full_text@ == text::trimmed(result.text@),
        result.chars@.len() > 0,
    ensures
        is_line(*normalize, *upright, *result, r),
{
    let mut words: Vec<Word> = Vec::new();
    let mut k: usize = 0;
    while k < result.chars.len()
        invariant
            k <= result.chars@.len(),
            forall|b: PixelRect| #[trigger] call_requires(*normalize, (b,)),
            words@.len() == k,
            forall|m: int|
                0 <= m < k ==> {
                    &&& (#[trigger] words@[m]).text@ == seq![result.chars@[m].character]
                    &&& words@[m].separator@ == Seq::<char>::empty()
                    &&& call_ensures(*normalize, (result.chars@[m].bbox,), words@[m].bounds)
                },
        decreases result.chars@.len() - k,
    {
        let c = result.chars[k];
        let mut word_text: String = String::new();
        word_text.push(c.character);
        assert(word_text@ =~= seq![c.character]);
        let separator: String = String::new();
        assert(separator@ =~= Seq::<char>::empty());
        words.push(Word { text: word_text, separator, bounds: normalize(c.bbox) });
        k += 1;
    }
    let bounds = normalize(line_rect(&result.chars));
    let is_vertical = upright(bounds);
    Paragraph { full_text, words, bounds, is_vertical }
}

/// The lines that the results become.
pub fn recognised_lines<N: Fn(PixelRect) -> BoundingBox, U: Fn(BoundingBox) -> bool>(
    normalize: &N,
    upright: &U,
    results: &Vec<OcrResult>,
) -> (lines: Vec<Paragraph>)
    requires
        forall|b: PixelRect| #[trigger] call_requires(*normalize, (b,)),
        forall|b: BoundingBox| #[trigger] call_requires(*upright, (b,)),
    ensures
        are_lines(*normalize, *upright, results@, lines@),
{
    let mut lines: Vec<Paragraph> = Vec::new();
    let mut i: usize = 0;
    assert(results@.take(0) =~= Seq::empty());
    while i < results.len()
        invariant
            i <= results@.len(),
            forall|b: PixelRect| #[trigger] call_requires(*normalize, (b,)),
            forall|b: BoundingBox| #[trigger] call_requires(*upright, (b,)),
            are_lines(*normalize, *upright, results@.take(i as int), lines@),
        decreases results@.len() - i,
    {
        let result = &results[i];
        let ghost done = results@.take(i as int);
        let ghost more = results@.take(i + 1);
        assert(more.drop_last() =~= done);
        let full_text = trim(result.text.as_str());
        let ghost before = lines@;
        if !full_text.as_str().is_empty() && result.chars.len() > 0 && contains_japanese_text(
            full_text.as_str(),
        ) {
            lines.push(make_line(normalize, upright, result, full_text));
        }
        proof {
            let places = kept_places(more);
            lemma_kept_places(done);
            assert forall|k: int| 0 <= k < lines@.len() implies is_line(
                *normalize,
                *upright,
                more[places[k]],
                #[trigger] lines@[k],
            ) by {
                if k < before.len() {
                    assert(lines@[k] == before[k]);
                    assert(places[k] == kept_places(done)[k]);
                    assert(more[places[k]] == done[places[k]]);
                }
            }
        }
        i += 1;
    }
    assert(results@.take(i as int) =~= results@);
    lines
}

proof fn lemma_kept_places(results: Seq<OcrResult>)
    ensures
        forall|k: int|
            0 <= k < kept_places(results).len() ==> 0 <= #[trigger] kept_places(results)[k]
                < results.len(),
    decreases results.len(),
{
    if results.len() > 0 {
        let before = kept_places(results.drop_last());
        let after = kept_places(results);
        lemma_kept_places(results.drop_last());
        assert forall|k: int| 0 <= k < after.len() implies 0 <= #[trigger] after[k]
            < results.len() by {
            if k < before.len() {
                assert(after[k] == before[k]);
            }
        }
    }
}

/// The paragraphs that the results become: their lines, grouped.
pub fn to_paragraphs<
    N: Fn(PixelRect) -> BoundingBox,
    U: Fn(BoundingBox) -> bool,
    L: Fn(u64, u64) -> u64,
    A: Fn(&Paragraph, &Paragraph) -> bool,
    M: Fn(&Vec<BoundingBox>) -> BoundingBox,
>(
    results: &Vec<OcrResult>,
    normalize: &N,
    upright: &U,
    limit_of: &L,
    adjacent: &A,
    merge: &M,
) -> (r: Vec<Paragraph>)
    requires
        forall|b: PixelRect| #[trigger] call_requires(*normalize, (b,)),
        forall|b: BoundingBox| #[trigger] call_requires(*upright, (b,)),
        forall|low: u64, high: u64| #[trigger] call_requires(*limit_of, (low, high)),
        forall|list: Vec<BoundingBox>| #[trigger] call_requires(*merge, (&list,)),
        postprocessing::is_steady(*adjacent),
    ensures
        exists|lines: Seq<Paragraph>|
            are_lines(*normalize, *upright, results@, lines)
                && #[trigger] postprocessing::are_grouped(
                *limit_of,
                *adjacent,
                *merge,
                lines,
                r@,
            ),
{
    let lines = recognised_lines(normalize, upright, results);
    group_lines_into_paragraphs(&lines, limit_of, adjacent, merge)
}

/// Whether a text holds a character with a code from 3040 to 30ff or from 4e00 to 9faf.
pub open spec fn holds_japanese(s: Seq<char>) -> bool {
    exists|i: int|
        0 <= i < s.len() && (0x3040 <= #[trigger] s[i] as int <= 0x30ff || 0x4e00 <= s[i] as int
            <= 0x9faf)
}

/// Japanese text is told by the codes of its characters.
pub proof fn law_japanese_is_told_by_codes(s: Seq<char>)
    ensures
        has_japanese(s) <==> holds_japanese(s),
{
    if has_japanese(s) {
        let i = choose|i: int| 0 <= i < s.len() && japanese(#[trigger] s[i]);
        assert(0x3040 <= s[i] as int <= 0x30ff || 0x4e00 <= s[i] as int <= 0x9faf);
    }
    if holds_japanese(s) {
        let i = choose|i: int|
            0 <= i < s.len() && (0x3040 <= #[trigger] s[i] as int <= 0x30ff || 0x4e00
                <= s[i] as int <= 0x9faf);
        assert(japanese(s[i]));
    }
}

/// What was read is kept if it has characters and its text holds a kana or a kanji anywhere.
pub proof fn law_japanese_results_are_kept(result: OcrResult)
    ensures
        is_kept(result) <==> result.chars@.len() > 0 && holds_japanese(result.text@),
{
    let s = result.text@;
    let clean = text::trimmed(s);
    let (from, to) = text::law_trimming_takes_only_the_ends(s);
    law_japanese_is_told_by_codes(clean);
    if holds_japanese(s) {
        let i = choose|i: int|
            0 <= i < s.len() && (0x3040 <= #[trigger] s[i] as int <= 0x30ff || 0x4e00
                <= s[i] as int <= 0x9faf);
        assert(!text::is_space(s[i]));
        assert(from <= i < to);
        assert(clean[i - from] == s[i]);
    }
    if holds_japanese(clean) {
        let i = choose|i: int|
            0 <= i < clean.len() && (0x3040 <= #[trigger] clean[i] as int <= 0x30ff || 0x4e00
                <= clean[i] as int <= 0x9faf);
        assert(s[from + i] == clean[i]);
    }
}

/// The results that are kept stand in their order, each once.
pub proof fn law_results_stand_in_their_order(results: Seq<OcrResult>)
    ensures
        forall|k: int|
            0 <= k < kept_places(results).len() ==> {
                let place = #[trigger] kept_places(results)[k];
                &&& 0 <= place < results.len()
                &&& results[place].chars@.len() > 0
                &&& holds_japanese(results[place].text@)
            },
        forall|k: int, l: int|
            #![trigger kept_places(results)[k], kept_places(results)[l]]
            0 <= k < l < kept_places(results).len() ==> kept_places(results)[k] < kept_places(
                results,
            )[l],
        forall|i: int|
            0 <= i < results.len() && (#[trigger] results[i]).chars@.len() > 0 && holds_japanese(
                results[i].text@,
            ) ==> kept_places(results).contains(i),
    decreases results.len(),
{
    if results.len() > 0 {
        let fewer = results.drop_last();
        let last = results.len() - 1;
        let before = kept_places(fewer);
        let after = kept_places(results);
        law_results_stand_in_their_order(fewer);
        law_japanese_results_are_kept(results[last]);
        assert forall|k: int| 0 <= k < after.len() implies {
            let place = #[trigger] after[k];
            &&& 0 <= place < results.len()
            &&& results[place].chars@.len() > 0
            &&& holds_japanese(results[place].text@)
        } by {
            if k < before.len() {
                assert(before[k] == after[k]);
                assert(fewer[before[k]] == results[before[k]]);
            }
        }
        assert forall|k: int, l: int|
            #![trigger after[k], after[l]]
            0 <= k < l < after.len() implies after[k] < after[l] by {
            assert(before[k] == after[k]);
            assert(0 <= before[k] < fewer.len());
            if l < before.len() {
                assert(before[l] == after[l]);
            }
        }
        assert forall|i: int|
            0 <= i < results.len() && (#[trigger] results[i]).chars@.len() > 0 && holds_japanese(
                results[i].text@,
            ) implies after.contains(i) by {
            if i < last {
                assert(fewer[i] == results[i]);
                let k = choose|k: int| 0 <= k < before.len() && before[k] == i;
                assert(after[k] == i);
            } else {
                assert(after[before.len() as int] == i);
            }
        }
    }
}

/// Each edge of the rectangle around the characters of a line is one of a character, so there is
/// no smaller one around them. `at` are the characters with the left, the top, the right and the
/// bottom edge.
pub proof fn law_line_boxes_are_tight(chars: Seq<RecognizedChar>) -> (at: (int, int, int, int))
    requires
        chars.len() > 0,
    ensures
        0 <= at.0 < chars.len() && around_all(chars).x1 == chars[at.0].bbox.x1,
        0 <= at.1 < chars.len() && around_all(chars).y1 == chars[at.1].bbox.y1,
        0 <= at.2 < chars.len() && around_all(chars).x2 == chars[at.2].bbox.x2,
        0 <= at.3 < chars.len() && around_all(chars).y2 == chars[at.3].bbox.y2,
    decreases chars.len(),
{
    if chars.len() == 1 {
        (0, 0, 0, 0)
    } else {
        let fewer = chars.drop_last();
        let last = chars.len() - 1;
        let (l, t, r, b) = law_line_boxes_are_tight(fewer);
        assert(fewer[l] == chars[l] && fewer[t] == chars[t] && fewer[r] == chars[r] && fewer[b]
            == chars[b]);
        let rest = around_all(fewer);
        (
            if chars[last].bbox.x1 < rest.x1 {
                last
            } else {
                l
            },
            if chars[last].bbox.y1 < rest.y1 {
                last
            } else {
                t
            },
            if chars[last].bbox.x2 > rest.x2 {
                last
            } else {
                r
            },
            if chars[last].bbox.y2 > rest.y2 {
                last
            } else {
                b
            },
        )
    }
}

/// The lines have the trimmed texts of the results that are kept, and a word for each of their
/// characters.
pub proof fn law_lines_spell_their_characters<
    N: Fn(PixelRect) -> BoundingBox,
    U: Fn(BoundingBox) -> bool,
>(normalize: N, upright: U, result: OcrResult, line: Paragraph, k: int)
    requires
        is_line(normalize, upright, result, line),
        0 <= k < result.chars@.len(),
    ensures
        line.full_text@ == text::trimmed(result.text@),
        line.words@.len() == result.chars@.len(),
        line.words@[k].text@.len() == 1 && line.words@[k].text@[0] == result.chars@[k].character,
        line.words@[k].separator@.len() == 0,
        call_ensures(normalize, (result.chars@[k].bbox,), line.words@[k].bounds),
        call_ensures(upright, (line.bounds,), line.is_vertical),
{
}

/// There is a line for each result that has characters and holds a kana or a kanji, in the order
/// of the results: `places` are those of the results.
pub proof fn law_lines_are_made_of_japanese_results<
    N: Fn(PixelRect) -> BoundingBox,
    U: Fn(BoundingBox) -> bool,
>(normalize: N, upright: U, results: Seq<OcrResult>, lines: Seq<Paragraph>) -> (places: Seq<int>)
    requires
        are_lines(normalize, upright, results, lines),
    ensures
        places.len() == lines.len(),
        forall|k: int|
            0 <= k < places.len() ==> {
                &&& 0 <= #[trigger] places[k] < results.len()
                &&& results[places[k]].chars@.len() > 0
                &&& holds_japanese(results[places[k]].text@)
                &&& is_line(normalize, upright, results[places[k]], lines[k])
            },
        forall|k: int, l: int|
            #![trigger places[k], places[l]]
            0 <= k < l < places.len() ==> places[k] < places[l],
        forall|i: int|
            0 <= i < results.len() && (#[trigger] results[i]).chars@.len() > 0 && holds_japanese(
                results[i].text@,
            ) ==> places.contains(i),
{
    law_results_stand_in_their_order(results);
    let places = kept_places(results);
    assert forall|k: int| 0 <= k < places.len() implies {
        &&& 0 <= #[trigger] places[k] < results.len()
        &&& results[places[k]].chars@.len() > 0
        &&& holds_japanese(results[places[k]].text@)
        &&& is_line(normalize, upright, results[places[k]], lines[k])
    } by {
        assert(is_line(normalize, upright, results[places[k]], lines[k]));
    }
    places
}

} // verus!
