//! Text recognised by Apple Vision.

use crate::floats;
use crate::floats::is_greater_64;
use crate::ocr::interface::{BoundingBox, Paragraph, ParagraphView, Word};
use crate::ocr::providers::meikiocr::provider;
use crate::ocr::providers::meikiocr::provider::contains_japanese_text;
use crate::pixels;
use crate::pixels::rgb_to_rgbx;
use crate::text;
use crate::text::{chars_of, is_whitespace};
use vstd::prelude::*;

verus! {

/// The provider that uses Apple Vision.
#[derive(Clone, Copy, Debug, PartialEq, Eq, Structural)]
pub struct AppleVisionOcrProvider;

impl AppleVisionOcrProvider {
    /// The provider needs nothing to start.
    pub fn new() -> (r: Result<Self, String>)
        ensures
            r == Ok::<Self, String>(AppleVisionOcrProvider),
    {
        Ok(AppleVisionOcrProvider)
    }

    /// The name of the provider.
    pub fn name(&self) -> (r: &'static str)
        ensures
            r@ == "apple_vision (macOS)"@,
    {
        "apple_vision (macOS)"
    }
}

/// What is wrong with an image of three-byte pixels, if anything.
pub open spec fn image_error(len: int, width: usize, height: usize) -> Option<Seq<char>> {
    if width == 0 || height == 0 {
        Some("cannot recognize an empty image"@)
    } else if width * 3 > usize::MAX {
        Some("Apple Vision image row is too large"@)
    } else if width * 3 * height > usize::MAX {
        Some("Apple Vision image is too large"@)
    } else if len != width * 3 * height {
        Some("Apple Vision received invalid RGB image storage"@)
    } else if width * height * 4 > usize::MAX {
        Some("Apple Vision image is too large"@)
    } else {
        None
    }
}

/// The pixels of an image with a fourth byte each, and the number of bytes in a row.
pub fn rgbx_image(data: &[u8], width: usize, height: usize) -> (r: Result<(Vec<u8>, usize), String>)
    ensures
        match (r, image_error(data@.len() as int, width, height)) {
            (Ok((rgbx, row)), None) => rgbx@ == pixels::rgbx_of(data@) && row == width * 4,
            (Err(message), Some(wanted)) => message@ == wanted,
            _ => false,
        },
{
    if width == 0 || height == 0 {
        return Err("cannot recognize an empty image".to_owned());
    }
    let row: usize = match width.checked_mul(3) {
        Some(row) => row,
        None => return Err("Apple Vision image row is too large".to_owned()),
    };
    let expected: usize = match row.checked_mul(height) {
        Some(expected) => expected,
        None => return Err("Apple Vision image is too large".to_owned()),
    };
    if data.len() != expected {
        return Err("Apple Vision received invalid RGB image storage".to_owned());
    }
    assert(width * height >= width) by (nonlinear_arith)
        requires
            height >= 1,
            width >= 1,
    ;
    let pixels: usize = match width.checked_mul(height) {
        Some(pixels) => pixels,
        None => return Err("Apple Vision image is too large".to_owned()),
    };
    if pixels.checked_mul(4).is_none() {
        return Err("Apple Vision image is too large".to_owned());
    }
    Ok((rgb_to_rgbx(data), width * 4))
}

/// The number of UTF-16 units of a character.
pub open spec fn utf16_len(c: char) -> int {
    if c as u32 >= 0x1_0000 {
        2
    } else {
        1
    }
}

/// The number of UTF-16 units of a text.
pub open spec fn utf16_size(text: Seq<char>) -> int
    decreases text.len(),
{
    if text.len() == 0 {
        0
    } else {
        utf16_size(text.drop_last()) + utf16_len(text.last())
    }
}

/// Where character `i` of a text lies in UTF-16 units: the first unit and the number of units.
pub open spec fn utf16_range(text: Seq<char>, i: int) -> (int, int) {
    (utf16_size(text.take(i)), utf16_len(text[i]))
}

proof fn lemma_utf16_size(text: Seq<char>)
    ensures
        text.len() <= utf16_size(text) <= 2 * text.len(),
    decreases text.len(),
{
    if text.len() > 0 {
        lemma_utf16_size(text.drop_last());
    }
}

/// Where each character of a text lies in UTF-16 units.
pub fn utf16_ranges(text: &str) -> (r: Vec<(usize, usize)>)
    requires
        2 * text@.len() <= usize::MAX,
    ensures
        r@.len() == text@.len(),
        forall|i: int|
            0 <= i < text@.len() ==> (#[trigger] r@[i]).0 == utf16_range(text@, i).0 && r@[i].1
                == utf16_range(text@, i).1,
{
    let chars = chars_of(text);
    let mut ranges: Vec<(usize, usize)> = Vec::new();
    let mut offset: usize = 0;
    let mut i: usize = 0;
    while i < chars.len()
        invariant
            chars@ == text@,
            2 * text@.len() <= usize::MAX,
            i <= chars@.len(),
            ranges@.len() == i,
            offset == utf16_size(text@.take(i as int)),
            forall|j: int|
                0 <= j < i ==> (#[trigger] ranges@[j]).0 == utf16_range(text@, j).0 && ranges@[j].1
                    == utf16_range(text@, j).1,
        decreases chars@.len() - i,
    {
        let units: usize = if chars[i] as u32 >= 0x1_0000 {
            2
        } else {
            1
        };
        ranges.push((offset, units));
        proof {
            lemma_utf16_size(text@.take(i + 1));
            assert(text@.take(i + 1).drop_last() =~= text@.take(i as int));
        }
        offset += units;
        i += 1;
    }
    ranges
}

/// Each character lies directly behind the one before it.
pub proof fn law_ranges_are_adjacent(text: Seq<char>, i: int)
    requires
        0 <= i,
        i + 1 < text.len(),
    ensures
        utf16_range(text, i + 1).0 == utf16_range(text, i).0 + utf16_range(text, i).1,
        utf16_range(text, 0).0 == 0,
{
    assert(text.take(i + 1).drop_last() =~= text.take(i));
}

/// Whether a judge always gives the same answer for the same boxes.
pub open spec fn is_steady<S: Fn(BoundingBox, BoundingBox) -> bool>(same: S) -> bool {
    &&& forall|a: BoundingBox, b: BoundingBox| #[trigger] call_requires(same, (a, b))
    &&& forall|a: BoundingBox, b: BoundingBox, x: bool, y: bool| #[trigger]
        call_ensures(same, (a, b), x) && #[trigger] call_ensures(same, (a, b), y) ==> x == y
}

/// Pairs of boxes.
pub type Pairs = spec_fn(BoundingBox, BoundingBox) -> bool;

/// The boxes of which a judge answered yes.
pub open spec fn accepted<S: Fn(BoundingBox, BoundingBox) -> bool>(judge: S) -> Pairs {
    |a: BoundingBox, b: BoundingBox| call_ensures(judge, (a, b), true)
}

/// The words made so far, and the characters before the first word.
#[verifier::ext_equal]
pub struct WordsSoFar {
    pub words: Seq<WordView>,
    pub leading: Seq<char>,
}

/// The contents of a `Word`.
#[verifier::ext_equal]
pub struct WordView {
    pub text: Seq<char>,
    pub separator: Seq<char>,
    pub bounds: BoundingBox,
}

/// The contents of words.
pub open spec fn word_views(words: Seq<Word>) -> Seq<WordView> {
    words.map_values(
        |word: Word|
            WordView { text: word.text@, separator: word.separator@, bounds: word.bounds },
    )
}

/// The words after one more character and its box: white space goes to the separator of the
/// last word; a character without a box, or with the box of the last word, to its text; any
/// other character begins a word.
pub open spec fn with_character(
    same: Pairs,
    sofar: WordsSoFar,
    c: char,
    bounds: Option<BoundingBox>,
) -> WordsSoFar {
    let words = sofar.words;
    if words.len() == 0 {
        match bounds {
            Some(bounds) => WordsSoFar {
                words: seq![
                    WordView { text: sofar.leading.push(c), separator: Seq::empty(), bounds },
                ],
                leading: Seq::empty(),
            },
            None => WordsSoFar { words, leading: sofar.leading.push(c) },
        }
    } else {
        let last = words.last();
        if text::is_space(c) {
            let word = WordView { separator: last.separator.push(c), ..last };
            WordsSoFar { words: words.drop_last().push(word), ..sofar }
        } else if bounds is None || same(last.bounds, bounds->0) {
            let word = WordView { text: last.text.push(c), ..last };
            WordsSoFar { words: words.drop_last().push(word), ..sofar }
        } else {
            let word = WordView {
                text: sofar.leading.push(c),
                separator: Seq::empty(),
                bounds: bounds->0,
            };
            WordsSoFar { words: words.push(word), leading: Seq::empty() }
        }
    }
}

/// Whether a judge answered in the way that `with_character` goes by, where it was asked: a
/// character with a box, and no white space, is compared with the last word.
pub open spec fn is_answered<S: Fn(BoundingBox, BoundingBox) -> bool>(
    same: S,
    sofar: WordsSoFar,
    c: char,
    bounds: Option<BoundingBox>,
) -> bool {
    sofar.words.len() > 0 && !text::is_space(c) && bounds is Some ==> {
        let boxes = (sofar.words.last().bounds, bounds->0);
        call_ensures(same, boxes, true) || call_ensures(same, boxes, false)
    }
}

/// Whether a judge answered in the way that `words_after` goes by for each character of a text.
pub open spec fn all_answered<S: Fn(BoundingBox, BoundingBox) -> bool>(
    same: S,
    text: Seq<char>,
    boxes: Seq<Option<BoundingBox>>,
) -> bool {
    forall|i: int|
        #![trigger text[i]]
        0 <= i < text.len() ==> is_answered(
            same,
            words_after(accepted(same), text, boxes, i as nat),
            text[i],
            boxes[i],
        )
}

/// The words after the first `n` characters.
pub open spec fn words_after(
    same: Pairs,
    text: Seq<char>,
    boxes: Seq<Option<BoundingBox>>,
    n: nat,
) -> WordsSoFar
    decreases n,
{
    if n == 0 {
        WordsSoFar { words: Seq::empty(), leading: Seq::empty() }
    } else {
        with_character(
            same,
            words_after(same, text, boxes, (n - 1) as nat),
            text[n - 1],
            boxes[n - 1],
        )
    }
}

/// The words of a text whose characters have these boxes. Where no character has one, the text
/// is one word with the box `fallback`.
pub open spec fn words_of(
    same: Pairs,
    text: Seq<char>,
    fallback: BoundingBox,
    boxes: Seq<Option<BoundingBox>>,
) -> Seq<WordView> {
    let all = words_after(same, text, boxes, text.len());
    if all.words.len() == 0 && all.leading.len() > 0 {
        seq![WordView { text: all.leading, separator: Seq::empty(), bounds: fallback }]
    } else {
        all.words
    }
}

proof fn lemma_no_leading(
    same: Pairs,
    text: Seq<char>,
    boxes: Seq<Option<BoundingBox>>,
    n: nat,
)
    ensures
        words_after(same, text, boxes, n).words.len() > 0 ==> words_after(
            same,
            text,
            boxes,
            n,
        ).leading.len() == 0,
    decreases n,
{
    if n > 0 {
        lemma_no_leading(same, text, boxes, (n - 1) as nat);
    }
}

/// The words of a text, where `boxes[i]` is the box of its character `i`, if it has one, and
/// `same` judges whether two boxes are equal.
pub fn words_from_ranges<S: Fn(BoundingBox, BoundingBox) -> bool>(
    text: &str,
    fallback_box: BoundingBox,
    boxes: &Vec<Option<BoundingBox>>,
    same: &S,
) -> (r: Vec<Word>)
    requires
        boxes@.len() == text@.len(),
        is_steady(*same),
    ensures
        word_views(r@) == words_of(accepted(*same), text@, fallback_box, boxes@),
        all_answered(*same, text@, boxes@),
{
    let chars = chars_of(text);
    let mut words: Vec<Word> = Vec::new();
    let mut leading: String = String::new();
    assert(leading@ =~= Seq::<char>::empty());
    assert(word_views(words@) =~= Seq::<WordView>::empty());
    let mut i: usize = 0;
    while i < chars.len()
        invariant
            chars@ == text@,
            boxes@.len() == text@.len(),
            is_steady(*same),
            i <= chars@.len(),
            word_views(words@) == words_after(accepted(*same), text@, boxes@, i as nat).words,
            leading@ == words_after(accepted(*same), text@, boxes@, i as nat).leading,
            forall|j: int|
                #![trigger text@[j]]
                0 <= j < i ==> is_answered(
                    *same,
                    words_after(accepted(*same), text@, boxes@, j as nat),
                    text@[j],
                    boxes@[j],
                ),
        decreases chars@.len() - i,
    {
        let c = chars[i];
        let ghost before = words@;
        let ghost sofar = words_after(accepted(*same), text@, boxes@, i as nat);
        let ghost next = words_after(accepted(*same), text@, boxes@, (i + 1) as nat);
        proof {
            lemma_no_leading(accepted(*same), text@, boxes@, i as nat);
            assert(next == with_character(accepted(*same), sofar, c, boxes@[i as int]));
            assert(word_views(before).len() == before.len());
        }
        let count: usize = words.len();
        if count == 0 {
            match boxes[i] {
                Some(bounds) => {
                    let mut word_text = leading;
                    leading = String::new();
                    word_text.push(c);
                    words.push(Word { text: word_text, separator: String::new(), bounds });
                    proof {
                        assert(leading@ =~= Seq::<char>::empty());
                        assert(words@[0].separator@ =~= Seq::<char>::empty());
                        assert(word_views(words@) =~= next.words);
                    }
                },
                None => {
                    leading.push(c);
                    assert(word_views(words@) =~= next.words);
                },
            }
        } else {
            proof {
                assert(sofar.words.last() == word_views(before)[count - 1]);
            }
            let last = words.pop().unwrap();
            proof {
                assert(words@ =~= before.drop_last());
            }
            let is_space = is_whitespace(c);
            let joins = match boxes[i] {
                Some(bounds) => !is_space && same(last.bounds, bounds),
                None => true,
            };
            if is_space {
                let mut separator = last.separator;
                separator.push(c);
                words.push(Word { text: last.text, separator, bounds: last.bounds });
                assert(word_views(words@) =~= next.words);
            } else if joins {
                let mut word_text = last.text;
                word_text.push(c);
                words.push(
                    Word { text: word_text, separator: last.separator, bounds: last.bounds },
                );
                assert(word_views(words@) =~= next.words);
            } else {
                words.push(last);
                assert(words@ =~= before);
                match boxes[i] {
                    Some(bounds) => {
                        let mut word_text = leading;
                        leading = String::new();
                        word_text.push(c);
                        words.push(Word { text: word_text, separator: String::new(), bounds });
                        proof {
                            assert(leading@ =~= Seq::<char>::empty());
                            assert(words@.last().separator@ =~= Seq::<char>::empty());
                            assert(word_views(words@) =~= next.words);
                        }
                    },
                    None => {},
                }
            }
        }
        i += 1;
    }
    if words.len() == 0 && !leading.as_str().is_empty() {
        words.push(Word { text: leading, separator: String::new(), bounds: fallback_box });
        proof {
            assert(words@[0].separator@ =~= Seq::<char>::empty());
            assert(word_views(words@) =~= words_of(accepted(*same), text@, fallback_box, boxes@));
        }
    }
    words
}

/// The characters of a text that are no white space.
pub open spec fn letters(text: Seq<char>) -> Seq<char>
    decreases text.len(),
{
    if text.len() == 0 {
        Seq::empty()
    } else if text::is_space(text.last()) {
        letters(text.drop_last())
    } else {
        letters(text.drop_last()).push(text.last())
    }
}

/// The texts of words, one after the other.
pub open spec fn spelled(words: Seq<WordView>) -> Seq<char>
    decreases words.len(),
{
    if words.len() == 0 {
        Seq::empty()
    } else {
        spelled(words.drop_last()) + words.last().text
    }
}

proof fn lemma_letters_push(text: Seq<char>, c: char)
    ensures
        letters(text.push(c)) == (if text::is_space(c) {
            letters(text)
        } else {
            letters(text).push(c)
        }),
{
    assert(text.push(c).drop_last() =~= text);
}

proof fn lemma_words_spell(
    same: Pairs,
    text: Seq<char>,
    boxes: Seq<Option<BoundingBox>>,
    n: nat,
)
    requires
        n <= text.len(),
    ensures
        letters(spelled(words_after(same, text, boxes, n).words) + words_after(
            same,
            text,
            boxes,
            n,
        ).leading) == letters(text.take(n as int)),
    decreases n,
{
    if n == 0 {
        assert(spelled(Seq::<WordView>::empty()) + Seq::<char>::empty() =~= text.take(0));
    } else {
        let m = (n - 1) as nat;
        lemma_words_spell(same, text, boxes, m);
        lemma_no_leading(same, text, boxes, m);
        let before = words_after(same, text, boxes, m);
        let after = words_after(same, text, boxes, n);
        let c = text[n - 1];
        let said = spelled(before.words) + before.leading;
        assert(text.take(n as int) =~= text.take(m as int).push(c));
        lemma_letters_push(text.take(m as int), c);
        lemma_letters_push(said, c);
        assert(before.words.len() > 0 ==> said =~= spelled(before.words));
        let now = spelled(after.words) + after.leading;
        if before.words.len() == 0 {
            assert(before.words =~= Seq::empty());
            if boxes[n - 1] is Some {
                assert(after.words.drop_last() =~= Seq::empty());
            }
            assert(now =~= said.push(c));
        } else {
            assert(after.leading =~= Seq::empty());
            if text::is_space(c) {
                assert(after.words.drop_last() =~= before.words.drop_last());
                assert(now =~= said);
            } else if after.words.len() == before.words.len() {
                assert(after.words.drop_last() =~= before.words.drop_last());
                assert(now =~= said.push(c));
            } else {
                assert(after.words.drop_last() =~= before.words);
                assert(now =~= said.push(c));
            }
        }
    }
}

/// The words spell the text: without white space, they give its characters in their order.
pub proof fn law_words_spell_the_text(
    same: Pairs,
    text: Seq<char>,
    fallback: BoundingBox,
    boxes: Seq<Option<BoundingBox>>,
)
    requires
        boxes.len() == text.len(),
    ensures
        letters(spelled(words_of(same, text, fallback, boxes))) == letters(text),
{
    let all = words_after(same, text, boxes, text.len());
    lemma_words_spell(same, text, boxes, text.len());
    lemma_no_leading(same, text, boxes, text.len());
    assert(text.take(text.len() as int) =~= text);
    let words = words_of(same, text, fallback, boxes);
    if all.words.len() == 0 && all.leading.len() > 0 {
        assert(all.words =~= Seq::empty());
        assert(words.drop_last() =~= Seq::empty());
    }
    assert(spelled(words) =~= spelled(all.words) + all.leading);
}

/// Whether a paragraph is written downwards: from its first to its last word it goes further
/// down than across or, where they have the same box, it is higher than wide.
pub open spec fn is_vertical_text<
    S: Fn(BoundingBox, BoundingBox) -> bool,
    D: Fn(BoundingBox, BoundingBox) -> bool,
>(same: S, goes_down: D, bounds: BoundingBox, words: Seq<WordView>) -> bool {
    if words.len() > 0 && !call_ensures(same, (words.first().bounds, words.last().bounds), true) {
        call_ensures(goes_down, (words.first().bounds, words.last().bounds), true)
    } else {
        floats::greater_64(bounds.height, bounds.width)
    }
}

/// Whether the judges answered in the way that `is_vertical_text` goes by, where they were
/// asked.
pub open spec fn direction_answered<
    S: Fn(BoundingBox, BoundingBox) -> bool,
    D: Fn(BoundingBox, BoundingBox) -> bool,
>(same: S, goes_down: D, words: Seq<WordView>) -> bool {
    words.len() > 0 ==> {
        let boxes = (words.first().bounds, words.last().bounds);
        ||| call_ensures(same, boxes, true)
        ||| call_ensures(same, boxes, false) && (call_ensures(goes_down, boxes, true)
            || call_ensures(goes_down, boxes, false))
    }
}

/// Whether a paragraph is written downwards, where `goes_down` judges whether the way from one
/// box to another goes further down than across.
pub fn text_is_vertical<
    S: Fn(BoundingBox, BoundingBox) -> bool,
    D: Fn(BoundingBox, BoundingBox) -> bool,
>(paragraph_box: BoundingBox, words: &Vec<Word>, same: &S, goes_down: &D) -> (r: bool)
    requires
        is_steady(*same),
        is_steady(*goes_down),
    ensures
        r == is_vertical_text(*same, *goes_down, paragraph_box, word_views(words@)),
        direction_answered(*same, *goes_down, word_views(words@)),
{
    let count: usize = words.len();
    if count > 0 {
        let first = words[0].bounds;
        let last = words[count - 1].bounds;
        assert(word_views(words@).first().bounds == first);
        assert(word_views(words@).last().bounds == last);
        if !same(first, last) {
            return goes_down(first, last);
        }
    }
    is_greater_64(paragraph_box.height, paragraph_box.width)
}

/// A recognised piece of text: its best reading, if there is one, its box, and the boxes of the
/// characters of the reading.
#[derive(Debug)]
pub struct Observation {
    pub text: Option<String>,
    pub bounds: BoundingBox,
    pub boxes: Vec<Option<BoundingBox>>,
}

/// Whether an observation becomes a paragraph: it was read, and holds Japanese text.
pub open spec fn is_kept(observation: Observation) -> bool {
    observation.text is Some && provider::has_japanese(observation.text->0@)
}

/// The observations that become paragraphs.
pub open spec fn kept(observations: Seq<Observation>) -> Seq<Observation>
    decreases observations.len(),
{
    if observations.len() == 0 {
        Seq::empty()
    } else if is_kept(observations.last()) {
        kept(observations.drop_last()).push(observations.last())
    } else {
        kept(observations.drop_last())
    }
}

/// Whether a paragraph holds an observation.
pub open spec fn holds_observation<
    S: Fn(BoundingBox, BoundingBox) -> bool,
    D: Fn(BoundingBox, BoundingBox) -> bool,
>(same: S, goes_down: D, paragraph: ParagraphView, observation: Observation) -> bool {
    let words = words_of(
        accepted(same),
        observation.text->0@,
        observation.bounds,
        observation.boxes@,
    );
    &&& paragraph.full_text == observation.text->0@
    &&& paragraph.bounds == observation.bounds
    &&& word_views(paragraph.words) == words
    &&& all_answered(same, observation.text->0@, observation.boxes@)
    &&& direction_answered(same, goes_down, words)
    &&& paragraph.is_vertical == is_vertical_text(same, goes_down, observation.bounds, words)
}

proof fn lemma_some_words(
    same: Pairs,
    text: Seq<char>,
    fallback: BoundingBox,
    boxes: Seq<Option<BoundingBox>>,
)
    requires
        text.len() > 0,
        boxes.len() == text.len(),
    ensures
        words_of(same, text, fallback, boxes).len() > 0,
{
    let n = text.len();
    let before = words_after(same, text, boxes, (n - 1) as nat);
    let all = words_after(same, text, boxes, n);
    assert(all == with_character(same, before, text[n - 1], boxes[n - 1]));
}

/// The paragraphs of recognised pieces of text.
pub fn paragraphs_of<
    S: Fn(BoundingBox, BoundingBox) -> bool,
    D: Fn(BoundingBox, BoundingBox) -> bool,
>(observations: &Vec<Observation>, same: &S, goes_down: &D) -> (r: Vec<Paragraph>)
    requires
        is_steady(*same),
        is_steady(*goes_down),
        forall|i: int|
            0 <= i < observations@.len() && (#[trigger] observations@[i]).text is Some
                ==> observations@[i].boxes@.len() == observations@[i].text->0@.len(),
    ensures
        r@.len() == kept(observations@).len(),
        forall|i: int|
            0 <= i < r@.len() ==> holds_observation(
                *same,
                *goes_down,
                #[trigger] r@[i]@,
                kept(observations@)[i],
            ),
{
    let mut paragraphs: Vec<Paragraph> = Vec::new();
    let mut i: usize = 0;
    assert(observations@.take(0) =~= Seq::empty());
    while i < observations.len()
        invariant
            is_steady(*same),
            is_steady(*goes_down),
            forall|i: int|
                0 <= i < observations@.len() && (#[trigger] observations@[i]).text is Some
                    ==> observations@[i].boxes@.len() == observations@[i].text->0@.len(),
            i <= observations@.len(),
            paragraphs@.len() == kept(observations@.take(i as int)).len(),
            forall|j: int|
                0 <= j < paragraphs@.len() ==> holds_observation(
                    *same,
                    *goes_down,
                    #[trigger] paragraphs@[j]@,
                    kept(observations@.take(i as int))[j],
                ),
        decreases observations@.len() - i,
    {
        let observation = &observations[i];
        proof {
            assert(observations@.take(i + 1).drop_last() =~= observations@.take(i as int));
        }
        if let Some(text) = &observation.text {
            if contains_japanese_text(text.as_str()) {
                let words = words_from_ranges(
                    text.as_str(),
                    observation.bounds,
                    &observation.boxes,
                    same,
                );
                proof {
                    lemma_some_words(accepted(*same), text@, observation.bounds, observation.boxes@);
                }
                let is_vertical = text_is_vertical(observation.bounds, &words, same, goes_down);
                paragraphs.push(
                    Paragraph {
                        full_text: text.clone(),
                        words,
                        bounds: observation.bounds,
                        is_vertical,
                    },
                );
            }
        }
        i += 1;
    }
    assert(observations@.take(i as int) =~= observations@);
    paragraphs
}

/// An image is in order where both sides have pixels, there are three bytes for each pixel, and
/// four for each can be counted.
pub proof fn law_images_can_be_recognised(len: int, width: usize, height: usize)
    requires
        0 <= len <= usize::MAX,
    ensures
        image_error(len, width, height) is None <==> width >= 1 && height >= 1 && len == 3 * (width
            * height) && 4 * (width * height) <= usize::MAX,
        (width == 0 || height == 0) ==> image_error(len, width, height) == Some(
            "cannot recognize an empty image"@,
        ),
{
    assert(width * 3 * height == 3 * (width * height)) by (nonlinear_arith);
    if width >= 1 && height >= 1 {
        assert(width * height >= width) by (nonlinear_arith)
            requires
                height >= 1,
                width >= 1,
        ;
    }
}

/// Characters beyond the first 65536 take two units and all others one.
pub proof fn law_characters_take_one_or_two_units(text: Seq<char>, i: int)
    requires
        0 <= i < text.len(),
    ensures
        utf16_range(text, i).1 == (if text[i] as u32 > 0xffff {
            2int
        } else {
            1int
        }),
        utf16_range(text, 0).0 == 0,
{
}

/// What one more character does to the words. While there is no word, a character without a box
/// waits, and one with a box makes a word with all that waited. Behind a word, white space goes
/// to its separator, a character without a box or with the same box to its text, and any other
/// character begins a word. Words before the last never change.
pub proof fn law_characters_join_words_by_their_boxes(
    same: Pairs,
    text: Seq<char>,
    boxes: Seq<Option<BoundingBox>>,
    n: nat,
)
    requires
        n < text.len(),
        boxes.len() == text.len(),
    ensures
        ({
            let old = words_after(same, text, boxes, n);
            let new = words_after(same, text, boxes, n + 1);
            let c = text[n as int];
            let count = old.words.len();
            let own = boxes[n as int];
            &&& (count == 0 && own is None ==> new.words.len() == 0 && new.leading
                == old.leading.push(c))
            &&& (count == 0 && own is Some ==> new.words.len() == 1 && new.leading.len() == 0
                && new.words[0].text == old.leading.push(c) && new.words[0].separator.len() == 0
                && new.words[0].bounds == own->0)
            &&& (count > 0 ==> new.leading.len() == 0 && forall|i: int|
                0 <= i < count - 1 ==> #[trigger] new.words[i] == old.words[i])
            &&& (count > 0 && text::is_space(c) ==> new.words.len() == count && new.words[count - 1].text
                == old.words[count - 1].text && new.words[count - 1].bounds == old.words[count - 1].bounds
                && new.words[count - 1].separator == old.words[count - 1].separator.push(c))
            &&& (count > 0 && !text::is_space(c) && (own is None || same(
                old.words[count - 1].bounds,
                own->0,
            )) ==> new.words.len() == count && new.words[count - 1].text
                == old.words[count - 1].text.push(c) && new.words[count - 1].bounds
                == old.words[count - 1].bounds && new.words[count - 1].separator
                == old.words[count - 1].separator)
            &&& (count > 0 && !text::is_space(c) && own is Some && !same(
                old.words[count - 1].bounds,
                own->0,
            ) ==> new.words.len() == count + 1 && new.words[count - 1] == old.words[count - 1]
                && new.words[count as int].text == seq![c] && new.words[count as int].separator.len()
                == 0 && new.words[count as int].bounds == own->0)
        }),
{
    lemma_no_leading(same, text, boxes, n);
    let old = words_after(same, text, boxes, n);
    if old.words.len() > 0 {
        assert(old.leading.push(text[n as int]) =~= seq![text[n as int]]);
    }
}

proof fn lemma_no_boxes(same: Pairs, text: Seq<char>, boxes: Seq<Option<BoundingBox>>, n: nat)
    requires
        n <= text.len(),
        boxes.len() == text.len(),
    ensures
        (forall|i: int| 0 <= i < n ==> (#[trigger] boxes[i]) is None) ==> words_after(
            same,
            text,
            boxes,
            n,
        ).words.len() == 0 && words_after(same, text, boxes, n).leading == text.take(n as int),
        (exists|i: int| 0 <= i < n && (#[trigger] boxes[i]) is Some) ==> words_after(
            same,
            text,
            boxes,
            n,
        ).words.len() > 0,
    decreases n,
{
    if n > 0 {
        lemma_no_boxes(same, text, boxes, (n - 1) as nat);
        assert(text.take(n as int) =~= text.take(n - 1).push(text[n - 1]));
    } else {
        assert(text.take(0) =~= Seq::empty());
    }
}

/// A text without any boxes is one word with the box of the whole; where a character has a box,
/// the words are those that the characters made.
pub proof fn law_texts_without_boxes_are_one_word(
    same: Pairs,
    text: Seq<char>,
    fallback: BoundingBox,
    boxes: Seq<Option<BoundingBox>>,
)
    requires
        boxes.len() == text.len(),
    ensures
        text.len() == 0 ==> words_of(same, text, fallback, boxes).len() == 0,
        text.len() > 0 && (forall|i: int| 0 <= i < boxes.len() ==> (#[trigger] boxes[i]) is None)
            ==> words_of(same, text, fallback, boxes).len() == 1 && words_of(
            same,
            text,
            fallback,
            boxes,
        )[0].text == text && words_of(same, text, fallback, boxes)[0].bounds == fallback
            && words_of(same, text, fallback, boxes)[0].separator.len() == 0,
        (exists|i: int| 0 <= i < boxes.len() && (#[trigger] boxes[i]) is Some) ==> words_of(
            same,
            text,
            fallback,
            boxes,
        ) == words_after(same, text, boxes, text.len()).words,
{
    lemma_no_boxes(same, text, boxes, text.len());
    assert(text.take(text.len() as int) =~= text);
}

/// Text whose first and last word have different boxes is vertical if the way between them goes
/// down; text of one word, or without words, is if its box is higher than wide.
pub proof fn law_directions_are_told_by_first_and_last_word<
    S: Fn(BoundingBox, BoundingBox) -> bool,
    D: Fn(BoundingBox, BoundingBox) -> bool,
>(same: S, goes_down: D, bounds: BoundingBox, words: Seq<WordView>)
    ensures
        words.len() == 0 ==> is_vertical_text(same, goes_down, bounds, words)
            == floats::greater_64(bounds.height, bounds.width),
        words.len() > 0 && call_ensures(
            same,
            (words[0].bounds, words[words.len() - 1].bounds),
            true,
        ) ==> is_vertical_text(same, goes_down, bounds, words) == floats::greater_64(
            bounds.height,
            bounds.width,
        ),
        words.len() > 0 && !call_ensures(
            same,
            (words[0].bounds, words[words.len() - 1].bounds),
            true,
        ) ==> is_vertical_text(same, goes_down, bounds, words) == call_ensures(
            goes_down,
            (words[0].bounds, words[words.len() - 1].bounds),
            true,
        ),
{
}

/// The observations that were read and hold a kana or a kanji are kept, in their order.
pub proof fn law_japanese_observations_are_kept(observations: Seq<Observation>) -> (places: Seq<
    int,
>)
    ensures
        places.len() == kept(observations).len(),
        forall|k: int|
            0 <= k < places.len() ==> {
                &&& 0 <= #[trigger] places[k] < observations.len()
                &&& kept(observations)[k] == observations[places[k]]
                &&& observations[places[k]].text is Some
                &&& provider::holds_japanese(observations[places[k]].text->0@)
            },
        forall|k: int, l: int|
            #![trigger places[k], places[l]]
            0 <= k < l < places.len() ==> places[k] < places[l],
        forall|i: int|
            0 <= i < observations.len() && (#[trigger] observations[i]).text is Some
                && provider::holds_japanese(observations[i].text->0@) ==> places.contains(i),
    decreases observations.len(),
{
    if observations.len() == 0 {
        Seq::empty()
    } else {
        let fewer = observations.drop_last();
        let last = observations.len() - 1;
        let before = law_japanese_observations_are_kept(fewer);
        let keep = observations[last].text is Some && provider::holds_japanese(
            observations[last].text->0@,
        );
        if observations[last].text is Some {
            provider::law_japanese_is_told_by_codes(observations[last].text->0@);
        }
        let places = if keep {
            before.push(last)
        } else {
            before
        };
        assert forall|k: int| 0 <= k < places.len() implies {
            &&& 0 <= #[trigger] places[k] < observations.len()
            &&& kept(observations)[k] == observations[places[k]]
            &&& observations[places[k]].text is Some
            &&& provider::holds_japanese(observations[places[k]].text->0@)
        } by {
            if k < before.len() {
                assert(before[k] == places[k]);
                assert(fewer[before[k]] == observations[before[k]]);
            }
        }
        assert forall|k: int, l: int|
            #![trigger places[k], places[l]]
            0 <= k < l < places.len() implies places[k] < places[l] by {
            assert(before[k] == places[k]);
            if l < before.len() {
                assert(before[l] == places[l]);
            }
        }
        assert forall|i: int|
            0 <= i < observations.len() && (#[trigger] observations[i]).text is Some
                && provider::holds_japanese(
                observations[i].text->0@,
            ) implies places.contains(i) by {
            if i < last {
                assert(fewer[i] == observations[i]);
                let k = choose|k: int| 0 <= k < before.len() && before[k] == i;
                assert(places[k] == i);
            } else {
                assert(places[before.len() as int] == i);
            }
        }
        places
    }
}

/// The paragraph of an observation has its text and its box, and the words that its characters
/// make, each with its text, its separator and its box.
pub proof fn law_paragraphs_hold_their_observation<
    S: Fn(BoundingBox, BoundingBox) -> bool,
    D: Fn(BoundingBox, BoundingBox) -> bool,
>(same: S, goes_down: D, paragraph: ParagraphView, observation: Observation)
    requires
        holds_observation(same, goes_down, paragraph, observation),
    ensures
        paragraph.full_text == observation.text->0@,
        paragraph.bounds == observation.bounds,
        ({
            let words = words_of(
                accepted(same),
                observation.text->0@,
                observation.bounds,
                observation.boxes@,
            );
            &&& paragraph.words.len() == words.len()
            &&& forall|i: int|
                0 <= i < words.len() ==> {
                    &&& (#[trigger] paragraph.words[i]).text@ == words[i].text
                    &&& paragraph.words[i].separator@ == words[i].separator
                    &&& paragraph.words[i].bounds == words[i].bounds
                }
            &&& paragraph.is_vertical == is_vertical_text(
                same,
                goes_down,
                observation.bounds,
                words,
            )
        }),
{
    let words = word_views(paragraph.words);
    assert(words.len() == paragraph.words.len());
    assert forall|i: int| 0 <= i < words.len() implies {
        &&& (#[trigger] paragraph.words[i]).text@ == words[i].text
        &&& paragraph.words[i].separator@ == words[i].separator
        &&& paragraph.words[i].bounds == words[i].bounds
    } by {}
}

} // verus!
