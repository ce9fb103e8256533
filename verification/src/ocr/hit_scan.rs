//! Finding the text under the pointer.

use crate::floats;
use crate::ocr::interface;
use crate::ocr::interface::{same_word, Paragraph, Word};
use crate::text::{chars_of, string_of};
use vstd::prelude::*;

verus! {

/// What geometry says of the pointer and a word.
#[derive(Clone, Copy, Debug, PartialEq, Eq, Structural)]
pub struct WordFacts {
    /// Whether the pointer lies in the word or in the gap towards a neighbour.
    pub is_hit: bool,
    /// The number of characters of the word that lie before the pointer.
    pub offset: usize,
}

/// What geometry says of the pointer and a paragraph.
#[derive(Debug)]
pub struct ParagraphFacts {
    /// Whether the pointer lies in the paragraph.
    pub is_inside: bool,
    /// What it says of each word.
    pub words: Vec<WordFacts>,
}

/// The number of characters in the words before the first that equals `target`; in all words
/// where none does.
pub open spec fn chars_before(words: Seq<Word>, target: Word) -> int
    decreases words.len(),
{
    if words.len() == 0 || interface::equal_words(words[0], target) {
        0
    } else {
        words[0].text@.len() + chars_before(words.drop_first(), target)
    }
}

/// The first word that the pointer hits, from `from` on; the number of words where none is.
pub open spec fn first_hit(facts: Seq<WordFacts>, from: int) -> int
    decreases facts.len() - from,
{
    if from >= facts.len() || facts[from].is_hit {
        from
    } else {
        first_hit(facts, from + 1)
    }
}

/// The text of a paragraph from the character under the pointer on, if there is one: the
/// pointer hits a word that is not empty, and the character lies within the text.
pub open spec fn text_under(paragraph: Paragraph, facts: ParagraphFacts) -> Option<Seq<char>> {
    let target = first_hit(facts.words@, 0);
    if !facts.is_inside || target >= facts.words@.len() {
        None
    } else {
        let word = paragraph.words@[target];
        let length = word.text@.len();
        let offset = if facts.words@[target].offset < length {
            facts.words@[target].offset as int
        } else {
            length - 1
        };
        let place = chars_before(paragraph.words@, word) + offset;
        if length == 0 || place >= paragraph.full_text@.len() {
            None
        } else {
            Some(paragraph.full_text@.skip(place))
        }
    }
}

/// The text under the pointer: that of the first paragraph, from `from` on, that has one.
pub open spec fn first_text_under(
    paragraphs: Seq<Paragraph>,
    facts: Seq<ParagraphFacts>,
    from: int,
) -> Option<Seq<char>>
    decreases paragraphs.len() - from,
{
    if from >= paragraphs.len() {
        None
    } else if text_under(paragraphs[from], facts[from]) is Some {
        text_under(paragraphs[from], facts[from])
    } else {
        first_text_under(paragraphs, facts, from + 1)
    }
}

proof fn lemma_first_hit(facts: Seq<WordFacts>, from: int)
    requires
        0 <= from <= facts.len(),
    ensures
        from <= first_hit(facts, from) <= facts.len(),
    decreases facts.len() - from,
{
    if from < facts.len() && !facts[from].is_hit {
        lemma_first_hit(facts, from + 1);
    }
}

/// The number of characters before the first word that equals `target`, but no more than
/// `limit`.
fn count_before(words: &Vec<Word>, target: &Word, limit: usize) -> (r: usize)
    ensures
        r == (if chars_before(words@, *target) < limit {
            chars_before(words@, *target)
        } else {
            limit as int
        }),
{
    let mut count: usize = 0;
    let mut i: usize = 0;
    assert(words@.skip(0) =~= words@);
    proof {
        lemma_chars_before_nonnegative(words@, *target);
    }
    while i < words.len() && !same_word(&words[i], target)
        invariant
            i <= words@.len(),
            count <= limit,
            chars_before(words@.skip(i as int), *target) >= 0,
            count < limit ==> chars_before(words@, *target) == count + chars_before(
                words@.skip(i as int),
                *target,
            ),
            count == limit ==> chars_before(words@, *target) >= limit,
        decreases words@.len() - i,
    {
        let ghost rest = words@.skip(i as int);
        assert(rest[0] == words@[i as int]);
        assert(rest.drop_first() =~= words@.skip(i + 1));
        proof {
            lemma_chars_before_nonnegative(rest.drop_first(), *target);
        }
        let length: usize = chars_of(words[i].text.as_str()).len();
        if limit - count <= length {
            count = limit;
        } else {
            count += length;
        }
        i += 1;
    }
    proof {
        let rest = words@.skip(i as int);
        assert(i < words@.len() ==> rest[0] == words@[i as int]);
    }
    count
}

proof fn lemma_chars_before_nonnegative(words: Seq<Word>, target: Word)
    ensures
        chars_before(words, target) >= 0,
    decreases words.len(),
{
    if words.len() > 0 && !interface::equal_words(words[0], target) {
        lemma_chars_before_nonnegative(words.drop_first(), target);
    }
}

/// The text of one paragraph from the character under the pointer on.
fn scan_paragraph(paragraph: &Paragraph, facts: &ParagraphFacts) -> (r: Option<String>)
    requires
        facts.words@.len() == paragraph.words@.len(),
    ensures
        match (r, text_under(*paragraph, *facts)) {
            (Some(text), Some(wanted)) => text@ == wanted,
            (None, None) => true,
            _ => false,
        },
{
    if !facts.is_inside {
        return None;
    }
    let mut target: usize = 0;
    while target < facts.words.len() && !facts.words[target].is_hit
        invariant
            target <= facts.words@.len(),
            first_hit(facts.words@, 0) == first_hit(facts.words@, target as int),
        decreases facts.words@.len() - target,
    {
        target += 1;
    }
    if target >= facts.words.len() {
        return None;
    }
    let word = &paragraph.words[target];
    let length: usize = chars_of(word.text.as_str()).len();
    if length == 0 {
        return None;
    }
    let offset: usize = if facts.words[target].offset < length {
        facts.words[target].offset
    } else {
        length - 1
    };
    let chars: Vec<char> = chars_of(paragraph.full_text.as_str());
    let start: usize = count_before(&paragraph.words, word, chars.len());
    if chars.len() - start <= offset {
        return None;
    }
    let place: usize = start + offset;
    let text = string_of(chars.as_slice(), place, chars.len());
    assert(text@ =~= paragraph.full_text@.skip(place as int));
    Some(text)
}

/// The text under the pointer, from the character under it to the end of its paragraph.
/// `facts[i]` is what geometry says of the pointer and paragraph `i`.
pub fn hit_scan(paragraphs: &Vec<Paragraph>, facts: &Vec<ParagraphFacts>) -> (r: Option<String>)
    requires
        facts@.len() == paragraphs@.len(),
        forall|i: int|
            0 <= i < facts@.len() ==> (#[trigger] facts@[i]).words@.len()
                == paragraphs@[i].words@.len(),
    ensures
        match (r, first_text_under(paragraphs@, facts@, 0)) {
            (Some(text), Some(wanted)) => text@ == wanted,
            (None, None) => true,
            _ => false,
        },
{
    let mut i: usize = 0;
    while i < paragraphs.len()
        invariant
            i <= paragraphs@.len(),
            facts@.len() == paragraphs@.len(),
            forall|i: int|
                0 <= i < facts@.len() ==> (#[trigger] facts@[i]).words@.len()
                    == paragraphs@[i].words@.len(),
            first_text_under(paragraphs@, facts@, 0) == first_text_under(
                paragraphs@,
                facts@,
                i as int,
            ),
        decreases paragraphs@.len() - i,
    {
        let found = scan_paragraph(&paragraphs[i], &facts[i]);
        if found.is_some() {
            return found;
        }
        i += 1;
    }
    None
}

/// What is found is the end of some paragraph's text that the pointer lies in, and is not
/// empty.
pub proof fn law_found_text_ends_a_paragraph(
    paragraphs: Seq<Paragraph>,
    facts: Seq<ParagraphFacts>,
    from: int,
)
    requires
        0 <= from,
        facts.len() == paragraphs.len(),
        forall|i: int|
            0 <= i < facts.len() ==> (#[trigger] facts[i]).words@.len()
                == paragraphs[i].words@.len(),
        first_text_under(paragraphs, facts, from) is Some,
    ensures
        first_text_under(paragraphs, facts, from)->0.len() > 0,
        exists|i: int|
            from <= i < paragraphs.len() && (#[trigger] facts[i]).is_inside && first_text_under(
                paragraphs,
                facts,
                from,
            )->0.is_suffix_of(paragraphs[i].full_text@),
    decreases paragraphs.len() - from,
{
    if text_under(paragraphs[from], facts[from]) is Some {
        let p = paragraphs[from];
        let f = facts[from];
        lemma_first_hit(f.words@, 0);
        let word = p.words@[first_hit(f.words@, 0)];
        lemma_chars_before_nonnegative(p.words@, word);
        let text = text_under(p, f)->0;
        assert(text.is_suffix_of(p.full_text@)) by {
            let full = p.full_text@;
            assert(full.subrange(full.len() - text.len(), full.len() as int) =~= text);
        }
        assert(facts[from].is_inside);
    } else {
        law_found_text_ends_a_paragraph(paragraphs, facts, from + 1);
    }
}

/// Why the pointer has no place relative to what was scanned.
pub open spec fn empty_geometry_text() -> Seq<char> {
    "cannot normalize mouse position against an empty scan geometry"@
}

/// The pointer's place relative to what was scanned, as fractions: numerator and denominator
/// across, then down.
#[derive(Clone, Copy, Debug, PartialEq, Eq, Structural)]
pub struct PointerFractions {
    pub x: i64,
    pub width: usize,
    pub y: i64,
    pub height: usize,
}

/// The place of the pointer relative to a scanned area, given by its left and top edge, its
/// width and its height.
pub fn normalize_mouse_position(
    mouse_pos: (i32, i32),
    scan_geometry: (i32, i32, usize, usize),
) -> (r: Result<PointerFractions, String>)
    ensures
        match r {
            Ok(place) => scan_geometry.2 != 0 && scan_geometry.3 != 0 && place == (
            PointerFractions {
                x: (mouse_pos.0 - scan_geometry.0) as i64,
                width: scan_geometry.2,
                y: (mouse_pos.1 - scan_geometry.1) as i64,
                height: scan_geometry.3,
            }),
            Err(message) => (scan_geometry.2 == 0 || scan_geometry.3 == 0) && message@
                == empty_geometry_text(),
        },
{
    if scan_geometry.2 == 0 || scan_geometry.3 == 0 {
        return Err(
            "cannot normalize mouse position against an empty scan geometry".to_owned(),
        );
    }
    Ok(
        PointerFractions {
            x: mouse_pos.0 as i64 - scan_geometry.0 as i64,
            width: scan_geometry.2,
            y: mouse_pos.1 as i64 - scan_geometry.1 as i64,
            height: scan_geometry.3,
        },
    )
}

/// The number of characters in the first `n` words.
pub open spec fn length_of(words: Seq<Word>, n: int) -> int
    decreases n,
{
    if n <= 0 {
        0
    } else {
        length_of(words, n - 1) + words[n - 1].text@.len()
    }
}

/// Whether two words differ: in their texts, in what separates them from the next, or, as
/// numbers, in the places or sizes of their boxes.
pub open spec fn differ(a: Word, b: Word) -> bool {
    ||| a.text@ != b.text@
    ||| a.separator@ != b.separator@
    ||| !floats::equal_64(a.bounds.center_x, b.bounds.center_x)
    ||| !floats::equal_64(a.bounds.center_y, b.bounds.center_y)
    ||| !floats::equal_64(a.bounds.width, b.bounds.width)
    ||| !floats::equal_64(a.bounds.height, b.bounds.height)
}

proof fn lemma_chars_before_place(words: Seq<Word>, target: Word, n: int)
    requires
        0 <= n < words.len(),
        forall|i: int| 0 <= i < n ==> differ(#[trigger] words[i], target),
        !differ(words[n], target),
    ensures
        chars_before(words, target) == length_of(words, n),
    decreases n,
{
    if n > 0 {
        let rest = words.drop_first();
        assert forall|i: int| 0 <= i < n - 1 implies differ(#[trigger] rest[i], target) by {
            assert(rest[i] == words[i + 1]);
        }
        assert(differ(words[0], target));
        lemma_chars_before_place(rest, target, n - 1);
        lemma_length_of_rest(words, n);
    }
}

proof fn lemma_length_of_rest(words: Seq<Word>, n: int)
    requires
        1 <= n <= words.len(),
    ensures
        length_of(words, n) == words[0].text@.len() + length_of(words.drop_first(), n - 1),
    decreases n,
{
    if n > 1 {
        lemma_length_of_rest(words, n - 1);
        assert(words.drop_first()[n - 2] == words[n - 1]);
    } else {
        assert(length_of(words, 0) == 0);
    }
}

proof fn lemma_first_hit_is_first(facts: Seq<WordFacts>, from: int, t: int)
    requires
        0 <= from <= t <= facts.len(),
        forall|i: int| from <= i < t ==> !(#[trigger] facts[i]).is_hit,
        t < facts.len() ==> facts[t].is_hit,
    ensures
        first_hit(facts, from) == t,
    decreases t - from,
{
    if from < t {
        assert(!facts[from].is_hit);
        lemma_first_hit_is_first(facts, from + 1, t);
    }
}

/// In a paragraph that the pointer lies in, the text found is what stands behind the words before
/// the first word that is hit, and behind as many of its characters as the pointer has passed,
/// though always less than all; also where an earlier word reads the same. A word that equals an
/// earlier one in everything stands for that one, here for word `first`.
pub proof fn law_text_begins_at_the_word_that_is_hit(
    paragraph: Paragraph,
    facts: ParagraphFacts,
    t: int,
    first: int,
)
    requires
        facts.words@.len() == paragraph.words@.len(),
        facts.is_inside,
        0 <= first <= t < facts.words@.len(),
        facts.words@[t].is_hit,
        forall|i: int| 0 <= i < t ==> !(#[trigger] facts.words@[i]).is_hit,
        forall|i: int| 0 <= i < first ==> differ(#[trigger] paragraph.words@[i], paragraph.words@[t]),
        first < t ==> !differ(paragraph.words@[first], paragraph.words@[t]),
        !differ(paragraph.words@[t], paragraph.words@[t]),
    ensures
        ({
            let length = paragraph.words@[t].text@.len();
            let passed = facts.words@[t].offset;
            let place = length_of(paragraph.words@, first) + (if passed < length {
                passed as int
            } else {
                length - 1
            });
            let full = paragraph.full_text@;
            if length > 0 && place < full.len() {
                text_under(paragraph, facts) == Some(full.subrange(place, full.len() as int))
            } else {
                text_under(paragraph, facts) is None
            }
        }),
{
    lemma_first_hit_is_first(facts.words@, 0, t);
    lemma_chars_before_place(paragraph.words@, paragraph.words@[t], first);
}

/// A paragraph that the pointer does not lie in, or in which it hits no word, gives no text.
pub proof fn law_nothing_is_found_without_a_hit(paragraph: Paragraph, facts: ParagraphFacts)
    requires
        !facts.is_inside || forall|i: int|
            0 <= i < facts.words@.len() ==> !(#[trigger] facts.words@[i]).is_hit,
    ensures
        text_under(paragraph, facts) is None,
{
    if facts.is_inside {
        lemma_first_hit_is_first(facts.words@, 0, facts.words@.len() as int);
    }
}

/// The paragraphs are gone through in their order: the text found is that of the first that gives
/// one, and there is none where none does.
pub proof fn law_the_first_paragraph_with_text_is_taken(
    paragraphs: Seq<Paragraph>,
    facts: Seq<ParagraphFacts>,
    n: int,
)
    requires
        0 <= n <= paragraphs.len(),
        facts.len() == paragraphs.len(),
        forall|i: int| 0 <= i < n ==> text_under(#[trigger] paragraphs[i], facts[i]) is None,
        n < paragraphs.len() ==> text_under(paragraphs[n], facts[n]) is Some,
    ensures
        first_text_under(paragraphs, facts, 0) == (if n < paragraphs.len() {
            text_under(paragraphs[n], facts[n])
        } else {
            None
        }),
{
    lemma_first_text(paragraphs, facts, 0, n);
}

proof fn lemma_first_text(
    paragraphs: Seq<Paragraph>,
    facts: Seq<ParagraphFacts>,
    from: int,
    n: int,
)
    requires
        0 <= from <= n <= paragraphs.len(),
        facts.len() == paragraphs.len(),
        forall|i: int| 0 <= i < n ==> text_under(#[trigger] paragraphs[i], facts[i]) is None,
        n < paragraphs.len() ==> text_under(paragraphs[n], facts[n]) is Some,
    ensures
        first_text_under(paragraphs, facts, from) == (if n < paragraphs.len() {
            text_under(paragraphs[n], facts[n])
        } else {
            None
        }),
    decreases n - from,
{
    if from < n {
        assert(text_under(paragraphs[from], facts[from]) is None);
        lemma_first_text(paragraphs, facts, from + 1, n);
    }
}

} // verus!
