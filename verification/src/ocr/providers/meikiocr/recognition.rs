//! Characters recognised in text lines.

use crate::floats;
use crate::floats::{is_less_32, total_key_32, ONE_32};
use crate::ocr::providers::meikiocr::detection::{coordinate_key, CropMetadata, PixelRect};
use crate::ocr::providers::meikiocr::punctuation;
use crate::ocr::providers::meikiocr::punctuation::is_punctuation;
use crate::order;
use crate::order::stable_order;
use crate::text::{chars_of, string_of};
use vstd::prelude::*;

verus! {

/// A character read in a text line. The confidence is the bit pattern of a single.
#[derive(Clone, Copy, Debug, PartialEq, Eq, Structural, Default)]
pub struct RecognizedChar {
    pub character: char,
    pub bbox: PixelRect,
    pub conf: u32,
}

/// What was read in a text line.
#[derive(Debug, PartialEq, Eq, Default)]
pub struct OcrResult {
    pub text: String,
    pub chars: Vec<RecognizedChar>,
    pub is_vertical: bool,
}

/// One answer of the recognition model for a part of a line.
#[derive(Clone, Copy, Debug, PartialEq, Eq, Structural)]
pub struct RawChar {
    /// The code of the character.
    pub label: i32,
    /// The score, a single.
    pub score: u32,
    /// The score times the factor for punctuation, a single.
    pub weighted_score: u32,
    /// Whether the answer starts behind the part's contents.
    pub is_beyond: bool,
    /// Where the answer lies, relative to the part.
    pub offset: PixelRect,
}

/// How answers become characters: answers below the threshold, a single, do not count, and the
/// confidence of punctuation is weighted with a factor, a single.
#[derive(Clone, Copy, Debug, PartialEq, Eq, Structural)]
pub struct RecognitionSettings {
    pub threshold: u32,
    pub punct_conf_factor: u32,
    pub is_vertical: bool,
}

/// A character that competes with others for its place in the line.
#[derive(Clone, Copy, Debug, PartialEq, Eq, Structural)]
pub struct Candidate {
    pub character: char,
    pub bbox: PixelRect,
    pub conf: u32,
    pub start: i32,
    pub end: i32,
}

/// Whether `label` is the code of a character.
pub open spec fn is_char_code(label: i32) -> bool {
    0 <= label <= 0xd7ff || 0xe000 <= label <= 0x10ffff
}

/// Where an answer lies in the image.
pub open spec fn placed(origin: PixelRect, offset: PixelRect) -> (int, int, int, int) {
    (
        origin.x1 + offset.x1,
        origin.y1 + offset.y1,
        origin.x1 + offset.x2,
        origin.y1 + offset.y2,
    )
}

/// Whether a number is a coordinate.
pub open spec fn is_coordinate(n: int) -> bool {
    i32::MIN <= n <= i32::MAX
}

/// Whether the place of an answer can be told in coordinates.
pub open spec fn placeable(origin: PixelRect, offset: PixelRect) -> bool {
    let (x1, y1, x2, y2) = placed(origin, offset);
    is_coordinate(x1) && is_coordinate(y1) && is_coordinate(x2) && is_coordinate(y2)
}

/// Whether the place of an answer is looked at: its score is high enough, it names a character
/// and it starts within the contents.
pub open spec fn is_looked_at(raw: RawChar, settings: RecognitionSettings) -> bool {
    &&& !floats::less_32(raw.score, settings.threshold)
    &&& is_char_code(raw.label)
    &&& !raw.is_beyond
}

/// Whether an answer counts: its place is looked at and, in a vertical line, it has rows.
pub open spec fn counts(raw: RawChar, origin: PixelRect, settings: RecognitionSettings) -> bool {
    let (_, y1, _, y2) = placed(origin, raw.offset);
    &&& is_looked_at(raw, settings)
    &&& (settings.is_vertical ==> y1 < y2)
}

/// The candidate that an answer makes.
pub open spec fn candidate_for(
    raw: RawChar,
    origin: PixelRect,
    settings: RecognitionSettings,
) -> Candidate {
    let (x1, y1, x2, y2) = placed(origin, raw.offset);
    let character = raw.label as char;
    Candidate {
        character,
        bbox: PixelRect { x1: x1 as i32, y1: y1 as i32, x2: x2 as i32, y2: y2 as i32 },
        conf: if settings.punct_conf_factor != ONE_32 && punctuation::punctuation(character) {
            raw.weighted_score
        } else {
            raw.score
        },
        start: if settings.is_vertical {
            y1 as i32
        } else {
            x1 as i32
        },
        end: if settings.is_vertical {
            y2 as i32
        } else {
            x2 as i32
        },
    }
}

/// The candidates in the answers for one part.
pub open spec fn part_candidates(
    row: Seq<RawChar>,
    origin: PixelRect,
    settings: RecognitionSettings,
) -> Seq<Candidate>
    decreases row.len(),
{
    if row.len() == 0 {
        Seq::empty()
    } else {
        let before = part_candidates(row.drop_last(), origin, settings);
        if counts(row.last(), origin, settings) {
            before.push(candidate_for(row.last(), origin, settings))
        } else {
            before
        }
    }
}

/// The candidates for the line at position `line`, part by part.
pub open spec fn line_candidates(
    rows: Seq<Vec<RawChar>>,
    owners: Seq<usize>,
    crops: Seq<CropMetadata>,
    settings: RecognitionSettings,
    line: usize,
) -> Seq<Candidate>
    decreases rows.len(),
{
    if rows.len() == 0 {
        Seq::empty()
    } else {
        let k = rows.len() - 1;
        let before = line_candidates(rows.drop_last(), owners, crops, settings, line);
        if owners[k] == line {
            before + part_candidates(rows[k]@, crops[k].orig_bbox, settings)
        } else {
            before
        }
    }
}

/// The candidate that an answer makes, if it counts.
fn read_candidate(raw: RawChar, origin: PixelRect, settings: RecognitionSettings) -> (r: Option<
    Candidate,
>)
    requires
        is_looked_at(raw, settings) ==> placeable(origin, raw.offset),
    ensures
        r is Some <==> counts(raw, origin, settings),
        r is Some ==> r->0 == candidate_for(raw, origin, settings),
{
    if is_less_32(raw.score, settings.threshold) {
        return None;
    }
    if raw.label < 0 {
        return None;
    }
    let character: char = match char::from_u32(raw.label as u32) {
        Some(character) => character,
        None => return None,
    };
    if raw.is_beyond {
        return None;
    }
    let bbox = PixelRect {
        x1: origin.x1 + raw.offset.x1,
        y1: origin.y1 + raw.offset.y1,
        x2: origin.x1 + raw.offset.x2,
        y2: origin.y1 + raw.offset.y2,
    };
    if settings.is_vertical && bbox.y2 <= bbox.y1 {
        return None;
    }
    let conf: u32 = if settings.punct_conf_factor != ONE_32 && is_punctuation(character) {
        raw.weighted_score
    } else {
        raw.score
    };
    let (start, end): (i32, i32) = if settings.is_vertical {
        (bbox.y1, bbox.y2)
    } else {
        (bbox.x1, bbox.x2)
    };
    Some(Candidate { character, bbox, conf, start, end })
}

/// Appends the candidates in the answers for one part.
fn push_part_candidates(
    row: &Vec<RawChar>,
    origin: PixelRect,
    settings: RecognitionSettings,
    candidates: &mut Vec<Candidate>,
)
    requires
        forall|j: int|
            0 <= j < row@.len() && is_looked_at(#[trigger] row@[j], settings) ==> placeable(
                origin,
                row@[j].offset,
            ),
    ensures
        final(candidates)@ == old(candidates)@ + part_candidates(row@, origin, settings),
{
    let ghost start = candidates@;
    let mut j: usize = 0;
    assert(row@.take(0) =~= Seq::empty());
    assert(start + part_candidates(row@.take(0), origin, settings) =~= start);
    while j < row.len()
        invariant
            j <= row@.len(),
            forall|k: int|
                0 <= k < row@.len() && is_looked_at(#[trigger] row@[k], settings) ==> placeable(
                    origin,
                    row@[k].offset,
                ),
            candidates@ == start + part_candidates(row@.take(j as int), origin, settings),
        decreases row@.len() - j,
    {
        assert(row@.take(j + 1).drop_last() =~= row@.take(j as int));
        if let Some(candidate) = read_candidate(row[j], origin, settings) {
            candidates.push(candidate);
        }
        assert(candidates@ =~= start + part_candidates(row@.take(j + 1), origin, settings));
        j += 1;
    }
    assert(row@.take(j as int) =~= row@);
}

/// How far two stretches of a line overlap, and how long they are.
#[derive(Clone, Copy, Debug, PartialEq, Eq, Structural)]
pub struct Overlap {
    pub common: i64,
    pub candidate_len: i64,
    pub accepted_len: i64,
}

/// Whether two candidates lie on common coordinates.
pub open spec fn stretches_meet(a: Candidate, c: Candidate) -> bool {
    c.start < a.end && a.start < c.end
}

/// How far the candidate `c` overlaps the accepted `a`.
pub open spec fn overlap_of(a: Candidate, c: Candidate) -> Overlap {
    let from = if c.start > a.start {
        c.start
    } else {
        a.start
    };
    let to = if c.end < a.end {
        c.end
    } else {
        a.end
    };
    Overlap {
        common: if to > from {
            (to - from) as i64
        } else {
            0
        },
        candidate_len: (c.end - c.start) as i64,
        accepted_len: (a.end - a.start) as i64,
    }
}

/// Whether a judge of overlaps always gives the same answer for the same overlap.
pub open spec fn is_steady<F: Fn(Overlap) -> bool>(judge: F) -> bool {
    &&& forall|o: Overlap| #[trigger] call_requires(judge, (o,))
    &&& forall|o: Overlap, a: bool, b: bool| #[trigger]
        call_ensures(judge, (o,), a) && #[trigger] call_ensures(judge, (o,), b) ==> a == b
}

/// Which overlaps are too large.
pub type Verdicts = spec_fn(Overlap) -> bool;

/// The answers of a judge: which overlaps are too large.
pub open spec fn verdicts<F: Fn(Overlap) -> bool>(judge: F) -> Verdicts {
    |overlap: Overlap| call_ensures(judge, (overlap,), true)
}

/// Whether the candidate `c` cannot stand beside the accepted `a`.
pub open spec fn clashes(too_large: Verdicts, a: Candidate, c: Candidate) -> bool {
    stretches_meet(a, c) && too_large(overlap_of(a, c))
}

/// Whether the candidate `c` clashes with one of the accepted candidates.
pub open spec fn is_suppressed(
    too_large: Verdicts,
    accepted: Seq<Candidate>,
    c: Candidate,
) -> bool {
    exists|k: int| 0 <= k < accepted.len() && clashes(too_large, #[trigger] accepted[k], c)
}

/// Whether the judge, where it was asked, answered that the candidate `c` can stand beside the
/// accepted `a`.
pub open spec fn is_cleared<F: Fn(Overlap) -> bool>(judge: F, a: Candidate, c: Candidate) -> bool {
    stretches_meet(a, c) ==> call_ensures(judge, (overlap_of(a, c),), false)
}

/// Whether each of the candidates was cleared to stand beside those before it.
pub open spec fn are_cleared<F: Fn(Overlap) -> bool>(judge: F, accepted: Seq<Candidate>) -> bool {
    forall|i: int, j: int|
        #![trigger accepted[i], accepted[j]]
        0 <= i < j < accepted.len() ==> is_cleared(judge, accepted[i], accepted[j])
}

/// The candidates that are accepted when they are tried in order: each that clashes with none
/// accepted before it.
pub open spec fn survivors(too_large: Verdicts, candidates: Seq<Candidate>) -> Seq<
    Candidate,
>
    decreases candidates.len(),
{
    if candidates.len() == 0 {
        Seq::empty()
    } else {
        let before = survivors(too_large, candidates.drop_last());
        if is_suppressed(too_large, before, candidates.last()) {
            before
        } else {
            before.push(candidates.last())
        }
    }
}

/// The sort key of a candidate: the most confident first.
pub open spec fn conf_key(c: Candidate) -> (u64, u64) {
    ((u32::MAX - floats::total_32(c.conf)) as u64, 0)
}

/// The sort key of a candidate: the first in the line first.
pub open spec fn start_key(c: Candidate) -> (u64, u64) {
    ((c.start + 0x8000_0000) as u64, 0)
}

/// The sort keys of candidates by confidence.
pub open spec fn conf_keys(candidates: Seq<Candidate>) -> Seq<(u64, u64)> {
    Seq::new(candidates.len(), |i: int| conf_key(candidates[i]))
}

/// The sort keys of candidates by place in the line.
pub open spec fn start_keys(candidates: Seq<Candidate>) -> Seq<(u64, u64)> {
    Seq::new(candidates.len(), |i: int| start_key(candidates[i]))
}

/// The candidates in the given order.
pub open spec fn arranged(candidates: Seq<Candidate>, order: Seq<usize>) -> Seq<Candidate> {
    Seq::new(order.len(), |i: int| candidates[order[i] as int])
}

/// Whether `sorted` are the candidates from the most confident down.
pub open spec fn by_confidence(candidates: Seq<Candidate>, sorted: Seq<Candidate>) -> bool {
    exists|order: Seq<usize>| #[trigger]
        order::is_stable_order(conf_keys(candidates), order) && sorted == arranged(candidates, order)
}

/// Whether `sorted` are the candidates from the first in the line on.
pub open spec fn by_start(candidates: Seq<Candidate>, sorted: Seq<Candidate>) -> bool {
    exists|order: Seq<usize>| #[trigger]
        order::is_stable_order(start_keys(candidates), order) && sorted == arranged(candidates, order)
}

/// The candidates from the most confident down.
fn sort_by_confidence(candidates: &Vec<Candidate>) -> (sorted: Vec<Candidate>)
    ensures
        by_confidence(candidates@, sorted@),
{
    let ghost wanted = conf_keys(candidates@);
    let mut keys: Vec<(u64, u64)> = Vec::new();
    let mut i: usize = 0;
    while i < candidates.len()
        invariant
            i <= candidates@.len(),
            wanted == conf_keys(candidates@),
            keys@ == wanted.take(i as int),
        decreases candidates@.len() - i,
    {
        keys.push(((u32::MAX - total_key_32(candidates[i].conf)) as u64, 0));
        assert(keys@ =~= wanted.take(i + 1));
        i += 1;
    }
    assert(keys@ =~= wanted);
    let order = stable_order(&keys);
    arrange(candidates, &order)
}

/// The candidates from the first in the line on.
fn sort_by_start(candidates: &Vec<Candidate>) -> (sorted: Vec<Candidate>)
    ensures
        by_start(candidates@, sorted@),
{
    let ghost wanted = start_keys(candidates@);
    let mut keys: Vec<(u64, u64)> = Vec::new();
    let mut i: usize = 0;
    while i < candidates.len()
        invariant
            i <= candidates@.len(),
            wanted == start_keys(candidates@),
            keys@ == wanted.take(i as int),
        decreases candidates@.len() - i,
    {
        keys.push((coordinate_key(candidates[i].start), 0));
        assert(keys@ =~= wanted.take(i + 1));
        i += 1;
    }
    assert(keys@ =~= wanted);
    let order = stable_order(&keys);
    arrange(candidates, &order)
}

/// The candidates in the given order.
fn arrange(candidates: &Vec<Candidate>, order: &Vec<usize>) -> (r: Vec<Candidate>)
    requires
        forall|i: int| 0 <= i < order@.len() ==> #[trigger] order@[i] < candidates@.len(),
    ensures
        r@ == arranged(candidates@, order@),
{
    let mut r: Vec<Candidate> = Vec::new();
    let mut i: usize = 0;
    while i < order.len()
        invariant
            i <= order@.len(),
            forall|i: int| 0 <= i < order@.len() ==> #[trigger] order@[i] < candidates@.len(),
            r@ == arranged(candidates@, order@).take(i as int),
        decreases order@.len() - i,
    {
        r.push(candidates[order[i]]);
        assert(r@ =~= arranged(candidates@, order@).take(i + 1));
        i += 1;
    }
    assert(r@ =~= arranged(candidates@, order@));
    r
}

/// Whether the candidate `c` cannot stand beside the accepted `a`.
fn check_clash<F: Fn(Overlap) -> bool>(judge: &F, a: Candidate, c: Candidate) -> (r: bool)
    requires
        is_steady(*judge),
    ensures
        r == clashes(verdicts(*judge), a, c),
        !r ==> is_cleared(*judge, a, c),
{
    if c.start >= a.end || a.start >= c.end {
        return false;
    }
    let from: i64 = if c.start > a.start {
        c.start as i64
    } else {
        a.start as i64
    };
    let to: i64 = if c.end < a.end {
        c.end as i64
    } else {
        a.end as i64
    };
    let overlap = Overlap {
        common: if to > from {
            to - from
        } else {
            0
        },
        candidate_len: c.end as i64 - c.start as i64,
        accepted_len: a.end as i64 - a.start as i64,
    };
    assert(overlap == overlap_of(a, c));
    let answer = judge(overlap);
    assert(call_ensures(*judge, (overlap,), answer));
    answer
}

/// The candidates that are accepted when they are tried in order. The judge says whether an
/// overlap is too large.
pub fn suppress_overlaps<F: Fn(Overlap) -> bool>(judge: &F, candidates: &Vec<Candidate>) -> (r: Vec<
    Candidate,
>)
    requires
        is_steady(*judge),
    ensures
        r@ == survivors(verdicts(*judge), candidates@),
        are_cleared(*judge, r@),
{
    let mut accepted: Vec<Candidate> = Vec::new();
    let mut i: usize = 0;
    assert(candidates@.take(0) =~= Seq::empty());
    while i < candidates.len()
        invariant
            i <= candidates@.len(),
            is_steady(*judge),
            accepted@ == survivors(verdicts(*judge), candidates@.take(i as int)),
            are_cleared(*judge, accepted@),
        decreases candidates@.len() - i,
    {
        assert(candidates@.take(i + 1).drop_last() =~= candidates@.take(i as int));
        let candidate = candidates[i];
        let mut suppressed = false;
        let mut k: usize = 0;
        while k < accepted.len() && !suppressed
            invariant
                k <= accepted@.len(),
                is_steady(*judge),
                suppressed ==> is_suppressed(verdicts(*judge), accepted@, candidate),
                !suppressed ==> forall|m: int|
                    0 <= m < k ==> !clashes(verdicts(*judge), #[trigger] accepted@[m], candidate)
                        && is_cleared(*judge, accepted@[m], candidate),
            decreases accepted@.len() - k,
        {
            if check_clash(judge, accepted[k], candidate) {
                suppressed = true;
            }
            k += 1;
        }
        if !suppressed {
            accepted.push(candidate);
        }
        i += 1;
    }
    assert(candidates@.take(i as int) =~= candidates@);
    accepted
}

/// No accepted candidate clashes with one accepted before it.
pub proof fn law_survivors_do_not_clash(
    too_large: Verdicts,
    candidates: Seq<Candidate>,
    i: int,
    j: int,
)
    requires
        0 <= i < j < survivors(too_large, candidates).len(),
    ensures
        !clashes(too_large, survivors(too_large, candidates)[i], survivors(too_large, candidates)[j]),
    decreases candidates.len(),
{
    let before = survivors(too_large, candidates.drop_last());
    if j < before.len() {
        law_survivors_do_not_clash(too_large, candidates.drop_last(), i, j);
    } else {
        assert(!clashes(too_large, before[i], candidates.last()));
    }
}

/// Every candidate is accepted or clashes with an accepted one that was tried before it.
pub proof fn law_rejected_candidates_clash(
    too_large: Verdicts,
    candidates: Seq<Candidate>,
    i: int,
)
    requires
        0 <= i < candidates.len(),
    ensures
        survivors(too_large, candidates).contains(candidates[i]) || is_suppressed(
            too_large,
            survivors(too_large, candidates),
            candidates[i],
        ),
    decreases candidates.len(),
{
    let shorter = candidates.drop_last();
    let before = survivors(too_large, shorter);
    let after = survivors(too_large, candidates);
    if i < shorter.len() {
        law_rejected_candidates_clash(too_large, shorter, i);
        assert(shorter[i] == candidates[i]);
        if before.contains(candidates[i]) {
            let k = choose|k: int| 0 <= k < before.len() && before[k] == candidates[i];
            assert(after[k] == candidates[i]);
        } else {
            let k = choose|k: int|
                0 <= k < before.len() && clashes(too_large, #[trigger] before[k], candidates[i]);
            assert(clashes(too_large, after[k], candidates[i]));
        }
    } else if !is_suppressed(too_large, before, candidates[i]) {
        assert(after[before.len() as int] == candidates[i]);
    }
}

/// The candidate tried first is always accepted.
pub proof fn law_first_candidate_survives(
    too_large: Verdicts,
    candidates: Seq<Candidate>,
)
    requires
        candidates.len() > 0,
    ensures
        survivors(too_large, candidates).len() > 0,
        survivors(too_large, candidates)[0] == candidates[0],
    decreases candidates.len(),
{
    if candidates.len() > 1 {
        law_first_candidate_survives(too_large, candidates.drop_last());
    } else {
        assert(survivors(too_large, candidates.drop_last()) =~= Seq::empty());
    }
}

/// Pairs of characters that are often read in the wrong order; each is given as it is misread.
pub open spec fn swapped_pairs() -> Seq<(char, char)> {
    seq![
        ('儡', '傀'),
        ('談', '冗'),
        ('汰', '淘'),
        ('沱', '滂'),
        ('攣', '痙'),
        ('酊', '酩'),
        ('麭', '麺'),
        ('哭', '慟'),
    ]
}

fn list_swapped_pairs() -> (r: Vec<(char, char)>)
    ensures
        r@ == swapped_pairs(),
{
    let r: Vec<(char, char)> = vec![
        ('儡', '傀'),
        ('談', '冗'),
        ('汰', '淘'),
        ('沱', '滂'),
        ('攣', '痙'),
        ('酊', '酩'),
        ('麭', '麺'),
        ('哭', '慟'),
    ];
    assert(r@ =~= swapped_pairs());
    r
}

/// The first position from `from` on at which the pair stands, or the last position if it
/// stands nowhere.
pub open spec fn pair_position(text: Seq<char>, pair: (char, char), from: int) -> int
    decreases text.len() - from,
{
    if from + 1 >= text.len() || (text[from] == pair.0 && text[from + 1] == pair.1) {
        from
    } else {
        pair_position(text, pair, from + 1)
    }
}

/// The sequence with the elements at positions `i` and `i + 1` exchanged.
pub open spec fn exchanged<T>(s: Seq<T>, i: int) -> Seq<T> {
    s.update(i, s[i + 1]).update(i + 1, s[i])
}

/// The text and the characters with the first occurrence of `pair` turned round in both, unless
/// it does not occur or lies behind the characters.
pub open spec fn put_right(
    text: Seq<char>,
    chars: Seq<RecognizedChar>,
    pair: (char, char),
) -> (Seq<char>, Seq<RecognizedChar>) {
    let i = pair_position(text, pair, 0);
    if i + 1 < text.len() && i + 1 < chars.len() {
        (exchanged(text, i), exchanged(chars, i))
    } else {
        (text, chars)
    }
}

/// The text and the characters with the first `n` of the pairs put right, one after another.
pub open spec fn all_put_right(
    text: Seq<char>,
    chars: Seq<RecognizedChar>,
    n: nat,
) -> (Seq<char>, Seq<RecognizedChar>)
    decreases n,
{
    if n == 0 {
        (text, chars)
    } else {
        let before = all_put_right(text, chars, (n - 1) as nat);
        put_right(before.0, before.1, swapped_pairs()[n - 1])
    }
}

/// The first position at which the pair stands.
fn find_pair(text: &Vec<char>, pair: (char, char)) -> (r: usize)
    ensures
        r == pair_position(text@, pair, 0),
        r <= text@.len(),
{
    let mut i: usize = 0;
    while i < text.len() && i + 1 < text.len() && !(text[i] == pair.0 && text[i + 1] == pair.1)
        invariant
            i <= text@.len(),
            pair_position(text@, pair, 0) == pair_position(text@, pair, i as int),
        decreases text@.len() - i,
    {
        i += 1;
    }
    i
}

/// Turns every known pair that was read in the wrong order round, once.
fn fix_pairs(text: &mut Vec<char>, chars: &mut Vec<RecognizedChar>)
    ensures
        (final(text)@, final(chars)@) == all_put_right(
            old(text)@,
            old(chars)@,
            swapped_pairs().len(),
        ),
{
    let pairs = list_swapped_pairs();
    let ghost text_before = text@;
    let ghost chars_before = chars@;
    let mut n: usize = 0;
    while n < pairs.len()
        invariant
            n <= pairs@.len(),
            pairs@ == swapped_pairs(),
            (text@, chars@) == all_put_right(text_before, chars_before, n as nat),
        decreases pairs@.len() - n,
    {
        let pair = pairs[n];
        let ghost t = text@;
        let ghost c = chars@;
        let i: usize = find_pair(text, pair);
        if i < text.len() && i + 1 < text.len() && i + 1 < chars.len() {
            text.set(i, pair.1);
            text.set(i + 1, pair.0);
            let first = chars[i];
            let second = chars[i + 1];
            chars.set(i, second);
            chars.set(i + 1, first);
            proof {
                lemma_pair_found(t, pair, 0);
            }
            assert(text@ =~= exchanged(t, i as int));
            assert(chars@ =~= exchanged(c, i as int));
        }
        assert((text@, chars@) == put_right(t, c, swapped_pairs()[n as int]));
        n += 1;
    }
}

proof fn lemma_pair_found(text: Seq<char>, pair: (char, char), from: int)
    requires
        0 <= from,
        pair_position(text, pair, from) + 1 < text.len(),
    ensures
        text[pair_position(text, pair, from)] == pair.0,
        text[pair_position(text, pair, from) + 1] == pair.1,
        from <= pair_position(text, pair, from),
    decreases text.len() - from,
{
    if !(text[from] == pair.0 && text[from + 1] == pair.1) && from + 1 < text.len() {
        lemma_pair_found(text, pair, from + 1);
    }
}

/// Turns every known pair that was read in the wrong order round, once, in the text and among
/// its characters.
pub fn fix_swapped_pairs(text: &mut String, chars: &mut Vec<RecognizedChar>)
    ensures
        (final(text)@, final(chars)@) == all_put_right(
            old(text)@,
            old(chars)@,
            swapped_pairs().len(),
        ),
{
    let mut letters: Vec<char> = chars_of(text.as_str());
    fix_pairs(&mut letters, chars);
    *text = string_of(letters.as_slice(), 0, letters.len());
    assert(letters@.subrange(0, letters@.len() as int) =~= letters@);
}

/// The letters of recognised characters.
pub open spec fn letters_of(chars: Seq<RecognizedChar>) -> Seq<char> {
    Seq::new(chars.len(), |i: int| chars[i].character)
}

/// Where the text spells the characters, it still does when the pairs are put right.
pub proof fn law_text_keeps_spelling_the_characters(
    text: Seq<char>,
    chars: Seq<RecognizedChar>,
    n: nat,
)
    requires
        text == letters_of(chars),
        n <= swapped_pairs().len(),
    ensures
        all_put_right(text, chars, n).0 == letters_of(all_put_right(text, chars, n).1),
        all_put_right(text, chars, n).1.len() == chars.len(),
    decreases n,
{
    if n > 0 {
        law_text_keeps_spelling_the_characters(text, chars, (n - 1) as nat);
        let before = all_put_right(text, chars, (n - 1) as nat);
        let i = pair_position(before.0, swapped_pairs()[n - 1], 0);
        if i + 1 < before.0.len() {
            lemma_pair_found(before.0, swapped_pairs()[n - 1], 0);
            assert(exchanged(before.0, i) =~= letters_of(exchanged(before.1, i)));
        }
    }
}

/// The characters that accepted candidates become.
pub open spec fn recognised(accepted: Seq<Candidate>) -> Seq<RecognizedChar> {
    Seq::new(
        accepted.len(),
        |i: int|
            RecognizedChar {
                character: accepted[i].character,
                bbox: accepted[i].bbox,
                conf: accepted[i].conf,
            },
    )
}

/// Whether `text` and `chars` are what is read in a line with these candidates: the most
/// confident that do not clash, each cleared to stand beside the more confident ones, in the
/// order of the line, with misread pairs put right.
pub open spec fn is_reading<F: Fn(Overlap) -> bool>(
    judge: F,
    candidates: Seq<Candidate>,
    text: Seq<char>,
    chars: Seq<RecognizedChar>,
) -> bool {
    exists|sorted: Seq<Candidate>, kept: Seq<Candidate>|
        #![trigger by_confidence(candidates, sorted), by_start(survivors(verdicts(judge), sorted), kept)]
        by_confidence(candidates, sorted) && by_start(survivors(verdicts(judge), sorted), kept)
            && are_cleared(judge, survivors(verdicts(judge), sorted)) && (text, chars)
            == all_put_right(
            letters_of(recognised(kept)),
            recognised(kept),
            swapped_pairs().len(),
        )
}

/// What is read in a line with these candidates.
pub fn read_line<F: Fn(Overlap) -> bool>(
    judge: &F,
    candidates: &Vec<Candidate>,
    is_vertical: bool,
) -> (r: OcrResult)
    requires
        is_steady(*judge),
    ensures
        is_reading(*judge, candidates@, r.text@, r.chars@),
        r.is_vertical == is_vertical,
{
    let sorted = sort_by_confidence(candidates);
    let accepted = suppress_overlaps(judge, &sorted);
    let kept = sort_by_start(&accepted);
    let mut chars: Vec<RecognizedChar> = Vec::new();
    let mut letters: Vec<char> = Vec::new();
    let mut i: usize = 0;
    while i < kept.len()
        invariant
            i <= kept@.len(),
            chars@ == recognised(kept@).take(i as int),
            letters@ == letters_of(recognised(kept@)).take(i as int),
        decreases kept@.len() - i,
    {
        let c = kept[i];
        chars.push(RecognizedChar { character: c.character, bbox: c.bbox, conf: c.conf });
        letters.push(c.character);
        assert(chars@ =~= recognised(kept@).take(i + 1));
        assert(letters@ =~= letters_of(recognised(kept@)).take(i + 1));
        i += 1;
    }
    assert(chars@ =~= recognised(kept@));
    assert(letters@ =~= letters_of(recognised(kept@)));
    fix_pairs(&mut letters, &mut chars);
    let text = string_of(letters.as_slice(), 0, letters.len());
    assert(text@ =~= letters@);
    assert(by_confidence(candidates@, sorted@) && by_start(survivors(verdicts(*judge), sorted@), kept@));
    OcrResult { text, chars, is_vertical }
}

/// Whether a part of the line at position `line` was recognised.
pub open spec fn has_part(owners: Seq<usize>, count: int, line: usize) -> bool {
    exists|k: int| 0 <= k < count && #[trigger] owners[k] == line
}

/// Whether the places of answers for parts of an image can be told in coordinates, where they
/// are looked at.
pub open spec fn all_placeable(
    rows: Seq<Vec<RawChar>>,
    crops: Seq<CropMetadata>,
    settings: RecognitionSettings,
) -> bool {
    forall|k: int, j: int|
        0 <= k < rows.len() && 0 <= j < rows[k]@.len() && is_looked_at(
            #[trigger] rows[k]@[j],
            settings,
        ) ==> placeable(crops[k].orig_bbox, rows[k]@[j].offset)
}

/// Whether `after` are the results `before` with what is read in each line that has parts put
/// into its place.
pub open spec fn are_readings<F: Fn(Overlap) -> bool>(
    judge: F,
    rows: Seq<Vec<RawChar>>,
    owners: Seq<usize>,
    crops: Seq<CropMetadata>,
    settings: RecognitionSettings,
    before: Seq<OcrResult>,
    after: Seq<OcrResult>,
) -> bool {
    &&& after.len() == before.len()
    &&& forall|line: int|
        0 <= line < after.len() ==> if has_part(owners, rows.len() as int, line as usize) {
            &&& is_reading(
                judge,
                line_candidates(rows, owners, crops, settings, line as usize),
                (#[trigger] after[line]).text@,
                after[line].chars@,
            )
            &&& after[line].is_vertical == settings.is_vertical
        } else {
            after[line] == before[line]
        }
}

/// Puts what is read in each recognised line into its place among `results`; the other results
/// stay. `rows[k]` holds the answers for part `k`, which lies at `crops[k]` and belongs to the
/// line at position `owners[k]`.
pub fn postprocess_recognition<F: Fn(Overlap) -> bool>(
    judge: &F,
    rows: &Vec<Vec<RawChar>>,
    owners: &Vec<usize>,
    crops: &Vec<CropMetadata>,
    settings: RecognitionSettings,
    results: &mut Vec<OcrResult>,
)
    requires
        is_steady(*judge),
        owners@.len() >= rows@.len(),
        crops@.len() >= rows@.len(),
        all_placeable(rows@, crops@, settings),
        forall|k: int| 0 <= k < rows@.len() ==> #[trigger] owners@[k] < old(results)@.len(),
    ensures
        are_readings(
            *judge,
            rows@,
            owners@,
            crops@,
            settings,
            old(results)@,
            final(results)@,
        ),
{
    let ghost before = results@;
    let count: usize = results.len();
    let mut line: usize = 0;
    while line < count
        invariant
            line <= count,
            count == results@.len(),
            before.len() == results@.len(),
            before == old(results)@,
            is_steady(*judge),
            owners@.len() >= rows@.len(),
            crops@.len() >= rows@.len(),
            all_placeable(rows@, crops@, settings),
            forall|l: int|
                0 <= l < line ==> if has_part(owners@, rows@.len() as int, l as usize) {
                    &&& is_reading(
                        *judge,
                        line_candidates(rows@, owners@, crops@, settings, l as usize),
                        (#[trigger] results@[l]).text@,
                        results@[l].chars@,
                    )
                    &&& results@[l].is_vertical == settings.is_vertical
                } else {
                    results@[l] == before[l]
                },
            forall|l: int| line <= l < count ==> #[trigger] results@[l] == before[l],
        decreases count - line,
    {
        let mut candidates: Vec<Candidate> = Vec::new();
        let mut found = false;
        let mut k: usize = 0;
        assert(rows@.take(0) =~= Seq::empty());
        while k < rows.len()
            invariant
                k <= rows@.len(),
                owners@.len() >= rows@.len(),
                crops@.len() >= rows@.len(),
                all_placeable(rows@, crops@, settings),
                candidates@ == line_candidates(
                    rows@.take(k as int),
                    owners@,
                    crops@,
                    settings,
                    line,
                ),
                found == has_part(owners@, k as int, line),
            decreases rows@.len() - k,
        {
            assert(rows@.take(k + 1).drop_last() =~= rows@.take(k as int));
            if owners[k] == line {
                found = true;
                assert(owners@[k as int] == line);
                assert forall|j: int|
                    0 <= j < rows@[k as int]@.len() && is_looked_at(
                        #[trigger] rows@[k as int]@[j],
                        settings,
                    ) implies placeable(
                    crops@[k as int].orig_bbox,
                    rows@[k as int]@[j].offset,
                ) by {}
                push_part_candidates(&rows[k], crops[k].orig_bbox, settings, &mut candidates);
            }
            k += 1;
        }
        assert(rows@.take(k as int) =~= rows@);
        if found {
            let read = read_line(judge, &candidates, settings.is_vertical);
            results.set(line, read);
        }
        line += 1;
    }
}

/// Whether an answer can be read: its score reaches the threshold, its label is the code of a
/// character, it starts within the contents and, in a vertical line, ends below where it starts.
pub open spec fn is_readable(raw: RawChar, settings: RecognitionSettings) -> bool {
    &&& !floats::less_32(raw.score, settings.threshold)
    &&& raw.label >= 0
    &&& (raw.label < 0xd800 || (raw.label > 0xdfff && raw.label < 0x11_0000))
    &&& !raw.is_beyond
    &&& (settings.is_vertical ==> raw.offset.y2 > raw.offset.y1)
}

/// Whether the corners of an answer in a part at `origin` are coordinates.
pub open spec fn fits(raw: RawChar, origin: PixelRect) -> bool {
    &&& -0x8000_0000 <= origin.x1 + raw.offset.x1 < 0x8000_0000
    &&& -0x8000_0000 <= origin.x1 + raw.offset.x2 < 0x8000_0000
    &&& -0x8000_0000 <= origin.y1 + raw.offset.y1 < 0x8000_0000
    &&& -0x8000_0000 <= origin.y1 + raw.offset.y2 < 0x8000_0000
}

/// Whether a candidate is made of an answer: it has its character and its confidence, weighted
/// where a factor other than one is set and it is punctuation, lies where the answer lies in its
/// part, and takes up the rows of its box in a vertical line, else the columns.
pub open spec fn is_made_of(
    c: Candidate,
    raw: RawChar,
    origin: PixelRect,
    settings: RecognitionSettings,
) -> bool {
    &&& c.character == raw.label as char
    &&& c.bbox.x1 - origin.x1 == raw.offset.x1
    &&& c.bbox.x2 - origin.x1 == raw.offset.x2
    &&& c.bbox.y1 - origin.y1 == raw.offset.y1
    &&& c.bbox.y2 - origin.y1 == raw.offset.y2
    &&& (settings.is_vertical ==> c.start == c.bbox.y1 && c.end == c.bbox.y2)
    &&& (!settings.is_vertical ==> c.start == c.bbox.x1 && c.end == c.bbox.x2)
    &&& (settings.punct_conf_factor == 0x3f80_0000 ==> c.conf == raw.score)
    &&& (!punctuation::punctuation(c.character) ==> c.conf == raw.score)
    &&& (settings.punct_conf_factor != 0x3f80_0000 && punctuation::punctuation(c.character)
        ==> c.conf == raw.weighted_score)
}

/// Whether `places` are the places of the readable answers in a row, in ascending order, and
/// `candidates` what is made of them.
pub open spec fn are_made_of(
    candidates: Seq<Candidate>,
    places: Seq<int>,
    row: Seq<RawChar>,
    origin: PixelRect,
    settings: RecognitionSettings,
) -> bool {
    &&& places.len() == candidates.len()
    &&& forall|k: int|
        0 <= k < places.len() ==> {
            &&& 0 <= #[trigger] places[k] < row.len()
            &&& is_readable(row[places[k]], settings)
            &&& is_made_of(candidates[k], row[places[k]], origin, settings)
        }
    &&& forall|k: int, l: int|
        #![trigger places[k], places[l]]
        0 <= k < l < places.len() ==> places[k] < places[l]
    &&& forall|j: int|
        0 <= j < row.len() && is_readable(#[trigger] row[j], settings) ==> places.contains(j)
}

/// The candidates of a part are made of its readable answers, each of one, in their order. The
/// stretch of a candidate in a vertical line goes from the top of its box to the bottom, in a
/// horizontal one from the left to the right.
pub proof fn law_candidates_are_made_of_readable_answers(
    row: Seq<RawChar>,
    origin: PixelRect,
    settings: RecognitionSettings,
) -> (places: Seq<int>)
    requires
        forall|j: int|
            0 <= j < row.len() && is_readable(#[trigger] row[j], settings) ==> fits(row[j], origin),
    ensures
        are_made_of(part_candidates(row, origin, settings), places, row, origin, settings),
    decreases row.len(),
{
    let candidates = part_candidates(row, origin, settings);
    if row.len() == 0 {
        Seq::empty()
    } else {
        let fewer = row.drop_last();
        assert forall|j: int|
            0 <= j < fewer.len() && is_readable(#[trigger] fewer[j], settings) implies fits(
            fewer[j],
            origin,
        ) by {
            assert(fewer[j] == row[j]);
        }
        let before = law_candidates_are_made_of_readable_answers(fewer, origin, settings);
        let last = row.len() - 1;
        let readable = is_readable(row[last], settings);
        let places = if readable {
            before.push(last)
        } else {
            before
        };
        assert(counts(row[last], origin, settings) == readable);
        if readable {
            assert(fits(row[last], origin));
            assert(candidates.last() == candidate_for(row[last], origin, settings));
            assert(is_made_of(candidates.last(), row[last], origin, settings));
        }
        assert forall|k: int| 0 <= k < places.len() implies {
            &&& 0 <= #[trigger] places[k] < row.len()
            &&& is_readable(row[places[k]], settings)
            &&& is_made_of(candidates[k], row[places[k]], origin, settings)
        } by {
            if k < before.len() {
                assert(before[k] == places[k]);
                assert(fewer[before[k]] == row[before[k]]);
            }
        }
        assert forall|k: int, l: int|
            #![trigger places[k], places[l]]
            0 <= k < l < places.len() implies places[k] < places[l] by {
            assert(before[k] == places[k]);
            if l < before.len() {
                assert(before[l] == places[l]);
            }
        }
        assert forall|j: int|
            0 <= j < row.len() && is_readable(
                #[trigger] row[j],
                settings,
            ) implies places.contains(j) by {
            if j < last {
                assert(fewer[j] == row[j]);
                let k = choose|k: int| 0 <= k < before.len() && before[k] == j;
                assert(places[k] == j);
            } else {
                assert(places[before.len() as int] == j);
            }
        }
        places
    }
}

/// A line without parts has no candidates. Those of a further part come behind the others where
/// the part belongs to the line, and change nothing where it belongs to another.
pub proof fn law_lines_have_the_candidates_of_their_parts(
    rows: Seq<Vec<RawChar>>,
    row: Vec<RawChar>,
    owners: Seq<usize>,
    crops: Seq<CropMetadata>,
    settings: RecognitionSettings,
    line: usize,
)
    ensures
        line_candidates(Seq::empty(), owners, crops, settings, line).len() == 0,
        owners[rows.len() as int] == line ==> line_candidates(
            rows.push(row),
            owners,
            crops,
            settings,
            line,
        ) == line_candidates(rows, owners, crops, settings, line) + part_candidates(
            row@,
            crops[rows.len() as int].orig_bbox,
            settings,
        ),
        owners[rows.len() as int] != line ==> line_candidates(
            rows.push(row),
            owners,
            crops,
            settings,
            line,
        ) == line_candidates(rows, owners, crops, settings, line),
{
    assert(rows.push(row).drop_last() =~= rows);
}

/// Whether a character is the first of a pair that is put right.
pub open spec fn starts_misread_pair(c: char) -> bool {
    c == '儡' || c == '談' || c == '汰' || c == '沱' || c == '攣' || c == '酊' || c == '麭' || c == '哭'
}

/// Whether two characters, in this order, are put right.
pub open spec fn is_misread_pair(a: char, b: char) -> bool {
    ||| a == '儡' && b == '傀'
    ||| a == '談' && b == '冗'
    ||| a == '汰' && b == '淘'
    ||| a == '沱' && b == '滂'
    ||| a == '攣' && b == '痙'
    ||| a == '酊' && b == '酩'
    ||| a == '麭' && b == '麺'
    ||| a == '哭' && b == '慟'
}

proof fn lemma_pair_is_absent(text: Seq<char>, pair: (char, char), from: int)
    requires
        0 <= from,
        forall|k: int|
            from <= k && k + 1 < text.len() ==> #[trigger] text[k] != pair.0 || text[k + 1]
                != pair.1,
    ensures
        pair_position(text, pair, from) + 1 >= text.len(),
    decreases text.len() - from,
{
    if from + 1 < text.len() {
        assert(text[from] != pair.0 || text[from + 1] != pair.1);
        lemma_pair_is_absent(text, pair, from + 1);
    }
}

proof fn lemma_pair_is_at(text: Seq<char>, pair: (char, char), from: int, i: int)
    requires
        0 <= from <= i,
        i + 1 < text.len(),
        text[i] == pair.0,
        text[i + 1] == pair.1,
        forall|k: int|
            from <= k < i ==> #[trigger] text[k] != pair.0 || text[k + 1] != pair.1,
    ensures
        pair_position(text, pair, from) == i,
    decreases i - from,
{
    if from < i {
        assert(text[from] != pair.0 || text[from + 1] != pair.1);
        lemma_pair_is_at(text, pair, from + 1, i);
    }
}

proof fn lemma_pairs_by_number(n: int)
    requires
        0 <= n < swapped_pairs().len(),
    ensures
        swapped_pairs().len() == 8,
        starts_misread_pair(swapped_pairs()[n].0),
        !starts_misread_pair(swapped_pairs()[n].1),
        is_misread_pair(swapped_pairs()[n].0, swapped_pairs()[n].1),
        forall|m: int|
            0 <= m < swapped_pairs().len() && m != n ==> (#[trigger] swapped_pairs()[m]).0
                != swapped_pairs()[n].0,
{
    let pairs = swapped_pairs();
    assert(pairs[0] == ('儡', '傀'));
    assert(pairs[1] == ('談', '冗'));
    assert(pairs[2] == ('汰', '淘'));
    assert(pairs[3] == ('沱', '滂'));
    assert(pairs[4] == ('攣', '痙'));
    assert(pairs[5] == ('酊', '酩'));
    assert(pairs[6] == ('麭', '麺'));
    assert(pairs[7] == ('哭', '慟'));
}

proof fn lemma_nothing_to_put_right(text: Seq<char>, chars: Seq<RecognizedChar>, n: nat)
    requires
        n <= swapped_pairs().len(),
        forall|k: int| 0 <= k < text.len() ==> !starts_misread_pair(#[trigger] text[k]),
    ensures
        all_put_right(text, chars, n) == (text, chars),
    decreases n,
{
    if n > 0 {
        lemma_nothing_to_put_right(text, chars, (n - 1) as nat);
        lemma_pairs_by_number(n - 1);
        lemma_pair_is_absent(text, swapped_pairs()[n - 1], 0);
    }
}

proof fn lemma_one_pair_put_right(
    text: Seq<char>,
    chars: Seq<RecognizedChar>,
    i: int,
    number: int,
    n: nat,
)
    requires
        n <= swapped_pairs().len(),
        0 <= number < swapped_pairs().len(),
        0 <= i,
        i + 1 < text.len(),
        text[i] == swapped_pairs()[number].0,
        text[i + 1] == swapped_pairs()[number].1,
        forall|k: int| 0 <= k < i ==> !starts_misread_pair(#[trigger] text[k]),
        forall|k: int|
            i + 1 < k < text.len() && starts_misread_pair(#[trigger] text[k]) ==> text[k]
                == text[i],
    ensures
        all_put_right(text, chars, n) == (if number < n && i + 1 < chars.len() {
            (exchanged(text, i), exchanged(chars, i))
        } else {
            (text, chars)
        }),
    decreases n,
{
    if n > 0 {
        lemma_one_pair_put_right(text, chars, i, number, (n - 1) as nat);
        lemma_pairs_by_number(number);
        lemma_pairs_by_number(n - 1);
        let pair = swapped_pairs()[n - 1];
        let before = all_put_right(text, chars, (n - 1) as nat).0;
        if number == n - 1 {
            lemma_pair_is_at(text, pair, 0, i);
        } else {
            assert forall|k: int|
                0 <= k && k + 1 < before.len() implies #[trigger] before[k] != pair.0 || before[k
                + 1] != pair.1 by {
                if before[k] == pair.0 {
                    assert(starts_misread_pair(before[k]));
                    if k < i || k > i + 1 {
                        assert(before[k] == text[k]);
                    }
                }
            }
            lemma_pair_is_absent(before, pair, 0);
        }
    }
}

/// A text without the first characters of misread pairs stays as it is.
pub proof fn law_other_texts_stay(text: Seq<char>, chars: Seq<RecognizedChar>)
    requires
        forall|k: int| 0 <= k < text.len() ==> !starts_misread_pair(#[trigger] text[k]),
    ensures
        all_put_right(text, chars, swapped_pairs().len()) == (text, chars),
{
    lemma_nothing_to_put_right(text, chars, swapped_pairs().len());
}

/// Where a misread pair stands first at `i`, its two characters change places, in the text and
/// among the characters, and nothing else changes, even where the same pair stands again behind.
/// If there are too few characters nothing changes at all.
pub proof fn law_misread_pairs_change_places(text: Seq<char>, chars: Seq<RecognizedChar>, i: int)
    requires
        0 <= i,
        i + 1 < text.len(),
        is_misread_pair(text[i], text[i + 1]),
        forall|k: int| 0 <= k < i ==> !starts_misread_pair(#[trigger] text[k]),
        forall|k: int|
            i + 1 < k < text.len() && starts_misread_pair(#[trigger] text[k]) ==> text[k]
                == text[i],
    ensures
        ({
            let right = all_put_right(text, chars, swapped_pairs().len());
            if i + 1 < chars.len() {
                &&& right.0.len() == text.len() && right.1.len() == chars.len()
                &&& right.0[i] == text[i + 1] && right.0[i + 1] == text[i]
                &&& right.1[i] == chars[i + 1] && right.1[i + 1] == chars[i]
                &&& forall|k: int|
                    0 <= k < text.len() && k != i && k != i + 1 ==> #[trigger] right.0[k]
                        == text[k]
                &&& forall|k: int|
                    0 <= k < chars.len() && k != i && k != i + 1 ==> #[trigger] right.1[k]
                        == chars[k]
            } else {
                right.0 == text && right.1 == chars
            }
        }),
{
    let pairs = swapped_pairs();
    assert(pairs[0] == ('儡', '傀'));
    assert(pairs[1] == ('談', '冗'));
    assert(pairs[2] == ('汰', '淘'));
    assert(pairs[3] == ('沱', '滂'));
    assert(pairs[4] == ('攣', '痙'));
    assert(pairs[5] == ('酊', '酩'));
    assert(pairs[6] == ('麭', '麺'));
    assert(pairs[7] == ('哭', '慟'));
    let number = if text[i] == '儡' {
        0
    } else if text[i] == '談' {
        1
    } else if text[i] == '汰' {
        2
    } else if text[i] == '沱' {
        3
    } else if text[i] == '攣' {
        4int
    } else if text[i] == '酊' {
        5
    } else if text[i] == '麭' {
        6
    } else {
        7
    };
    lemma_one_pair_put_right(text, chars, i, number, pairs.len());
}

/// Whether a candidate shares coordinates with another, and how: `overlap` holds how many they
/// share and how long both are.
pub open spec fn share(a: Candidate, c: Candidate, overlap: Overlap) -> bool {
    &&& a.end > c.start && c.end > a.start
    &&& overlap.candidate_len == c.end - c.start
    &&& overlap.accepted_len == a.end - a.start
    &&& overlap.common == vstd::math::max(
        0,
        vstd::math::min(a.end as int, c.end as int) - vstd::math::max(
            a.start as int,
            c.start as int,
        ),
    )
}

/// Whether the judge found that a candidate shares too much with one that is at least as
/// confident.
pub open spec fn gives_way<F: Fn(Overlap) -> bool>(judge: F, c: Candidate, a: Candidate) -> bool {
    &&& floats::total_32(a.conf) >= floats::total_32(c.conf)
    &&& exists|o: Overlap| share(a, c, o) && #[trigger] call_ensures(judge, (o,), true)
}

/// Whether the judge found that a candidate does not share too much with one that is at least as
/// confident.
pub open spec fn stands_beside<F: Fn(Overlap) -> bool>(
    judge: F,
    c: Candidate,
    a: Candidate,
) -> bool {
    &&& floats::total_32(a.conf) >= floats::total_32(c.conf)
    &&& exists|o: Overlap| share(a, c, o) && #[trigger] call_ensures(judge, (o,), false)
}

/// Whether the candidate at `m` clashes with one before it at one of the places.
spec fn is_beaten(
    too_large: Verdicts,
    candidates: Seq<Candidate>,
    places: Seq<int>,
    m: int,
) -> bool {
    exists|k: int|
        0 <= k < places.len() && #[trigger] places[k] < m && clashes(
            too_large,
            candidates[places[k]],
            candidates[m],
        )
}

proof fn lemma_places_of_survivors(too_large: Verdicts, candidates: Seq<Candidate>) -> (places: Seq<
    int,
>)
    ensures
        places.len() == survivors(too_large, candidates).len(),
        forall|k: int|
            0 <= k < places.len() ==> 0 <= #[trigger] places[k] < candidates.len()
                && survivors(too_large, candidates)[k] == candidates[places[k]],
        forall|k: int, l: int|
            #![trigger places[k], places[l]]
            0 <= k < l < places.len() ==> places[k] < places[l],
        forall|m: int|
            0 <= m < candidates.len() ==> #[trigger] places.contains(m) || is_beaten(
                too_large,
                candidates,
                places,
                m,
            ),
    decreases candidates.len(),
{
    if candidates.len() == 0 {
        Seq::empty()
    } else {
        let fewer = candidates.drop_last();
        let last = candidates.len() - 1;
        let before = lemma_places_of_survivors(too_large, fewer);
        let kept = survivors(too_large, fewer);
        let out = is_suppressed(too_large, kept, candidates[last]);
        let places = if out {
            before
        } else {
            before.push(last)
        };
        assert forall|k: int| 0 <= k < places.len() implies 0 <= #[trigger] places[k]
            < candidates.len() && survivors(too_large, candidates)[k] == candidates[places[k]] by {
            if k < before.len() {
                assert(before[k] == places[k]);
                assert(fewer[before[k]] == candidates[before[k]]);
            }
        }
        assert forall|k: int, l: int|
            #![trigger places[k], places[l]]
            0 <= k < l < places.len() implies places[k] < places[l] by {
            assert(before[k] == places[k]);
            if l < before.len() {
                assert(before[l] == places[l]);
            }
        }
        assert forall|m: int| 0 <= m < candidates.len() implies #[trigger] places.contains(m)
            || is_beaten(too_large, candidates, places, m) by {
            if m < last {
                assert(fewer[m] == candidates[m]);
                if before.contains(m) {
                    let k = choose|k: int| 0 <= k < before.len() && before[k] == m;
                    assert(places[k] == m);
                } else {
                    assert(is_beaten(too_large, fewer, before, m));
                    let k = choose|k: int|
                        0 <= k < before.len() && #[trigger] before[k] < m && clashes(
                            too_large,
                            fewer[before[k]],
                            fewer[m],
                        );
                    assert(places[k] == before[k]);
                    assert(fewer[before[k]] == candidates[before[k]]);
                }
            } else if out {
                let k = choose|k: int|
                    0 <= k < kept.len() && clashes(too_large, #[trigger] kept[k], candidates[last]);
                assert(places[k] == before[k]);
                assert(fewer[before[k]] == candidates[before[k]]);
            } else {
                assert(places[before.len() as int] == last);
            }
        }
        places
    }
}

/// Whether `places` are the places of the candidates that are read as `chars`: along the line,
/// none twice.
pub open spec fn are_read_at(
    candidates: Seq<Candidate>,
    places: Seq<int>,
    text: Seq<char>,
    chars: Seq<RecognizedChar>,
) -> bool {
    &&& places.len() == chars.len() && text.len() == chars.len()
    &&& forall|k: int|
        0 <= k < places.len() ==> {
            &&& 0 <= #[trigger] places[k] < candidates.len()
            &&& chars[k].character == candidates[places[k]].character
            &&& chars[k].bbox == candidates[places[k]].bbox
            &&& chars[k].conf == candidates[places[k]].conf
            &&& text[k] == candidates[places[k]].character
        }
    &&& forall|k: int, l: int|
        #![trigger places[k], places[l]]
        0 <= k < l < places.len() ==> places[k] != places[l] && candidates[places[k]].start
            <= candidates[places[l]].start
}

/// What is read in a line are candidates in the order of their starts. Of two that are read and
/// share coordinates the judge allowed the less confident one, and each that is not read shares
/// too much, as the judge found, with one that is read and is at least as confident.
pub proof fn law_confident_candidates_are_read<F: Fn(Overlap) -> bool>(
    judge: F,
    candidates: Seq<Candidate>,
    text: Seq<char>,
    chars: Seq<RecognizedChar>,
) -> (places: Seq<int>)
    requires
        is_reading(judge, candidates, text, chars),
        forall|i: int|
            0 <= i < candidates.len() ==> !starts_misread_pair(
                (#[trigger] candidates[i]).character,
            ),
    ensures
        are_read_at(candidates, places, text, chars),
        forall|k: int, l: int|
            #![trigger places[k], places[l]]
            0 <= k < places.len() && 0 <= l < places.len() && k != l ==> {
                let a = candidates[places[k]];
                let c = candidates[places[l]];
                a.end > c.start && c.end > a.start ==> stands_beside(judge, c, a)
                    || stands_beside(judge, a, c)
            },
        forall|m: int|
            0 <= m < candidates.len() && !places.contains(m) ==> exists|k: int|
                0 <= k < places.len() && gives_way(
                    judge,
                    #[trigger] candidates[m],
                    candidates[#[trigger] places[k]],
                ),
{
    let too_large = verdicts(judge);
    let (sorted, kept) = choose|sorted: Seq<Candidate>, kept: Seq<Candidate>|
        #![trigger by_confidence(candidates, sorted), by_start(survivors(verdicts(judge), sorted), kept)]
        by_confidence(candidates, sorted) && by_start(survivors(verdicts(judge), sorted), kept)
            && are_cleared(judge, survivors(verdicts(judge), sorted)) && (text, chars)
            == all_put_right(
            letters_of(recognised(kept)),
            recognised(kept),
            swapped_pairs().len(),
        );
    let accepted = survivors(too_large, sorted);
    let first = choose|order: Seq<usize>| #[trigger]
        order::is_stable_order(conf_keys(candidates), order) && sorted == arranged(
            candidates,
            order,
        );
    let second = choose|order: Seq<usize>| #[trigger]
        order::is_stable_order(start_keys(accepted), order) && kept == arranged(accepted, order);
    let middle = lemma_places_of_survivors(too_large, sorted);
    order::law_sorting_goes_by_keys(conf_keys(candidates), first);
    order::law_sorting_goes_by_keys(start_keys(accepted), second);
    let places = Seq::new(second.len(), |k: int| first[middle[second[k] as int]] as int);
    assert forall|k: int| 0 <= k < places.len() implies 0 <= #[trigger] places[k]
        < candidates.len() && kept[k] == candidates[places[k]] && accepted[second[k] as int]
        == candidates[places[k]] by {
        let s = second[k] as int;
        assert(second[k] < start_keys(accepted).len());
        let p = middle[s];
        assert(first[p] < conf_keys(candidates).len());
        assert(accepted[s] == sorted[p]);
        assert(sorted[p] == candidates[first[p] as int]);
    }
    let letters = letters_of(recognised(kept));
    assert forall|k: int| 0 <= k < letters.len() implies !starts_misread_pair(
        #[trigger] letters[k],
    ) by {
        assert(kept[k] == candidates[places[k]]);
    }
    law_other_texts_stay(letters, recognised(kept));
    assert forall|p: int, q: int| 0 <= p < q < sorted.len() implies floats::total_32(
        (#[trigger] sorted[p]).conf,
    ) >= floats::total_32((#[trigger] sorted[q]).conf) by {
        assert(sorted[p] == candidates[first[p] as int] && sorted[q] == candidates[first[q] as int]);
        assert(conf_keys(candidates)[first[p] as int] == conf_key(sorted[p]));
        assert(conf_keys(candidates)[first[q] as int] == conf_key(sorted[q]));
        floats::law_singles_have_a_total_order(sorted[p].conf, sorted[q].conf);
        floats::law_singles_have_a_total_order(sorted[q].conf, sorted[p].conf);
    }
    assert forall|k: int, l: int|
        #![trigger places[k], places[l]]
        0 <= k < l < places.len() implies places[k] != places[l] && candidates[places[k]].start
        <= candidates[places[l]].start by {
        let s = second[k] as int;
        let t = second[l] as int;
        assert(s != t);
        assert(middle[s] != middle[t]);
        assert(first[middle[s]] != first[middle[t]]);
        assert(start_keys(accepted)[s] == start_key(accepted[s]));
        assert(start_keys(accepted)[t] == start_key(accepted[t]));
    }
    assert forall|k: int, l: int|
        #![trigger places[k], places[l]]
        0 <= k < places.len() && 0 <= l < places.len() && k != l implies {
        let a = candidates[places[k]];
        let c = candidates[places[l]];
        a.end > c.start && c.end > a.start ==> stands_beside(judge, c, a) || stands_beside(
            judge,
            a,
            c,
        )
    } by {
        let a = candidates[places[k]];
        let c = candidates[places[l]];
        if a.end > c.start && c.end > a.start {
            let s = second[k] as int;
            let t = second[l] as int;
            assert(second[k] != second[l]) by {
                if k < l {
                } else {
                }
            }
            assert(accepted[s] == a && accepted[t] == c);
            if s < t {
                assert(is_cleared(judge, accepted[s], accepted[t]));
                assert(share(a, c, overlap_of(a, c)));
                assert(middle[s] < middle[t]);
                assert(sorted[middle[s]] == a && sorted[middle[t]] == c);
                assert(call_ensures(judge, (overlap_of(a, c),), false));
            } else {
                assert(is_cleared(judge, accepted[t], accepted[s]));
                assert(share(c, a, overlap_of(c, a)));
                assert(middle[t] < middle[s]);
                assert(sorted[middle[s]] == a && sorted[middle[t]] == c);
                assert(call_ensures(judge, (overlap_of(c, a),), false));
            }
        }
    }
    assert forall|m: int| 0 <= m < candidates.len() && !places.contains(m) implies exists|k: int|
        0 <= k < places.len() && gives_way(
            judge,
            #[trigger] candidates[m],
            candidates[#[trigger] places[k]],
        ) by {
        let c = candidates[m];
        order::lemma_order_holds_all(conf_keys(candidates), first, m);
        let q = choose|q: int| 0 <= q < first.len() && #[trigger] first[q] == m;
        assert(sorted[q] == c);
        if middle.contains(q) {
            let s = choose|s: int| 0 <= s < middle.len() && middle[s] == q;
            order::lemma_order_holds_all(start_keys(accepted), second, s);
            let k = choose|k: int| 0 <= k < second.len() && #[trigger] second[k] == s;
            assert(places[k] == m);
        }
        assert(is_beaten(too_large, sorted, middle, q));
        let s = choose|s: int|
            0 <= s < middle.len() && #[trigger] middle[s] < q && clashes(
                too_large,
                sorted[middle[s]],
                sorted[q],
            );
        order::lemma_order_holds_all(start_keys(accepted), second, s);
        let k = choose|k: int| 0 <= k < second.len() && #[trigger] second[k] == s;
        let a = candidates[places[k]];
        assert(a == sorted[middle[s]]);
        assert(share(a, c, overlap_of(a, c)));
        assert(call_ensures(judge, (overlap_of(a, c),), true));
        assert(gives_way(judge, candidates[m], candidates[places[k]]));
    }
    places
}

/// Candidates that share no coordinates are all read, in the order of their starts.
pub proof fn law_candidates_apart_are_all_read<F: Fn(Overlap) -> bool>(
    judge: F,
    candidates: Seq<Candidate>,
    text: Seq<char>,
    chars: Seq<RecognizedChar>,
) -> (places: Seq<int>)
    requires
        is_reading(judge, candidates, text, chars),
        forall|i: int|
            0 <= i < candidates.len() ==> !starts_misread_pair(
                (#[trigger] candidates[i]).character,
            ),
        forall|i: int|
            0 <= i < candidates.len() ==> (#[trigger] candidates[i]).start < candidates[i].end,
        forall|i: int, j: int|
            #![trigger candidates[i], candidates[j]]
            0 <= i < j < candidates.len() ==> candidates[i].end <= candidates[j].start
                || candidates[j].end <= candidates[i].start,
    ensures
        are_read_at(candidates, places, text, chars),
        forall|m: int| 0 <= m < candidates.len() ==> #[trigger] places.contains(m),
{
    let places = law_confident_candidates_are_read(judge, candidates, text, chars);
    assert forall|m: int| 0 <= m < candidates.len() implies #[trigger] places.contains(m) by {
        if !places.contains(m) {
            let c = candidates[m];
            let k = choose|k: int|
                0 <= k < places.len() && gives_way(
                    judge,
                    candidates[m],
                    candidates[#[trigger] places[k]],
                );
            let a = candidates[places[k]];
            assert(a.end > c.start && c.end > a.start);
            assert(places[k] != m);
            if places[k] < m {
                assert(candidates[places[k]].end <= candidates[m].start || candidates[m].end
                    <= candidates[places[k]].start);
            } else {
                assert(candidates[m].end <= candidates[places[k]].start
                    || candidates[places[k]].end <= candidates[m].start);
            }
        }
    }
    places
}

/// Where the readable answers of a vertical part lie in rows apart from each other, all of them
/// are read, from the top down, whatever columns they take up.
pub proof fn law_vertical_answers_are_read_downwards<F: Fn(Overlap) -> bool>(
    judge: F,
    row: Seq<RawChar>,
    origin: PixelRect,
    settings: RecognitionSettings,
    text: Seq<char>,
    chars: Seq<RecognizedChar>,
) -> (places: Seq<int>)
    requires
        settings.is_vertical,
        is_reading(judge, part_candidates(row, origin, settings), text, chars),
        forall|j: int|
            0 <= j < row.len() && is_readable(#[trigger] row[j], settings) ==> fits(row[j], origin)
                && !starts_misread_pair(row[j].label as char),
        forall|i: int, j: int|
            #![trigger row[i], row[j]]
            0 <= i < j < row.len() && is_readable(row[i], settings) && is_readable(row[j], settings)
                ==> row[i].offset.y2 <= row[j].offset.y1 || row[j].offset.y2 <= row[i].offset.y1,
    ensures
        places.len() == chars.len() && text.len() == chars.len(),
        forall|k: int|
            0 <= k < places.len() ==> {
                &&& 0 <= #[trigger] places[k] < row.len()
                &&& is_readable(row[places[k]], settings)
                &&& text[k] == row[places[k]].label as char
                &&& chars[k].character == text[k]
                &&& chars[k].bbox.x1 == origin.x1 + row[places[k]].offset.x1
                &&& chars[k].bbox.y1 == origin.y1 + row[places[k]].offset.y1
                &&& chars[k].bbox.x2 == origin.x1 + row[places[k]].offset.x2
                &&& chars[k].bbox.y2 == origin.y1 + row[places[k]].offset.y2
            },
        forall|k: int, l: int|
            #![trigger places[k], places[l]]
            0 <= k < l < places.len() ==> row[places[k]].offset.y2 <= row[places[l]].offset.y1,
        forall|j: int|
            0 <= j < row.len() && is_readable(#[trigger] row[j], settings) ==> places.contains(j),
{
    lemma_answers_apart_are_read(judge, row, origin, settings, text, chars)
}

/// Where the readable answers of a horizontal part lie in columns apart from each other, all of
/// them are read, from the left to the right, whatever rows they take up.
pub proof fn law_horizontal_answers_are_read_rightwards<F: Fn(Overlap) -> bool>(
    judge: F,
    row: Seq<RawChar>,
    origin: PixelRect,
    settings: RecognitionSettings,
    text: Seq<char>,
    chars: Seq<RecognizedChar>,
) -> (places: Seq<int>)
    requires
        !settings.is_vertical,
        is_reading(judge, part_candidates(row, origin, settings), text, chars),
        forall|j: int|
            0 <= j < row.len() && is_readable(#[trigger] row[j], settings) ==> fits(row[j], origin)
                && !starts_misread_pair(row[j].label as char) && row[j].offset.x1
                < row[j].offset.x2,
        forall|i: int, j: int|
            #![trigger row[i], row[j]]
            0 <= i < j < row.len() && is_readable(row[i], settings) && is_readable(row[j], settings)
                ==> row[i].offset.x2 <= row[j].offset.x1 || row[j].offset.x2 <= row[i].offset.x1,
    ensures
        places.len() == chars.len() && text.len() == chars.len(),
        forall|k: int|
            0 <= k < places.len() ==> {
                &&& 0 <= #[trigger] places[k] < row.len()
                &&& is_readable(row[places[k]], settings)
                &&& text[k] == row[places[k]].label as char
                &&& chars[k].character == text[k]
                &&& chars[k].bbox.x1 == origin.x1 + row[places[k]].offset.x1
                &&& chars[k].bbox.y1 == origin.y1 + row[places[k]].offset.y1
                &&& chars[k].bbox.x2 == origin.x1 + row[places[k]].offset.x2
                &&& chars[k].bbox.y2 == origin.y1 + row[places[k]].offset.y2
            },
        forall|k: int, l: int|
            #![trigger places[k], places[l]]
            0 <= k < l < places.len() ==> row[places[k]].offset.x2 <= row[places[l]].offset.x1,
        forall|j: int|
            0 <= j < row.len() && is_readable(#[trigger] row[j], settings) ==> places.contains(j),
{
    lemma_answers_apart_are_read(judge, row, origin, settings, text, chars)
}

/// Where an answer starts along the line, relative to its part.
spec fn head(raw: RawChar, settings: RecognitionSettings) -> int {
    if settings.is_vertical {
        raw.offset.y1 as int
    } else {
        raw.offset.x1 as int
    }
}

/// Where an answer ends along the line, relative to its part.
spec fn tail(raw: RawChar, settings: RecognitionSettings) -> int {
    if settings.is_vertical {
        raw.offset.y2 as int
    } else {
        raw.offset.x2 as int
    }
}

proof fn lemma_answers_apart_are_read<F: Fn(Overlap) -> bool>(
    judge: F,
    row: Seq<RawChar>,
    origin: PixelRect,
    settings: RecognitionSettings,
    text: Seq<char>,
    chars: Seq<RecognizedChar>,
) -> (places: Seq<int>)
    requires
        is_reading(judge, part_candidates(row, origin, settings), text, chars),
        forall|j: int|
            0 <= j < row.len() && is_readable(#[trigger] row[j], settings) ==> fits(row[j], origin)
                && !starts_misread_pair(row[j].label as char) && head(row[j], settings) < tail(
                row[j],
                settings,
            ),
        forall|i: int, j: int|
            #![trigger row[i], row[j]]
            0 <= i < j < row.len() && is_readable(row[i], settings) && is_readable(row[j], settings)
                ==> tail(row[i], settings) <= head(row[j], settings) || tail(row[j], settings)
                <= head(row[i], settings),
    ensures
        places.len() == chars.len() && text.len() == chars.len(),
        forall|k: int|
            0 <= k < places.len() ==> {
                &&& 0 <= #[trigger] places[k] < row.len()
                &&& is_readable(row[places[k]], settings)
                &&& text[k] == row[places[k]].label as char
                &&& chars[k].character == text[k]
                &&& chars[k].bbox.x1 == origin.x1 + row[places[k]].offset.x1
                &&& chars[k].bbox.y1 == origin.y1 + row[places[k]].offset.y1
                &&& chars[k].bbox.x2 == origin.x1 + row[places[k]].offset.x2
                &&& chars[k].bbox.y2 == origin.y1 + row[places[k]].offset.y2
            },
        forall|k: int, l: int|
            #![trigger places[k], places[l]]
            0 <= k < l < places.len() ==> tail(row[places[k]], settings) <= head(
                row[places[l]],
                settings,
            ),
        forall|j: int|
            0 <= j < row.len() && is_readable(#[trigger] row[j], settings) ==> places.contains(j),
{
    let candidates = part_candidates(row, origin, settings);
    let from = law_candidates_are_made_of_readable_answers(row, origin, settings);
    assert forall|i: int| 0 <= i < candidates.len() implies !starts_misread_pair(
        (#[trigger] candidates[i]).character,
    ) && candidates[i].start < candidates[i].end by {
        assert(is_made_of(candidates[i], row[from[i]], origin, settings));
        assert(is_readable(row[from[i]], settings));
    }
    assert forall|i: int, j: int|
        #![trigger candidates[i], candidates[j]]
        0 <= i < j < candidates.len() implies candidates[i].end <= candidates[j].start
        || candidates[j].end <= candidates[i].start by {
        assert(is_made_of(candidates[i], row[from[i]], origin, settings));
        assert(is_made_of(candidates[j], row[from[j]], origin, settings));
        assert(from[i] < from[j]);
        assert(is_readable(row[from[i]], settings) && is_readable(row[from[j]], settings));
    }
    let order = law_candidates_apart_are_all_read(judge, candidates, text, chars);
    let places = Seq::new(order.len(), |k: int| from[order[k]]);
    assert forall|k: int| 0 <= k < places.len() implies {
        &&& 0 <= #[trigger] places[k] < row.len()
        &&& is_readable(row[places[k]], settings)
        &&& is_made_of(candidates[order[k]], row[places[k]], origin, settings)
        &&& text[k] == row[places[k]].label as char
        &&& chars[k].character == text[k]
        &&& chars[k].bbox == candidates[order[k]].bbox
    } by {
        assert(0 <= order[k] < candidates.len());
        assert(from[order[k]] == places[k]);
    }
    assert forall|k: int, l: int|
        #![trigger places[k], places[l]]
        0 <= k < l < places.len() implies tail(row[places[k]], settings) <= head(
        row[places[l]],
        settings,
    ) by {
        assert(order[k] != order[l]);
        assert(candidates[order[k]].start <= candidates[order[l]].start);
        assert(is_made_of(candidates[order[k]], row[places[k]], origin, settings));
        assert(is_made_of(candidates[order[l]], row[places[l]], origin, settings));
        let a = row[places[k]];
        let b = row[places[l]];
        assert(is_readable(a, settings) && is_readable(b, settings));
        assert(places[k] != places[l]) by {
            assert(from[order[k]] == places[k] && from[order[l]] == places[l]);
        }
        if places[k] < places[l] {
            assert(tail(row[places[k]], settings) <= head(row[places[l]], settings) || tail(
                row[places[l]],
                settings,
            ) <= head(row[places[k]], settings));
        } else {
            assert(tail(row[places[l]], settings) <= head(row[places[k]], settings) || tail(
                row[places[k]],
                settings,
            ) <= head(row[places[l]], settings));
        }
    }
    assert forall|j: int|
        0 <= j < row.len() && is_readable(
            #[trigger] row[j],
            settings,
        ) implies places.contains(j) by {
        let m = choose|m: int| 0 <= m < from.len() && from[m] == j;
        assert(order.contains(m));
        let k = choose|k: int| 0 <= k < order.len() && order[k] == m;
        assert(places[k] == j);
    }
    places
}

proof fn lemma_one_part(
    rows: Seq<Vec<RawChar>>,
    owners: Seq<usize>,
    crops: Seq<CropMetadata>,
    settings: RecognitionSettings,
    line: usize,
    part: int,
)
    requires
        0 <= part,
        forall|k: int| 0 <= k < rows.len() && k != part ==> #[trigger] owners[k] != line,
        part < rows.len() ==> owners[part] == line,
    ensures
        line_candidates(rows, owners, crops, settings, line) == (if part < rows.len() {
            part_candidates(rows[part]@, crops[part].orig_bbox, settings)
        } else {
            Seq::empty()
        }),
    decreases rows.len(),
{
    if rows.len() > 0 {
        let fewer = rows.drop_last();
        let k = rows.len() - 1;
        lemma_one_part(fewer, owners, crops, settings, line, part);
        if k == part {
            let own = part_candidates(rows[k]@, crops[k].orig_bbox, settings);
            assert(Seq::<Candidate>::empty() + own =~= own);
        } else {
            assert(owners[k] != line);
        }
    }
}

/// What is read in a vertical line of one part, whose readable answers lie in rows apart from
/// each other, are all these answers from the top down; a line without parts keeps its result.
/// `places` are those of the answers in the part.
pub proof fn law_vertical_lines_are_read_downwards<F: Fn(Overlap) -> bool>(
    judge: F,
    rows: Seq<Vec<RawChar>>,
    owners: Seq<usize>,
    crops: Seq<CropMetadata>,
    settings: RecognitionSettings,
    before: Seq<OcrResult>,
    after: Seq<OcrResult>,
    part: int,
    other: int,
) -> (places: Seq<int>)
    requires
        are_readings(judge, rows, owners, crops, settings, before, after),
        settings.is_vertical,
        0 <= part < rows.len() && rows.len() <= owners.len(),
        owners[part] < after.len(),
        forall|k: int| 0 <= k < rows.len() && k != part ==> #[trigger] owners[k] != owners[part],
        forall|j: int|
            0 <= j < rows[part]@.len() && is_readable(#[trigger] rows[part]@[j], settings) ==> fits(
                rows[part]@[j],
                crops[part].orig_bbox,
            ) && !starts_misread_pair(rows[part]@[j].label as char),
        forall|i: int, j: int|
            #![trigger rows[part]@[i], rows[part]@[j]]
            0 <= i < j < rows[part]@.len() && is_readable(rows[part]@[i], settings) && is_readable(
                rows[part]@[j],
                settings,
            ) ==> rows[part]@[i].offset.y2 <= rows[part]@[j].offset.y1
                || rows[part]@[j].offset.y2 <= rows[part]@[i].offset.y1,
        0 <= other < after.len() && other <= usize::MAX,
        forall|k: int| 0 <= k < rows.len() ==> #[trigger] owners[k] != other,
    ensures
        after.len() == before.len(),
        after[other] == before[other],
        after[owners[part] as int].is_vertical,
        ({
            let read = after[owners[part] as int];
            &&& places.len() == read.text@.len() && places.len() == read.chars@.len()
            &&& forall|k: int|
                0 <= k < places.len() ==> {
                    &&& 0 <= #[trigger] places[k] < rows[part]@.len()
                    &&& is_readable(rows[part]@[places[k]], settings)
                    &&& read.text@[k] == rows[part]@[places[k]].label as char
                    &&& read.chars@[k].bbox.y1 == crops[part].orig_bbox.y1
                        + rows[part]@[places[k]].offset.y1
                }
            &&& forall|k: int, l: int|
                #![trigger places[k], places[l]]
                0 <= k < l < places.len() ==> rows[part]@[places[k]].offset.y2
                    <= rows[part]@[places[l]].offset.y1
        }),
        forall|j: int|
            0 <= j < rows[part]@.len() && is_readable(#[trigger] rows[part]@[j], settings)
                ==> places.contains(j),
{
    let line = owners[part];
    lemma_one_part(rows, owners, crops, settings, line, part);
    assert(has_part(owners, rows.len() as int, line));
    assert(!has_part(owners, rows.len() as int, other as usize));
    let read = after[line as int];
    assert(after[other] == before[other]);
    law_vertical_answers_are_read_downwards(
        judge,
        rows[part]@,
        crops[part].orig_bbox,
        settings,
        read.text@,
        read.chars@,
    )
}

} // verus!
