//! Text lines found in an image and how they are cut out for recognition.

use crate::floats;
use crate::floats::is_less_32;
use crate::order;
use crate::order::stable_order;
use vstd::prelude::*;

verus! {

/// Width of the images that horizontal lines are scaled to.
pub const INPUT_REC_WIDTH: usize = 960;

/// Height of the images that horizontal lines are scaled to.
pub const INPUT_REC_HEIGHT: usize = 32;

/// Width of the images that vertical lines are scaled to.
pub const INPUT_VREC_WIDTH: usize = 32;

/// Height of the images that vertical lines are scaled to.
pub const INPUT_VREC_HEIGHT: usize = 480;

/// Greatest height of the parts that a long vertical line is split into.
pub const VREC_MAX_CONTENT_HEIGHT: usize = 420;

/// A rectangle of pixels by its left, top, right and bottom edge.
#[derive(Clone, Copy, Debug, PartialEq, Eq, Structural, Default)]
pub struct PixelRect {
    pub x1: i32,
    pub y1: i32,
    pub x2: i32,
    pub y2: i32,
}

/// A text line in an image.
#[derive(Clone, Copy, Debug, PartialEq, Eq, Structural, Default)]
pub struct TextBox {
    pub bbox: PixelRect,
}

/// The boxes whose score, a single, is greater than `threshold`.
pub open spec fn confident_boxes(
    boxes: Seq<PixelRect>,
    scores: Seq<u32>,
    threshold: u32,
) -> Seq<TextBox>
    decreases boxes.len(),
{
    if boxes.len() == 0 || scores.len() == 0 {
        Seq::empty()
    } else {
        let n = if boxes.len() < scores.len() {
            boxes.len() - 1
        } else {
            scores.len() - 1
        };
        let before = confident_boxes(boxes.take(n), scores.take(n), threshold);
        if floats::less_32(threshold, scores[n]) {
            before.push(TextBox { bbox: boxes[n] })
        } else {
            before
        }
    }
}

/// The key that text lines are sorted by: their top edge.
pub open spec fn top_key(text_box: TextBox) -> (u64, u64) {
    ((text_box.bbox.y1 + 0x8000_0000) as u64, 0)
}

/// The sort keys of text lines.
pub open spec fn top_keys(boxes: Seq<TextBox>) -> Seq<(u64, u64)> {
    Seq::new(boxes.len(), |i: int| top_key(boxes[i]))
}

/// A number that orders coordinates.
pub fn coordinate_key(value: i32) -> (r: u64)
    ensures
        r == value + 0x8000_0000,
{
    (value as i64 + 0x8000_0000) as u64
}

/// Whether `found` are the boxes whose score is greater than `threshold`, from the topmost down.
pub open spec fn are_detected(
    boxes: Seq<PixelRect>,
    scores: Seq<u32>,
    threshold: u32,
    found: Seq<TextBox>,
) -> bool {
    exists|order: Seq<usize>| #[trigger]
        order::is_stable_order(top_keys(confident_boxes(boxes, scores, threshold)), order)
            && found == Seq::new(
            order.len(),
            |i: int| confident_boxes(boxes, scores, threshold)[order[i] as int],
        )
}

/// The detected text lines, from the topmost down: those whose score is greater than
/// `threshold`. Scores are the bit patterns of singles.
pub fn detected_boxes(boxes: &Vec<PixelRect>, scores: &Vec<u32>, threshold: u32) -> (r: Vec<
    TextBox,
>)
    ensures
        are_detected(boxes@, scores@, threshold, r@),
{
    let count: usize = if boxes.len() < scores.len() {
        boxes.len()
    } else {
        scores.len()
    };
    let mut found: Vec<TextBox> = Vec::new();
    let mut keys: Vec<(u64, u64)> = Vec::new();
    let mut i: usize = 0;
    while i < count
        invariant
            i <= count,
            count <= boxes@.len(),
            count <= scores@.len(),
            found@ == confident_boxes(boxes@.take(i as int), scores@.take(i as int), threshold),
            keys@ == top_keys(found@),
        decreases count - i,
    {
        assert(boxes@.take(i + 1).take(i as int) =~= boxes@.take(i as int));
        assert(scores@.take(i + 1).take(i as int) =~= scores@.take(i as int));
        if is_less_32(threshold, scores[i]) {
            let text_box = TextBox { bbox: boxes[i] };
            found.push(text_box);
            keys.push((coordinate_key(text_box.bbox.y1), 0));
            assert(keys@ =~= top_keys(found@));
        }
        i += 1;
    }
    proof {
        lemma_common_length(boxes@, scores@, threshold, count as int);
    }
    let order = stable_order(&keys);
    let mut sorted: Vec<TextBox> = Vec::new();
    let mut k: usize = 0;
    while k < order.len()
        invariant
            k <= order@.len(),
            order::is_stable_order(top_keys(found@), order@),
            sorted@.len() == k,
            forall|j: int| 0 <= j < k ==> #[trigger] sorted@[j] == found@[order@[j] as int],
        decreases order@.len() - k,
    {
        sorted.push(found[order[k]]);
        k += 1;
    }
    assert(sorted@ =~= Seq::new(order@.len(), |i: int| found@[order@[i] as int]));
    sorted
}

proof fn lemma_common_length(
    boxes: Seq<PixelRect>,
    scores: Seq<u32>,
    threshold: u32,
    count: int,
)
    requires
        count == boxes.len() && count <= scores.len() || count == scores.len() && count
            <= boxes.len(),
    ensures
        confident_boxes(boxes.take(count), scores.take(count), threshold) == confident_boxes(
            boxes,
            scores,
            threshold,
        ),
{
    if count > 0 {
        let n = count - 1;
        assert(boxes.take(count).take(n) =~= boxes.take(n));
        assert(scores.take(count).take(n) =~= scores.take(n));
    }
}

/// Whether a text line has pixels at all.
pub open spec fn has_area(b: PixelRect) -> bool {
    b.x1 < b.x2 && b.y1 < b.y2
}

/// Whether a text line is read from top to bottom: it is higher than wide.
pub open spec fn is_upright(b: PixelRect) -> bool {
    b.y2 - b.y1 > b.x2 - b.x1
}

/// The positions of the lines with pixels that are, or are not, read from top to bottom.
pub open spec fn oriented(boxes: Seq<TextBox>, upright: bool) -> Seq<usize>
    decreases boxes.len(),
{
    if boxes.len() == 0 {
        Seq::empty()
    } else {
        let before = oriented(boxes.drop_last(), upright);
        let b = boxes.last().bbox;
        if has_area(b) && is_upright(b) == upright {
            before.push((boxes.len() - 1) as usize)
        } else {
            before
        }
    }
}

/// The positions of the horizontal and of the vertical lines; lines without pixels are left
/// out.
pub fn split_by_orientation(boxes: &Vec<TextBox>) -> (r: (Vec<usize>, Vec<usize>))
    ensures
        r.0@ == oriented(boxes@, false),
        r.1@ == oriented(boxes@, true),
{
    let mut horizontal: Vec<usize> = Vec::new();
    let mut vertical: Vec<usize> = Vec::new();
    let mut i: usize = 0;
    assert(boxes@.take(0) =~= Seq::empty());
    while i < boxes.len()
        invariant
            i <= boxes@.len(),
            horizontal@ == oriented(boxes@.take(i as int), false),
            vertical@ == oriented(boxes@.take(i as int), true),
        decreases boxes@.len() - i,
    {
        assert(boxes@.take(i + 1).drop_last() =~= boxes@.take(i as int));
        let b = boxes[i].bbox;
        let w: i64 = b.x2 as i64 - b.x1 as i64;
        let h: i64 = b.y2 as i64 - b.y1 as i64;
        if w > 0 && h > 0 {
            if h > w {
                vertical.push(i);
            } else {
                horizontal.push(i);
            }
        }
        i += 1;
    }
    assert(boxes@.take(i as int) =~= boxes@);
    (horizontal, vertical)
}

/// Every line with pixels is read in exactly one of the two directions.
pub proof fn law_each_line_has_one_direction(boxes: Seq<TextBox>, i: int)
    requires
        0 <= i < boxes.len(),
        boxes.len() <= usize::MAX,
    ensures
        oriented(boxes, true).contains(i as usize) <==> has_area(boxes[i].bbox) && is_upright(
            boxes[i].bbox,
        ),
        oriented(boxes, false).contains(i as usize) <==> has_area(boxes[i].bbox) && !is_upright(
            boxes[i].bbox,
        ),
{
    lemma_oriented(boxes, true, i);
    lemma_oriented(boxes, false, i);
}

proof fn lemma_oriented(boxes: Seq<TextBox>, upright: bool, i: int)
    requires
        0 <= i,
        boxes.len() <= usize::MAX,
    ensures
        i <= usize::MAX ==> (oriented(boxes, upright).contains(i as usize) <==> i < boxes.len()
            && has_area(boxes[i].bbox) && is_upright(boxes[i].bbox) == upright),
    decreases boxes.len(),
{
    if boxes.len() > 0 && i <= usize::MAX {
        let before = oriented(boxes.drop_last(), upright);
        let after = oriented(boxes, upright);
        lemma_oriented(boxes.drop_last(), upright, i);
        let last = (boxes.len() - 1) as usize;
        if after != before {
            assert(after == before.push(last));
            if before.contains(i as usize) {
                let k = choose|k: int| 0 <= k < before.len() && before[k] == i as usize;
                assert(after[k] == i as usize);
            }
            assert(after[before.len() as int] == last);
            if after.contains(i as usize) && i != boxes.len() - 1 {
                let k = choose|k: int| 0 <= k < after.len() && after[k] == i as usize;
                assert(before[k] == i as usize);
            }
        }
    }
}

/// The start and end of each batch when `count` images are recognised `size` at a time.
pub open spec fn batches(count: int, size: int, from: int) -> Seq<(usize, usize)>
    decreases count - from,
{
    if from >= count || size <= 0 {
        Seq::empty()
    } else {
        let to = if count - from < size {
            count
        } else {
            from + size
        };
        seq![(from as usize, to as usize)] + batches(count, size, to)
    }
}

/// The start and end of each batch when `count` images are recognised `size` at a time.
pub fn batch_ranges(count: usize, size: usize) -> (r: Vec<(usize, usize)>)
    requires
        size > 0,
    ensures
        r@ == batches(count as int, size as int, 0),
{
    let mut ranges: Vec<(usize, usize)> = Vec::new();
    let mut from: usize = 0;
    assert(ranges@ + batches(count as int, size as int, 0) =~= batches(
        count as int,
        size as int,
        0,
    ));
    while from < count
        invariant
            from <= count,
            size > 0,
            ranges@ + batches(count as int, size as int, from as int) == batches(
                count as int,
                size as int,
                0,
            ),
        decreases count - from,
    {
        let to: usize = if count - from < size {
            count
        } else {
            from + size
        };
        let ghost before = ranges@;
        ranges.push((from, to));
        assert(ranges@ + batches(count as int, size as int, to as int) =~= before + (seq![
            (from, to),
        ] + batches(count as int, size as int, to as int)));
        from = to;
    }
    assert(ranges@ =~= batches(count as int, size as int, 0));
    ranges
}

/// A part of an image that is recognised: where it lies, the size that it was scaled to, and
/// its number among the parts of one line.
#[derive(Clone, Copy, Debug, PartialEq, Eq, Structural)]
pub struct CropMetadata {
    pub orig_bbox: PixelRect,
    pub effective_w: usize,
    pub effective_h: usize,
    pub segment_idx: usize,
}

/// What scaling makes of a text line.
pub enum ScaledLine {
    /// A horizontal line: its width when it is scaled to the full height, and its height when
    /// it is then scaled down to the full width.
    Horizontal { full_height_w: usize, full_width_h: usize },
    /// A vertical line: whether it is too long and has to be split, and its parts.
    Vertical { split: bool, segments: Vec<ScaledSegment> },
}

/// A part of a vertical line: its rows, and the height that it is scaled to.
#[derive(Clone, Copy, Debug, PartialEq, Eq, Structural)]
pub struct ScaledSegment {
    pub top: i32,
    pub bottom: i32,
    pub scaled_h: usize,
}

/// How a horizontal line is cut out.
pub open spec fn horizontal_crop(b: PixelRect, full_height_w: usize, full_width_h: usize) -> CropMetadata {
    if full_height_w > INPUT_REC_WIDTH {
        CropMetadata {
            orig_bbox: b,
            effective_w: INPUT_REC_WIDTH,
            effective_h: full_width_h,
            segment_idx: 0,
        }
    } else {
        CropMetadata {
            orig_bbox: b,
            effective_w: full_height_w,
            effective_h: INPUT_REC_HEIGHT,
            segment_idx: 0,
        }
    }
}

/// The rows of a part: they end where the line ends.
pub open spec fn segment_bottom(b: PixelRect, segment: ScaledSegment) -> i32 {
    if segment.bottom < b.y2 {
        segment.bottom
    } else {
        b.y2
    }
}

/// The scaled height of a part: no more than fits.
pub open spec fn segment_height(split: bool, segment: ScaledSegment) -> usize {
    let limit = if split {
        VREC_MAX_CONTENT_HEIGHT
    } else {
        INPUT_VREC_HEIGHT
    };
    if segment.scaled_h < limit {
        segment.scaled_h
    } else {
        limit
    }
}

/// How the parts of a vertical line are cut out; parts without rows are left out.
pub open spec fn vertical_crops(
    b: PixelRect,
    split: bool,
    segments: Seq<ScaledSegment>,
) -> Seq<CropMetadata>
    decreases segments.len(),
{
    if segments.len() == 0 {
        Seq::empty()
    } else {
        let before = vertical_crops(b, split, segments.drop_last());
        let segment = segments.last();
        if segment_bottom(b, segment) <= segment.top {
            before
        } else {
            before.push(
                CropMetadata {
                    orig_bbox: PixelRect {
                        x1: b.x1,
                        y1: segment.top,
                        x2: b.x2,
                        y2: segment_bottom(b, segment),
                    },
                    effective_w: INPUT_VREC_WIDTH,
                    effective_h: segment_height(split, segment),
                    segment_idx: (segments.len() - 1) as usize,
                },
            )
        }
    }
}

/// How one line is cut out; a line without pixels is not.
pub open spec fn line_crops(b: PixelRect, line: ScaledLine) -> Seq<CropMetadata> {
    if !has_area(b) {
        Seq::empty()
    } else {
        match line {
            ScaledLine::Horizontal { full_height_w, full_width_h } => seq![
                horizontal_crop(b, full_height_w, full_width_h),
            ],
            ScaledLine::Vertical { split, segments } => vertical_crops(b, split, segments@),
        }
    }
}

/// The parts of the lines at positions `indices`, in order, and the position of each part's
/// line. `lines[k]` says how the line at position `indices[k]` is scaled.
pub open spec fn planned_crops(
    boxes: Seq<TextBox>,
    indices: Seq<usize>,
    lines: Seq<ScaledLine>,
) -> (Seq<usize>, Seq<CropMetadata>)
    decreases indices.len(),
{
    if indices.len() == 0 {
        (Seq::empty(), Seq::empty())
    } else {
        let before = planned_crops(boxes, indices.drop_last(), lines);
        let k = indices.len() - 1;
        let crops = line_crops(boxes[indices[k] as int].bbox, lines[k]);
        (before.0 + Seq::new(crops.len(), |i: int| indices[k]), before.1 + crops)
    }
}

/// Cuts out the parts of a vertical line.
fn push_vertical_crops(
    b: PixelRect,
    split: bool,
    segments: &Vec<ScaledSegment>,
    crops: &mut Vec<CropMetadata>,
)
    ensures
        final(crops)@ == old(crops)@ + vertical_crops(b, split, segments@),
{
    let ghost start = crops@;
    let mut i: usize = 0;
    assert(segments@.take(0) =~= Seq::empty());
    assert(start + vertical_crops(b, split, segments@.take(0)) =~= start);
    while i < segments.len()
        invariant
            i <= segments@.len(),
            crops@ == start + vertical_crops(b, split, segments@.take(i as int)),
        decreases segments@.len() - i,
    {
        assert(segments@.take(i + 1).drop_last() =~= segments@.take(i as int));
        let segment = segments[i];
        let bottom: i32 = if segment.bottom < b.y2 {
            segment.bottom
        } else {
            b.y2
        };
        let ghost before = crops@;
        if bottom > segment.top {
            let limit: usize = if split {
                VREC_MAX_CONTENT_HEIGHT
            } else {
                INPUT_VREC_HEIGHT
            };
            let height: usize = if segment.scaled_h < limit {
                segment.scaled_h
            } else {
                limit
            };
            crops.push(
                CropMetadata {
                    orig_bbox: PixelRect { x1: b.x1, y1: segment.top, x2: b.x2, y2: bottom },
                    effective_w: INPUT_VREC_WIDTH,
                    effective_h: height,
                    segment_idx: i,
                },
            );
        }
        assert(crops@ =~= start + vertical_crops(b, split, segments@.take(i + 1)));
        i += 1;
    }
    assert(segments@.take(i as int) =~= segments@);
}

/// The parts that the lines at positions `indices` are cut into, and the position of each
/// part's line.
pub fn plan_crops(
    boxes: &Vec<TextBox>,
    indices: &Vec<usize>,
    lines: &Vec<ScaledLine>,
) -> (r: (Vec<usize>, Vec<CropMetadata>))
    requires
        lines@.len() == indices@.len(),
        forall|k: int| 0 <= k < indices@.len() ==> #[trigger] indices@[k] < boxes@.len(),
    ensures
        r.0@ == planned_crops(boxes@, indices@, lines@).0,
        r.1@ == planned_crops(boxes@, indices@, lines@).1,
{
    let mut owners: Vec<usize> = Vec::new();
    let mut crops: Vec<CropMetadata> = Vec::new();
    let mut k: usize = 0;
    assert(indices@.take(0) =~= Seq::empty());
    while k < indices.len()
        invariant
            k <= indices@.len(),
            lines@.len() == indices@.len(),
            forall|j: int| 0 <= j < indices@.len() ==> #[trigger] indices@[j] < boxes@.len(),
            owners@ == planned_crops(boxes@, indices@.take(k as int), lines@).0,
            crops@ == planned_crops(boxes@, indices@.take(k as int), lines@).1,
            owners@.len() == crops@.len(),
        decreases indices@.len() - k,
    {
        assert(indices@.take(k + 1).drop_last() =~= indices@.take(k as int));
        let owner: usize = indices[k];
        let b = boxes[owner].bbox;
        let ghost before = crops@;
        let ghost owners_before = owners@;
        let ghost added = line_crops(b, lines@[k as int]);
        if b.x1 < b.x2 && b.y1 < b.y2 {
            match &lines[k] {
                ScaledLine::Horizontal { full_height_w, full_width_h } => {
                    if *full_height_w > INPUT_REC_WIDTH {
                        crops.push(
                            CropMetadata {
                                orig_bbox: b,
                                effective_w: INPUT_REC_WIDTH,
                                effective_h: *full_width_h,
                                segment_idx: 0,
                            },
                        );
                    } else {
                        crops.push(
                            CropMetadata {
                                orig_bbox: b,
                                effective_w: *full_height_w,
                                effective_h: INPUT_REC_HEIGHT,
                                segment_idx: 0,
                            },
                        );
                    }
                    assert(crops@ =~= before + added);
                },
                ScaledLine::Vertical { split, segments } => {
                    push_vertical_crops(b, *split, segments, &mut crops);
                },
            }
        }
        assert(crops@ =~= before + added);
        while owners.len() < crops.len()
            invariant
                owners_before.len() <= owners@.len() <= crops@.len(),
                owners@ == owners_before + Seq::new(
                    (owners@.len() - owners_before.len()) as nat,
                    |i: int| owner,
                ),
            decreases crops@.len() - owners@.len(),
        {
            let ghost so_far = owners@;
            owners.push(owner);
            assert(owners@ =~= owners_before + Seq::new(
                (owners@.len() - owners_before.len()) as nat,
                |i: int| owner,
            ));
        }
        assert(owners@ =~= owners_before + Seq::new(added.len(), |i: int| owner));
        assert(owners@ =~= planned_crops(boxes@, indices@.take(k + 1), lines@).0);
        k += 1;
    }
    assert(indices@.take(k as int) =~= indices@);
    (owners, crops)
}

/// A part of a vertical line is never higher than the images it is recognised in.
pub proof fn law_vertical_parts_fit(b: PixelRect, split: bool, segments: Seq<ScaledSegment>, i: int)
    requires
        0 <= i < vertical_crops(b, split, segments).len(),
    ensures
        vertical_crops(b, split, segments)[i].effective_h <= INPUT_VREC_HEIGHT,
        vertical_crops(b, split, segments)[i].orig_bbox.y2 <= b.y2,
        has_area(b) ==> has_area(vertical_crops(b, split, segments)[i].orig_bbox),
    decreases segments.len(),
{
    let before = vertical_crops(b, split, segments.drop_last());
    if i < before.len() {
        law_vertical_parts_fit(b, split, segments.drop_last(), i);
    }
}

/// The places of the boxes whose scores exceed the threshold, in their order.
proof fn lemma_places_of_confident(boxes: Seq<PixelRect>, scores: Seq<u32>, threshold: u32) -> (places:
    Seq<int>)
    ensures
        places.len() == confident_boxes(boxes, scores, threshold).len(),
        forall|k: int|
            0 <= k < places.len() ==> {
                &&& 0 <= #[trigger] places[k] < boxes.len() && places[k] < scores.len()
                &&& floats::less_32(threshold, scores[places[k]])
                &&& confident_boxes(boxes, scores, threshold)[k].bbox == boxes[places[k]]
            },
        forall|k: int, l: int|
            #![trigger places[k], places[l]]
            0 <= k < l < places.len() ==> places[k] < places[l],
        forall|i: int|
            0 <= i < boxes.len() && i < scores.len() && floats::less_32(
                threshold,
                #[trigger] scores[i],
            ) ==> places.contains(i),
    decreases boxes.len(),
{
    if boxes.len() == 0 || scores.len() == 0 {
        Seq::empty()
    } else {
        let n = if boxes.len() < scores.len() {
            boxes.len() - 1
        } else {
            scores.len() - 1
        };
        let before = lemma_places_of_confident(boxes.take(n), scores.take(n), threshold);
        let places = if floats::less_32(threshold, scores[n]) {
            before.push(n)
        } else {
            before
        };
        assert forall|k: int| 0 <= k < places.len() implies {
            &&& 0 <= #[trigger] places[k] < boxes.len() && places[k] < scores.len()
            &&& floats::less_32(threshold, scores[places[k]])
            &&& confident_boxes(boxes, scores, threshold)[k].bbox == boxes[places[k]]
        } by {
            if k < before.len() {
                assert(before[k] == places[k]);
                assert(boxes.take(n)[before[k]] == boxes[before[k]]);
                assert(scores.take(n)[before[k]] == scores[before[k]]);
            }
        }
        assert forall|k: int, l: int|
            #![trigger places[k], places[l]]
            0 <= k < l < places.len() implies places[k] < places[l] by {
            assert(before[k] == places[k]);
            if l < before.len() {
                assert(before[l] == places[l]);
            }
        }
        assert forall|i: int|
            0 <= i < boxes.len() && i < scores.len() && floats::less_32(
                threshold,
                #[trigger] scores[i],
            ) implies places.contains(i) by {
            if i < n {
                assert(scores.take(n)[i] == scores[i]);
                let k = choose|k: int| 0 <= k < before.len() && before[k] == i;
                assert(places[k] == i);
            } else {
                assert(places[before.len() as int] == i);
            }
        }
        places
    }
}

/// Whether `found` are the boxes at `places`: those whose scores exceed the threshold, from the
/// topmost down, boxes with one top edge as they stood.
pub open spec fn are_found_at(
    boxes: Seq<PixelRect>,
    scores: Seq<u32>,
    threshold: u32,
    found: Seq<TextBox>,
    places: Seq<int>,
) -> bool {
    &&& places.len() == found.len()
    &&& forall|k: int|
        0 <= k < places.len() ==> {
            &&& 0 <= #[trigger] places[k] < boxes.len() && places[k] < scores.len()
            &&& floats::less_32(threshold, scores[places[k]])
            &&& found[k].bbox == boxes[places[k]]
        }
    &&& forall|k: int, l: int|
        #![trigger places[k], places[l]]
        0 <= k < l < places.len() ==> {
            &&& places[k] != places[l]
            &&& boxes[places[k]].y1 <= boxes[places[l]].y1
            &&& (boxes[places[k]].y1 == boxes[places[l]].y1 ==> places[k] < places[l])
        }
    &&& forall|i: int|
        0 <= i < boxes.len() && i < scores.len() && floats::less_32(
            threshold,
            #[trigger] scores[i],
        ) ==> places.contains(i)
}

/// Detection finds the boxes whose scores exceed the threshold, each once, from the topmost down.
pub proof fn law_confident_boxes_are_found_downwards(
    boxes: Seq<PixelRect>,
    scores: Seq<u32>,
    threshold: u32,
    found: Seq<TextBox>,
) -> (places: Seq<int>)
    requires
        are_detected(boxes, scores, threshold, found),
    ensures
        are_found_at(boxes, scores, threshold, found, places),
{
    let confident = confident_boxes(boxes, scores, threshold);
    let keys = top_keys(confident);
    let order = choose|order: Seq<usize>| #[trigger]
        order::is_stable_order(top_keys(confident_boxes(boxes, scores, threshold)), order)
            && found == Seq::new(
            order.len(),
            |i: int| confident_boxes(boxes, scores, threshold)[order[i] as int],
        );
    let from = lemma_places_of_confident(boxes, scores, threshold);
    order::law_sorting_goes_by_keys(keys, order);
    let places = Seq::new(order.len(), |k: int| from[order[k] as int]);
    assert forall|k: int| 0 <= k < places.len() implies {
        &&& 0 <= #[trigger] places[k] < boxes.len() && places[k] < scores.len()
        &&& floats::less_32(threshold, scores[places[k]])
        &&& found[k].bbox == boxes[places[k]]
    } by {
        assert(order[k] < keys.len());
        assert(from[order[k] as int] == places[k]);
    }
    assert forall|k: int, l: int|
        #![trigger places[k], places[l]]
        0 <= k < l < places.len() implies {
        &&& places[k] != places[l]
        &&& boxes[places[k]].y1 <= boxes[places[l]].y1
        &&& (boxes[places[k]].y1 == boxes[places[l]].y1 ==> places[k] < places[l])
    } by {
        let a = order[k] as int;
        let b = order[l] as int;
        assert(order[k] < keys.len() && order[l] < keys.len());
        assert(from[a] == places[k] && from[b] == places[l]);
        assert(keys[a] == top_key(confident[a]) && keys[b] == top_key(confident[b]));
        assert(a != b);
    }
    assert forall|i: int|
        0 <= i < boxes.len() && i < scores.len() && floats::less_32(
            threshold,
            #[trigger] scores[i],
        ) implies places.contains(i) by {
        let m = choose|m: int| 0 <= m < from.len() && from[m] == i;
        order::lemma_order_holds_all(keys, order, m);
        let k = choose|k: int| 0 <= k < order.len() && #[trigger] order[k] == m;
        assert(places[k] == i);
    }
    places
}

proof fn lemma_oriented_ascends(boxes: Seq<TextBox>, upright: bool)
    requires
        boxes.len() <= usize::MAX,
    ensures
        forall|k: int|
            0 <= k < oriented(boxes, upright).len() ==> #[trigger] oriented(boxes, upright)[k]
                < boxes.len(),
        forall|k: int, l: int|
            #![trigger oriented(boxes, upright)[k], oriented(boxes, upright)[l]]
            0 <= k < l < oriented(boxes, upright).len() ==> oriented(boxes, upright)[k] < oriented(
                boxes,
                upright,
            )[l],
    decreases boxes.len(),
{
    if boxes.len() > 0 {
        lemma_oriented_ascends(boxes.drop_last(), upright);
        let before = oriented(boxes.drop_last(), upright);
        assert forall|k: int| 0 <= k < oriented(boxes, upright).len() implies #[trigger] oriented(
            boxes,
            upright,
        )[k] < boxes.len() by {
            if k < before.len() {
                assert(before[k] == oriented(boxes, upright)[k]);
            }
        }
    }
}

/// A line with a width and a height is vertical if it is higher than wide and else horizontal;
/// the lines of each direction stand in their order.
pub proof fn law_directions_are_told_by_widths_and_heights(boxes: Seq<TextBox>, i: int)
    requires
        boxes.len() <= usize::MAX,
        0 <= i < boxes.len(),
    ensures
        ({
            let b = boxes[i].bbox;
            let width = b.x2 - b.x1;
            let height = b.y2 - b.y1;
            &&& (oriented(boxes, true).contains(i as usize) <==> width > 0 && height > width)
            &&& (oriented(boxes, false).contains(i as usize) <==> height > 0 && width >= height)
        }),
        forall|upright: bool, k: int, l: int|
            #![trigger oriented(boxes, upright)[k], oriented(boxes, upright)[l]]
            0 <= k < l < oriented(boxes, upright).len() ==> oriented(boxes, upright)[k] < oriented(
                boxes,
                upright,
            )[l] < boxes.len(),
{
    law_each_line_has_one_direction(boxes, i);
    lemma_oriented_ascends(boxes, true);
    lemma_oriented_ascends(boxes, false);
    assert forall|upright: bool, k: int, l: int|
        #![trigger oriented(boxes, upright)[k], oriented(boxes, upright)[l]]
        0 <= k < l < oriented(boxes, upright).len() implies oriented(boxes, upright)[k] < oriented(
        boxes,
        upright,
    )[l] < boxes.len() by {
        lemma_oriented_ascends(boxes, upright);
    }
}

proof fn lemma_batches(count: int, size: int, from: int)
    requires
        0 <= from <= count <= usize::MAX,
        size > 0,
    ensures
        batches(count, size, from).len() == 0 <==> from == count,
        from < count ==> batches(count, size, from)[0].0 == from && batches(
            count,
            size,
            from,
        ).last().1 == count,
        forall|k: int|
            0 <= k < batches(count, size, from).len() ==> {
                let batch = #[trigger] batches(count, size, from)[k];
                &&& batch.0 < batch.1 <= count
                &&& batch.1 - batch.0 <= size
                &&& (batch.1 < count ==> batch.1 - batch.0 == size)
            },
        forall|k: int|
            0 <= k < batches(count, size, from).len() - 1 ==> (#[trigger] batches(
                count,
                size,
                from,
            )[k]).1 == batches(count, size, from)[k + 1].0,
    decreases count - from,
{
    if from < count {
        let to = if count - from < size {
            count
        } else {
            from + size
        };
        lemma_batches(count, size, to);
        let rest = batches(count, size, to);
        let all = batches(count, size, from);
        assert(all == seq![(from as usize, to as usize)] + rest);
        assert forall|k: int| 0 <= k < all.len() implies {
            let batch = #[trigger] all[k];
            &&& batch.0 < batch.1 <= count
            &&& batch.1 - batch.0 <= size
            &&& (batch.1 < count ==> batch.1 - batch.0 == size)
        } by {
            if k > 0 {
                assert(all[k] == rest[k - 1]);
            }
        }
        assert forall|k: int| 0 <= k < all.len() - 1 implies (#[trigger] all[k]).1 == all[k
            + 1].0 by {
            assert(all[k + 1] == rest[k]);
            if k > 0 {
                assert(all[k] == rest[k - 1]);
            } else {
                assert(all[0].1 == to);
            }
        }
        if rest.len() > 0 {
            assert(all.last() == rest.last());
        }
    }
}

/// Batches follow each other without a gap from the first image to the last, none is empty, and
/// all but the last are as large as they may be.
pub proof fn law_batches_hold_all_images(count: usize, size: usize)
    requires
        size > 0,
    ensures
        ({
            let all = batches(count as int, size as int, 0);
            &&& (all.len() == 0 <==> count == 0)
            &&& (count > 0 ==> all[0].0 == 0 && all[all.len() - 1].1 == count)
            &&& forall|k: int|
                0 <= k < all.len() ==> {
                    let batch = #[trigger] all[k];
                    &&& batch.0 < batch.1 <= count
                    &&& batch.1 - batch.0 <= size
                    &&& (batch.1 < count ==> batch.1 - batch.0 == size)
                }
            &&& forall|k: int| 0 <= k < all.len() - 1 ==> (#[trigger] all[k]).1 == all[k + 1].0
        }),
{
    lemma_batches(count as int, size as int, 0);
}

/// Whether a part is made of a horizontal line: it is the whole line, scaled to a height of 32, or
/// to a width of 960 where it would be wider.
pub open spec fn is_part_of_row(
    crop: CropMetadata,
    b: PixelRect,
    full_height_w: usize,
    full_width_h: usize,
) -> bool {
    &&& crop.orig_bbox.x1 == b.x1 && crop.orig_bbox.y1 == b.y1
    &&& crop.orig_bbox.x2 == b.x2 && crop.orig_bbox.y2 == b.y2
    &&& crop.segment_idx == 0
    &&& (full_height_w <= 960 ==> crop.effective_w == full_height_w && crop.effective_h == 32)
    &&& (full_height_w > 960 ==> crop.effective_w == 960 && crop.effective_h == full_width_h)
}

/// Whether a part is made of segment `number` of a vertical line: the rows of the segment that lie
/// in the line, scaled to a width of 32 and to no more height than 480, or 420 in a line that is
/// split.
pub open spec fn is_part_of_column(
    crop: CropMetadata,
    b: PixelRect,
    split: bool,
    segment: ScaledSegment,
    number: int,
) -> bool {
    &&& crop.orig_bbox.x1 == b.x1 && crop.orig_bbox.x2 == b.x2
    &&& crop.orig_bbox.y1 == segment.top
    &&& crop.orig_bbox.y2 == vstd::math::min(segment.bottom as int, b.y2 as int)
    &&& crop.orig_bbox.y1 < crop.orig_bbox.y2
    &&& crop.segment_idx == number
    &&& crop.effective_w == 32
    &&& crop.effective_h == vstd::math::min(
        segment.scaled_h as int,
        if split {
            420
        } else {
            480
        },
    )
}

/// The parts of a vertical line are its segments that have rows in the line, in their order.
pub proof fn law_columns_are_cut_at_segments(
    b: PixelRect,
    split: bool,
    segments: Seq<ScaledSegment>,
) -> (numbers: Seq<int>)
    requires
        segments.len() <= usize::MAX,
    ensures
        numbers.len() == vertical_crops(b, split, segments).len(),
        forall|k: int|
            0 <= k < numbers.len() ==> 0 <= #[trigger] numbers[k] < segments.len()
                && is_part_of_column(
                vertical_crops(b, split, segments)[k],
                b,
                split,
                segments[numbers[k]],
                numbers[k],
            ),
        forall|k: int, l: int|
            #![trigger numbers[k], numbers[l]]
            0 <= k < l < numbers.len() ==> numbers[k] < numbers[l],
        forall|i: int|
            0 <= i < segments.len() && (#[trigger] segments[i]).top < segments[i].bottom
                && segments[i].top < b.y2 ==> numbers.contains(i),
    decreases segments.len(),
{
    if segments.len() == 0 {
        Seq::empty()
    } else {
        let fewer = segments.drop_last();
        let last = segments.len() - 1;
        let before = law_columns_are_cut_at_segments(b, split, fewer);
        let all = vertical_crops(b, split, segments);
        let numbers = if segments[last].top < segments[last].bottom && segments[last].top < b.y2 {
            before.push(last)
        } else {
            before
        };
        assert forall|k: int| 0 <= k < numbers.len() implies 0 <= #[trigger] numbers[k]
            < segments.len() && is_part_of_column(
            all[k],
            b,
            split,
            segments[numbers[k]],
            numbers[k],
        ) by {
            if k < before.len() {
                assert(before[k] == numbers[k]);
                assert(fewer[before[k]] == segments[before[k]]);
            }
        }
        assert forall|k: int, l: int|
            #![trigger numbers[k], numbers[l]]
            0 <= k < l < numbers.len() implies numbers[k] < numbers[l] by {
            assert(before[k] == numbers[k]);
            if l < before.len() {
                assert(before[l] == numbers[l]);
            }
        }
        assert forall|i: int|
            0 <= i < segments.len() && (#[trigger] segments[i]).top < segments[i].bottom
                && segments[i].top < b.y2 implies numbers.contains(i) by {
            if i < last {
                assert(fewer[i] == segments[i]);
                let k = choose|k: int| 0 <= k < before.len() && before[k] == i;
                assert(numbers[k] == i);
            } else {
                assert(numbers[before.len() as int] == i);
            }
        }
        numbers
    }
}

/// A line without pixels has no parts; a horizontal one is one part.
pub proof fn law_rows_are_one_part(b: PixelRect, line: ScaledLine)
    ensures
        b.x1 >= b.x2 || b.y1 >= b.y2 ==> line_crops(b, line).len() == 0,
        b.x1 < b.x2 && b.y1 < b.y2 ==> match line {
            ScaledLine::Horizontal { full_height_w, full_width_h } => line_crops(b, line).len() == 1
                && is_part_of_row(line_crops(b, line)[0], b, full_height_w, full_width_h),
            ScaledLine::Vertical { split, segments } => line_crops(b, line) == vertical_crops(
                b,
                split,
                segments@,
            ),
        },
{
}

/// The parts of lines stand one line after another, and each names its line.
pub proof fn law_parts_name_their_lines(
    boxes: Seq<TextBox>,
    indices: Seq<usize>,
    lines: Seq<ScaledLine>,
    next: usize,
)
    ensures
        planned_crops(boxes, Seq::empty(), lines).0.len() == 0,
        planned_crops(boxes, Seq::empty(), lines).1.len() == 0,
        ({
            let before = planned_crops(boxes, indices, lines);
            let after = planned_crops(boxes, indices.push(next), lines);
            let added = line_crops(boxes[next as int].bbox, lines[indices.len() as int]);
            &&& after.1 == before.1 + added
            &&& after.0.len() == before.0.len() + added.len()
            &&& forall|i: int| 0 <= i < before.0.len() ==> #[trigger] after.0[i] == before.0[i]
            &&& forall|i: int| before.0.len() <= i < after.0.len() ==> #[trigger] after.0[i] == next
        }),
{
    assert(indices.push(next).drop_last() =~= indices);
}

} // verus!
