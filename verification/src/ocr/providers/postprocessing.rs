//! Grouping of text lines into paragraphs.

use crate::floats;
use crate::floats::{is_greater_64, total_key_64};
use crate::ocr::interface::{append_words, BoundingBox, Paragraph, ParagraphView, Word};
use crate::order;
use crate::order::stable_order;
use vstd::prelude::*;

verus! {

/// Sort keys of doubles in ascending order.
pub open spec fn total_keys(values: Seq<u64>) -> Seq<(u64, u64)> {
    Seq::new(values.len(), |i: int| (floats::total_64(values[i]) as u64, 0u64))
}

/// Whether `low` and `high` are the middle values when the doubles are sorted: the same one
/// twice for an odd number of values.
pub open spec fn are_middle_values(values: Seq<u64>, low: u64, high: u64) -> bool {
    exists|order: Seq<usize>| #[trigger]
        order::is_stable_order(total_keys(values), order) && low == values[order[(values.len() - 1)
            / 2] as int] && high == values[order[values.len() as int / 2] as int]
}

/// The middle values of doubles: the median is the mean of the two.
pub fn middle_values(values: &Vec<u64>) -> (r: (u64, u64))
    requires
        values@.len() > 0,
    ensures
        are_middle_values(values@, r.0, r.1),
{
    let mut keys: Vec<(u64, u64)> = Vec::new();
    let mut i: usize = 0;
    while i < values.len()
        invariant
            i <= values@.len(),
            keys@ == total_keys(values@).take(i as int),
        decreases values@.len() - i,
    {
        keys.push((total_key_64(values[i]), 0));
        assert(keys@ =~= total_keys(values@).take(i + 1));
        i += 1;
    }
    assert(keys@ =~= total_keys(values@));
    let order = stable_order(&keys);
    let low: usize = order[(values.len() - 1) / 2];
    let high: usize = order[values.len() / 2];
    (values[low], values[high])
}

/// The size that tells ruby text from main text: the width of vertical lines, the height of
/// horizontal ones.
pub open spec fn line_size(line: Paragraph) -> u64 {
    if line.is_vertical {
        line.bounds.width
    } else {
        line.bounds.height
    }
}

/// The sizes of the lines with the given direction.
pub open spec fn sizes(lines: Seq<Paragraph>, vertical: bool) -> Seq<u64>
    decreases lines.len(),
{
    if lines.len() == 0 {
        Seq::empty()
    } else {
        let before = sizes(lines.drop_last(), vertical);
        if lines.last().is_vertical == vertical {
            before.push(line_size(lines.last()))
        } else {
            before
        }
    }
}

/// The sizes of the lines with the given direction.
pub fn line_sizes(lines: &Vec<Paragraph>, vertical: bool) -> (r: Vec<u64>)
    ensures
        r@ == sizes(lines@, vertical),
{
    let mut r: Vec<u64> = Vec::new();
    let mut i: usize = 0;
    assert(lines@.take(0) =~= Seq::empty());
    while i < lines.len()
        invariant
            i <= lines@.len(),
            r@ == sizes(lines@.take(i as int), vertical),
        decreases lines@.len() - i,
    {
        assert(lines@.take(i + 1).drop_last() =~= lines@.take(i as int));
        let line = &lines[i];
        if line.is_vertical == vertical {
            if vertical {
                r.push(line.bounds.width);
            } else {
                r.push(line.bounds.height);
            }
        }
        i += 1;
    }
    assert(lines@.take(i as int) =~= lines@);
    r
}

/// Whether a line is smaller than `limit`; without a limit none is.
pub open spec fn is_small(line: Paragraph, limit: Option<u64>) -> bool {
    limit is Some && floats::greater_64(limit->0, line_size(line))
}

/// The positions of the lines with the given direction that are, or are not, smaller than
/// `limit`.
pub open spec fn lines_by_size(
    lines: Seq<Paragraph>,
    vertical: bool,
    limit: Option<u64>,
    small: bool,
) -> Seq<usize>
    decreases lines.len(),
{
    if lines.len() == 0 {
        Seq::empty()
    } else {
        let before = lines_by_size(lines.drop_last(), vertical, limit, small);
        let line = lines.last();
        if line.is_vertical == vertical && is_small(line, limit) == small {
            before.push((lines.len() - 1) as usize)
        } else {
            before
        }
    }
}

/// The positions of the lines with the given direction: those of main text, then those that
/// are smaller than `limit`, which are ruby text.
pub fn classify_lines_by_size(
    lines: &Vec<Paragraph>,
    vertical: bool,
    limit: Option<u64>,
) -> (r: (Vec<usize>, Vec<usize>))
    ensures
        r.0@ == lines_by_size(lines@, vertical, limit, false),
        r.1@ == lines_by_size(lines@, vertical, limit, true),
{
    let mut main: Vec<usize> = Vec::new();
    let mut ruby: Vec<usize> = Vec::new();
    let mut i: usize = 0;
    assert(lines@.take(0) =~= Seq::empty());
    while i < lines.len()
        invariant
            i <= lines@.len(),
            main@ == lines_by_size(lines@.take(i as int), vertical, limit, false),
            ruby@ == lines_by_size(lines@.take(i as int), vertical, limit, true),
        decreases lines@.len() - i,
    {
        assert(lines@.take(i + 1).drop_last() =~= lines@.take(i as int));
        let line = &lines[i];
        if line.is_vertical == vertical {
            let size: u64 = if line.is_vertical {
                line.bounds.width
            } else {
                line.bounds.height
            };
            let small = match limit {
                Some(limit) => is_greater_64(limit, size),
                None => false,
            };
            if small {
                ruby.push(i);
            } else {
                main.push(i);
            }
        }
        i += 1;
    }
    assert(lines@.take(i as int) =~= lines@);
    (main, ruby)
}

proof fn lemma_lines_by_size(
    lines: Seq<Paragraph>,
    vertical: bool,
    limit: Option<u64>,
    small: bool,
)
    requires
        lines.len() <= usize::MAX,
    ensures
        in_range(lines_by_size(lines, vertical, limit, small), lines.len() as int),
    decreases lines.len(),
{
    let after = lines_by_size(lines, vertical, limit, small);
    if lines.len() > 0 {
        lemma_lines_by_size(lines.drop_last(), vertical, limit, small);
        let before = lines_by_size(lines.drop_last(), vertical, limit, small);
        assert forall|k: int| 0 <= k < after.len() implies #[trigger] after[k] < lines.len() by {
            if k < before.len() {
                assert(after[k] == before[k]);
            }
        }
    }
}

/// Every line is main text or ruby text of its direction, and not both.
pub proof fn law_each_line_has_one_class(
    lines: Seq<Paragraph>,
    vertical: bool,
    limit: Option<u64>,
    small: bool,
    i: int,
)
    requires
        lines.len() <= usize::MAX,
        0 <= i < lines.len(),
    ensures
        lines_by_size(lines, vertical, limit, small).contains(i as usize) <==> lines[i].is_vertical
            == vertical && is_small(lines[i], limit) == small,
    decreases lines.len(),
{
    let shorter = lines.drop_last();
    let before = lines_by_size(shorter, vertical, limit, small);
    let after = lines_by_size(lines, vertical, limit, small);
    let last = (lines.len() - 1) as usize;
    lemma_lines_by_size(shorter, vertical, limit, small);
    if i < shorter.len() {
        law_each_line_has_one_class(shorter, vertical, limit, small, i);
        if before.contains(i as usize) {
            let k = choose|k: int| 0 <= k < before.len() && before[k] == i as usize;
            assert(after[k] == i as usize);
        }
        if after.contains(i as usize) {
            let k = choose|k: int| 0 <= k < after.len() && after[k] == i as usize;
            assert(before[k] == i as usize);
        }
    } else {
        if after.len() > before.len() {
            assert(after[before.len() as int] == last);
        } else if after.contains(last) {
            let k = choose|k: int| 0 <= k < after.len() && after[k] == last;
            assert(before[k] < shorter.len());
        }
    }
}

/// Whether a judge of adjacency always gives the same answer for the same lines.
pub open spec fn is_steady<A: Fn(&Paragraph, &Paragraph) -> bool>(adjacent: A) -> bool {
    &&& forall|a: Paragraph, b: Paragraph| #[trigger] call_requires(adjacent, (&a, &b))
    &&& forall|a: Paragraph, b: Paragraph, x: bool, y: bool| #[trigger]
        call_ensures(adjacent, (&a, &b), x) && #[trigger] call_ensures(adjacent, (&a, &b), y) ==> x
            == y
}

/// Pairs of lines.
pub type Pairs = spec_fn(Paragraph, Paragraph) -> bool;

/// The lines of which a judge answered that the second lies next to the first.
pub open spec fn adjacency<A: Fn(&Paragraph, &Paragraph) -> bool>(adjacent: A) -> Pairs {
    |a: Paragraph, b: Paragraph| call_ensures(adjacent, (&a, &b), true)
}

/// The lines of which a judge answered that the second does not lie next to the first.
pub open spec fn separation<A: Fn(&Paragraph, &Paragraph) -> bool>(adjacent: A) -> Pairs {
    |a: Paragraph, b: Paragraph| call_ensures(adjacent, (&a, &b), false)
}

/// Whether the line at position `b` lies next to one of the lines of the group.
pub open spec fn joins(
    adjacent: Pairs,
    lines: Seq<Paragraph>,
    group: Seq<usize>,
    b: usize,
) -> bool {
    exists|k: int|
        0 <= k < group.len() && adjacent(
            lines[#[trigger] group[k] as int],
            lines[b as int],
        )
}

/// Whether the judge answered of each line of the group that the line at position `b` does not
/// lie next to it.
pub open spec fn is_told_apart(
    apart: Pairs,
    lines: Seq<Paragraph>,
    group: Seq<usize>,
    b: usize,
) -> bool {
    forall|k: int|
        0 <= k < group.len() ==> apart(lines[#[trigger] group[k] as int], lines[b as int])
}

/// The group and the other lines after lines have joined the group, the first of the others
/// that lies next to it each time, until none does. The others before position `from` are
/// known not to lie next to the group.
pub open spec fn grown(
    adjacent: Pairs,
    lines: Seq<Paragraph>,
    group: Seq<usize>,
    others: Seq<usize>,
    from: int,
) -> (Seq<usize>, Seq<usize>)
    decreases others.len(), others.len() - from,
{
    if from < 0 || from >= others.len() {
        (group, others)
    } else if joins(adjacent, lines, group, others[from]) {
        grown(adjacent, lines, group.push(others[from]), others.remove(from), 0)
    } else {
        grown(adjacent, lines, group, others, from + 1)
    }
}

/// Whether the judge told every line apart that `grown` passes over.
pub open spec fn growth_answered(
    adjacent: Pairs,
    apart: Pairs,
    lines: Seq<Paragraph>,
    group: Seq<usize>,
    others: Seq<usize>,
    from: int,
) -> bool
    decreases others.len(), others.len() - from,
{
    if from < 0 || from >= others.len() {
        true
    } else if joins(adjacent, lines, group, others[from]) {
        growth_answered(adjacent, apart, lines, group.push(others[from]), others.remove(from), 0)
    } else {
        is_told_apart(apart, lines, group, others[from]) && growth_answered(
            adjacent,
            apart,
            lines,
            group,
            others,
            from + 1,
        )
    }
}

/// Whether the judge told every line apart that `groups` passes over.
pub open spec fn groups_answered(
    adjacent: Pairs,
    apart: Pairs,
    lines: Seq<Paragraph>,
    rest: Seq<usize>,
) -> bool
    decreases rest.len(),
    via groups_answered_shrink
{
    if rest.len() == 0 {
        true
    } else {
        let (_, others) = grown(adjacent, lines, seq![rest[0]], rest.drop_first(), 0);
        &&& growth_answered(adjacent, apart, lines, seq![rest[0]], rest.drop_first(), 0)
        &&& groups_answered(adjacent, apart, lines, others)
    }
}

#[via_fn]
proof fn groups_answered_shrink(
    adjacent: Pairs,
    apart: Pairs,
    lines: Seq<Paragraph>,
    rest: Seq<usize>,
) {
    if rest.len() > 0 {
        lemma_grown_shrinks(adjacent, lines, seq![rest[0]], rest.drop_first(), 0);
    }
}

/// The groups that lines fall into: the first line and what joins it, then the same of the
/// rest.
pub open spec fn groups(
    adjacent: Pairs,
    lines: Seq<Paragraph>,
    rest: Seq<usize>,
) -> Seq<Seq<usize>>
    decreases rest.len(),
    via groups_shrink
{
    if rest.len() == 0 {
        Seq::empty()
    } else {
        let (group, others) = grown(adjacent, lines, seq![rest[0]], rest.drop_first(), 0);
        seq![group] + groups(adjacent, lines, others)
    }
}

#[via_fn]
proof fn groups_shrink(
    adjacent: Pairs,
    lines: Seq<Paragraph>,
    rest: Seq<usize>,
) {
    if rest.len() > 0 {
        lemma_grown_shrinks(adjacent, lines, seq![rest[0]], rest.drop_first(), 0);
    }
}

proof fn lemma_grown_shrinks(
    adjacent: Pairs,
    lines: Seq<Paragraph>,
    group: Seq<usize>,
    others: Seq<usize>,
    from: int,
)
    ensures
        grown(adjacent, lines, group, others, from).1.len() <= others.len(),
    decreases others.len(), others.len() - from,
{
    if !(from < 0 || from >= others.len()) {
        if joins(adjacent, lines, group, others[from]) {
            lemma_grown_shrinks(
                adjacent,
                lines,
                group.push(others[from]),
                others.remove(from),
                0,
            );
        } else {
            lemma_grown_shrinks(adjacent, lines, group, others, from + 1);
        }
    }
}

/// Whether the positions are those of lines.
pub open spec fn in_range(places: Seq<usize>, count: int) -> bool {
    forall|k: int| 0 <= k < places.len() ==> #[trigger] places[k] < count
}

/// Whether the line at position `b` lies next to one of the lines of the group.
fn check_joins<A: Fn(&Paragraph, &Paragraph) -> bool>(
    adjacent: &A,
    lines: &Vec<Paragraph>,
    group: &Vec<usize>,
    b: usize,
) -> (r: bool)
    requires
        is_steady(*adjacent),
        in_range(group@, lines@.len() as int),
        b < lines@.len(),
    ensures
        r == joins(adjacency(*adjacent), lines@, group@, b),
        !r ==> is_told_apart(separation(*adjacent), lines@, group@, b),
{
    let mut k: usize = 0;
    while k < group.len()
        invariant
            k <= group@.len(),
            is_steady(*adjacent),
            in_range(group@, lines@.len() as int),
            b < lines@.len(),
            forall|m: int|
                0 <= m < k ==> !adjacency(*adjacent)(
                    lines@[#[trigger] group@[m] as int],
                    lines@[b as int],
                ) && separation(*adjacent)(lines@[group@[m] as int], lines@[b as int]),
        decreases group@.len() - k,
    {
        let a = &lines[group[k]];
        let answer = adjacent(a, &lines[b]);
        if answer {
            assert(adjacency(*adjacent)(lines@[group@[k as int] as int], lines@[b as int]));
            return true;
        }
        assert(call_ensures(*adjacent, (a, &lines@[b as int]), false));
        k += 1;
    }
    false
}

/// The groups that the lines at the given positions fall into.
pub fn group_lines<A: Fn(&Paragraph, &Paragraph) -> bool>(
    adjacent: &A,
    lines: &Vec<Paragraph>,
    places: Vec<usize>,
) -> (r: Vec<Vec<usize>>)
    requires
        is_steady(*adjacent),
        in_range(places@, lines@.len() as int),
    ensures
        r@.len() == groups(adjacency(*adjacent), lines@, places@).len(),
        forall|g: int|
            0 <= g < r@.len() ==> (#[trigger] r@[g])@ == groups(
                adjacency(*adjacent),
                lines@,
                places@,
            )[g],
        forall|g: int| 0 <= g < r@.len() ==> in_range((#[trigger] r@[g])@, lines@.len() as int),
        forall|g: int| 0 <= g < r@.len() ==> (#[trigger] r@[g])@.len() > 0,
        groups_answered(adjacency(*adjacent), separation(*adjacent), lines@, places@),
{
    let ghost all = groups(adjacency(*adjacent), lines@, places@);
    let ghost start = places@;
    let mut rest: Vec<usize> = places;
    let mut found: Vec<Vec<usize>> = Vec::new();
    while rest.len() > 0
        invariant
            is_steady(*adjacent),
            in_range(rest@, lines@.len() as int),
            groups_answered(
                adjacency(*adjacent),
                separation(*adjacent),
                lines@,
                rest@,
            ) ==> groups_answered(
                adjacency(*adjacent),
                separation(*adjacent),
                lines@,
                start,
            ),
            all.len() == found@.len() + groups(adjacency(*adjacent), lines@, rest@).len(),
            forall|g: int| 0 <= g < found@.len() ==> (#[trigger] found@[g])@ == all[g],
            forall|g: int|
                0 <= g < groups(adjacency(*adjacent), lines@, rest@).len() ==> #[trigger] groups(
                    adjacency(*adjacent),
                    lines@,
                    rest@,
                )[g] == all[found@.len() + g],
            forall|g: int|
                0 <= g < found@.len() ==> in_range((#[trigger] found@[g])@, lines@.len() as int),
            forall|g: int| 0 <= g < found@.len() ==> (#[trigger] found@[g])@.len() > 0,
        decreases rest@.len(),
    {
        let ghost before = rest@;
        let ghost left = groups(adjacency(*adjacent), lines@, before);
        let first: usize = rest.remove(0);
        let mut group: Vec<usize> = Vec::new();
        group.push(first);
        assert(group@ =~= seq![before[0]]);
        assert(rest@ =~= before.drop_first());
        let ghost wanted = grown(adjacency(*adjacent), lines@, group@, rest@, 0);
        let ghost answered = growth_answered(
            adjacency(*adjacent),
            separation(*adjacent),
            lines@,
            group@,
            rest@,
            0,
        );
        let mut i: usize = 0;
        assert(in_range(rest@, lines@.len() as int)) by {
            assert forall|k: int| 0 <= k < rest@.len() implies #[trigger] rest@[k]
                < lines@.len() by {
                assert(rest@[k] == before[k + 1]);
            }
        }
        while i < rest.len()
            invariant
                i <= rest@.len(),
                rest@.len() < before.len(),
                group@.len() > 0,
                is_steady(*adjacent),
                in_range(rest@, lines@.len() as int),
                in_range(group@, lines@.len() as int),
                wanted == grown(adjacency(*adjacent), lines@, group@, rest@, i as int),
                growth_answered(
                    adjacency(*adjacent),
                    separation(*adjacent),
                    lines@,
                    group@,
                    rest@,
                    i as int,
                ) ==> answered,
            decreases rest@.len(), rest@.len() - i,
        {
            let candidate: usize = rest[i];
            let ghost group_before = group@;
            let ghost rest_before = rest@;
            if check_joins(adjacent, lines, &group, candidate) {
                let _ = rest.remove(i);
                group.push(candidate);
                assert(in_range(rest@, lines@.len() as int)) by {
                    assert forall|k: int| 0 <= k < rest@.len() implies #[trigger] rest@[k]
                        < lines@.len() by {
                        let k0 = if k < i { k } else { k + 1 };
                        assert(rest@[k] == rest_before[k0]);
                    }
                }
                assert(in_range(group@, lines@.len() as int)) by {
                    assert forall|k: int| 0 <= k < group@.len() implies #[trigger] group@[k]
                        < lines@.len() by {
                        if k < group_before.len() {
                            assert(group@[k] == group_before[k]);
                        }
                    }
                }
                i = 0;
            } else {
                i += 1;
            }
        }
        proof {
            let (g, o) = wanted;
            assert(g == group@ && o == rest@);
            let tail = groups(adjacency(*adjacent), lines@, rest@);
            assert(left == seq![group@] + tail);
            assert forall|k: int| 0 <= k < tail.len() implies #[trigger] tail[k] == all[
                found@.len() + 1 + k
            ] by {
                assert(left[k + 1] == tail[k]);
            }
            assert(left[0] == group@);
        }
        found.push(group);
    }
    found
}

/// Whether every line of the group but the first lies next to one before it.
pub open spec fn is_chained(
    adjacent: Pairs,
    lines: Seq<Paragraph>,
    group: Seq<usize>,
) -> bool {
    forall|k: int|
        1 <= k < group.len() ==> joins(adjacent, lines, group.take(k), #[trigger] group[k])
}

proof fn lemma_grown(
    adjacent: Pairs,
    lines: Seq<Paragraph>,
    group: Seq<usize>,
    others: Seq<usize>,
    from: int,
)
    requires
        0 <= from <= others.len(),
        is_chained(adjacent, lines, group),
        group.len() > 0,
        forall|k: int|
            0 <= k < from ==> !joins(adjacent, lines, group, #[trigger] others[k]),
    ensures
        ({
            let (g, o) = grown(adjacent, lines, group, others, from);
            &&& is_chained(adjacent, lines, g)
            &&& g.len() > 0
            &&& g[0] == group[0]
            &&& forall|k: int| 0 <= k < o.len() ==> !joins(adjacent, lines, g, #[trigger] o[k])
            &&& g.to_multiset().add(o.to_multiset()) == group.to_multiset().add(
                others.to_multiset(),
            )
        }),
    decreases others.len(), others.len() - from,
{
    if from < others.len() {
        if joins(adjacent, lines, group, others[from]) {
            let longer = group.push(others[from]);
            let fewer = others.remove(from);
            assert forall|k: int| 1 <= k < longer.len() implies joins(
                adjacent,
                lines,
                longer.take(k),
                #[trigger] longer[k],
            ) by {
                if k < group.len() {
                    assert(longer[k] == group[k]);
                    assert(longer.take(k) =~= group.take(k));
                } else {
                    assert(longer.take(k) =~= group);
                }
            }
            group.to_multiset_ensures();
            others.to_multiset_ensures();
            assert(longer.to_multiset() =~= group.to_multiset().insert(others[from]));
            assert(others.to_multiset() =~= fewer.to_multiset().insert(others[from]));
            assert(longer.to_multiset().add(fewer.to_multiset()) =~= group.to_multiset().add(
                others.to_multiset(),
            ));
            lemma_grown(adjacent, lines, longer, fewer, 0);
        } else {
            lemma_grown(adjacent, lines, group, others, from + 1);
        }
    }
}

/// The first group starts with the first line, holds only lines that lie next to another of
/// its lines, and no line outside it lies next to one of its lines.
pub proof fn law_groups_are_connected_and_closed(
    adjacent: Pairs,
    lines: Seq<Paragraph>,
    rest: Seq<usize>,
)
    requires
        rest.len() > 0,
    ensures
        ({
            let (group, others) = grown(adjacent, lines, seq![rest[0]], rest.drop_first(), 0);
            &&& groups(adjacent, lines, rest) == seq![group] + groups(adjacent, lines, others)
            &&& group[0] == rest[0]
            &&& is_chained(adjacent, lines, group)
            &&& forall|k: int|
                0 <= k < others.len() ==> !joins(adjacent, lines, group, #[trigger] others[k])
        }),
{
    lemma_grown(adjacent, lines, seq![rest[0]], rest.drop_first(), 0);
}

/// The lines of all groups together.
pub open spec fn all_of(parts: Seq<Seq<usize>>) -> vstd::multiset::Multiset<usize>
    decreases parts.len(),
{
    if parts.len() == 0 {
        vstd::multiset::Multiset::empty()
    } else {
        parts[0].to_multiset().add(all_of(parts.drop_first()))
    }
}

/// Grouping keeps every line: together the groups hold the lines that were given, each as
/// often as it was given.
pub proof fn law_groups_hold_all_lines(
    adjacent: Pairs,
    lines: Seq<Paragraph>,
    rest: Seq<usize>,
)
    ensures
        all_of(groups(adjacent, lines, rest)) == rest.to_multiset(),
    decreases rest.len(),
{
    rest.to_multiset_ensures();
    if rest.len() == 0 {
        assert(rest.to_multiset() =~= vstd::multiset::Multiset::<usize>::empty());
    } else {
        let (group, others) = grown(adjacent, lines, seq![rest[0]], rest.drop_first(), 0);
        lemma_grown(adjacent, lines, seq![rest[0]], rest.drop_first(), 0);
        lemma_grown_shrinks(adjacent, lines, seq![rest[0]], rest.drop_first(), 0);
        law_groups_hold_all_lines(adjacent, lines, others);
        let all = groups(adjacent, lines, rest);
        assert(all.drop_first() =~= groups(adjacent, lines, others));
        let single = seq![rest[0]];
        Seq::<usize>::empty().to_multiset_ensures();
        assert(single =~= Seq::<usize>::empty().push(rest[0]));
        assert(rest.drop_first() =~= rest.remove(0));
        assert(single.to_multiset().add(rest.drop_first().to_multiset()) =~= rest.to_multiset());
    }
}

/// The sort key of a line in its group: vertical lines are read from right to left, horizontal
/// ones from top to bottom.
pub open spec fn reading_key(line: Paragraph, vertical: bool) -> (u64, u64) {
    if vertical {
        ((u64::MAX - floats::total_64(line.bounds.center_x)) as u64, 0)
    } else {
        (floats::total_64(line.bounds.center_y) as u64, 0)
    }
}

/// The sort keys of the lines of a group.
pub open spec fn reading_keys(
    lines: Seq<Paragraph>,
    group: Seq<usize>,
    vertical: bool,
) -> Seq<(u64, u64)> {
    Seq::new(group.len(), |i: int| reading_key(lines[group[i] as int], vertical))
}

/// The texts of the lines at the given positions, joined.
pub open spec fn joined_text(lines: Seq<Paragraph>, places: Seq<usize>) -> Seq<char>
    decreases places.len(),
{
    if places.len() == 0 {
        Seq::empty()
    } else {
        joined_text(lines, places.drop_last()) + lines[places.last() as int].full_text@
    }
}

/// The words of the lines at the given positions, joined.
pub open spec fn joined_words(lines: Seq<Paragraph>, places: Seq<usize>) -> Seq<Word>
    decreases places.len(),
{
    if places.len() == 0 {
        Seq::empty()
    } else {
        joined_words(lines, places.drop_last()) + lines[places.last() as int].words@
    }
}

/// The boxes of the lines at the given positions.
pub open spec fn boxes_of(lines: Seq<Paragraph>, places: Seq<usize>) -> Seq<BoundingBox> {
    Seq::new(places.len(), |i: int| lines[places[i] as int].bounds)
}

/// The positions in the given order.
pub open spec fn arranged(places: Seq<usize>, order: Seq<usize>) -> Seq<usize> {
    Seq::new(order.len(), |i: int| places[order[i] as int])
}

/// Whether `merge` made `bounds` of these boxes.
pub open spec fn is_merged_box<M: Fn(&Vec<BoundingBox>) -> BoundingBox>(
    merge: M,
    boxes: Seq<BoundingBox>,
    bounds: BoundingBox,
) -> bool {
    exists|list: Vec<BoundingBox>| list@ == boxes && #[trigger] call_ensures(merge, (&list,), bounds)
}

/// Whether `paragraph` is made of the lines of a group in reading order.
pub open spec fn is_merged<M: Fn(&Vec<BoundingBox>) -> BoundingBox>(
    merge: M,
    lines: Seq<Paragraph>,
    group: Seq<usize>,
    paragraph: ParagraphView,
) -> bool {
    let vertical = lines[group[0] as int].is_vertical;
    exists|order: Seq<usize>| #[trigger]
        order::is_stable_order(reading_keys(lines, group, vertical), order) && paragraph.full_text
            == joined_text(lines, arranged(group, order)) && paragraph.words == joined_words(
            lines,
            arranged(group, order),
        ) && paragraph.is_vertical == vertical && is_merged_box(
            merge,
            boxes_of(lines, arranged(group, order)),
            paragraph.bounds,
        )
}

/// The paragraph made of the lines of a group in reading order; there is none without lines.
/// `merge` gives the box around boxes.
pub fn merge_lines_into_paragraph<M: Fn(&Vec<BoundingBox>) -> BoundingBox>(
    merge: &M,
    lines: &Vec<Paragraph>,
    group: &Vec<usize>,
) -> (r: Option<Paragraph>)
    requires
        forall|list: Vec<BoundingBox>| #[trigger] call_requires(*merge, (&list,)),
        in_range(group@, lines@.len() as int),
    ensures
        match r {
            Some(paragraph) => group@.len() > 0 && is_merged(*merge, lines@, group@, paragraph@),
            None => group@.len() == 0,
        },
{
    if group.len() == 0 {
        return None;
    }
    let vertical = lines[group[0]].is_vertical;
    let mut keys: Vec<(u64, u64)> = Vec::new();
    let mut i: usize = 0;
    while i < group.len()
        invariant
            i <= group@.len(),
            in_range(group@, lines@.len() as int),
            keys@ == reading_keys(lines@, group@, vertical).take(i as int),
        decreases group@.len() - i,
    {
        let bounds = lines[group[i]].bounds;
        if vertical {
            keys.push((u64::MAX - total_key_64(bounds.center_x), 0));
        } else {
            keys.push((total_key_64(bounds.center_y), 0));
        }
        assert(keys@ =~= reading_keys(lines@, group@, vertical).take(i + 1));
        i += 1;
    }
    assert(keys@ =~= reading_keys(lines@, group@, vertical));
    let order = stable_order(&keys);
    let ghost places = arranged(group@, order@);
    let mut full_text: String = String::new();
    let mut words: Vec<Word> = Vec::new();
    let mut boxes: Vec<BoundingBox> = Vec::new();
    let mut k: usize = 0;
    assert(places.take(0) =~= Seq::empty());
    assert(full_text@ =~= Seq::empty());
    while k < order.len()
        invariant
            k <= order@.len(),
            order::is_stable_order(reading_keys(lines@, group@, vertical), order@),
            in_range(group@, lines@.len() as int),
            places == arranged(group@, order@),
            full_text@ == joined_text(lines@, places.take(k as int)),
            words@ == joined_words(lines@, places.take(k as int)),
            boxes@ == boxes_of(lines@, places).take(k as int),
        decreases order@.len() - k,
    {
        assert(places.take(k + 1).drop_last() =~= places.take(k as int));
        let place: usize = group[order[k]];
        let line = &lines[place];
        full_text.append(line.full_text.as_str());
        append_words(&mut words, &line.words);
        boxes.push(line.bounds);
        assert(boxes@ =~= boxes_of(lines@, places).take(k + 1));
        k += 1;
    }
    assert(places.take(k as int) =~= places);
    assert(boxes@ =~= boxes_of(lines@, places));
    let bounds = merge(&boxes);
    assert(is_merged_box(*merge, boxes_of(lines@, places), bounds));
    Some(Paragraph { full_text, words, bounds, is_vertical: vertical })
}

/// Whether `limit` is the size below which lines are ruby text: `limit_of` gives it for the
/// middle values of more than one line; one line alone is main text.
pub open spec fn is_limit<L: Fn(u64, u64) -> u64>(
    limit_of: L,
    sizes: Seq<u64>,
    limit: Option<u64>,
) -> bool {
    if sizes.len() > 1 {
        limit is Some && exists|low: u64, high: u64| #[trigger]
            are_middle_values(sizes, low, high) && call_ensures(limit_of, (low, high), limit->0)
    } else {
        limit is None
    }
}

/// Whether these are the paragraphs that lines fall into, where ruby text is smaller than the
/// given limits: the groups of vertical lines, the groups of horizontal lines, and the ruby
/// text as it is. Lines that are kept apart were told apart.
pub open spec fn are_paragraphs<
    A: Fn(&Paragraph, &Paragraph) -> bool,
    M: Fn(&Vec<BoundingBox>) -> BoundingBox,
>(
    adjacent: A,
    merge: M,
    lines: Seq<Paragraph>,
    vertical_limit: Option<u64>,
    horizontal_limit: Option<u64>,
    paragraphs: Seq<Paragraph>,
) -> bool {
    let down = lines_by_size(lines, true, vertical_limit, false);
    let across = lines_by_size(lines, false, horizontal_limit, false);
    let vertical = groups(adjacency(adjacent), lines, down);
    let horizontal = groups(adjacency(adjacent), lines, across);
    let all = vertical + horizontal;
    let ruby = lines_by_size(lines, true, vertical_limit, true) + lines_by_size(
        lines,
        false,
        horizontal_limit,
        true,
    );
    &&& groups_answered(adjacency(adjacent), separation(adjacent), lines, down)
    &&& groups_answered(adjacency(adjacent), separation(adjacent), lines, across)
    &&& paragraphs.len() == all.len() + ruby.len()
    &&& forall|k: int|
        0 <= k < all.len() ==> is_merged(merge, lines, all[k], (#[trigger] paragraphs[k])@)
    &&& forall|k: int|
        all.len() <= k < paragraphs.len() ==> (#[trigger] paragraphs[k])@ == lines[ruby[k
            - all.len()] as int]@
}

/// Whether these are the paragraphs that lines fall into, where ruby text is smaller than the
/// limits that `limit_of` gives for the middle sizes of each direction.
pub open spec fn are_grouped<
    L: Fn(u64, u64) -> u64,
    A: Fn(&Paragraph, &Paragraph) -> bool,
    M: Fn(&Vec<BoundingBox>) -> BoundingBox,
>(
    limit_of: L,
    adjacent: A,
    merge: M,
    lines: Seq<Paragraph>,
    paragraphs: Seq<Paragraph>,
) -> bool {
    exists|vertical_limit: Option<u64>, horizontal_limit: Option<u64>|
        is_limit(limit_of, sizes(lines, true), vertical_limit) && is_limit(
            limit_of,
            sizes(lines, false),
            horizontal_limit,
        ) && #[trigger] are_paragraphs(
            adjacent,
            merge,
            lines,
            vertical_limit,
            horizontal_limit,
            paragraphs,
        )
}

/// The size below which lines are ruby text.
fn find_limit<L: Fn(u64, u64) -> u64>(limit_of: &L, sizes: &Vec<u64>) -> (r: Option<u64>)
    requires
        forall|low: u64, high: u64| #[trigger] call_requires(*limit_of, (low, high)),
    ensures
        is_limit(*limit_of, sizes@, r),
{
    if sizes.len() > 1 {
        let (low, high) = middle_values(sizes);
        let limit: u64 = limit_of(low, high);
        assert(are_middle_values(sizes@, low, high) && call_ensures(*limit_of, (low, high), limit));
        Some(limit)
    } else {
        None
    }
}

/// Appends the paragraph that each group makes.
fn push_merged<M: Fn(&Vec<BoundingBox>) -> BoundingBox>(
    merge: &M,
    lines: &Vec<Paragraph>,
    found: &Vec<Vec<usize>>,
    paragraphs: &mut Vec<Paragraph>,
)
    requires
        forall|list: Vec<BoundingBox>| #[trigger] call_requires(*merge, (&list,)),
        forall|g: int| 0 <= g < found@.len() ==> in_range((#[trigger] found@[g])@, lines@.len() as int),
        forall|g: int| 0 <= g < found@.len() ==> (#[trigger] found@[g])@.len() > 0,
    ensures
        final(paragraphs)@.len() == old(paragraphs)@.len() + found@.len(),
        forall|k: int|
            0 <= k < old(paragraphs)@.len() ==> #[trigger] final(paragraphs)@[k] == old(paragraphs)@[k],
        forall|k: int|
            old(paragraphs)@.len() <= k < final(paragraphs)@.len() ==> is_merged(
                *merge,
                lines@,
                found@[k - old(paragraphs)@.len()]@,
                (#[trigger] final(paragraphs)@[k])@,
            ),
{
    let ghost before = paragraphs@;
    let mut g: usize = 0;
    while g < found.len()
        invariant
            g <= found@.len(),
            before == old(paragraphs)@,
            forall|list: Vec<BoundingBox>| #[trigger] call_requires(*merge, (&list,)),
            forall|g: int|
                0 <= g < found@.len() ==> in_range((#[trigger] found@[g])@, lines@.len() as int),
            forall|g: int| 0 <= g < found@.len() ==> (#[trigger] found@[g])@.len() > 0,
            paragraphs@.len() == before.len() + g,
            forall|k: int| 0 <= k < before.len() ==> #[trigger] paragraphs@[k] == before[k],
            forall|k: int|
                before.len() <= k < paragraphs@.len() ==> is_merged(
                    *merge,
                    lines@,
                    found@[k - before.len()]@,
                    (#[trigger] paragraphs@[k])@,
                ),
        decreases found@.len() - g,
    {
        if let Some(paragraph) = merge_lines_into_paragraph(merge, lines, &found[g]) {
            paragraphs.push(paragraph);
        }
        g += 1;
    }
}

/// Appends copies of the lines at the given positions.
fn push_lines(lines: &Vec<Paragraph>, places: &Vec<usize>, paragraphs: &mut Vec<Paragraph>)
    requires
        in_range(places@, lines@.len() as int),
    ensures
        final(paragraphs)@.len() == old(paragraphs)@.len() + places@.len(),
        forall|k: int|
            0 <= k < old(paragraphs)@.len() ==> #[trigger] final(paragraphs)@[k] == old(paragraphs)@[k],
        forall|k: int|
            old(paragraphs)@.len() <= k < final(paragraphs)@.len() ==> (#[trigger] final(paragraphs)@[k])@ == lines@[places@[k - old(paragraphs)@.len()] as int]@,
{
    let ghost before = paragraphs@;
    let mut i: usize = 0;
    while i < places.len()
        invariant
            i <= places@.len(),
            before == old(paragraphs)@,
            in_range(places@, lines@.len() as int),
            paragraphs@.len() == before.len() + i,
            forall|k: int| 0 <= k < before.len() ==> #[trigger] paragraphs@[k] == before[k],
            forall|k: int|
                before.len() <= k < paragraphs@.len() ==> (#[trigger] paragraphs@[k])@
                    == lines@[places@[k - before.len()] as int]@,
        decreases places@.len() - i,
    {
        let place: usize = places[i];
        paragraphs.push(lines[place].clone());
        i += 1;
    }
}

/// The paragraphs that lines fall into. `limit_of` gives the size below which lines are ruby
/// text for the middle sizes, `adjacent` says whether two lines belong together, and `merge`
/// gives the box around boxes.
pub fn group_lines_into_paragraphs<
    L: Fn(u64, u64) -> u64,
    A: Fn(&Paragraph, &Paragraph) -> bool,
    M: Fn(&Vec<BoundingBox>) -> BoundingBox,
>(lines: &Vec<Paragraph>, limit_of: &L, adjacent: &A, merge: &M) -> (r: Vec<Paragraph>)
    requires
        forall|low: u64, high: u64| #[trigger] call_requires(*limit_of, (low, high)),
        forall|list: Vec<BoundingBox>| #[trigger] call_requires(*merge, (&list,)),
        is_steady(*adjacent),
    ensures
        are_grouped(*limit_of, *adjacent, *merge, lines@, r@),
{
    let vertical_limit = find_limit(limit_of, &line_sizes(lines, true));
    let horizontal_limit = find_limit(limit_of, &line_sizes(lines, false));
    let (vertical_main, vertical_ruby) = classify_lines_by_size(lines, true, vertical_limit);
    let (horizontal_main, horizontal_ruby) = classify_lines_by_size(lines, false, horizontal_limit);
    let ghost vertical_places = vertical_main@;
    let ghost horizontal_places = horizontal_main@;
    proof {
        assert(lines@.len() == lines.len());
        lemma_lines_by_size(lines@, true, vertical_limit, false);
        lemma_lines_by_size(lines@, true, vertical_limit, true);
        lemma_lines_by_size(lines@, false, horizontal_limit, false);
        lemma_lines_by_size(lines@, false, horizontal_limit, true);
    }
    let vertical = group_lines(adjacent, lines, vertical_main);
    let horizontal = group_lines(adjacent, lines, horizontal_main);
    let mut paragraphs: Vec<Paragraph> = Vec::new();
    push_merged(merge, lines, &vertical, &mut paragraphs);
    let ghost first = paragraphs@;
    push_merged(merge, lines, &horizontal, &mut paragraphs);
    let ghost second = paragraphs@;
    push_lines(lines, &vertical_ruby, &mut paragraphs);
    let ghost third = paragraphs@;
    push_lines(lines, &horizontal_ruby, &mut paragraphs);
    proof {
        let v = groups(adjacency(*adjacent), lines@, vertical_places);
        let h = groups(adjacency(*adjacent), lines@, horizontal_places);
        let all = v + h;
        let ruby = vertical_ruby@ + horizontal_ruby@;
        assert forall|k: int| 0 <= k < all.len() implies is_merged(
            *merge,
            lines@,
            all[k],
            (#[trigger] paragraphs@[k])@,
        ) by {
            assert(paragraphs@[k] == third[k]);
            assert(third[k] == second[k]);
            if k < v.len() {
                assert(second[k] == first[k]);
                assert(vertical@[k]@ == v[k]);
            } else {
                assert(horizontal@[k - v.len()]@ == h[k - v.len()]);
            }
        }
        assert forall|k: int| all.len() <= k < paragraphs@.len() implies (
        #[trigger] paragraphs@[k])@ == lines@[ruby[k - all.len()] as int]@ by {
            if k < third.len() {
                assert(paragraphs@[k] == third[k]);
            }
        }
        assert(are_paragraphs(
            *adjacent,
            *merge,
            lines@,
            vertical_limit,
            horizontal_limit,
            paragraphs@,
        ));
    }
    paragraphs
}

proof fn lemma_lines_ascend(lines: Seq<Paragraph>, vertical: bool, limit: Option<u64>, small: bool)
    requires
        lines.len() <= usize::MAX,
    ensures
        forall|a: int, b: int|
            #![trigger lines_by_size(lines, vertical, limit, small)[a], lines_by_size(lines, vertical, limit, small)[b]]
            0 <= a < b < lines_by_size(lines, vertical, limit, small).len() ==> lines_by_size(
                lines,
                vertical,
                limit,
                small,
            )[a] < lines_by_size(lines, vertical, limit, small)[b],
    decreases lines.len(),
{
    if lines.len() > 0 {
        let fewer = lines.drop_last();
        lemma_lines_ascend(fewer, vertical, limit, small);
        lemma_lines_by_size(fewer, vertical, limit, small);
    }
}

/// Ruby text is told from main text by the widths of vertical lines and the heights of horizontal
/// ones, and by nothing else: a line is ruby text if there is a limit and it exceeds that. The
/// lines of each class stand in their order.
pub proof fn law_ruby_is_told_by_widths_and_heights(
    lines: Seq<Paragraph>,
    limit: Option<u64>,
    i: int,
)
    requires
        lines.len() <= usize::MAX,
        0 <= i < lines.len(),
    ensures
        lines_by_size(lines, true, limit, true).contains(i as usize) <==> lines[i].is_vertical
            && limit is Some && floats::greater_64(limit->0, lines[i].bounds.width),
        lines_by_size(lines, true, limit, false).contains(i as usize) <==> lines[i].is_vertical && (
        limit is None || !floats::greater_64(limit->0, lines[i].bounds.width)),
        lines_by_size(lines, false, limit, true).contains(i as usize) <==> !lines[i].is_vertical
            && limit is Some && floats::greater_64(limit->0, lines[i].bounds.height),
        lines_by_size(lines, false, limit, false).contains(i as usize) <==> !lines[i].is_vertical
            && (limit is None || !floats::greater_64(limit->0, lines[i].bounds.height)),
        forall|vertical: bool, small: bool, a: int, b: int|
            #![trigger lines_by_size(lines, vertical, limit, small)[a], lines_by_size(lines, vertical, limit, small)[b]]
            0 <= a < b < lines_by_size(lines, vertical, limit, small).len() ==> lines_by_size(
                lines,
                vertical,
                limit,
                small,
            )[a] < lines_by_size(lines, vertical, limit, small)[b] < lines.len(),
{
    law_each_line_has_one_class(lines, true, limit, true, i);
    law_each_line_has_one_class(lines, true, limit, false, i);
    law_each_line_has_one_class(lines, false, limit, true, i);
    law_each_line_has_one_class(lines, false, limit, false, i);
    assert forall|vertical: bool, small: bool, a: int, b: int|
        #![trigger lines_by_size(lines, vertical, limit, small)[a], lines_by_size(lines, vertical, limit, small)[b]]
        0 <= a < b < lines_by_size(lines, vertical, limit, small).len() implies lines_by_size(
        lines,
        vertical,
        limit,
        small,
    )[a] < lines_by_size(lines, vertical, limit, small)[b] < lines.len() by {
        lemma_lines_ascend(lines, vertical, limit, small);
        lemma_lines_by_size(lines, vertical, limit, small);
    }
}

/// The sizes that the limit is made of are the widths of the vertical lines, or the heights of the
/// horizontal ones, each once and in their order; `places` are the places of those lines.
pub proof fn law_sizes_are_widths_and_heights(lines: Seq<Paragraph>, vertical: bool) -> (places: Seq<
    int,
>)
    ensures
        places.len() == sizes(lines, vertical).len(),
        forall|k: int|
            0 <= k < places.len() ==> {
                &&& 0 <= #[trigger] places[k] < lines.len()
                &&& lines[places[k]].is_vertical == vertical
                &&& (vertical ==> sizes(lines, vertical)[k] == lines[places[k]].bounds.width)
                &&& (!vertical ==> sizes(lines, vertical)[k] == lines[places[k]].bounds.height)
            },
        forall|k: int, l: int|
            #![trigger places[k], places[l]]
            0 <= k < l < places.len() ==> places[k] < places[l],
        forall|i: int|
            0 <= i < lines.len() && (#[trigger] lines[i]).is_vertical == vertical
                ==> places.contains(i),
    decreases lines.len(),
{
    if lines.len() == 0 {
        Seq::empty()
    } else {
        let fewer = lines.drop_last();
        let last = lines.len() - 1;
        let before = law_sizes_are_widths_and_heights(fewer, vertical);
        let places = if lines[last].is_vertical == vertical {
            before.push(last)
        } else {
            before
        };
        assert forall|k: int| 0 <= k < places.len() implies {
            &&& 0 <= #[trigger] places[k] < lines.len()
            &&& lines[places[k]].is_vertical == vertical
            &&& (vertical ==> sizes(lines, vertical)[k] == lines[places[k]].bounds.width)
            &&& (!vertical ==> sizes(lines, vertical)[k] == lines[places[k]].bounds.height)
        } by {
            if k < before.len() {
                assert(before[k] == places[k]);
                assert(fewer[before[k]] == lines[before[k]]);
            }
        }
        assert forall|k: int, l: int|
            #![trigger places[k], places[l]]
            0 <= k < l < places.len() implies places[k] < places[l] by {
            assert(before[k] == places[k]);
            if l < before.len() {
                assert(before[l] == places[l]);
            }
        }
        assert forall|i: int|
            0 <= i < lines.len() && (#[trigger] lines[i]).is_vertical
                == vertical implies places.contains(i) by {
            if i < last {
                assert(fewer[i] == lines[i]);
                let k = choose|k: int| 0 <= k < before.len() && before[k] == i;
                assert(places[k] == i);
            } else {
                assert(places[before.len() as int] == i);
            }
        }
        places
    }
}

/// The middle values stand in the middle when all values stand in the total order of doubles:
/// of an odd number of values one, of an even number the two next to the middle.
pub proof fn law_middle_values_stand_in_the_middle(
    values: Seq<u64>,
    low: u64,
    high: u64,
    half: int,
) -> (places: Seq<int>)
    requires
        are_middle_values(values, low, high),
        half >= 0,
        values.len() == 2 * half + 1 || values.len() == 2 * half,
        values.len() > 0,
    ensures
        places.len() == values.len(),
        forall|k: int| 0 <= k < places.len() ==> 0 <= #[trigger] places[k] < values.len(),
        forall|i: int| 0 <= i < values.len() && i <= usize::MAX ==> #[trigger] places.contains(i),
        forall|k: int, l: int|
            #![trigger places[k], places[l]]
            0 <= k < l < places.len() ==> places[k] != places[l] && floats::total_64(
                values[places[k]],
            ) <= floats::total_64(values[places[l]]),
        high == values[places[half]],
        low == values[places[if values.len() == 2 * half {
            half - 1
        } else {
            half
        }]],
{
    let order = choose|order: Seq<usize>| #[trigger]
        order::is_stable_order(total_keys(values), order) && low == values[order[(values.len() - 1)
            / 2] as int] && high == values[order[values.len() as int / 2] as int];
    order::law_sorting_goes_by_keys(total_keys(values), order);
    let places = Seq::new(order.len(), |k: int| order[k] as int);
    assert forall|k: int| 0 <= k < places.len() implies 0 <= #[trigger] places[k]
        < values.len() by {
        assert(order[k] < total_keys(values).len());
    }
    assert forall|i: int| 0 <= i < values.len() && i <= usize::MAX implies #[trigger] places.contains(
        i,
    ) by {
        assert(order.contains(i as usize));
        let k = choose|k: int| 0 <= k < order.len() && order[k] == i as usize;
        assert(places[k] == i);
    }
    assert forall|k: int, l: int|
        #![trigger places[k], places[l]]
        0 <= k < l < places.len() implies places[k] != places[l] && floats::total_64(
        values[places[k]],
    ) <= floats::total_64(values[places[l]]) by {
        assert(order[k] != order[l]);
        let a = values[places[k]];
        let b = values[places[l]];
        assert(total_keys(values)[order[k] as int].0 <= total_keys(values)[order[l] as int].0);
        floats::law_doubles_have_a_total_order(a, b);
        floats::law_doubles_have_a_total_order(b, a);
    }
    if values.len() == 2 * half {
        assert((values.len() - 1) / 2 == half - 1);
        assert(values.len() as int / 2 == half);
    } else {
        assert((values.len() - 1) / 2 == half);
        assert(values.len() as int / 2 == half);
    }
    places
}

/// Where all vertical lines have one width, or all horizontal ones one height, and the limit for
/// that size does not exceed it, none of them is ruby text, however long they are.
pub proof fn law_lines_of_one_size_are_main_text<L: Fn(u64, u64) -> u64>(
    limit_of: L,
    lines: Seq<Paragraph>,
    vertical: bool,
    size: u64,
    limit: Option<u64>,
)
    requires
        lines.len() <= usize::MAX,
        is_limit(limit_of, sizes(lines, vertical), limit),
        forall|i: int|
            0 <= i < lines.len() && (#[trigger] lines[i]).is_vertical == vertical
                ==> if vertical {
                lines[i].bounds.width == size
            } else {
                lines[i].bounds.height == size
            },
        forall|l: u64| #[trigger]
            call_ensures(limit_of, (size, size), l) ==> !floats::greater_64(l, size),
    ensures
        lines_by_size(lines, vertical, limit, true).len() == 0,
        forall|i: int|
            0 <= i < lines.len() && (#[trigger] lines[i]).is_vertical == vertical
                ==> lines_by_size(lines, vertical, limit, false).contains(i as usize),
{
    let all = sizes(lines, vertical);
    let places = law_sizes_are_widths_and_heights(lines, vertical);
    assert forall|k: int| 0 <= k < all.len() implies all[k] == size by {
        assert(lines[places[k]].is_vertical == vertical);
    }
    if all.len() > 1 {
        let (low, high) = choose|low: u64, high: u64| #[trigger]
            are_middle_values(all, low, high) && call_ensures(limit_of, (low, high), limit->0);
        let half = all.len() as int / 2;
        let order = law_middle_values_stand_in_the_middle(all, low, high, half);
        assert(0 <= order[half] < all.len());
        if all.len() == 2 * half {
            assert(0 <= order[half - 1] < all.len());
        }
        assert(low == size && high == size);
    }
    let ruby = lines_by_size(lines, vertical, limit, true);
    lemma_lines_by_size(lines, vertical, limit, true);
    if ruby.len() > 0 {
        let i = ruby[0] as int;
        assert(ruby.contains(i as usize));
        law_ruby_is_told_by_widths_and_heights(lines, limit, i);
        assert(lines[i].is_vertical == vertical);
    }
    assert forall|i: int|
        0 <= i < lines.len() && (#[trigger] lines[i]).is_vertical
            == vertical implies lines_by_size(lines, vertical, limit, false).contains(
        i as usize,
    ) by {
        law_ruby_is_told_by_widths_and_heights(lines, limit, i);
    }
}

/// Of lines of one direction the limit is told by the middle two of their sizes; a line alone has
/// none.
pub proof fn law_the_limit_is_told_by_middle_sizes<L: Fn(u64, u64) -> u64>(
    limit_of: L,
    sizes: Seq<u64>,
    limit: Option<u64>,
) -> (middle: (u64, u64))
    requires
        is_limit(limit_of, sizes, limit),
    ensures
        sizes.len() < 2 ==> limit is None,
        sizes.len() >= 2 ==> limit is Some && are_middle_values(sizes, middle.0, middle.1)
            && call_ensures(limit_of, (middle.0, middle.1), limit->0),
{
    let (low, high) = choose|low: u64, high: u64| #[trigger]
        are_middle_values(sizes, low, high) && call_ensures(limit_of, (low, high), limit->0);
    (low, high)
}

proof fn lemma_grown_keeps_order(
    adjacent: Pairs,
    lines: Seq<Paragraph>,
    group: Seq<usize>,
    others: Seq<usize>,
    from: int,
)
    requires
        0 <= from <= others.len(),
        group.len() > 0,
        forall|k: int| 1 <= k < group.len() ==> group[0] < #[trigger] group[k],
        forall|k: int| 0 <= k < others.len() ==> group[0] < #[trigger] others[k],
        forall|a: int, b: int|
            #![trigger others[a], others[b]]
            0 <= a < b < others.len() ==> others[a] < others[b],
    ensures
        ({
            let (g, o) = grown(adjacent, lines, group, others, from);
            &&& g.len() > 0 && g[0] == group[0]
            &&& forall|k: int| 1 <= k < g.len() ==> g[0] < #[trigger] g[k]
            &&& forall|k: int| 0 <= k < o.len() ==> g[0] < #[trigger] o[k]
            &&& forall|a: int, b: int|
                #![trigger o[a], o[b]]
                0 <= a < b < o.len() ==> o[a] < o[b]
            &&& forall|k: int|
                0 <= k < g.len() ==> group.contains(#[trigger] g[k]) || others.contains(g[k])
            &&& forall|k: int| 0 <= k < o.len() ==> others.contains(#[trigger] o[k])
            &&& forall|v: usize| #[trigger] group.contains(v) ==> g.contains(v) || o.contains(v)
            &&& forall|v: usize| #[trigger] others.contains(v) ==> g.contains(v) || o.contains(v)
        }),
    decreases others.len(), others.len() - from,
{
    if from < others.len() {
        let candidate = others[from];
        if joins(adjacent, lines, group, candidate) {
            let longer = group.push(candidate);
            let fewer = others.remove(from);
            assert forall|a: int, b: int|
                #![trigger fewer[a], fewer[b]]
                0 <= a < b < fewer.len() implies fewer[a] < fewer[b] by {
                let x = if a < from {
                    a
                } else {
                    a + 1
                };
                let y = if b < from {
                    b
                } else {
                    b + 1
                };
                assert(fewer[a] == others[x] && fewer[b] == others[y]);
            }
            assert forall|k: int| 0 <= k < fewer.len() implies longer[0] < #[trigger] fewer[k]
                && others.contains(fewer[k]) by {
                let x = if k < from {
                    k
                } else {
                    k + 1
                };
                assert(fewer[k] == others[x]);
            }
            lemma_grown_keeps_order(adjacent, lines, longer, fewer, 0);
            let (g, o) = grown(adjacent, lines, longer, fewer, 0);
            assert forall|v: usize| longer.contains(v) implies group.contains(v)
                || others.contains(v) by {
                let k = choose|k: int| 0 <= k < longer.len() && longer[k] == v;
                if k < group.len() {
                    assert(group[k] == v);
                }
            }
            assert forall|v: usize| fewer.contains(v) implies others.contains(v) by {
                let k = choose|k: int| 0 <= k < fewer.len() && fewer[k] == v;
            }
            assert forall|v: usize| #[trigger] group.contains(v) implies g.contains(v)
                || o.contains(v) by {
                let k = choose|k: int| 0 <= k < group.len() && group[k] == v;
                assert(longer[k] == v);
                assert(longer.contains(v));
            }
            assert forall|v: usize| #[trigger] others.contains(v) implies g.contains(v)
                || o.contains(v) by {
                let k = choose|k: int| 0 <= k < others.len() && others[k] == v;
                if k < from {
                    assert(fewer[k] == v);
                    assert(fewer.contains(v));
                } else if k > from {
                    assert(fewer[k - 1] == v);
                    assert(fewer.contains(v));
                } else {
                    assert(longer[group.len() as int] == v);
                    assert(longer.contains(v));
                }
            }
        } else {
            lemma_grown_keeps_order(adjacent, lines, group, others, from + 1);
        }
    }
}

/// Whether the lines of a group hang together: each but the first lies next to one that joined
/// the group before it, as the judge answered.
pub open spec fn hangs_together(
    adjacent: Pairs,
    lines: Seq<Paragraph>,
    group: Seq<usize>,
) -> bool {
    forall|k: int|
        1 <= k < group.len() ==> exists|m: int|
            0 <= m < k && adjacent(lines[#[trigger] group[m] as int], lines[#[trigger] group[k] as int])
}

/// Whether positions ascend.
pub open spec fn ascend(places: Seq<usize>) -> bool {
    forall|a: int, b: int|
        #![trigger places[a], places[b]]
        0 <= a < b < places.len() ==> places[a] < places[b]
}

/// Whether lines are a group of lines at the given places that hangs together and starts with
/// its first line.
pub open spec fn is_group(
    adjacent: Pairs,
    lines: Seq<Paragraph>,
    places: Seq<usize>,
    group: Seq<usize>,
) -> bool {
    &&& group.len() > 0
    &&& hangs_together(adjacent, lines, group)
    &&& forall|k: int| 1 <= k < group.len() ==> group[0] < #[trigger] group[k]
    &&& forall|k: int| 0 <= k < group.len() ==> places.contains(#[trigger] group[k])
}

/// Whether a group begins before all lines of another, and none of those lies next to one of its
/// lines.
pub open spec fn are_apart(
    adjacent: Pairs,
    lines: Seq<Paragraph>,
    group: Seq<usize>,
    other: Seq<usize>,
) -> bool {
    &&& forall|l: int| 0 <= l < other.len() ==> group[0] < #[trigger] other[l]
    &&& forall|k: int, l: int|
        #![trigger group[k], other[l]]
        0 <= k < group.len() && 0 <= l < other.len() ==> !adjacent(
            lines[group[k] as int],
            lines[other[l] as int],
        )
}

proof fn lemma_first_group(adjacent: Pairs, lines: Seq<Paragraph>, places: Seq<usize>)
    requires
        places.len() > 0,
        ascend(places),
    ensures
        ({
            let (first, left) = grown(adjacent, lines, seq![places[0]], places.drop_first(), 0);
            &&& is_group(adjacent, lines, places, first)
            &&& are_apart(adjacent, lines, first, left)
            &&& ascend(left)
            &&& left.len() < places.len()
            &&& forall|k: int| 0 <= k < left.len() ==> places.contains(#[trigger] left[k])
            &&& forall|v: usize| #[trigger]
                places.contains(v) ==> first.contains(v) || left.contains(v)
        }),
{
    let start = seq![places[0]];
    let others = places.drop_first();
    assert forall|a: int, b: int|
        #![trigger others[a], others[b]]
        0 <= a < b < others.len() implies others[a] < others[b] by {
        assert(others[a] == places[a + 1] && others[b] == places[b + 1]);
    }
    assert forall|k: int| 0 <= k < others.len() implies start[0] < #[trigger] others[k] by {
        assert(others[k] == places[k + 1] && start[0] == places[0]);
    }
    lemma_grown(adjacent, lines, start, others, 0);
    lemma_grown_keeps_order(adjacent, lines, start, others, 0);
    lemma_grown_shrinks(adjacent, lines, start, others, 0);
    let (first, left) = grown(adjacent, lines, start, others, 0);
    assert forall|v: usize| #[trigger] others.contains(v) implies places.contains(v) by {
        let k = choose|k: int| 0 <= k < others.len() && others[k] == v;
        assert(places[k + 1] == v);
    }
    assert forall|v: usize| #[trigger] start.contains(v) implies places.contains(v) by {
        assert(places[0] == v);
    }
    assert(hangs_together(adjacent, lines, first)) by {
        assert forall|k: int| 1 <= k < first.len() implies exists|m: int|
            0 <= m < k && adjacent(
                lines[#[trigger] first[m] as int],
                lines[#[trigger] first[k] as int],
            ) by {
            assert(joins(adjacent, lines, first.take(k), first[k]));
            let m = choose|m: int|
                0 <= m < first.take(k).len() && adjacent(
                    lines[#[trigger] first.take(k)[m] as int],
                    lines[first[k] as int],
                );
            assert(first.take(k)[m] == first[m]);
        }
    }
    assert forall|k: int, l: int|
        #![trigger first[k], left[l]]
        0 <= k < first.len() && 0 <= l < left.len() implies !adjacent(
        lines[first[k] as int],
        lines[left[l] as int],
    ) by {
        assert(!joins(adjacent, lines, first, left[l]));
    }
    assert forall|v: usize| #[trigger] places.contains(v) implies first.contains(v)
        || left.contains(v) by {
        let p = choose|p: int| 0 <= p < places.len() && places[p] == v;
        if p == 0 {
            assert(start[0] == v);
            assert(start.contains(v));
        } else {
            assert(others[p - 1] == v);
            assert(others.contains(v));
        }
    }
}

proof fn lemma_groups_lie_in_more(
    adjacent: Pairs,
    lines: Seq<Paragraph>,
    fewer: Seq<usize>,
    places: Seq<usize>,
    group: Seq<usize>,
)
    requires
        is_group(adjacent, lines, fewer, group),
        forall|k: int| 0 <= k < fewer.len() ==> places.contains(#[trigger] fewer[k]),
    ensures
        is_group(adjacent, lines, places, group),
{
    assert forall|k: int| 0 <= k < group.len() implies places.contains(#[trigger] group[k]) by {
        assert(fewer.contains(group[k]));
        let p = choose|p: int| 0 <= p < fewer.len() && fewer[p] == group[k];
        assert(places.contains(fewer[p]));
    }
}

proof fn lemma_groups_stay_apart(
    adjacent: Pairs,
    lines: Seq<Paragraph>,
    first: Seq<usize>,
    left: Seq<usize>,
    other: Seq<usize>,
)
    requires
        are_apart(adjacent, lines, first, left),
        is_group(adjacent, lines, left, other),
    ensures
        are_apart(adjacent, lines, first, other),
{
    assert forall|l: int| 0 <= l < other.len() implies first[0] < #[trigger] other[l] by {
        assert(left.contains(other[l]));
        let p = choose|p: int| 0 <= p < left.len() && left[p] == other[l];
        assert(first[0] < left[p]);
    }
    assert forall|k: int, l: int|
        #![trigger first[k], other[l]]
        0 <= k < first.len() && 0 <= l < other.len() implies !adjacent(
        lines[first[k] as int],
        lines[other[l] as int],
    ) by {
        assert(left.contains(other[l]));
        let p = choose|p: int| 0 <= p < left.len() && left[p] == other[l];
        assert(!adjacent(lines[first[k] as int], lines[left[p] as int]));
    }
}

proof fn lemma_all_are_groups(adjacent: Pairs, lines: Seq<Paragraph>, places: Seq<usize>)
    requires
        ascend(places),
    ensures
        forall|g: int|
            0 <= g < groups(adjacent, lines, places).len() ==> is_group(
                adjacent,
                lines,
                places,
                #[trigger] groups(adjacent, lines, places)[g],
            ),
    decreases places.len(),
{
    if places.len() > 0 {
        let (first, left) = grown(adjacent, lines, seq![places[0]], places.drop_first(), 0);
        lemma_first_group(adjacent, lines, places);
        lemma_all_are_groups(adjacent, lines, left);
        let rest = groups(adjacent, lines, left);
        let all = groups(adjacent, lines, places);
        assert(all == seq![first] + rest);
        assert forall|g: int| 0 <= g < all.len() implies is_group(
            adjacent,
            lines,
            places,
            #[trigger] all[g],
        ) by {
            if g > 0 {
                assert(all[g] == rest[g - 1]);
                lemma_groups_lie_in_more(adjacent, lines, left, places, rest[g - 1]);
            } else {
                assert(all[g] == first);
            }
        }
    }
}

proof fn lemma_all_are_apart(
    adjacent: Pairs,
    lines: Seq<Paragraph>,
    places: Seq<usize>,
    g: int,
    h: int,
)
    requires
        ascend(places),
        0 <= g < h < groups(adjacent, lines, places).len(),
    ensures
        are_apart(
            adjacent,
            lines,
            groups(adjacent, lines, places)[g],
            groups(adjacent, lines, places)[h],
        ),
    decreases places.len(),
{
    if places.len() > 0 {
        let (first, left) = grown(adjacent, lines, seq![places[0]], places.drop_first(), 0);
        lemma_first_group(adjacent, lines, places);
        let rest = groups(adjacent, lines, left);
        let all = groups(adjacent, lines, places);
        assert(all == seq![first] + rest);
        assert(all[h] == rest[h - 1]);
        if g > 0 {
            assert(all[g] == rest[g - 1]);
            lemma_all_are_apart(adjacent, lines, left, g - 1, h - 1);
        } else {
            assert(all[g] == first);
            lemma_all_are_groups(adjacent, lines, left);
            lemma_groups_stay_apart(adjacent, lines, first, left, rest[h - 1]);
        }
    }
}

proof fn lemma_all_are_held(
    adjacent: Pairs,
    lines: Seq<Paragraph>,
    places: Seq<usize>,
    v: usize,
) -> (g: int)
    requires
        ascend(places),
        places.contains(v),
    ensures
        0 <= g < groups(adjacent, lines, places).len(),
        groups(adjacent, lines, places)[g].contains(v),
    decreases places.len(),
{
    let (first, left) = grown(adjacent, lines, seq![places[0]], places.drop_first(), 0);
    lemma_first_group(adjacent, lines, places);
    let rest = groups(adjacent, lines, left);
    let all = groups(adjacent, lines, places);
    assert(all == seq![first] + rest);
    if first.contains(v) {
        assert(all[0] == first);
        0
    } else {
        let g = lemma_all_are_held(adjacent, lines, left, v);
        assert(all[g + 1] == rest[g]);
        g + 1
    }
}

/// Lines fall into groups that hang together and hold each of them. Each group starts with its
/// first line, the groups follow each other by their first lines, and no line lies next to one of
/// an earlier group.
pub proof fn law_groups_are_kept_apart(
    adjacent: Pairs,
    lines: Seq<Paragraph>,
    places: Seq<usize>,
)
    requires
        ascend(places),
    ensures
        forall|g: int|
            0 <= g < groups(adjacent, lines, places).len() ==> is_group(
                adjacent,
                lines,
                places,
                #[trigger] groups(adjacent, lines, places)[g],
            ),
        forall|g: int, h: int|
            #![trigger groups(adjacent, lines, places)[g], groups(adjacent, lines, places)[h]]
            0 <= g < h < groups(adjacent, lines, places).len() ==> are_apart(
                adjacent,
                lines,
                groups(adjacent, lines, places)[g],
                groups(adjacent, lines, places)[h],
            ),
        forall|v: usize| #[trigger]
            places.contains(v) ==> exists|g: int|
                0 <= g < groups(adjacent, lines, places).len() && (#[trigger] groups(
                    adjacent,
                    lines,
                    places,
                )[g]).contains(v),
{
    lemma_all_are_groups(adjacent, lines, places);
    assert forall|g: int, h: int|
        #![trigger groups(adjacent, lines, places)[g], groups(adjacent, lines, places)[h]]
        0 <= g < h < groups(adjacent, lines, places).len() implies are_apart(
        adjacent,
        lines,
        groups(adjacent, lines, places)[g],
        groups(adjacent, lines, places)[h],
    ) by {
        lemma_all_are_apart(adjacent, lines, places, g, h);
    }
    assert forall|v: usize| #[trigger] places.contains(v) implies exists|g: int|
        0 <= g < groups(adjacent, lines, places).len() && (#[trigger] groups(
            adjacent,
            lines,
            places,
        )[g]).contains(v) by {
        let g = lemma_all_are_held(adjacent, lines, places, v);
    }
}

proof fn lemma_joined(lines: Seq<Paragraph>, places: Seq<usize>)
    ensures
        joined_text(lines, places) == Seq::new(
            places.len(),
            |k: int| lines[places[k] as int].full_text@,
        ).flatten(),
        joined_words(lines, places) == Seq::new(
            places.len(),
            |k: int| lines[places[k] as int].words@,
        ).flatten(),
    decreases places.len(),
{
    let texts = Seq::new(places.len(), |k: int| lines[places[k] as int].full_text@);
    let words = Seq::new(places.len(), |k: int| lines[places[k] as int].words@);
    if places.len() > 0 {
        let fewer = places.drop_last();
        lemma_joined(lines, fewer);
        assert(texts.drop_last() =~= Seq::new(
            fewer.len(),
            |k: int| lines[fewer[k] as int].full_text@,
        ));
        assert(words.drop_last() =~= Seq::new(fewer.len(), |k: int| lines[fewer[k] as int].words@));
        texts.lemma_flatten_and_flatten_alt_are_equivalent();
        words.lemma_flatten_and_flatten_alt_are_equivalent();
        texts.drop_last().lemma_flatten_and_flatten_alt_are_equivalent();
        words.drop_last().lemma_flatten_and_flatten_alt_are_equivalent();
    }
}

/// A paragraph is made of the lines of its group, each once: vertical ones from the right to the
/// left, horizontal ones from the top down, lines at one place as they joined. Its text and its
/// words are theirs in a row, its box is made of theirs, and its direction is theirs.
pub proof fn law_paragraphs_are_made_in_reading_order<M: Fn(&Vec<BoundingBox>) -> BoundingBox>(
    merge: M,
    lines: Seq<Paragraph>,
    group: Seq<usize>,
    paragraph: ParagraphView,
) -> (read: (Seq<int>, Vec<BoundingBox>))
    requires
        group.len() > 0,
        is_merged(merge, lines, group, paragraph),
    ensures
        read.0.len() == group.len(),
        forall|k: int| 0 <= k < read.0.len() ==> 0 <= #[trigger] read.0[k] < group.len(),
        forall|k: int, l: int|
            #![trigger read.0[k], read.0[l]]
            0 <= k < l < read.0.len() ==> {
                let a = lines[group[read.0[k]] as int].bounds;
                let b = lines[group[read.0[l]] as int].bounds;
                &&& read.0[k] != read.0[l]
                &&& (paragraph.is_vertical ==> floats::total_64(a.center_x) >= floats::total_64(
                    b.center_x,
                ) && (a.center_x == b.center_x ==> read.0[k] < read.0[l]))
                &&& (!paragraph.is_vertical ==> floats::total_64(a.center_y) <= floats::total_64(
                    b.center_y,
                ) && (a.center_y == b.center_y ==> read.0[k] < read.0[l]))
            },
        paragraph.is_vertical == lines[group[0] as int].is_vertical,
        paragraph.full_text == Seq::new(
            group.len(),
            |k: int| lines[group[read.0[k]] as int].full_text@,
        ).flatten(),
        paragraph.words == Seq::new(
            group.len(),
            |k: int| lines[group[read.0[k]] as int].words@,
        ).flatten(),
        read.1@.len() == group.len(),
        forall|k: int|
            0 <= k < group.len() ==> #[trigger] read.1@[k] == lines[group[read.0[k]] as int].bounds,
        call_ensures(merge, (&read.1,), paragraph.bounds),
{
    let vertical = lines[group[0] as int].is_vertical;
    let keys = reading_keys(lines, group, vertical);
    let order = choose|order: Seq<usize>| #[trigger]
        order::is_stable_order(keys, order) && paragraph.full_text == joined_text(
            lines,
            arranged(group, order),
        ) && paragraph.words == joined_words(lines, arranged(group, order)) && paragraph.is_vertical
            == vertical && is_merged_box(
            merge,
            boxes_of(lines, arranged(group, order)),
            paragraph.bounds,
        );
    let list = choose|list: Vec<BoundingBox>|
        list@ == boxes_of(lines, arranged(group, order)) && #[trigger] call_ensures(
            merge,
            (&list,),
            paragraph.bounds,
        );
    let places = Seq::new(order.len(), |k: int| order[k] as int);
    order::law_sorting_goes_by_keys(keys, order);
    let arranged_lines = arranged(group, order);
    lemma_joined(lines, arranged_lines);
    assert(Seq::new(arranged_lines.len(), |k: int| lines[arranged_lines[k] as int].full_text@)
        =~= Seq::new(group.len(), |k: int| lines[group[places[k]] as int].full_text@));
    assert(Seq::new(arranged_lines.len(), |k: int| lines[arranged_lines[k] as int].words@)
        =~= Seq::new(group.len(), |k: int| lines[group[places[k]] as int].words@));
    assert forall|k: int| 0 <= k < places.len() implies 0 <= #[trigger] places[k] < group.len() by {
        assert(order[k] < keys.len());
    }
    assert forall|k: int, l: int|
        #![trigger places[k], places[l]]
        0 <= k < l < places.len() implies {
        let a = lines[group[places[k]] as int].bounds;
        let b = lines[group[places[l]] as int].bounds;
        &&& places[k] != places[l]
        &&& (vertical ==> floats::total_64(a.center_x) >= floats::total_64(b.center_x) && (
        a.center_x == b.center_x ==> places[k] < places[l]))
        &&& (!vertical ==> floats::total_64(a.center_y) <= floats::total_64(b.center_y) && (
        a.center_y == b.center_y ==> places[k] < places[l]))
    } by {
        let a = lines[group[places[k]] as int].bounds;
        let b = lines[group[places[l]] as int].bounds;
        assert(order[k] != order[l]);
        assert(keys[order[k] as int] == reading_key(lines[group[places[k]] as int], vertical));
        assert(keys[order[l] as int] == reading_key(lines[group[places[l]] as int], vertical));
        floats::law_doubles_have_a_total_order(a.center_x, b.center_x);
        floats::law_doubles_have_a_total_order(b.center_x, a.center_x);
        floats::law_doubles_have_a_total_order(a.center_y, b.center_y);
        floats::law_doubles_have_a_total_order(b.center_y, a.center_y);
    }
    (places, list)
}

/// Paragraphs of vertical main text come first, then those of horizontal main text, then the
/// vertical ruby lines and then the horizontal ones, each line of ruby text as it is. `parts`
/// tells how many there are of the first three.
pub proof fn law_main_text_comes_before_ruby<
    A: Fn(&Paragraph, &Paragraph) -> bool,
    M: Fn(&Vec<BoundingBox>) -> BoundingBox,
>(
    adjacent: A,
    merge: M,
    lines: Seq<Paragraph>,
    vertical_limit: Option<u64>,
    horizontal_limit: Option<u64>,
    paragraphs: Seq<Paragraph>,
) -> (parts: (int, int, int))
    requires
        lines.len() <= usize::MAX,
        are_paragraphs(adjacent, merge, lines, vertical_limit, horizontal_limit, paragraphs),
    ensures
        0 <= parts.0 && 0 <= parts.1 && 0 <= parts.2,
        parts.0 + parts.1 + parts.2 <= paragraphs.len(),
        forall|k: int|
            0 <= k < paragraphs.len() ==> (#[trigger] paragraphs[k]).is_vertical == (k < parts.0 || (
            parts.0 + parts.1 <= k < parts.0 + parts.1 + parts.2)),
        forall|k: int|
            parts.0 + parts.1 <= k < paragraphs.len() ==> exists|i: int|
                #![trigger lines[i]]
                0 <= i < lines.len() && (#[trigger] paragraphs[k])@ == lines[i]@ && (
                if lines[i].is_vertical {
                    vertical_limit is Some && floats::greater_64(
                        vertical_limit->0,
                        lines[i].bounds.width,
                    )
                } else {
                    horizontal_limit is Some && floats::greater_64(
                        horizontal_limit->0,
                        lines[i].bounds.height,
                    )
                }),
        forall|i: int|
            0 <= i < lines.len() && (#[trigger] lines[i]).is_vertical && vertical_limit is Some
                && floats::greater_64(vertical_limit->0, lines[i].bounds.width) ==> exists|k: int|
                #![trigger paragraphs[k]]
                parts.0 + parts.1 <= k < paragraphs.len() && paragraphs[k]@ == lines[i]@,
        forall|i: int|
            0 <= i < lines.len() && !(#[trigger] lines[i]).is_vertical && horizontal_limit is Some
                && floats::greater_64(horizontal_limit->0, lines[i].bounds.height) ==> exists|k: int|
                #![trigger paragraphs[k]]
                parts.0 + parts.1 <= k < paragraphs.len() && paragraphs[k]@ == lines[i]@,
{
    let pairs = adjacency(adjacent);
    let down = lines_by_size(lines, true, vertical_limit, false);
    let across = lines_by_size(lines, false, horizontal_limit, false);
    let vertical = groups(pairs, lines, down);
    let horizontal = groups(pairs, lines, across);
    let all = vertical + horizontal;
    let left = lines_by_size(lines, true, vertical_limit, true);
    let right = lines_by_size(lines, false, horizontal_limit, true);
    let ruby = left + right;
    lemma_lines_ascend(lines, true, vertical_limit, false);
    lemma_lines_ascend(lines, false, horizontal_limit, false);
    lemma_lines_by_size(lines, true, vertical_limit, false);
    lemma_lines_by_size(lines, false, horizontal_limit, false);
    lemma_lines_by_size(lines, true, vertical_limit, true);
    lemma_lines_by_size(lines, false, horizontal_limit, true);
    law_groups_are_kept_apart(pairs, lines, down);
    law_groups_are_kept_apart(pairs, lines, across);
    let parts = (vertical.len() as int, horizontal.len() as int, left.len() as int);
    assert forall|k: int| all.len() <= k < paragraphs.len() implies ({
        let i = ruby[k - all.len()] as int;
        &&& 0 <= i < lines.len()
        &&& (#[trigger] paragraphs[k])@ == lines[i]@
        &&& lines[i].is_vertical == (k < all.len() + left.len())
        &&& if lines[i].is_vertical {
            vertical_limit is Some && floats::greater_64(vertical_limit->0, lines[i].bounds.width)
        } else {
            horizontal_limit is Some && floats::greater_64(
                horizontal_limit->0,
                lines[i].bounds.height,
            )
        }
    }) by {
        let r = k - all.len();
        if r < left.len() {
            assert(left[r] == ruby[r]);
            assert(left.contains(left[r]));
            law_ruby_is_told_by_widths_and_heights(lines, vertical_limit, left[r] as int);
        } else {
            assert(right[r - left.len()] == ruby[r]);
            assert(right.contains(right[r - left.len()]));
            law_ruby_is_told_by_widths_and_heights(
                lines,
                horizontal_limit,
                right[r - left.len()] as int,
            );
        }
    }
    assert forall|k: int|
        parts.0 + parts.1 <= k < paragraphs.len() implies exists|i: int|
            #![trigger lines[i]]
            0 <= i < lines.len() && (#[trigger] paragraphs[k])@ == lines[i]@ && (
            if lines[i].is_vertical {
                vertical_limit is Some && floats::greater_64(
                    vertical_limit->0,
                    lines[i].bounds.width,
                )
            } else {
                horizontal_limit is Some && floats::greater_64(
                    horizontal_limit->0,
                    lines[i].bounds.height,
                )
            }) by {
        let i = ruby[k - all.len()] as int;
        assert(paragraphs[k]@ == lines[i]@);
    }
    assert forall|k: int|
        0 <= k < paragraphs.len() implies (#[trigger] paragraphs[k]).is_vertical == (k < parts.0
        || (parts.0 + parts.1 <= k < parts.0 + parts.1 + parts.2)) by {
        if k < all.len() {
            assert(is_merged(merge, lines, all[k], paragraphs[k]@));
            if k < vertical.len() {
                assert(all[k] == vertical[k]);
                assert(down.contains(vertical[k][0]));
                law_ruby_is_told_by_widths_and_heights(
                    lines,
                    vertical_limit,
                    vertical[k][0] as int,
                );
            } else {
                let h = k - vertical.len();
                assert(all[k] == horizontal[h]);
                assert(across.contains(horizontal[h][0]));
                law_ruby_is_told_by_widths_and_heights(
                    lines,
                    horizontal_limit,
                    horizontal[h][0] as int,
                );
            }
        } else {
            let i = ruby[k - all.len()] as int;
            assert(paragraphs[k]@ == lines[i]@);
            assert(paragraphs[k]@.is_vertical == lines[i]@.is_vertical);
        }
    }
    assert forall|i: int|
        0 <= i < lines.len() && (#[trigger] lines[i]).is_vertical && vertical_limit is Some
            && floats::greater_64(vertical_limit->0, lines[i].bounds.width) implies exists|k: int|
        #![trigger paragraphs[k]]
        parts.0 + parts.1 <= k < paragraphs.len() && paragraphs[k]@ == lines[i]@ by {
        law_ruby_is_told_by_widths_and_heights(lines, vertical_limit, i);
        let r = choose|r: int| 0 <= r < left.len() && left[r] == i as usize;
        assert(ruby[r] == i as usize);
        assert(paragraphs[all.len() + r]@ == lines[i]@);
    }
    assert forall|i: int|
        0 <= i < lines.len() && !(#[trigger] lines[i]).is_vertical && horizontal_limit is Some
            && floats::greater_64(horizontal_limit->0, lines[i].bounds.height) implies exists|
        k: int,
    |
        #![trigger paragraphs[k]]
        parts.0 + parts.1 <= k < paragraphs.len() && paragraphs[k]@ == lines[i]@ by {
        law_ruby_is_told_by_widths_and_heights(lines, horizontal_limit, i);
        let r = choose|r: int| 0 <= r < right.len() && right[r] == i as usize;
        assert(ruby[left.len() + r] == i as usize);
        assert(paragraphs[all.len() + left.len() + r]@ == lines[i]@);
    }
    parts
}

proof fn lemma_all_of_one_class(
    lines: Seq<Paragraph>,
    vertical: bool,
    limit: Option<u64>,
    small: bool,
)
    requires
        lines.len() <= usize::MAX,
        forall|i: int|
            0 <= i < lines.len() ==> (#[trigger] lines[i]).is_vertical == vertical && is_small(
                lines[i],
                limit,
            ) == small,
    ensures
        lines_by_size(lines, vertical, limit, small).len() == lines.len(),
        forall|i: int|
            0 <= i < lines.len() ==> #[trigger] lines_by_size(lines, vertical, limit, small)[i] == i,
        lines_by_size(lines, !vertical, limit, small).len() == 0,
    decreases lines.len(),
{
    if lines.len() > 0 {
        let fewer = lines.drop_last();
        assert forall|i: int| 0 <= i < fewer.len() implies (#[trigger] fewer[i]).is_vertical
            == vertical && is_small(fewer[i], limit) == small by {
            assert(fewer[i] == lines[i]);
        }
        lemma_all_of_one_class(fewer, vertical, limit, small);
        assert(lines[lines.len() - 1].is_vertical == vertical);
    }
}

proof fn lemma_none_of_class(
    lines: Seq<Paragraph>,
    vertical: bool,
    limit: Option<u64>,
    small: bool,
)
    requires
        forall|i: int|
            0 <= i < lines.len() ==> (#[trigger] lines[i]).is_vertical != vertical,
    ensures
        lines_by_size(lines, vertical, limit, small).len() == 0,
    decreases lines.len(),
{
    if lines.len() > 0 {
        let fewer = lines.drop_last();
        assert forall|i: int| 0 <= i < fewer.len() implies (#[trigger] fewer[i]).is_vertical
            != vertical by {
            assert(fewer[i] == lines[i]);
        }
        lemma_none_of_class(fewer, vertical, limit, small);
        assert(lines[lines.len() - 1].is_vertical != vertical);
    }
}

/// Lines of one direction and of one size across it, for which the limit does not exceed that
/// size, make one paragraph if all lie next to the first, however long they are: its text is that
/// of all lines, vertical ones from the right to the left and horizontal ones from the top down.
/// `places` are those of the lines in that order.
pub proof fn law_lines_next_to_each_other_make_one_paragraph<
    L: Fn(u64, u64) -> u64,
    A: Fn(&Paragraph, &Paragraph) -> bool,
    M: Fn(&Vec<BoundingBox>) -> BoundingBox,
>(
    limit_of: L,
    adjacent: A,
    merge: M,
    lines: Seq<Paragraph>,
    paragraphs: Seq<Paragraph>,
    vertical: bool,
    size: u64,
) -> (places: Seq<int>)
    requires
        0 < lines.len() <= usize::MAX,
        are_grouped(limit_of, adjacent, merge, lines, paragraphs),
        forall|i: int|
            0 <= i < lines.len() ==> (#[trigger] lines[i]).is_vertical == vertical && (if vertical {
                lines[i].bounds.width == size
            } else {
                lines[i].bounds.height == size
            }),
        forall|l: u64| #[trigger]
            call_ensures(limit_of, (size, size), l) ==> !floats::greater_64(l, size),
        forall|i: int|
            0 < i < lines.len() ==> call_ensures(
                adjacent,
                (&lines[0], &#[trigger] lines[i]),
                true,
            ),
    ensures
        paragraphs.len() == 1,
        paragraphs[0].is_vertical == vertical,
        places.len() == lines.len(),
        forall|k: int| 0 <= k < places.len() ==> 0 <= #[trigger] places[k] < lines.len(),
        forall|k: int, l: int|
            #![trigger places[k], places[l]]
            0 <= k < l < places.len() ==> {
                let a = lines[places[k]].bounds;
                let b = lines[places[l]].bounds;
                &&& vertical ==> floats::total_64(a.center_x) >= floats::total_64(b.center_x)
                &&& !vertical ==> floats::total_64(a.center_y) <= floats::total_64(b.center_y)
            },
        forall|i: int| 0 <= i < lines.len() ==> #[trigger] places.contains(i),
        paragraphs[0].full_text@ == Seq::new(
            lines.len(),
            |k: int| lines[places[k]].full_text@,
        ).flatten(),
{
    let (vertical_limit, horizontal_limit) = choose|
        vertical_limit: Option<u64>,
        horizontal_limit: Option<u64>,
    |
        is_limit(limit_of, sizes(lines, true), vertical_limit) && is_limit(
            limit_of,
            sizes(lines, false),
            horizontal_limit,
        ) && #[trigger] are_paragraphs(
            adjacent,
            merge,
            lines,
            vertical_limit,
            horizontal_limit,
            paragraphs,
        );
    let limit = if vertical {
        vertical_limit
    } else {
        horizontal_limit
    };
    let other_limit = if vertical {
        horizontal_limit
    } else {
        vertical_limit
    };
    law_lines_of_one_size_are_main_text(limit_of, lines, vertical, size, limit);
    assert forall|i: int| 0 <= i < lines.len() implies (#[trigger] lines[i]).is_vertical
        == vertical && is_small(lines[i], limit) == false by {
        assert(lines[i].is_vertical == vertical);
        assert(lines_by_size(lines, vertical, limit, false).contains(i as usize));
        law_ruby_is_told_by_widths_and_heights(lines, limit, i);
    }
    lemma_all_of_one_class(lines, vertical, limit, false);
    lemma_none_of_class(lines, !vertical, other_limit, false);
    lemma_none_of_class(lines, !vertical, other_limit, true);
    let main = lines_by_size(lines, vertical, limit, false);
    let pairs = adjacency(adjacent);
    let found = groups(pairs, lines, main);
    assert(ascend(main));
    lemma_all_are_groups(pairs, lines, main);
    let g = lemma_all_are_held(pairs, lines, main, main[0]);
    let none = lines_by_size(lines, !vertical, other_limit, false);
    assert(none =~= Seq::<usize>::empty());
    assert(groups(pairs, lines, none) =~= Seq::<Seq<usize>>::empty());
    law_groups_are_connected_and_closed(pairs, lines, main);
    assert(found[0][0] == main[0]);
    if found.len() > 1 {
        lemma_all_are_apart(pairs, lines, main, 0, 1);
        let other = found[1];
        assert(is_group(pairs, lines, main, other));
        assert(main.contains(other[0]));
        assert(found[0][0] < other[0]);
        assert(call_ensures(adjacent, (&lines[0], &lines[other[0] as int]), true));
        assert(pairs(lines[found[0][0] as int], lines[other[0] as int]));
    }
    assert(found.len() == 1);
    let group = found[0];
    assert(is_group(pairs, lines, main, group));
    let all = groups(
        pairs,
        lines,
        lines_by_size(lines, true, vertical_limit, false),
    ) + groups(pairs, lines, lines_by_size(lines, false, horizontal_limit, false));
    assert(all =~= found);
    assert(paragraphs.len() == 1);
    assert(is_merged(merge, lines, all[0], paragraphs[0]@));
    let read = law_paragraphs_are_made_in_reading_order(merge, lines, group, paragraphs[0]@);
    law_groups_hold_all_lines(pairs, lines, main);
    assert(found.drop_first() =~= Seq::<Seq<usize>>::empty());
    assert(all_of(found.drop_first()) =~= vstd::multiset::Multiset::<usize>::empty());
    assert(all_of(found) =~= group.to_multiset());
    group.to_multiset_ensures();
    main.to_multiset_ensures();
    assert(group.len() == lines.len());
    let places = Seq::new(group.len(), |k: int| group[read.0[k]] as int);
    assert forall|k: int| 0 <= k < places.len() implies 0 <= #[trigger] places[k]
        < lines.len() by {
        assert(0 <= read.0[k] < group.len());
        assert(main.contains(group[read.0[k]]));
    }
    assert(lines[group[0] as int].is_vertical == vertical) by {
        assert(main.contains(group[0]));
    }
    assert forall|k: int, l: int|
        #![trigger places[k], places[l]]
        0 <= k < l < places.len() implies {
        let a = lines[places[k]].bounds;
        let b = lines[places[l]].bounds;
        &&& vertical ==> floats::total_64(a.center_x) >= floats::total_64(b.center_x)
        &&& !vertical ==> floats::total_64(a.center_y) <= floats::total_64(b.center_y)
    } by {
        assert(read.0[k] != read.0[l]);
    }
    lemma_reading_order_holds_all(read.0, group.len() as int);
    assert forall|i: int| 0 <= i < lines.len() implies #[trigger] places.contains(i) by {
        assert(main[i] == i);
        assert(main.contains(i as usize));
        let h = lemma_all_are_held(pairs, lines, main, i as usize);
        assert(h == 0);
        let m = choose|m: int| 0 <= m < group.len() && group[m] == i as usize;
        assert(read.0.contains(m));
        let k = choose|k: int| 0 <= k < read.0.len() && read.0[k] == m;
        assert(places[k] == i);
    }
    assert(Seq::new(lines.len(), |k: int| lines[places[k]].full_text@) =~= Seq::new(
        group.len(),
        |k: int| lines[group[read.0[k]] as int].full_text@,
    ));
    places
}

proof fn lemma_reading_order_holds_all(places: Seq<int>, count: int)
    requires
        places.len() == count,
        forall|i: int| 0 <= i < places.len() ==> 0 <= #[trigger] places[i] < count,
        forall|i: int, j: int|
            #![trigger places[i], places[j]]
            0 <= i < j < places.len() ==> places[i] != places[j],
    ensures
        forall|m: int| 0 <= m < count ==> #[trigger] places.contains(m),
{
    assert(places.no_duplicates()) by {
        assert forall|i: int, j: int|
            0 <= i < places.len() && 0 <= j < places.len() && i != j implies places[i]
            != places[j] by {
            if i < j {
                assert(places[i] != places[j]);
            } else {
                assert(places[j] != places[i]);
            }
        }
    }
    places.unique_seq_to_set();
    let all = vstd::set_lib::set_int_range(0, count);
    vstd::set_lib::lemma_int_range(0, count);
    assert(places.to_set().subset_of(all));
    vstd::set_lib::lemma_subset_equality(places.to_set(), all);
    assert forall|m: int| 0 <= m < count implies #[trigger] places.contains(m) by {
        assert(all.contains(m));
        assert(places.to_set().contains(m));
    }
}

} // verus!
