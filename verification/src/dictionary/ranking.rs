//! Merging of hits into the entries that are shown, and their order.

use crate::dictionary::entry::{
    append_senses, copy_text, DictionaryEntry, DictionaryEntryView, MapEntry, Sense,
};
use crate::dictionary::kana::contains_kanji;
use crate::dictionary::lookup::{Dictionary, Hit, HitView, DEFAULT_FREQ};
use crate::dictionary::{entry, kana, lookup};
use crate::floats;
use crate::floats::{is_greater_64, total_key_64};
use crate::order;
use crate::order::stable_order;
use crate::text::copy_texts;
use vstd::prelude::*;

verus! {

/// What the priority of a hit depends on.
#[derive(Clone, Copy, Debug, PartialEq, Eq, Structural)]
pub struct PriorityParts {
    /// Number of characters that match: each counts one.
    pub match_len: usize,
    /// The frequency rank.
    pub freq: i64,
    /// Whether the frequency rank raises the priority.
    pub ranked: bool,
    /// Whether the bonus for a kana word looked up as it stands is due.
    pub kana_bonus: bool,
    /// Number of rules between the text and the entry: each costs one.
    pub process_len: usize,
}

/// What the priority of `hit` depends on when `original` was looked up.
pub open spec fn parts_of(hit: HitView, original: Seq<char>) -> PriorityParts {
    let written = entry::text_of(hit.entry.written_form);
    PriorityParts {
        match_len: hit.match_len,
        freq: hit.entry.frequency,
        ranked: hit.entry.frequency < DEFAULT_FREQ,
        kana_bonus: !kana::has_kanji(original) && (written is None
            || !kana::has_kanji(written->0)) && hit.form.process.len() == 0,
        process_len: hit.form.process.len() as usize,
    }
}

/// What the priority of `hit` depends on when `original` was looked up.
pub fn priority_parts(hit: &Hit, original: &str) -> (r: PriorityParts)
    ensures
        r == parts_of(hit@, original@),
{
    let written_is_kana = match &hit.entry.written_form {
        Some(written) => !contains_kanji(written.as_str()),
        None => true,
    };
    let original_is_kana = !contains_kanji(original);
    PriorityParts {
        match_len: hit.match_len,
        freq: hit.entry.frequency,
        ranked: hit.entry.frequency < DEFAULT_FREQ,
        kana_bonus: original_is_kana && written_is_kana && hit.form.process.len() == 0,
        process_len: hit.form.process.len(),
    }
}

/// An entry that hits with the same spelling and reading have been merged into.
struct MergedEntry {
    entry: DictionaryEntry,
    match_len: usize,
}

/// The contents of a merged entry.
#[verifier::ext_equal]
pub struct MergedView {
    pub entry: DictionaryEntryView,
    pub match_len: usize,
}

spec fn merged_views(merged: Seq<MergedEntry>) -> Seq<MergedView> {
    Seq::new(
        merged.len(),
        |i: int| MergedView { entry: merged[i].entry@, match_len: merged[i].match_len },
    )
}

/// The reading of a hit; an entry without one has the empty reading.
pub open spec fn reading_of(hit: HitView) -> Seq<char> {
    match hit.entry.reading {
        Some(reading) => reading@,
        None => Seq::empty(),
    }
}

/// Whether a merged entry has the spelling and the reading of `hit`.
pub open spec fn same_word(merged: MergedView, hit: HitView) -> bool {
    &&& merged.entry.written_form == entry::text_of(hit.entry.written_form)
    &&& merged.entry.reading == reading_of(hit)
}

/// Whether one of the merged entries has the spelling and the reading of `hit`.
pub open spec fn has_word(merged: Seq<MergedView>, hit: HitView) -> bool {
    exists|i: int| 0 <= i < merged.len() && same_word(#[trigger] merged[i], hit)
}

/// The merged entry that `hit` starts.
pub open spec fn first_merged(
    dictionary: &Dictionary,
    hit: HitView,
    priority: u64,
) -> MergedView {
    MergedView {
        entry: DictionaryEntryView {
            id: hit.entry.entry_id,
            written_form: entry::text_of(hit.entry.written_form),
            reading: reading_of(hit),
            senses: dictionary.senses_of(hit.entry.entry_id),
            freq: hit.entry.frequency,
            process: hit.form.process,
            priority,
        },
        match_len: hit.match_len,
    }
}

/// `merged` with `hit` merged into it: another entry adds its senses, a higher priority brings
/// its entry and its history, and the better rank and the longer match stay.
pub open spec fn merged_with(
    dictionary: &Dictionary,
    merged: MergedView,
    hit: HitView,
    priority: u64,
) -> MergedView {
    let better = floats::greater_64(priority, merged.entry.priority);
    MergedView {
        entry: DictionaryEntryView {
            id: if better {
                hit.entry.entry_id
            } else {
                merged.entry.id
            },
            written_form: merged.entry.written_form,
            reading: merged.entry.reading,
            senses: if hit.entry.entry_id != merged.entry.id {
                merged.entry.senses + dictionary.senses_of(hit.entry.entry_id)
            } else {
                merged.entry.senses
            },
            freq: if hit.entry.frequency < merged.entry.freq {
                hit.entry.frequency
            } else {
                merged.entry.freq
            },
            process: if better {
                hit.form.process
            } else {
                merged.entry.process
            },
            priority: if better {
                priority
            } else {
                merged.entry.priority
            },
        },
        match_len: if hit.match_len > merged.match_len {
            hit.match_len
        } else {
            merged.match_len
        },
    }
}

/// The merged entries after one more hit.
pub open spec fn after_hit(
    dictionary: &Dictionary,
    merged: Seq<MergedView>,
    hit: HitView,
    priority: u64,
) -> Seq<MergedView> {
    if has_word(merged, hit) {
        Seq::new(
            merged.len(),
            |i: int|
                if same_word(merged[i], hit) {
                    merged_with(dictionary, merged[i], hit, priority)
                } else {
                    merged[i]
                },
        )
    } else {
        merged.push(first_merged(dictionary, hit, priority))
    }
}

/// The entries that the hits, with these priorities, are merged into.
pub open spec fn merged_hits(
    dictionary: &Dictionary,
    hits: Seq<HitView>,
    priorities: Seq<u64>,
) -> Seq<MergedView>
    decreases hits.len(),
{
    if hits.len() == 0 {
        Seq::empty()
    } else {
        after_hit(
            dictionary,
            merged_hits(dictionary, hits.drop_last(), priorities.drop_last()),
            hits.last(),
            priorities.last(),
        )
    }
}

/// The key that entries are sorted by: longer matches first, then higher priorities.
pub open spec fn rank_key(merged: MergedView) -> (u64, u64) {
    (
        (u64::MAX - merged.match_len) as u64,
        (u64::MAX - floats::total_64(merged.entry.priority)) as u64,
    )
}

/// The sort keys of merged entries.
pub open spec fn rank_keys(merged: Seq<MergedView>) -> Seq<(u64, u64)> {
    Seq::new(merged.len(), |i: int| rank_key(merged[i]))
}

/// Whether `shown` are the best `limit` of the merged entries, best first.
pub open spec fn are_best(
    merged: Seq<MergedView>,
    limit: usize,
    shown: Seq<DictionaryEntryView>,
) -> bool {
    exists|order: Seq<usize>| #[trigger]
        order::is_stable_order(rank_keys(merged), order) && shown.len() == (if limit
            < merged.len() {
            limit as int
        } else {
            merged.len() as int
        }) && forall|i: int| 0 <= i < shown.len() ==> #[trigger] shown[i] == merged[order[i] as int].entry
}

/// Whether no two merged entries have the same spelling and reading.
pub open spec fn distinct_words(merged: Seq<MergedView>) -> bool {
    forall|i: int, j: int|
        #![trigger merged[i], merged[j]]
        0 <= i < j < merged.len() ==> !(merged[i].entry.written_form
            == merged[j].entry.written_form && merged[i].entry.reading == merged[j].entry.reading)
}

/// Merging keeps spellings and readings apart.
pub proof fn law_merged_words_are_distinct(
    dictionary: &Dictionary,
    hits: Seq<HitView>,
    priorities: Seq<u64>,
)
    ensures
        distinct_words(merged_hits(dictionary, hits, priorities)),
    decreases hits.len(),
{
    if hits.len() > 0 {
        law_merged_words_are_distinct(dictionary, hits.drop_last(), priorities.drop_last());
        let before = merged_hits(dictionary, hits.drop_last(), priorities.drop_last());
        let after = merged_hits(dictionary, hits, priorities);
        assert forall|i: int, j: int|
            #![trigger after[i], after[j]]
            0 <= i < j < after.len() implies !(after[i].entry.written_form
            == after[j].entry.written_form && after[i].entry.reading
            == after[j].entry.reading) by {
            let a = before[i];
            if j < before.len() {
                let b = before[j];
                assert(!(a.entry.written_form == b.entry.written_form && a.entry.reading
                    == b.entry.reading));
            } else {
                assert(!same_word(a, hits.last()));
            }
        }
    }
}

/// Merging neither loses nor makes up words: a spelling and reading is among the merged entries
/// if and only if one of the hits has it.
pub proof fn law_merging_keeps_every_word(
    dictionary: &Dictionary,
    hits: Seq<HitView>,
    priorities: Seq<u64>,
    hit: HitView,
)
    ensures
        has_word(merged_hits(dictionary, hits, priorities), hit) <==> exists|i: int|
            0 <= i < hits.len() && entry::text_of((#[trigger] hits[i]).entry.written_form) == entry::text_of(
                hit.entry.written_form,
            ) && reading_of(hits[i]) == reading_of(hit),
    decreases hits.len(),
{
    if hits.len() > 0 {
        let fewer = hits.drop_last();
        law_merging_keeps_every_word(dictionary, fewer, priorities.drop_last(), hit);
        let before = merged_hits(dictionary, fewer, priorities.drop_last());
        let after = merged_hits(dictionary, hits, priorities);
        let last = hits.last();
        let same = entry::text_of(last.entry.written_form) == entry::text_of(hit.entry.written_form)
            && reading_of(last) == reading_of(hit);
        if has_word(before, hit) {
            let i = choose|i: int| 0 <= i < before.len() && same_word(#[trigger] before[i], hit);
            assert(same_word(after[i], hit));
            let k = choose|k: int|
                0 <= k < fewer.len() && entry::text_of((#[trigger] fewer[k]).entry.written_form)
                    == entry::text_of(hit.entry.written_form) && reading_of(fewer[k]) == reading_of(hit);
            assert(hits[k] == fewer[k]);
        } else if same {
            assert(!has_word(before, last)) by {
                if has_word(before, last) {
                    let i = choose|i: int|
                        0 <= i < before.len() && same_word(#[trigger] before[i], last);
                    assert(same_word(before[i], hit));
                }
            }
            assert(same_word(after[before.len() as int], hit));
            assert(hits[hits.len() - 1] == last);
        } else {
            if has_word(after, hit) {
                let i = choose|i: int| 0 <= i < after.len() && same_word(#[trigger] after[i], hit);
                if i < before.len() {
                    assert(same_word(before[i], hit));
                }
            }
            assert forall|k: int| 0 <= k < hits.len() implies !(entry::text_of(
                (#[trigger] hits[k]).entry.written_form,
            ) == entry::text_of(hit.entry.written_form) && reading_of(hits[k]) == reading_of(hit)) by {
                if k < fewer.len() {
                    assert(fewer[k] == hits[k]);
                }
            }
        }
    }
}

/// Of two shown entries the earlier one has the longer match, or as long a match and at least
/// the priority of the later one.
pub proof fn law_best_entries_come_first(
    merged: Seq<MergedView>,
    order: Seq<usize>,
    i: int,
    j: int,
)
    requires
        order::is_stable_order(rank_keys(merged), order),
        0 <= i < j < merged.len(),
    ensures
        ({
            let a = merged[order[i] as int];
            let b = merged[order[j] as int];
            ||| a.match_len > b.match_len
            ||| a.match_len == b.match_len && floats::total_64(a.entry.priority)
                >= floats::total_64(b.entry.priority)
        }),
{
    let keys = rank_keys(merged);
    assert(order::comes_before(keys, order[i] as int, order[j] as int));
    assert(keys[order[i] as int] == rank_key(merged[order[i] as int]));
    assert(keys[order[j] as int] == rank_key(merged[order[j] as int]));
}

/// Whether two optional strings hold the same text.
fn same_option(a: &Option<String>, b: &Option<String>) -> (r: bool)
    ensures
        r == (entry::text_of(*a) == entry::text_of(*b)),
{
    match (a, b) {
        (Some(x), Some(y)) => *x == *y,
        (None, None) => true,
        _ => false,
    }
}

impl Dictionary {
    /// Appends the senses of the entry `id`.
    fn append_senses_of(&self, senses: &mut Vec<Sense>, id: i64)
        ensures
            entry::sense_views(final(senses)@)
                == entry::sense_views(old(senses)@) + self.senses_of(id),
    {
        broadcast use vstd::std_specs::hash::group_hash_axioms;

        match self.entries.get(&id) {
            Some(more) => append_senses(senses, more),
            None => {
                assert(entry::sense_views(senses@)
                    =~= entry::sense_views(senses@) + self.senses_of(id));
            },
        }
    }

    /// The merged entry that `hit` starts.
    fn start_merged(&self, hit: &Hit, reading: String, priority: u64) -> (r: MergedEntry)
        requires
            reading@ == reading_of(hit@),
        ensures
            r.entry@ == first_merged(self, hit@, priority).entry,
            r.match_len == hit.match_len,
    {
        let mut senses: Vec<Sense> = Vec::new();
        self.append_senses_of(&mut senses, hit.entry.entry_id);
        let r = MergedEntry {
            entry: DictionaryEntry {
                id: hit.entry.entry_id,
                written_form: copy_text(&hit.entry.written_form),
                reading,
                senses,
                freq: hit.entry.frequency,
                deconjugation_process: copy_texts(&hit.form.process),
                priority,
            },
            match_len: hit.match_len,
        };
        assert(r.entry@.senses =~= self.senses_of(hit.entry.entry_id));
        r
    }

    /// Merges `hit` into `merged`.
    fn merge_into(&self, merged: &mut MergedEntry, hit: &Hit, priority: u64)
        ensures
            final(merged).entry@ == merged_with(
                self,
                (MergedView { entry: old(merged).entry@, match_len: old(merged).match_len }),
                hit@,
                priority,
            ).entry,
            final(merged).match_len == merged_with(
                self,
                (MergedView { entry: old(merged).entry@, match_len: old(merged).match_len }),
                hit@,
                priority,
            ).match_len,
    {
        if hit.entry.entry_id != merged.entry.id {
            self.append_senses_of(&mut merged.entry.senses, hit.entry.entry_id);
        }
        if is_greater_64(priority, merged.entry.priority) {
            merged.entry.priority = priority;
            merged.entry.id = hit.entry.entry_id;
            merged.entry.deconjugation_process = copy_texts(&hit.form.process);
        }
        if hit.entry.frequency < merged.entry.freq {
            merged.entry.freq = hit.entry.frequency;
        }
        if hit.match_len > merged.match_len {
            merged.match_len = hit.match_len;
        }
    }

    /// Adds `hit` to the merged entries.
    fn add_hit(&self, merged: &mut Vec<MergedEntry>, hit: &Hit, priority: u64)
        requires
            distinct_words(merged_views(old(merged)@)),
        ensures
            merged_views(final(merged)@) == after_hit(
                self,
                merged_views(old(merged)@),
                hit@,
                priority,
            ),
    {
        let ghost before = merged@;
        let ghost views = merged_views(merged@);
        let reading = match &hit.entry.reading {
            Some(reading) => reading.clone(),
            None => String::new(),
        };
        assert(reading@ =~= reading_of(hit@));
        let mut i: usize = 0;
        while i < merged.len()
            invariant
                i <= merged@.len(),
                merged@ == before,
                before == old(merged)@,
                views == merged_views(before),
                distinct_words(views),
                reading@ == reading_of(hit@),
                forall|k: int| 0 <= k < i ==> !same_word(#[trigger] views[k], hit@),
            decreases merged@.len() - i,
        {
            let here = &merged[i].entry;
            let same = same_option(&here.written_form, &hit.entry.written_form) && here.reading
                == reading;
            assert(same == same_word(views[i as int], hit@));
            if same {
                self.merge_into(&mut merged[i], hit, priority);
                assert(merged_views(merged@) =~= after_hit(self, views, hit@, priority)) by {
                    assert(same_word(views[i as int], hit@));
                    assert forall|k: int| 0 <= k < views.len() implies merged_views(merged@)[k]
                        == after_hit(self, views, hit@, priority)[k] by {
                        if k != i {
                            assert(!same_word(views[k], hit@)) by {
                                let a = if k < i { k } else { i as int };
                                let b = if k < i { i as int } else { k };
                                assert(!(views[a].entry.written_form == views[b].entry.written_form
                                    && views[a].entry.reading == views[b].entry.reading));
                            }
                            assert(merged@[k] == before[k]);
                        }
                    }
                }
                return;
            }
            i += 1;
        }
        merged.push(self.start_merged(hit, reading, priority));
        assert(merged_views(merged@) =~= after_hit(self, views, hit@, priority));
    }

    /// The entries to show for `hits` with the given priorities, at most `limit` of them.
    pub fn format_and_sort(
        &self,
        hits: &Vec<Hit>,
        priorities: &Vec<u64>,
        limit: usize,
    ) -> (shown: Vec<DictionaryEntry>)
        requires
            hits@.len() == priorities@.len(),
        ensures
            are_best(
                merged_hits(self, lookup::hit_views(hits@), priorities@),
                limit,
                entry::entry_views(shown@),
            ),
    {
        let ghost views = lookup::hit_views(hits@);
        let mut merged: Vec<MergedEntry> = Vec::new();
        let mut i: usize = 0;
        assert(merged_views(merged@) =~= Seq::empty());
        while i < hits.len()
            invariant
                i <= hits@.len(),
                hits@.len() == priorities@.len(),
                views == lookup::hit_views(hits@),
                merged_views(merged@) == merged_hits(
                    self,
                    views.take(i as int),
                    priorities@.take(i as int),
                ),
            decreases hits@.len() - i,
        {
            proof {
                law_merged_words_are_distinct(
                    self,
                    views.take(i as int),
                    priorities@.take(i as int),
                );
                assert(views.take(i + 1).drop_last() =~= views.take(i as int));
                assert(priorities@.take(i + 1).drop_last() =~= priorities@.take(i as int));
            }
            self.add_hit(&mut merged, &hits[i], priorities[i]);
            i += 1;
        }
        assert(views.take(i as int) =~= views);
        assert(priorities@.take(i as int) =~= priorities@);
        let ghost all = merged_views(merged@);
        let mut keys: Vec<(u64, u64)> = Vec::new();
        let mut k: usize = 0;
        while k < merged.len()
            invariant
                k <= merged@.len(),
                all == merged_views(merged@),
                keys@ == rank_keys(all).take(k as int),
            decreases merged@.len() - k,
        {
            let key: (u64, u64) = (
                u64::MAX - merged[k].match_len as u64,
                u64::MAX - total_key_64(merged[k].entry.priority),
            );
            keys.push(key);
            assert(rank_keys(all).take(k + 1) =~= rank_keys(all).take(k as int).push(
                rank_key(all[k as int]),
            ));
            k += 1;
        }
        assert(keys@ =~= rank_keys(all));
        let order = stable_order(&keys);
        let count: usize = if limit < merged.len() {
            limit
        } else {
            merged.len()
        };
        let mut shown: Vec<DictionaryEntry> = Vec::new();
        let mut n: usize = 0;
        while n < count
            invariant
                n <= count <= merged@.len(),
                all == merged_views(merged@),
                order::is_stable_order(rank_keys(all), order@),
                shown@.len() == n,
                forall|j: int| 0 <= j < n ==> (#[trigger] shown@[j])@ == all[order@[j] as int].entry,
            decreases count - n,
        {
            let place: usize = order[n];
            shown.push(merged[place].entry.clone());
            n += 1;
        }
        shown
    }
}

/// Whether an entry that is shown is that of a hit: it has its spelling and its reading.
pub open spec fn shows(shown: DictionaryEntryView, entry: MapEntry) -> bool {
    &&& match entry.written_form {
        Some(written) => shown.written_form == Some(written@),
        None => shown.written_form is None,
    }
    &&& match entry.reading {
        Some(reading) => shown.reading == reading@,
        None => shown.reading.len() == 0,
    }
}

pub(crate) proof fn lemma_shows(merged: MergedView, hit: HitView)
    ensures
        same_word(merged, hit) <==> shows(merged.entry, hit.entry),
{
    if hit.entry.reading is None && merged.entry.reading.len() == 0 {
        assert(merged.entry.reading =~= Seq::empty());
    }
}

/// Whether the sense `sense` is one of an entry of the dictionary.
pub open spec fn is_sense_of(dictionary: &Dictionary, id: i64, sense: entry::SenseView) -> bool {
    exists|s: int|
        dictionary.entries@.contains_key(id) && 0 <= s < dictionary.entries@[id]@.len()
            && #[trigger] dictionary.entries@[id]@[s]@ == sense
}

proof fn lemma_senses(dictionary: &Dictionary, id: i64, sense: entry::SenseView)
    ensures
        dictionary.senses_of(id).contains(sense) <==> is_sense_of(dictionary, id, sense),
{
    let senses = dictionary.senses_of(id);
    if senses.contains(sense) {
        let s = choose|s: int| 0 <= s < senses.len() && senses[s] == sense;
        assert(dictionary.entries@[id]@[s]@ == sense);
    }
    if is_sense_of(dictionary, id, sense) {
        let s = choose|s: int|
            dictionary.entries@.contains_key(id) && 0 <= s < dictionary.entries@[id]@.len()
                && #[trigger] dictionary.entries@[id]@[s]@ == sense;
        assert(senses[s] == sense);
    }
}

/// What is known of a merged entry and the hits that it was made of: `best` is the hit whose
/// priority it has, `longest` the one with its length, and `common` the one with its rank.
pub open spec fn is_made_of(
    dictionary: &Dictionary,
    hits: Seq<HitView>,
    priorities: Seq<u64>,
    merged: MergedView,
    best: int,
    longest: int,
    common: int,
) -> bool {
    &&& 0 <= best < hits.len() && shows(merged.entry, hits[best].entry)
    &&& 0 <= longest < hits.len() && shows(merged.entry, hits[longest].entry)
    &&& 0 <= common < hits.len() && shows(merged.entry, hits[common].entry)
    &&& merged.entry.priority == priorities[best]
    &&& merged.entry.id == hits[best].entry.entry_id
    &&& merged.entry.process == hits[best].form.process
    &&& merged.match_len == hits[longest].match_len
    &&& merged.entry.freq == hits[common].entry.frequency
    &&& forall|k: int|
        0 <= k < hits.len() && shows(merged.entry, (#[trigger] hits[k]).entry) ==> {
            &&& !floats::greater_64(priorities[k], merged.entry.priority)
            &&& hits[k].match_len <= merged.match_len
            &&& hits[k].entry.frequency >= merged.entry.freq
            &&& forall|sense: entry::SenseView|
                is_sense_of(dictionary, hits[k].entry.entry_id, sense)
                    ==> #[trigger] merged.entry.senses.contains(sense)
        }
    &&& forall|sense: entry::SenseView| #[trigger]
        merged.entry.senses.contains(sense) ==> exists|k: int|
            0 <= k < hits.len() && shows(merged.entry, (#[trigger] hits[k]).entry) && is_sense_of(
                dictionary,
                hits[k].entry.entry_id,
                sense,
            )
}

/// A merged entry has the spelling and reading of its hits, the priority, the number and the
/// history of the best of them, the length of the longest, the rank of the commonest, and the
/// senses of all of them and no others.
pub proof fn law_merged_entries_take_the_best_of_their_hits(
    dictionary: &Dictionary,
    hits: Seq<HitView>,
    priorities: Seq<u64>,
    m: int,
) -> (from: (int, int, int))
    requires
        priorities.len() == hits.len(),
        0 <= m < merged_hits(dictionary, hits, priorities).len(),
    ensures
        is_made_of(
            dictionary,
            hits,
            priorities,
            merged_hits(dictionary, hits, priorities)[m],
            from.0,
            from.1,
            from.2,
        ),
    decreases hits.len(),
{
    let n = hits.len() - 1;
    let fewer = hits.drop_last();
    let earlier = priorities.drop_last();
    let before = merged_hits(dictionary, fewer, earlier);
    let after = merged_hits(dictionary, hits, priorities);
    let hit = hits[n];
    let now = after[m];
    assert forall|sense: entry::SenseView|
        dictionary.senses_of(hit.entry.entry_id).contains(sense) <==> #[trigger] is_sense_of(
            dictionary,
            hit.entry.entry_id,
            sense,
        ) by {
        lemma_senses(dictionary, hit.entry.entry_id, sense);
    }
    lemma_shows(now, hit);
    if m < before.len() {
        let old = before[m];
        lemma_shows(old, hit);
        let (best, longest, common) = law_merged_entries_take_the_best_of_their_hits(
            dictionary,
            fewer,
            earlier,
            m,
        );
        assert(fewer[best] == hits[best] && fewer[longest] == hits[longest] && fewer[common]
            == hits[common]);
        let joined = same_word(old, hit);
        let from = (
            if joined && floats::greater_64(priorities[n], old.entry.priority) {
                n
            } else {
                best
            },
            if joined && hit.match_len > old.match_len {
                n
            } else {
                longest
            },
            if joined && hit.entry.frequency < old.entry.freq {
                n
            } else {
                common
            },
        );
        if joined {
            assert(now == merged_with(dictionary, old, hit, priorities[n]));
        } else {
            assert(now == old);
        }
        assert forall|k: int|
            0 <= k < hits.len() && shows(now.entry, (#[trigger] hits[k]).entry) implies {
            &&& !floats::greater_64(priorities[k], now.entry.priority)
            &&& hits[k].match_len <= now.match_len
            &&& hits[k].entry.frequency >= now.entry.freq
            &&& forall|sense: entry::SenseView|
                is_sense_of(dictionary, hits[k].entry.entry_id, sense)
                    ==> #[trigger] now.entry.senses.contains(sense)
        } by {
            if k < n {
                assert(fewer[k] == hits[k]);
                assert(shows(old.entry, fewer[k].entry));
                assert forall|sense: entry::SenseView|
                    is_sense_of(dictionary, hits[k].entry.entry_id, sense) implies #[trigger]
                now.entry.senses.contains(sense) by {
                    assert(old.entry.senses.contains(sense));
                    let s = choose|s: int|
                        0 <= s < old.entry.senses.len() && old.entry.senses[s] == sense;
                    assert(now.entry.senses[s] == sense);
                }
            } else {
                assert(joined);
                assert forall|sense: entry::SenseView|
                    is_sense_of(dictionary, hit.entry.entry_id, sense) implies #[trigger]
                now.entry.senses.contains(sense) by {
                    if hit.entry.entry_id == old.entry.id {
                        assert(shows(old.entry, fewer[best].entry));
                        assert(old.entry.senses.contains(sense));
                    } else {
                        let added = dictionary.senses_of(hit.entry.entry_id);
                        let s = choose|s: int| 0 <= s < added.len() && added[s] == sense;
                        assert(now.entry.senses[old.entry.senses.len() + s] == sense);
                    }
                }
            }
        }
        assert forall|sense: entry::SenseView| #[trigger]
            now.entry.senses.contains(sense) implies exists|k: int|
            0 <= k < hits.len() && shows(now.entry, (#[trigger] hits[k]).entry) && is_sense_of(
                dictionary,
                hits[k].entry.entry_id,
                sense,
            ) by {
            if old.entry.senses.contains(sense) {
                let k = choose|k: int|
                    0 <= k < fewer.len() && shows(old.entry, (#[trigger] fewer[k]).entry)
                        && is_sense_of(dictionary, fewer[k].entry.entry_id, sense);
                assert(hits[k] == fewer[k]);
            } else {
                let s = choose|s: int|
                    0 <= s < now.entry.senses.len() && now.entry.senses[s] == sense;
                let p = s - old.entry.senses.len();
                if s < old.entry.senses.len() {
                    assert(old.entry.senses[s] == sense);
                } else {
                    assert(dictionary.senses_of(hit.entry.entry_id)[p] == sense);
                    assert(shows(now.entry, hits[n].entry));
                }
            }
        }
        from
    } else {
        assert(now == first_merged(dictionary, hit, priorities[n]));
        assert forall|k: int|
            0 <= k < hits.len() && shows(now.entry, (#[trigger] hits[k]).entry) implies k == n by {
            if k < n {
                assert(fewer[k] == hits[k]);
                law_merging_keeps_every_word(dictionary, fewer, earlier, hit);
                lemma_shows(now, hits[k]);
                assert(entry::text_of(fewer[k].entry.written_form) == entry::text_of(
                    hit.entry.written_form,
                ) && reading_of(fewer[k]) == reading_of(hit));
            }
        }
        assert(now.entry.senses == dictionary.senses_of(hit.entry.entry_id));
        assert(shows(now.entry, hits[n].entry));
        (n, n, n)
    }
}

/// As many entries are shown as there are, up to the limit, none twice; longer matches come first,
/// then higher priorities, and what is not shown is not better than anything shown.
pub proof fn law_the_best_entries_are_shown(
    merged: Seq<MergedView>,
    limit: usize,
    shown: Seq<DictionaryEntryView>,
) -> (places: Seq<int>)
    requires
        are_best(merged, limit, shown),
    ensures
        places.len() == merged.len(),
        shown.len() <= limit && shown.len() <= merged.len(),
        shown.len() == limit || shown.len() == merged.len(),
        forall|i: int| 0 <= i < places.len() ==> 0 <= #[trigger] places[i] < merged.len(),
        forall|i: int| 0 <= i < shown.len() ==> #[trigger] shown[i] == merged[places[i]].entry,
        forall|i: int, j: int|
            #![trigger places[i], places[j]]
            0 <= i < j < places.len() ==> {
                let a = merged[places[i]];
                let b = merged[places[j]];
                &&& places[i] != places[j]
                &&& a.match_len >= b.match_len
                &&& (a.match_len == b.match_len ==> floats::total_64(a.entry.priority)
                    >= floats::total_64(b.entry.priority))
                &&& (a.match_len == b.match_len && a.entry.priority == b.entry.priority
                    ==> places[i] < places[j])
            },
{
    let order = choose|order: Seq<usize>| #[trigger]
        order::is_stable_order(rank_keys(merged), order) && shown.len() == (if limit
            < merged.len() {
            limit as int
        } else {
            merged.len() as int
        }) && forall|i: int| 0 <= i < shown.len() ==> #[trigger] shown[i] == merged[order[i] as int].entry;
    let places = Seq::new(order.len(), |i: int| order[i] as int);
    order::law_sorting_goes_by_keys(rank_keys(merged), order);
    assert forall|i: int| 0 <= i < places.len() implies 0 <= #[trigger] places[i]
        < merged.len() by {
        assert(order[i] < rank_keys(merged).len());
    }
    assert forall|i: int, j: int|
        #![trigger places[i], places[j]]
        0 <= i < j < places.len() implies {
        let a = merged[places[i]];
        let b = merged[places[j]];
        &&& places[i] != places[j]
        &&& a.match_len >= b.match_len
        &&& (a.match_len == b.match_len ==> floats::total_64(a.entry.priority)
            >= floats::total_64(b.entry.priority))
        &&& (a.match_len == b.match_len && a.entry.priority == b.entry.priority ==> places[i]
            < places[j])
    } by {
        law_best_entries_come_first(merged, order, i, j);
        assert(order[i] != order[j]);
        let a = merged[places[i]];
        let b = merged[places[j]];
        if a.match_len == b.match_len && a.entry.priority == b.entry.priority {
            assert(rank_keys(merged)[order[i] as int] == rank_keys(merged)[order[j] as int]);
        }
    }
    places
}

/// The parts of a priority are the length of the match, the rank, whether the rank is below
/// 999999, the number of rules applied, and whether a word in kana was looked up in kana as it
/// stands.
pub proof fn law_parts_of_a_priority(hit: HitView, original: Seq<char>)
    requires
        hit.form.process.len() <= usize::MAX,
    ensures
        parts_of(hit, original).match_len == hit.match_len,
        parts_of(hit, original).freq == hit.entry.frequency,
        parts_of(hit, original).ranked == (hit.entry.frequency < 999999),
        parts_of(hit, original).process_len == hit.form.process.len(),
        parts_of(hit, original).kana_bonus == (hit.form.process.len() == 0
            && !lookup::is_written_in_kanji(original) && (hit.entry.written_form is Some
            ==> !lookup::is_written_in_kanji(hit.entry.written_form->0@))),
{
    kana::law_kanji_are_told_by_their_codes(original);
    if hit.entry.written_form is Some {
        kana::law_kanji_are_told_by_their_codes(hit.entry.written_form->0@);
    }
}

/// One more hit changes at most one merged entry. Where a word of its spelling and reading is
/// there, its senses come behind those that the word has, unless the word has its number; where
/// there is none, the hit makes a new one behind all others, with its own senses.
pub proof fn law_later_hits_add_their_senses_behind(
    dictionary: &Dictionary,
    hits: Seq<HitView>,
    priorities: Seq<u64>,
    hit: HitView,
    priority: u64,
    m: int,
)
    requires
        0 <= m < merged_hits(dictionary, hits, priorities).len(),
    ensures
        ({
            let before = merged_hits(dictionary, hits, priorities);
            let after = merged_hits(dictionary, hits.push(hit), priorities.push(priority));
            let added = if dictionary.entries@.contains_key(hit.entry.entry_id) {
                dictionary.entries@[hit.entry.entry_id]@.map_values(|sense: Sense| sense@)
            } else {
                Seq::empty()
            };
            &&& !shows(before[m].entry, hit.entry) ==> after[m] == before[m]
            &&& shows(before[m].entry, hit.entry) && before[m].entry.id == hit.entry.entry_id
                ==> after[m].entry.senses == before[m].entry.senses
            &&& shows(before[m].entry, hit.entry) && before[m].entry.id != hit.entry.entry_id
                ==> after[m].entry.senses == before[m].entry.senses + added
            &&& after.len() == before.len() <==> exists|i: int|
                0 <= i < before.len() && shows((#[trigger] before[i]).entry, hit.entry)
            &&& after.len() != before.len() ==> after.len() == before.len() + 1
                && after.last().entry.senses == added && shows(after.last().entry, hit.entry)
        }),
{
    let before = merged_hits(dictionary, hits, priorities);
    let after = merged_hits(dictionary, hits.push(hit), priorities.push(priority));
    assert(hits.push(hit).drop_last() =~= hits);
    assert(priorities.push(priority).drop_last() =~= priorities);
    assert forall|i: int| 0 <= i < before.len() implies same_word(#[trigger] before[i], hit)
        == shows(before[i].entry, hit.entry) by {
        lemma_shows(before[i], hit);
    }
    if dictionary.entries@.contains_key(hit.entry.entry_id) {
        let senses = dictionary.entries@[hit.entry.entry_id]@;
        assert(dictionary.senses_of(hit.entry.entry_id) =~= senses.map_values(
            |sense: Sense| sense@,
        ));
    }
    if !has_word(before, hit) {
        lemma_shows(after.last(), hit);
    } else {
        let i = choose|i: int| 0 <= i < before.len() && same_word(#[trigger] before[i], hit);
        assert(shows(before[i].entry, hit.entry));
    }
}

} // verus!
