//! The lookup engine: a dictionary with a cache of recent lookups.

use crate::dictionary::customdict;
use crate::dictionary::customdict::validate;
use crate::dictionary::deconjugator::Deconjugator;
use crate::dictionary::entry::{
    copy_entries, DictionaryEntry, DictionaryEntryView, KanjiEntry, KanjiEntryView, MapEntry, Sense,
};
use crate::dictionary::kana::is_kanji;
use crate::dictionary::lookup::{Dictionary, HitView, CACHE_SIZE, JAPANESE_SEPARATORS};
use crate::dictionary::ranking::{priority_parts, PriorityParts};
use crate::dictionary::{entry, kana, lookup, ranking};
use crate::text;
use crate::text::{chars_of, string_of, trim};
use crate::text_map;
use crate::text_map::TextMap;
use std::collections::HashMap;
use vstd::hash_map::StringHashMap;
use vstd::prelude::*;

verus! {

/// Whether lookup text ends at `c`.
fn ends_lookup(c: char) -> (r: bool)
    ensures
        r == lookup::is_separator(c),
{
    let separators: Vec<char> = chars_of(JAPANESE_SEPARATORS);
    let mut i: usize = 0;
    while i < separators.len()
        invariant
            i <= separators@.len(),
            separators@ == JAPANESE_SEPARATORS@,
            forall|k: int| 0 <= k < i ==> separators@[k] != c,
        decreases separators@.len() - i,
    {
        if separators[i] == c {
            return true;
        }
        i += 1;
    }
    false
}

/// The text that is looked up for `lookup_string`.
pub fn prepare_text(lookup_string: &str, max_lookup_length: usize) -> (r: String)
    ensures
        r@ == lookup::prepared(lookup_string@, max_lookup_length),
{
    let clean = trim(lookup_string);
    let chars: Vec<char> = chars_of(clean.as_str());
    let count: usize = if max_lookup_length < chars.len() {
        max_lookup_length
    } else {
        chars.len()
    };
    let ghost taken = chars@.take(count as int);
    assert(count == chars@.len() ==> taken =~= chars@);
    let mut end: usize = 0;
    assert(taken.skip(0) =~= taken);
    while end < count && !ends_lookup(chars[end])
        invariant
            end <= count <= chars@.len(),
            taken == chars@.take(count as int),
            lookup::before_separator(taken) == taken.take(end as int) + lookup::before_separator(
                taken.skip(end as int),
            ),
        decreases count - end,
    {
        let ghost rest = taken.skip(end as int);
        assert(rest.drop_first() =~= taken.skip(end + 1));
        assert(rest[0] == taken[end as int]);
        assert(taken.take(end as int) + (seq![rest[0]] + lookup::before_separator(
            rest.drop_first(),
        )) =~= taken.take(end + 1) + lookup::before_separator(taken.skip(end + 1)));
        end += 1;
    }
    let ghost rest = taken.skip(end as int);
    assert(rest.len() > 0 ==> rest[0] == chars@[end as int]);
    assert(lookup::before_separator(taken) =~= taken.take(end as int));
    assert(chars@.subrange(0, end as int) =~= taken.take(end as int));
    string_of(chars.as_slice(), 0, end)
}

/// The outcome of a lookup.
pub struct CachedLookup {
    pub entries: Vec<DictionaryEntry>,
    pub kanji_entry: Option<KanjiEntry>,
}

/// The contents of a `CachedLookup`.
#[verifier::ext_equal]
pub struct CachedLookupView {
    pub entries: Seq<DictionaryEntryView>,
    pub kanji_entry: Option<KanjiEntryView>,
}

impl View for CachedLookup {
    type V = CachedLookupView;

    open spec fn view(&self) -> CachedLookupView {
        CachedLookupView {
            entries: entry::entry_views(self.entries@),
            kanji_entry: match self.kanji_entry {
                Some(kanji_entry) => Some(kanji_entry@),
                None => None,
            },
        }
    }
}

impl Clone for CachedLookup {
    fn clone(&self) -> (r: Self)
        ensures
            r@ == self@,
    {
        CachedLookup {
            entries: copy_entries(&self.entries),
            kanji_entry: match &self.kanji_entry {
                Some(kanji_entry) => Some(kanji_entry.clone()),
                None => None,
            },
        }
    }
}

/// The outcome of looking nothing up.
pub open spec fn nothing_found() -> CachedLookupView {
    CachedLookupView { entries: Seq::empty(), kanji_entry: None }
}

/// A dictionary together with the lookups that were made last.
pub struct LookupEngine {
    pub dictionary: Dictionary,
    pub max_dict_entries: usize,
    pub lookup_cache: StringHashMap<CachedLookup>,
    pub cache_order: Vec<String>,
    pub validation_issues: usize,
    pub validation_warnings: Vec<String>,
}

/// Whether `shown` is an outcome of looking up `text`: the hits of the text, with priorities
/// that `priority` gives for their parts, merged, sorted and cut to `limit` entries.
pub open spec fn is_lookup<F: Fn(PriorityParts) -> u64>(
    dictionary: &Dictionary,
    limit: usize,
    text: Seq<char>,
    priority: F,
    shown: Seq<DictionaryEntryView>,
) -> bool {
    exists|hits: Seq<HitView>, priorities: Seq<u64>|
        lookup::are_hits(dictionary, text, hits) && #[trigger] are_priorities(
            priority,
            text,
            hits,
            priorities,
        ) && ranking::are_best(
            ranking::merged_hits(dictionary, hits, priorities),
            limit,
            shown,
        )
}

/// Whether `priority` gave these priorities for the parts of the hits.
pub open spec fn are_priorities<F: Fn(PriorityParts) -> u64>(
    priority: F,
    text: Seq<char>,
    hits: Seq<HitView>,
    priorities: Seq<u64>,
) -> bool {
    &&& priorities.len() == hits.len()
    &&& forall|i: int|
        0 <= i < hits.len() ==> call_ensures(
            priority,
            (ranking::parts_of(hits[i], text),),
            #[trigger] priorities[i],
        )
}

impl LookupEngine {
    /// Whether the dictionary is well formed and the cache holds exactly the texts listed in
    /// `cache_order`, each once, and no more than fit.
    pub open spec fn wf(&self) -> bool {
        let order = text::texts(self.cache_order@);
        &&& self.dictionary.wf()
        &&& order.no_duplicates()
        &&& order.len() <= CACHE_SIZE
        &&& forall|t: Seq<char>| #[trigger]
            self.lookup_cache@.dom().contains(t) <==> order.contains(t)
    }

    /// The remembered texts, the least recently used first.
    pub open spec fn order(&self) -> Seq<Seq<char>> {
        text::texts(self.cache_order@)
    }

    /// The remembered outcome for `text`.
    pub open spec fn remembered(&self, text: Seq<char>) -> Option<CachedLookupView> {
        if self.lookup_cache@.dom().contains(text) {
            Some(self.lookup_cache@[text]@)
        } else {
            None
        }
    }

    /// The kanji entry that goes with a lookup of `text`: that of its first character, if the
    /// character is a kanji that the dictionary knows.
    pub open spec fn leading_kanji(&self, text: Seq<char>, show_kanji: bool) -> Option<
        KanjiEntryView,
    > {
        let pairs = self.dictionary.kanji_entries.pairs();
        if show_kanji && text.len() > 0 && kana::kanji(text[0]) && text_map::has_pair(
            pairs,
            seq![text[0]],
        ) {
            Some(text_map::value_of(pairs, seq![text[0]])@)
        } else {
            None
        }
    }

    /// An engine for the given dictionary that shows at most `max_dict_entries` entries. The
    /// dictionary is checked, and what is wrong with it is kept.
    pub fn new(
        entries: HashMap<i64, Vec<Sense>>,
        lookup_map: TextMap<Vec<MapEntry>>,
        kanji_entries: TextMap<KanjiEntry>,
        deconjugator: Deconjugator,
        max_dict_entries: usize,
    ) -> (r: Self)
        requires
            lookup_map.wf(),
            kanji_entries.wf(),
            customdict::issue_count(entries@, lookup_map.pairs()) <= usize::MAX,
        ensures
            r.wf(),
            r.order() == Seq::<Seq<char>>::empty(),
            r.dictionary.entries == entries,
            r.dictionary.lookup_map == lookup_map,
            r.dictionary.kanji_entries == kanji_entries,
            r.dictionary.deconjugator == deconjugator,
            r.max_dict_entries == max_dict_entries,
            r.validation_issues == customdict::issue_count(entries@, lookup_map.pairs()),
            customdict::are_warnings(
                entries@,
                lookup_map.pairs(),
                text::texts(r.validation_warnings@),
            ),
    {
        let validation = validate(&entries, &lookup_map);
        let r = LookupEngine {
            dictionary: Dictionary { entries, lookup_map, kanji_entries, deconjugator },
            max_dict_entries,
            lookup_cache: StringHashMap::new(),
            cache_order: Vec::new(),
            validation_issues: validation.issues,
            validation_warnings: validation.warnings,
        };
        assert(r.order() =~= Seq::<Seq<char>>::empty());
        r
    }

    /// Number of issues found in the dictionary, and the warnings on them.
    pub fn validate(&self) -> (r: (usize, &Vec<String>))
        ensures
            r.0 == self.validation_issues,
            *r.1 == self.validation_warnings,
    {
        (self.validation_issues, &self.validation_warnings)
    }

    /// The text that is looked up for `lookup_string`.
    pub fn prepare_lookup_text(&self, lookup_string: &str, max_lookup_length: usize) -> (r: String)
        ensures
            r@ == lookup::prepared(lookup_string@, max_lookup_length),
    {
        prepare_text(lookup_string, max_lookup_length)
    }

    /// What the dictionary knows of a kanji.
    pub fn get_kanji_entry(&self, character: &str) -> (r: Option<&KanjiEntry>)
        requires
            self.dictionary.wf(),
        ensures
            match r {
                Some(found) => text_map::has_pair(
                    self.dictionary.kanji_entries.pairs(),
                    character@,
                ) && *found == text_map::value_of(
                    self.dictionary.kanji_entries.pairs(),
                    character@,
                ),
                None => !text_map::has_pair(
                    self.dictionary.kanji_entries.pairs(),
                    character@,
                ),
            },
    {
        self.dictionary.kanji_entries.get(character)
    }

    /// The entries for `text`, where `priority` gives the priority of a hit as the bit pattern
    /// of a double.
    pub fn lookup<F: Fn(PriorityParts) -> u64>(&self, text: &str, priority: F) -> (r: Vec<
        DictionaryEntry,
    >)
        requires
            self.dictionary.wf(),
            forall|parts: PriorityParts| #[trigger] call_requires(priority, (parts,)),
        ensures
            is_lookup(
                &self.dictionary,
                self.max_dict_entries,
                text@,
                priority,
                entry::entry_views(r@),
            ),
    {
        let hits = self.dictionary.collect_hits(text);
        let ghost views = lookup::hit_views(hits@);
        let mut priorities: Vec<u64> = Vec::new();
        let mut i: usize = 0;
        while i < hits.len()
            invariant
                i <= hits@.len(),
                views == lookup::hit_views(hits@),
                forall|parts: PriorityParts| #[trigger] call_requires(priority, (parts,)),
                priorities@.len() == i,
                forall|k: int|
                    0 <= k < i ==> call_ensures(
                        priority,
                        (ranking::parts_of(views[k], text@),),
                        #[trigger] priorities@[k],
                    ),
            decreases hits@.len() - i,
        {
            let parts = priority_parts(&hits[i], text);
            let given: u64 = priority(parts);
            priorities.push(given);
            i += 1;
        }
        assert(are_priorities(priority, text@, views, priorities@));
        self.dictionary.format_and_sort(&hits, &priorities, self.max_dict_entries)
    }

    /// Forgets all lookups.
    pub fn clear_cache(&mut self)
        requires
            old(self).wf(),
        ensures
            final(self).wf(),
            final(self).order() == Seq::<Seq<char>>::empty(),
            forall|t: Seq<char>| #[trigger] final(self).remembered(t) is None,
            final(self).dictionary == old(self).dictionary,
            final(self).max_dict_entries == old(self).max_dict_entries,
            final(self).validation_issues == old(self).validation_issues,
            final(self).validation_warnings == old(self).validation_warnings,
    {
        self.lookup_cache.clear();
        self.cache_order.clear();
        assert(self.order() =~= Seq::<Seq<char>>::empty());
    }

    /// The kanji entry that goes with a lookup of `text`.
    fn find_leading_kanji(&self, text: &str, show_kanji: bool) -> (r: Option<KanjiEntry>)
        requires
            self.dictionary.wf(),
        ensures
            match (r, self.leading_kanji(text@, show_kanji)) {
                (Some(found), Some(wanted)) => found@ == wanted,
                (None, None) => true,
                _ => false,
            },
    {
        if !show_kanji {
            return None;
        }
        let chars: Vec<char> = chars_of(text);
        if chars.len() == 0 || !is_kanji(chars[0]) {
            return None;
        }
        let character = string_of(chars.as_slice(), 0, 1);
        assert(character@ =~= seq![text@[0]]);
        match self.get_kanji_entry(character.as_str()) {
            Some(found) => Some(found.clone()),
            None => None,
        }
    }
}

/// The order of texts after `text`, one of them, was used again.
pub open spec fn used_again(order: Seq<Seq<char>>, text: Seq<char>) -> Seq<Seq<char>> {
    order.remove(order.index_of(text)).push(text)
}

/// The order of texts after `text` was added; the least recently used text goes when there
/// are too many.
pub open spec fn used_first(order: Seq<Seq<char>>, text: Seq<char>) -> Seq<Seq<char>> {
    if order.len() < CACHE_SIZE {
        order.push(text)
    } else {
        order.push(text).drop_first()
    }
}

/// Whether looking `lookup_string` up can take an engine from `before` to `after` and give
/// `outcome`: the remembered one where there is one. Blank text has none and is not remembered.
pub open spec fn is_cached_lookup<F: Fn(PriorityParts) -> u64>(
    before: LookupEngine,
    after: LookupEngine,
    lookup_string: Seq<char>,
    max_lookup_length: usize,
    show_kanji: bool,
    priority: F,
    outcome: CachedLookupView,
) -> bool {
    let text = lookup::prepared(lookup_string, max_lookup_length);
    &&& after.dictionary == before.dictionary
    &&& after.max_dict_entries == before.max_dict_entries
    &&& after.validation_issues == before.validation_issues
    &&& after.validation_warnings == before.validation_warnings
    &&& if text.len() == 0 {
        &&& outcome == nothing_found()
        &&& after.order() == before.order()
        &&& after.lookup_cache == before.lookup_cache
    } else if before.remembered(text) is Some {
        &&& Some(outcome) == before.remembered(text)
        &&& after.order() == used_again(before.order(), text)
        &&& after.lookup_cache == before.lookup_cache
    } else {
        &&& is_lookup(
            &before.dictionary,
            before.max_dict_entries,
            text,
            priority,
            outcome.entries,
        )
        &&& outcome.kanji_entry == before.leading_kanji(text, show_kanji)
        &&& after.order() == used_first(before.order(), text)
        &&& forall|t: Seq<char>| #[trigger]
            after.remembered(t) == (if !after.order().contains(t) {
                None
            } else if t == text {
                Some(outcome)
            } else {
                before.remembered(t)
            })
    }
}

impl LookupEngine {
    /// Moves `text`, which is remembered, behind all other texts.
    fn touch(&mut self, text: String)
        requires
            old(self).wf(),
            old(self).lookup_cache@.dom().contains(text@),
        ensures
            final(self).wf(),
            final(self).order() == used_again(old(self).order(), text@),
            final(self).lookup_cache == old(self).lookup_cache,
            final(self).dictionary == old(self).dictionary,
            final(self).max_dict_entries == old(self).max_dict_entries,
            final(self).validation_issues == old(self).validation_issues,
            final(self).validation_warnings == old(self).validation_warnings,
    {
        let ghost order = self.order();
        let ghost held = self.cache_order@;
        assert(order.contains(text@));
        let mut i: usize = 0;
        while i < self.cache_order.len()
            invariant
                i <= self.cache_order@.len(),
                self.cache_order@ == held,
                *self == *old(self),
                order == text::texts(held),
                order.no_duplicates(),
                order.contains(text@),
                old(self).wf(),
                order == old(self).order(),
                forall|k: int| 0 <= k < i ==> order[k] != text@,
            decreases self.cache_order@.len() - i,
        {
            if self.cache_order[i] == text {
                assert(order[i as int] == text@);
                let ghost t = text@;
                let _ = self.cache_order.remove(i);
                self.cache_order.push(text);
                assert(order.index_of(t) == i);
                assert(self.order() =~= used_again(order, t));
                proof {
                    law_reuse_forgets_nothing(order, t);
                }
                return;
            }
            i += 1;
        }
        assert(false);
    }

    /// Remembers the outcome for `text`, which is not remembered yet.
    fn remember(&mut self, text: String, outcome: CachedLookup)
        requires
            old(self).wf(),
            !old(self).lookup_cache@.dom().contains(text@),
        ensures
            final(self).wf(),
            final(self).order() == used_first(old(self).order(), text@),
            forall|t: Seq<char>| #[trigger]
                final(self).remembered(t) == (if !final(self).order().contains(t) {
                    None
                } else if t == text@ {
                    Some(outcome@)
                } else {
                    old(self).remembered(t)
                }),
            final(self).dictionary == old(self).dictionary,
            final(self).max_dict_entries == old(self).max_dict_entries,
            final(self).validation_issues == old(self).validation_issues,
            final(self).validation_warnings == old(self).validation_warnings,
    {
        let ghost order = self.order();
        let ghost t = text@;
        assert(!order.contains(t));
        self.lookup_cache.insert(text.clone(), outcome);
        self.cache_order.push(text);
        assert(self.order() =~= order.push(t));
        if self.cache_order.len() > CACHE_SIZE {
            let oldest = self.cache_order.remove(0);
            self.lookup_cache.remove(oldest.as_str());
            assert(oldest@ == order[0]);
            assert(self.order() =~= order.push(t).drop_first());
        }
        proof {
            law_new_text_displaces_only_the_oldest(order, t);
            assert forall|u: Seq<char>| #[trigger]
                self.lookup_cache@.dom().contains(u) <==> self.order().contains(u) by {
                assert(old(self).lookup_cache@.dom().contains(u) <==> order.contains(u));
            }
        }
    }

    /// The outcome of looking `lookup_string` up: the remembered one where there is one. Blank
    /// text has none and is not remembered.
    pub fn lookup_cached<F: Fn(PriorityParts) -> u64>(
        &mut self,
        lookup_string: &str,
        max_lookup_length: usize,
        show_kanji: bool,
        priority: F,
    ) -> (r: CachedLookup)
        requires
            old(self).wf(),
            forall|parts: PriorityParts| #[trigger] call_requires(priority, (parts,)),
        ensures
            final(self).wf(),
            is_cached_lookup(
                *old(self),
                *final(self),
                lookup_string@,
                max_lookup_length,
                show_kanji,
                priority,
                r@,
            ),
    {
        let text = self.prepare_lookup_text(lookup_string, max_lookup_length);
        if text.as_str().is_empty() {
            let r = CachedLookup { entries: Vec::new(), kanji_entry: None };
            assert(r@ =~= nothing_found());
            return r;
        }
        let known = match self.lookup_cache.get(text.as_str()) {
            Some(outcome) => Some(outcome.clone()),
            None => None,
        };
        if let Some(outcome) = known {
            self.touch(text);
            return outcome;
        }
        let entries = self.lookup(text.as_str(), priority);
        let kanji_entry = self.find_leading_kanji(text.as_str(), show_kanji);
        let r = CachedLookup { entries, kanji_entry };
        self.remember(text, r.clone());
        r
    }
}

/// Using a remembered text again forgets no text and adds none.
pub proof fn law_reuse_forgets_nothing(order: Seq<Seq<char>>, text: Seq<char>)
    requires
        order.no_duplicates(),
        order.contains(text),
    ensures
        used_again(order, text).no_duplicates(),
        used_again(order, text).len() == order.len(),
        forall|t: Seq<char>| #[trigger]
            used_again(order, text).contains(t) <==> order.contains(t),
{
    let place = order.index_of(text);
    let after = used_again(order, text);
    assert(0 <= place < order.len() && order[place] == text);
    let back = |i: int|
        if i == after.len() - 1 {
            place
        } else if i < place {
            i
        } else {
            i + 1
        };
    assert forall|i: int| 0 <= i < after.len() implies after[i] == order[#[trigger] back(i)] by {}
    assert forall|i: int, j: int|
        0 <= i < after.len() && 0 <= j < after.len() && i != j implies after[i] != after[j] by {
        assert(back(i) != back(j));
        assert(order[back(i)] != order[back(j)]);
    }
    assert forall|t: Seq<char>| #[trigger] after.contains(t) <==> order.contains(t) by {
        if order.contains(t) {
            let k = choose|k: int| 0 <= k < order.len() && order[k] == t;
            let i = if k == place {
                after.len() - 1
            } else if k < place {
                k
            } else {
                k - 1
            };
            assert(after[i] == t);
        }
        if after.contains(t) {
            let i = choose|i: int| 0 <= i < after.len() && after[i] == t;
            assert(order[back(i)] == t);
        }
    }
}

/// A text that is looked up for the first time is remembered, and at most the least recently
/// used text is forgotten for it.
pub proof fn law_new_text_displaces_only_the_oldest(order: Seq<Seq<char>>, text: Seq<char>)
    requires
        order.no_duplicates(),
        order.len() <= CACHE_SIZE,
        !order.contains(text),
    ensures
        used_first(order, text).no_duplicates(),
        used_first(order, text).len() <= CACHE_SIZE,
        used_first(order, text).contains(text),
        forall|t: Seq<char>| #[trigger]
            used_first(order, text).contains(t) <==> t == text || (order.contains(t) && !(
            order.len() == CACHE_SIZE && t == order[0])),
{
    let all = order.push(text);
    let after = used_first(order, text);
    let shift: int = if order.len() < CACHE_SIZE {
        0
    } else {
        1
    };
    assert forall|i: int| 0 <= i < after.len() implies after[i] == #[trigger] all[i + shift] by {}
    assert forall|i: int, j: int|
        0 <= i < after.len() && 0 <= j < after.len() && i != j implies after[i] != after[j] by {
        let a = i + shift;
        let b = j + shift;
        assert(after[i] == all[a] && after[j] == all[b]);
        if a < order.len() && b < order.len() {
            assert(order[a] != order[b]);
        } else if a < order.len() {
            assert(order.contains(order[a]));
        } else {
            assert(order.contains(order[b]));
        }
    }
    assert(after[after.len() - 1] == text);
    assert forall|t: Seq<char>| #[trigger]
        after.contains(t) <==> t == text || (order.contains(t) && !(order.len() == CACHE_SIZE && t
            == order[0])) by {
        if after.contains(t) {
            let i = choose|i: int| 0 <= i < after.len() && after[i] == t;
            assert(all[i + shift] == t);
            if i + shift < order.len() {
                assert(order[i + shift] == t);
                assert(shift == 1 ==> order[0] != order[i + shift]);
            }
        }
        if order.contains(t) && !(order.len() == CACHE_SIZE && t == order[0]) {
            let k = choose|k: int| 0 <= k < order.len() && order[k] == t;
            assert(after[k - shift] == t);
        }
    }
}

/// The kanji entry of a lookup is the one kept under the first character of the text, where kanji
/// are shown, the character's code lies from 4e00 to 9faf and there is such an entry; else there
/// is none.
pub proof fn law_the_first_character_gives_the_kanji(
    engine: LookupEngine,
    text: Seq<char>,
    show_kanji: bool,
)
    requires
        engine.dictionary.kanji_entries.wf(),
    ensures
        ({
            let pairs = engine.dictionary.kanji_entries.pairs();
            let asked = show_kanji && text.len() > 0 && 0x4e00 <= text[0] as int <= 0x9faf;
            match engine.leading_kanji(text, show_kanji) {
                Some(found) => asked && exists|i: int|
                    0 <= i < pairs.len() && (#[trigger] pairs[i]).0.len() == 1 && pairs[i].0[0]
                        == text[0] && pairs[i].1@ == found,
                None => asked ==> forall|i: int|
                    0 <= i < pairs.len() && (#[trigger] pairs[i]).0.len() == 1 ==> pairs[i].0[0]
                        != text[0],
            }
        }),
{
    let pairs = engine.dictionary.kanji_entries.pairs();
    if text.len() > 0 {
        let k = seq![text[0]];
        if text_map::has_pair(pairs, k) {
            lemma_value_is_held(pairs, k);
        }
        assert forall|i: int|
            0 <= i < pairs.len() && (#[trigger] pairs[i]).0.len() == 1 && pairs[i].0[0]
                == text[0] implies text_map::has_pair(pairs, k) by {
            assert(pairs[i].0 =~= k);
        }
    }
}

proof fn lemma_value_is_held<V>(pairs: Seq<(Seq<char>, V)>, k: Seq<char>)
    requires
        text_map::has_pair(pairs, k),
    ensures
        exists|i: int|
            0 <= i < pairs.len() && (#[trigger] pairs[i]).0 == k && pairs[i].1
                == text_map::value_of(pairs, k),
    decreases pairs.len(),
{
    let last = pairs.len() - 1;
    if pairs[last].0 != k {
        let fewer = pairs.drop_last();
        let i = choose|i: int| 0 <= i < pairs.len() && (#[trigger] pairs[i]).0 == k;
        assert(fewer[i] == pairs[i]);
        lemma_value_is_held(fewer, k);
        let j = choose|j: int|
            0 <= j < fewer.len() && (#[trigger] fewer[j]).0 == k && fewer[j].1
                == text_map::value_of(fewer, k);
        assert(pairs[j] == fewer[j]);
    }
}

/// A text that is used again goes behind all others, which keep their order.
pub proof fn law_texts_used_again_go_last(order: Seq<Seq<char>>, place: int)
    requires
        order.no_duplicates(),
        0 <= place < order.len(),
    ensures
        used_again(order, order[place]).len() == order.len(),
        used_again(order, order[place])[order.len() - 1] == order[place],
        forall|i: int| 0 <= i < place ==> #[trigger] used_again(order, order[place])[i] == order[i],
        forall|i: int|
            place <= i < order.len() - 1 ==> #[trigger] used_again(order, order[place])[i] == order[i
                + 1],
{
    assert(order.contains(order[place]));
    assert(order.index_of(order[place]) == place);
}

/// A new text goes behind all others, which keep their order; when there are five hundred
/// already, the first of them goes.
pub proof fn law_new_texts_go_last(order: Seq<Seq<char>>, text: Seq<char>)
    requires
        order.len() <= 500,
    ensures
        order.len() < 500 ==> used_first(order, text).len() == order.len() + 1,
        order.len() == 500 ==> used_first(order, text).len() == 500,
        used_first(order, text).last() == text,
        order.len() < 500 ==> forall|i: int|
            0 <= i < order.len() ==> #[trigger] used_first(order, text)[i] == order[i],
        order.len() == 500 ==> forall|i: int|
            0 <= i < order.len() - 1 ==> #[trigger] used_first(order, text)[i] == order[i + 1],
{
}

/// Looking the same text up twice in a row gives the same outcome, whatever the priorities and
/// whether kanji are shown, and the second time nothing is remembered or forgotten.
pub proof fn law_lookups_are_remembered<F: Fn(PriorityParts) -> u64, G: Fn(PriorityParts) -> u64>(
    engines: (LookupEngine, LookupEngine, LookupEngine),
    first: Seq<char>,
    second: Seq<char>,
    lengths: (usize, usize),
    show_kanji: (bool, bool),
    first_priority: F,
    second_priority: G,
    outcomes: (CachedLookupView, CachedLookupView),
)
    requires
        engines.0.wf(),
        engines.1.wf(),
        is_cached_lookup(
            engines.0,
            engines.1,
            first,
            lengths.0,
            show_kanji.0,
            first_priority,
            outcomes.0,
        ),
        is_cached_lookup(
            engines.1,
            engines.2,
            second,
            lengths.1,
            show_kanji.1,
            second_priority,
            outcomes.1,
        ),
        lookup::prepared(first, lengths.0) == lookup::prepared(second, lengths.1),
    ensures
        outcomes.1 == outcomes.0,
        engines.2.lookup_cache == engines.1.lookup_cache,
        lookup::prepared(first, lengths.0).len() > 0 ==> engines.1.remembered(
            lookup::prepared(first, lengths.0),
        ) == Some(outcomes.0) && engines.1.order().last() == lookup::prepared(first, lengths.0),
        lookup::prepared(first, lengths.0).len() == 0 ==> outcomes.0.entries.len() == 0
            && outcomes.0.kanji_entry is None && engines.1.lookup_cache == engines.0.lookup_cache
            && engines.1.order() == engines.0.order(),
{
    let text = lookup::prepared(first, lengths.0);
    let order = engines.0.order();
    if text.len() > 0 {
        if engines.0.remembered(text) is Some {
            assert(order.contains(text));
            law_reuse_forgets_nothing(order, text);
            let place = order.index_of(text);
            assert(0 <= place < order.len() && order[place] == text);
            assert(engines.1.remembered(text) == engines.0.remembered(text));
        } else {
            assert(!order.contains(text));
            law_new_text_displaces_only_the_oldest(order, text);
            assert(engines.1.order().contains(text));
            assert(engines.1.remembered(text) == Some(outcomes.0));
        }
    }
}

/// What is remembered of other texts stays as it is, but for the first of five hundred.
pub proof fn law_lookups_leave_other_texts<F: Fn(PriorityParts) -> u64>(
    before: LookupEngine,
    after: LookupEngine,
    lookup_string: Seq<char>,
    max_lookup_length: usize,
    show_kanji: bool,
    priority: F,
    outcome: CachedLookupView,
    other: Seq<char>,
)
    requires
        before.wf(),
        is_cached_lookup(
            before,
            after,
            lookup_string,
            max_lookup_length,
            show_kanji,
            priority,
            outcome,
        ),
        other != lookup::prepared(lookup_string, max_lookup_length),
        before.order().len() == 500 ==> other != before.order()[0],
    ensures
        after.remembered(other) == before.remembered(other),
        after.dictionary == before.dictionary,
        after.max_dict_entries == before.max_dict_entries,
{
    let text = lookup::prepared(lookup_string, max_lookup_length);
    let order = before.order();
    if text.len() > 0 && before.remembered(text) is None {
        assert(!order.contains(text));
        law_new_text_displaces_only_the_oldest(order, text);
        assert(before.remembered(other) is Some <==> order.contains(other));
        assert(after.order().contains(other) <==> order.contains(other));
    }
}

/// What a lookup shows are words of its hits, no word twice and no more than the limit. The first
/// has a hit with the longest match, and every hit is shown by its word where there is room.
pub proof fn law_lookups_show_their_hits<F: Fn(PriorityParts) -> u64>(
    dictionary: &Dictionary,
    limit: usize,
    text: Seq<char>,
    priority: F,
    shown: Seq<DictionaryEntryView>,
) -> (hits: Seq<HitView>)
    requires
        is_lookup(dictionary, limit, text, priority, shown),
    ensures
        lookup::are_hits(dictionary, text, hits),
        shown.len() <= limit,
        forall|i: int|
            0 <= i < shown.len() ==> exists|k: int|
                #![trigger hits[k]]
                0 <= k < hits.len() && ranking::shows(#[trigger] shown[i], hits[k].entry),
        forall|i: int, j: int|
            #![trigger shown[i], shown[j]]
            0 <= i < j < shown.len() ==> shown[i].written_form != shown[j].written_form
                || shown[i].reading != shown[j].reading,
        forall|k: int|
            0 <= k < hits.len() && shown.len() < limit ==> exists|i: int|
                #![trigger shown[i]]
                0 <= i < shown.len() && ranking::shows(shown[i], (#[trigger] hits[k]).entry),
        hits.len() > 0 && limit > 0 ==> shown.len() > 0 && exists|j: int|
            #![trigger hits[j]]
            0 <= j < hits.len() && ranking::shows(shown[0], hits[j].entry) && forall|k: int|
                0 <= k < hits.len() ==> (#[trigger] hits[k]).match_len <= hits[j].match_len,
{
    let (hits, priorities) = choose|hits: Seq<HitView>, priorities: Seq<u64>|
        lookup::are_hits(dictionary, text, hits) && #[trigger] are_priorities(
            priority,
            text,
            hits,
            priorities,
        ) && ranking::are_best(
            ranking::merged_hits(dictionary, hits, priorities),
            limit,
            shown,
        );
    let merged = ranking::merged_hits(dictionary, hits, priorities);
    let places = ranking::law_the_best_entries_are_shown(merged, limit, shown);
    ranking::law_merged_words_are_distinct(dictionary, hits, priorities);
    assert forall|i: int| 0 <= i < shown.len() implies exists|k: int|
        #![trigger hits[k]]
        0 <= k < hits.len() && ranking::shows(#[trigger] shown[i], hits[k].entry) by {
        let k = lemma_words_have_hits(dictionary, hits, priorities, places[i]);
        assert(ranking::shows(shown[i], hits[k].entry));
    }
    assert forall|i: int, j: int|
        #![trigger shown[i], shown[j]]
        0 <= i < j < shown.len() implies shown[i].written_form != shown[j].written_form
        || shown[i].reading != shown[j].reading by {
        let a = places[i];
        let b = places[j];
        assert(a != b);
        if a < b {
            assert(merged[a].entry.written_form != merged[b].entry.written_form
                || merged[a].entry.reading != merged[b].entry.reading);
        } else {
            assert(merged[b].entry.written_form != merged[a].entry.written_form
                || merged[b].entry.reading != merged[a].entry.reading);
        }
    }
    assert forall|k: int| 0 <= k < hits.len() && shown.len() < limit implies exists|i: int|
        #![trigger shown[i]]
        0 <= i < shown.len() && ranking::shows(shown[i], (#[trigger] hits[k]).entry) by {
        let p = lemma_hits_have_words(dictionary, hits, priorities, places, k);
        assert(shown[p] == merged[places[p]].entry);
    }
    if hits.len() > 0 && limit > 0 {
        let q = lemma_hits_have_words(dictionary, hits, priorities, places, 0);
        assert(shown.len() > 0);
        assert(shown[0] == merged[places[0]].entry);
        let j = lemma_words_have_hits(dictionary, hits, priorities, places[0]);
        assert forall|k: int| 0 <= k < hits.len() implies (#[trigger] hits[k]).match_len
            <= hits[j].match_len by {
            let p = lemma_hits_have_words(dictionary, hits, priorities, places, k);
            if p > 0 {
                assert(merged[places[0]].match_len >= merged[places[p]].match_len);
            }
        }
        assert(ranking::shows(shown[0], hits[j].entry));
    }
    hits
}

proof fn lemma_words_have_hits(
    dictionary: &Dictionary,
    hits: Seq<HitView>,
    priorities: Seq<u64>,
    m: int,
) -> (k: int)
    requires
        priorities.len() == hits.len(),
        0 <= m < ranking::merged_hits(dictionary, hits, priorities).len(),
    ensures
        0 <= k < hits.len(),
        ranking::shows(
            ranking::merged_hits(dictionary, hits, priorities)[m].entry,
            hits[k].entry,
        ),
        hits[k].match_len == ranking::merged_hits(dictionary, hits, priorities)[m].match_len,
{
    let from = ranking::law_merged_entries_take_the_best_of_their_hits(
        dictionary,
        hits,
        priorities,
        m,
    );
    from.1
}

proof fn lemma_hits_have_words(
    dictionary: &Dictionary,
    hits: Seq<HitView>,
    priorities: Seq<u64>,
    places: Seq<int>,
    k: int,
) -> (p: int)
    requires
        priorities.len() == hits.len(),
        0 <= k < hits.len(),
        places.len() == ranking::merged_hits(dictionary, hits, priorities).len(),
        forall|i: int| 0 <= i < places.len() ==> 0 <= #[trigger] places[i] < places.len(),
        forall|i: int, j: int|
            #![trigger places[i], places[j]]
            0 <= i < j < places.len() ==> places[i] != places[j],
    ensures
        0 <= p < places.len(),
        ranking::shows(
            ranking::merged_hits(dictionary, hits, priorities)[places[p]].entry,
            hits[k].entry,
        ),
        hits[k].match_len <= ranking::merged_hits(
            dictionary,
            hits,
            priorities,
        )[places[p]].match_len,
{
    let merged = ranking::merged_hits(dictionary, hits, priorities);
    ranking::law_merging_keeps_every_word(dictionary, hits, priorities, hits[k]);
    assert(ranking::has_word(merged, hits[k]));
    let m = choose|m: int|
        0 <= m < merged.len() && ranking::same_word(#[trigger] merged[m], hits[k]);
    ranking::lemma_shows(merged[m], hits[k]);
    lemma_places_hold_all(places, places.len() as int, m);
    let p = choose|p: int| 0 <= p < places.len() && #[trigger] places[p] == m;
    let from = ranking::law_merged_entries_take_the_best_of_their_hits(
        dictionary,
        hits,
        priorities,
        m,
    );
    p
}

proof fn lemma_places_hold_all(places: Seq<int>, count: int, m: int)
    requires
        places.len() == count,
        0 <= m < count,
        forall|i: int| 0 <= i < places.len() ==> 0 <= #[trigger] places[i] < count,
        forall|i: int, j: int|
            #![trigger places[i], places[j]]
            0 <= i < j < places.len() ==> places[i] != places[j],
    ensures
        exists|p: int| 0 <= p < places.len() && #[trigger] places[p] == m,
{
    assert(places.no_duplicates()) by {
        assert forall|i: int, j: int|
            0 <= i < places.len() && 0 <= j < places.len() && i != j implies places[i]
            != places[j] by {
            if i < j {
                assert(places[i] != places[j]);
            } else {
                assert(places[j] != places[i]);
            }
        }
    }
    places.unique_seq_to_set();
    let all = vstd::set_lib::set_int_range(0, count);
    vstd::set_lib::lemma_int_range(0, count);
    assert(places.to_set().subset_of(all));
    vstd::set_lib::lemma_subset_equality(places.to_set(), all);
    assert(all.contains(m));
    assert(places.contains(m));
}

} // verus!
