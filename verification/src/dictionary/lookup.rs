//! Lookup of running text in the dictionary.

use crate::dictionary::deconjugator::{Deconjugator, Form, FormView, Rule};
use crate::dictionary::entry::{KanjiEntry, MapEntry, Sense, SenseView};
use crate::dictionary::kana::{contains_kanji, hira_to_kata, kata_to_hira};
use crate::dictionary::{deconjugator, entry, kana};
use crate::text;
use crate::text::{chars_of, string_of};
use crate::text_map;
use crate::text_map::TextMap;
use std::collections::HashMap;
use vstd::prelude::*;

verus! {

/// The frequency rank of entries without one.
pub const DEFAULT_FREQ: i64 = 999_999;

/// Number of lookups that are remembered.
pub const CACHE_SIZE: usize = 500;

/// Characters at which a lookup text ends.
pub const JAPANESE_SEPARATORS: &'static str =
    "、。「」｛｝（）【】『』〈〉《》：・／…︙‥︰＋＝－÷？！．～―!?";

/// Whether lookup text ends at `c`.
pub open spec fn is_separator(c: char) -> bool {
    JAPANESE_SEPARATORS@.contains(c)
}

/// What comes before the first separator.
pub open spec fn before_separator(s: Seq<char>) -> Seq<char>
    decreases s.len(),
{
    if s.len() == 0 || is_separator(s[0]) {
        Seq::empty()
    } else {
        seq![s[0]] + before_separator(s.drop_first())
    }
}

/// The text that is looked up: without the white space around it, no longer than `limit`
/// characters, and up to the first separator.
pub open spec fn prepared(s: Seq<char>, limit: usize) -> Seq<char> {
    let clean = text::trimmed(s);
    before_separator(
        if limit < clean.len() {
            clean.take(limit as int)
        } else {
            clean
        },
    )
}

/// What a dictionary is made of.
pub struct Dictionary {
    pub entries: HashMap<i64, Vec<Sense>>,
    pub lookup_map: TextMap<Vec<MapEntry>>,
    pub kanji_entries: TextMap<KanjiEntry>,
    pub deconjugator: Deconjugator,
}

impl Dictionary {
    /// Whether its maps are well formed.
    pub open spec fn wf(&self) -> bool {
        &&& self.lookup_map.wf()
        &&& self.kanji_entries.wf()
    }

    /// The rules of its deconjugator.
    pub open spec fn rules(&self) -> Seq<Rule> {
        self.deconjugator.rules@
    }

    /// The map entries listed under `text`.
    pub open spec fn listed(&self, text: Seq<char>) -> Seq<MapEntry> {
        if text_map::has_pair(self.lookup_map.pairs(), text) {
            text_map::value_of(self.lookup_map.pairs(), text)@
        } else {
            Seq::empty()
        }
    }

    /// The map entries found for `text`: those listed under it, or under it in katakana, or
    /// under it in hiragana, whichever come first.
    pub open spec fn found(&self, text: Seq<char>) -> Seq<MapEntry> {
        let kata = kana::in_katakana(text);
        let hira = kana::in_hiragana(text);
        if self.listed(text).len() > 0 {
            self.listed(text)
        } else if self.listed(kata).len() > 0 {
            self.listed(kata)
        } else {
            self.listed(hira)
        }
    }

    /// Whether the entry `id` has a sense of part of speech `pos`.
    pub open spec fn has_pos(&self, id: i64, pos: Seq<char>) -> bool {
        &&& self.entries@.dom().contains(id)
        &&& exists|s: int, p: int|
            0 <= s < self.entries@[id]@.len() && 0 <= p < self.entries@[id]@[s].pos@.len()
                && #[trigger] self.entries@[id]@[s].pos@[p]@ == pos
    }

    /// Whether `entry` is a match for `form`, which was made of `prefix`. Once a longer prefix
    /// has matched (`primary`), a prefix in kana no longer matches entries written in kanji.
    pub open spec fn accepts(
        &self,
        entry: MapEntry,
        form: FormView,
        prefix: Seq<char>,
        primary: bool,
    ) -> bool {
        let written = entry::text_of(entry.written_form);
        &&& (written is None ==> !kana::has_kanji(form.text))
        &&& (form.tags.len() > 0 ==> self.has_pos(
            entry.entry_id,
            form.tags[form.tags.len() - 1],
        ))
        &&& (primary && !kana::has_kanji(prefix) && written is Some
            ==> !kana::has_kanji(written->0))
    }

    /// The senses of the entry `id`.
    pub open spec fn senses_of(&self, id: i64) -> Seq<SenseView> {
        if self.entries@.dom().contains(id) {
            entry::sense_views(self.entries@[id]@)
        } else {
            Seq::empty()
        }
    }

    /// The map entries listed under `text`.
    fn listed_entries(&self, text: &str) -> (r: Option<&Vec<MapEntry>>)
        requires
            self.wf(),
        ensures
            match r {
                Some(list) => list@ == self.listed(text@),
                None => self.listed(text@).len() == 0,
            },
    {
        self.lookup_map.get(text)
    }

    /// The map entries found for `text`; `None` stands for an empty list.
    pub fn get_map_entries(&self, text: &str) -> (r: Option<&Vec<MapEntry>>)
        requires
            self.wf(),
        ensures
            match r {
                Some(list) => list@ == self.found(text@),
                None => self.found(text@).len() == 0,
            },
    {
        if let Some(list) = self.listed_entries(text) {
            if list.len() > 0 {
                return Some(list);
            }
        }
        let kata = hira_to_kata(text);
        if let Some(list) = self.listed_entries(kata.as_str()) {
            if list.len() > 0 {
                return Some(list);
            }
        }
        let hira = kata_to_hira(text);
        self.listed_entries(hira.as_str())
    }

    /// Whether the entry `id` has a sense of part of speech `pos`.
    fn check_pos(&self, id: i64, pos: &String) -> (r: bool)
        ensures
            r == self.has_pos(id, pos@),
    {
        broadcast use vstd::std_specs::hash::group_hash_axioms;

        let senses = match self.entries.get(&id) {
            Some(senses) => senses,
            None => return false,
        };
        let mut s: usize = 0;
        while s < senses.len()
            invariant
                s <= senses@.len(),
                self.entries@.dom().contains(id),
                *senses == self.entries@[id],
                forall|i: int, p: int|
                    0 <= i < s && 0 <= p < senses@[i].pos@.len() ==> #[trigger] senses@[i].pos@[p]@
                        != pos@,
            decreases senses@.len() - s,
        {
            let listed = &senses[s].pos;
            let mut p: usize = 0;
            while p < listed.len()
                invariant
                    p <= listed@.len(),
                    s < senses@.len(),
                    self.entries@.dom().contains(id),
                    *senses == self.entries@[id],
                    *listed == senses@[s as int].pos,
                    forall|k: int| 0 <= k < p ==> (#[trigger] listed@[k])@ != pos@,
                decreases listed@.len() - p,
            {
                if listed[p] == *pos {
                    assert(self.entries@[id]@[s as int].pos@[p as int]@ == pos@);
                    return true;
                }
                p += 1;
            }
            s += 1;
        }
        false
    }

    /// Whether `entry` is a match for `form`.
    fn check_entry(&self, entry: &MapEntry, form: &Form, prefix: &str, primary: bool) -> (r: bool)
        ensures
            r == self.accepts(*entry, form@, prefix@, primary),
    {
        match &entry.written_form {
            None => if contains_kanji(form.text.as_str()) {
                return false;
            },
            Some(written) => if primary && !contains_kanji(prefix) && contains_kanji(
                written.as_str(),
            ) {
                return false;
            },
        }
        if form.tags.len() > 0 {
            let required = &form.tags[form.tags.len() - 1];
            assert(form@.tags[form@.tags.len() - 1] == required@);
            if !self.check_pos(entry.entry_id, required) {
                return false;
            }
        }
        true
    }
}

/// A map entry that matches a prefix of the text.
pub struct Hit<'a> {
    pub entry: &'a MapEntry,
    pub form: Form,
    pub match_len: usize,
}

/// The contents of a `Hit`.
pub struct HitView {
    pub entry: MapEntry,
    pub form: FormView,
    pub match_len: usize,
}

impl<'a> View for Hit<'a> {
    type V = HitView;

    open spec fn view(&self) -> HitView {
        HitView { entry: *self.entry, form: self.form@, match_len: self.match_len }
    }
}

/// The contents of a list of hits.
pub open spec fn hit_views(hits: Seq<Hit>) -> Seq<HitView> {
    Seq::new(hits.len(), |i: int| hits[i]@)
}

/// Whether one of the hits is for the entry `id`.
pub open spec fn has_id(hits: Seq<HitView>, id: i64) -> bool {
    exists|i: int| 0 <= i < hits.len() && (#[trigger] hits[i]).entry.entry_id == id
}

/// The hits after the entries found for one form: an entry is added if it matches and has no
/// hit yet.
pub open spec fn with_entries(
    dictionary: &Dictionary,
    hits: Seq<HitView>,
    entries: Seq<MapEntry>,
    form: FormView,
    prefix: Seq<char>,
    primary: bool,
) -> Seq<HitView>
    decreases entries.len(),
{
    if entries.len() == 0 {
        hits
    } else {
        let before = with_entries(dictionary, hits, entries.drop_last(), form, prefix, primary);
        let entry = entries.last();
        if dictionary.accepts(entry, form, prefix, primary) && !has_id(before, entry.entry_id) {
            before.push(HitView { entry, form, match_len: prefix.len() as usize })
        } else {
            before
        }
    }
}

/// The hits after the given forms of one prefix.
pub open spec fn with_forms(
    dictionary: &Dictionary,
    hits: Seq<HitView>,
    forms: Seq<FormView>,
    prefix: Seq<char>,
    primary: bool,
) -> Seq<HitView>
    decreases forms.len(),
{
    if forms.len() == 0 {
        hits
    } else {
        let before = with_forms(dictionary, hits, forms.drop_last(), prefix, primary);
        let form = forms.last();
        with_entries(dictionary, before, dictionary.found(form.text), form, prefix, primary)
    }
}

/// Whether `forms` lists, each once, the deconjugations of `prefix` and `prefix` itself.
pub open spec fn lists_forms(rules: Seq<Rule>, prefix: Seq<char>, forms: Seq<FormView>) -> bool {
    &&& forms.no_duplicates()
    &&& forall|f: FormView| #[trigger]
        forms.contains(f) <==> deconjugator::is_deconjugation(rules, prefix, f)
            || f == deconjugator::plain_form(prefix)
}

/// The prefix that is tried in step `n`: the whole text first, then ever shorter ones.
pub open spec fn step_prefix(text: Seq<char>, n: int) -> Seq<char> {
    text.take(text.len() - n)
}

/// The hits after `steps` steps, where `lists[n]` gives the forms tried in step `n`.
pub open spec fn hits_after(
    dictionary: &Dictionary,
    text: Seq<char>,
    lists: Seq<Seq<FormView>>,
    steps: nat,
) -> Seq<HitView>
    decreases steps,
{
    if steps == 0 {
        Seq::empty()
    } else {
        let n = steps - 1;
        let before = hits_after(dictionary, text, lists, n as nat);
        with_forms(dictionary, before, lists[n], step_prefix(text, n), before.len() > 0)
    }
}

/// Whether each of `lists` gives the forms of the prefix tried in its step.
pub open spec fn lists_all_forms(
    rules: Seq<Rule>,
    text: Seq<char>,
    lists: Seq<Seq<FormView>>,
) -> bool {
    &&& lists.len() == text.len()
    &&& forall|n: int|
        0 <= n < lists.len() ==> #[trigger] lists_forms(rules, step_prefix(text, n), lists[n])
}

/// Whether these are the hits of `text`: every prefix is tried, longest first, in all its
/// forms, in some order of the forms.
pub open spec fn are_hits(dictionary: &Dictionary, text: Seq<char>, hits: Seq<HitView>) -> bool {
    exists|lists: Seq<Seq<FormView>>| #[trigger]
        lists_all_forms(dictionary.rules(), text, lists) && hits == hits_after(
            dictionary,
            text,
            lists,
            text.len(),
        )
}

/// Whether one of the hits is for the entry `id`.
fn find_id(hits: &Vec<Hit>, id: i64) -> (r: bool)
    ensures
        r == has_id(hit_views(hits@), id),
{
    let mut i: usize = 0;
    while i < hits.len()
        invariant
            i <= hits@.len(),
            forall|k: int| 0 <= k < i ==> (#[trigger] hits@[k]).entry.entry_id != id,
        decreases hits@.len() - i,
    {
        if hits[i].entry.entry_id == id {
            assert(hit_views(hits@)[i as int].entry.entry_id == id);
            return true;
        }
        i += 1;
    }
    assert forall|k: int| 0 <= k < hits@.len() implies (#[trigger] hit_views(
        hits@,
    )[k]).entry.entry_id != id by {
        assert(hits@[k].entry.entry_id != id);
    }
    false
}

impl Dictionary {
    /// Adds the hits of one form.
    fn add_entries<'a>(
        &'a self,
        hits: &mut Vec<Hit<'a>>,
        form: &Form,
        prefix: &str,
        prefix_len: usize,
        primary: bool,
    )
        requires
            self.wf(),
            prefix@.len() == prefix_len,
        ensures
            hit_views(final(hits)@) == with_entries(
                self,
                hit_views(old(hits)@),
                self.found(form@.text),
                form@,
                prefix@,
                primary,
            ),
    {
        let ghost start = hit_views(hits@);
        let entries = match self.get_map_entries(form.text.as_str()) {
            Some(entries) => entries,
            None => return,
        };
        let mut i: usize = 0;
        assert(entries@.take(0) =~= Seq::empty());
        while i < entries.len()
            invariant
                i <= entries@.len(),
                prefix@.len() == prefix_len,
                hit_views(hits@) == with_entries(
                    self,
                    start,
                    entries@.take(i as int),
                    form@,
                    prefix@,
                    primary,
                ),
            decreases entries@.len() - i,
        {
            let entry = &entries[i];
            let ghost so_far = hits@;
            assert(entries@.take(i + 1).drop_last() =~= entries@.take(i as int));
            assert(entries@.take(i + 1).last() == *entry);
            if self.check_entry(entry, form, prefix, primary) && !find_id(hits, entry.entry_id) {
                hits.push(Hit { entry, form: form.clone(), match_len: prefix_len });
                assert(hit_views(hits@) =~= hit_views(so_far).push(
                    HitView { entry: *entry, form: form@, match_len: prefix_len },
                ));
            }
            i += 1;
        }
        assert(entries@.take(i as int) =~= entries@);
    }

    /// The forms of `prefix`: its deconjugations and itself.
    fn forms_of(&self, prefix: &str) -> (r: Vec<Form>)
        ensures
            lists_forms(self.rules(), prefix@, form_views(r@)),
    {
        let mut forms = self.deconjugator.deconjugate(prefix);
        let ghost found = forms@;
        let plain = Form::new(prefix);
        let mut known = false;
        let mut i: usize = 0;
        while i < forms.len()
            invariant
                i <= forms@.len(),
                forms@ == found,
                known <==> exists|k: int| 0 <= k < i && (#[trigger] forms@[k])@ == plain@,
            decreases forms@.len() - i,
        {
            if forms[i].same(&plain) {
                known = true;
            }
            i += 1;
        }
        let ghost plain_view = plain@;
        if !known {
            forms.push(plain);
        }
        assert forall|f: FormView| #[trigger]
            form_views(forms@).contains(f) <==> deconjugator::is_deconjugation(
                self.rules(),
                prefix@,
                f,
            ) || f == plain_view by {
            assert(deconjugator::holds_form(found, f)
                <==> deconjugator::is_deconjugation(self.rules(), prefix@, f));
            if deconjugator::holds_form(found, f) {
                let k = choose|k: int| 0 <= k < found.len() && (#[trigger] found[k])@ == f;
                assert(form_views(forms@)[k] == f);
            }
            if f == plain_view {
                if known {
                    let k = choose|k: int| 0 <= k < found.len() && (#[trigger] found[k])@ == f;
                    assert(form_views(forms@)[k] == f);
                } else {
                    assert(form_views(forms@)[found.len() as int] == f);
                }
            }
            if form_views(forms@).contains(f) {
                let k = choose|k: int|
                    0 <= k < form_views(forms@).len() && form_views(forms@)[k] == f;
                if k < found.len() {
                    assert(found[k]@ == f);
                }
            }
        }
        assert(form_views(forms@).no_duplicates()) by {
            assert forall|i: int, j: int|
                0 <= i < forms@.len() && 0 <= j < forms@.len() && i != j implies form_views(
                forms@,
            )[i] != form_views(forms@)[j] by {
                let a = if i < j { i } else { j };
                let b = if i < j { j } else { i };
                assert(found[a] == forms@[a]);
                if b < found.len() {
                    assert(found[b] == forms@[b]);
                } else {
                    assert(found[a]@ != plain_view);
                }
            }
        }
        forms
    }

    /// The hits of `text`.
    pub fn collect_hits<'a>(&'a self, text: &str) -> (hits: Vec<Hit<'a>>)
        requires
            self.wf(),
        ensures
            are_hits(self, text@, hit_views(hits@)),
    {
        let chars: Vec<char> = chars_of(text);
        let mut hits: Vec<Hit<'a>> = Vec::new();
        let ghost mut lists: Seq<Seq<FormView>> = Seq::empty();
        let mut steps: usize = 0;
        assert(hit_views(hits@) =~= Seq::empty());
        while steps < chars.len()
            invariant
                steps <= chars@.len(),
                chars@ == text@,
                self.wf(),
                lists.len() == steps,
                forall|n: int|
                    0 <= n < lists.len() ==> #[trigger] lists_forms(
                        self.rules(),
                        step_prefix(text@, n),
                        lists[n],
                    ),
                hit_views(hits@) == hits_after(self, text@, lists, steps as nat),
            decreases chars@.len() - steps,
        {
            let prefix_len: usize = chars.len() - steps;
            let prefix = string_of(chars.as_slice(), 0, prefix_len);
            assert(prefix@ =~= step_prefix(text@, steps as int));
            let forms = self.forms_of(prefix.as_str());
            let primary = hits.len() > 0;
            let ghost before = hit_views(hits@);
            let mut k: usize = 0;
            assert(form_views(forms@).take(0) =~= Seq::empty());
            while k < forms.len()
                invariant
                    k <= forms@.len(),
                    self.wf(),
                    prefix@.len() == prefix_len,
                    hit_views(hits@) == with_forms(
                        self,
                        before,
                        form_views(forms@).take(k as int),
                        prefix@,
                        primary,
                    ),
                decreases forms@.len() - k,
            {
                assert(form_views(forms@).take(k + 1).drop_last() =~= form_views(forms@).take(
                    k as int,
                ));
                assert(form_views(forms@).take(k + 1).last() == forms@[k as int]@);
                self.add_entries(&mut hits, &forms[k], prefix.as_str(), prefix_len, primary);
                k += 1;
            }
            assert(form_views(forms@).take(k as int) =~= form_views(forms@));
            let ghost old_lists = lists;
            proof {
                lists = lists.push(form_views(forms@));
                assert(old_lists =~= lists.take(old_lists.len() as int));
                lemma_hits_after_prefix(self, text@, old_lists, lists, steps as nat);
                assert forall|n: int| 0 <= n < lists.len() implies #[trigger] lists_forms(
                    self.rules(),
                    step_prefix(text@, n),
                    lists[n],
                ) by {
                    if n < old_lists.len() {
                        assert(lists_forms(self.rules(), step_prefix(text@, n), old_lists[n]));
                    }
                }
            }
            steps += 1;
        }
        assert(lists_all_forms(self.rules(), text@, lists));
        hits
    }
}

/// The contents of a list of forms.
pub open spec fn form_views(forms: Seq<Form>) -> Seq<FormView> {
    Seq::new(forms.len(), |i: int| forms[i]@)
}

proof fn lemma_hits_after_prefix(
    dictionary: &Dictionary,
    text: Seq<char>,
    shorter: Seq<Seq<FormView>>,
    longer: Seq<Seq<FormView>>,
    steps: nat,
)
    requires
        steps <= shorter.len() <= longer.len(),
        shorter == longer.take(shorter.len() as int),
    ensures
        hits_after(dictionary, text, shorter, steps) == hits_after(dictionary, text, longer, steps),
    decreases steps,
{
    if steps > 0 {
        lemma_hits_after_prefix(dictionary, text, shorter, longer, (steps - 1) as nat);
        assert(shorter[steps - 1] == longer[steps - 1]);
    }
}

/// What ends a lookup: Japanese punctuation and brackets, and the two Western marks at the end of
/// a sentence.
pub open spec fn separator_list() -> Seq<char> {
    seq![
        '、', '。', '「', '」', '｛', '｝', '（', '）', '【', '】', '『', '』', '〈', '〉', '《', '》',
        '：', '・', '／', '…', '︙', '‥', '︰', '＋', '＝', '－', '÷', '？', '！', '．', '～', '―',
        '!', '?',
    ]
}

/// The text that is looked up begins where the text begins without its white space, holds no
/// separator, is no longer than the limit, and ends early only at a separator.
pub proof fn law_lookups_end_at_separators(s: Seq<char>, limit: usize)
    ensures
        prepared(s, limit).len() <= limit,
        prepared(s, limit).is_prefix_of(text::trimmed(s)),
        forall|i: int|
            0 <= i < prepared(s, limit).len() ==> !separator_list().contains(
                #[trigger] prepared(s, limit)[i],
            ),
        prepared(s, limit).len() < limit && prepared(s, limit).len() < text::trimmed(s).len()
            ==> separator_list().contains(text::trimmed(s)[prepared(s, limit).len() as int]),
{
    let clean = text::trimmed(s);
    let kept = if limit < clean.len() {
        clean.take(limit as int)
    } else {
        clean
    };
    reveal_strlit(
        "、。「」｛｝（）【】『』〈〉《》：・／…︙‥︰＋＝－÷？！．～―!?",
    );
    assert(JAPANESE_SEPARATORS@ =~= separator_list());
    lemma_before_separator(kept);
    let r = prepared(s, limit);
    assert(clean.subrange(0, r.len() as int) =~= r);
}

proof fn lemma_before_separator(s: Seq<char>)
    ensures
        before_separator(s).len() <= s.len(),
        before_separator(s) == s.take(before_separator(s).len() as int),
        forall|i: int|
            0 <= i < before_separator(s).len() ==> !is_separator(#[trigger] before_separator(s)[i]),
        before_separator(s).len() < s.len() ==> is_separator(s[before_separator(s).len() as int]),
    decreases s.len(),
{
    if s.len() == 0 || is_separator(s[0]) {
        assert(before_separator(s) =~= s.take(0));
    } else {
        let rest = s.drop_first();
        lemma_before_separator(rest);
        let tail = before_separator(rest);
        let all = before_separator(s);
        assert(all == seq![s[0]] + tail);
        assert(all =~= s.take(all.len() as int)) by {
            assert forall|i: int| 0 <= i < all.len() implies all[i] == s[i] by {
                if i > 0 {
                    assert(tail[i - 1] == rest[i - 1]);
                }
            }
        }
        assert forall|i: int| 0 <= i < all.len() implies !is_separator(#[trigger] all[i]) by {
            if i > 0 {
                assert(all[i] == tail[i - 1]);
            }
        }
        if all.len() < s.len() {
            assert(s[all.len() as int] == rest[tail.len() as int]);
        }
    }
}

/// Whether the dictionary lists an entry under a key.
pub open spec fn lists_under(dictionary: &Dictionary, key: Seq<char>, entry: MapEntry) -> bool {
    let pairs = dictionary.lookup_map.pairs();
    exists|k: int, e: int|
        0 <= k < pairs.len() && pairs[k].0 == key && 0 <= e < pairs[k].1@.len()
            && #[trigger] pairs[k].1@[e] == entry
}

/// Whether the dictionary lists anything under a key.
pub open spec fn lists_something(dictionary: &Dictionary, key: Seq<char>) -> bool {
    exists|entry: MapEntry| #[trigger] lists_under(dictionary, key, entry)
}

/// Whether an entry is found for a text: under the text itself; where nothing is listed there,
/// under the text in katakana; where nothing is listed there either, under it in hiragana.
pub open spec fn is_found(dictionary: &Dictionary, text: Seq<char>, entry: MapEntry) -> bool {
    let kata = kana::in_katakana(text);
    let hira = kana::in_hiragana(text);
    ||| lists_under(dictionary, text, entry)
    ||| !lists_something(dictionary, text) && lists_under(dictionary, kata, entry)
    ||| !lists_something(dictionary, text) && !lists_something(dictionary, kata) && lists_under(
        dictionary,
        hira,
        entry,
    )
}

/// Whether some sense of an entry has a part of speech.
pub open spec fn is_part_of_speech(dictionary: &Dictionary, id: i64, pos: Seq<char>) -> bool {
    exists|s: int, p: int|
        dictionary.entries@.contains_key(id) && 0 <= s < dictionary.entries@[id]@.len() && 0 <= p
            < dictionary.entries@[id]@[s].pos@.len()
            && #[trigger] dictionary.entries@[id]@[s].pos@[p]@ == pos
}

/// Whether a text has a character with a code from 4e00 to 9faf.
pub open spec fn is_written_in_kanji(text: Seq<char>) -> bool {
    exists|i: int| 0 <= i < text.len() && 0x4e00 <= #[trigger] text[i] as int <= 0x9faf
}

/// Whether a form is one of a prefix: a deconjugation of it, or the prefix as it stands.
pub open spec fn is_form_of(dictionary: &Dictionary, prefix: Seq<char>, form: FormView) -> bool {
    ||| deconjugator::is_deconjugation(dictionary.deconjugator.rules@, prefix, form)
    ||| form.text == prefix && form.process.len() == 0 && form.tags.len() == 0
}

/// Whether an entry goes with a form of a prefix: where the form has tags, the last is a part of
/// speech of the entry, and an entry without a written form goes only with kana.
pub open spec fn goes_with(dictionary: &Dictionary, entry: MapEntry, form: FormView) -> bool {
    &&& form.tags.len() > 0 ==> is_part_of_speech(dictionary, entry.entry_id, form.tags.last())
    &&& entry.written_form is None ==> !is_written_in_kanji(form.text)
}

/// Whether an entry in kanji would be found for a prefix in kana.
pub open spec fn is_kanji_for_kana(entry: MapEntry, prefix: Seq<char>) -> bool {
    entry.written_form is Some && is_written_in_kanji(entry.written_form->0@)
        && !is_written_in_kanji(prefix)
}

proof fn lemma_listed(dictionary: &Dictionary, key: Seq<char>)
    requires
        dictionary.wf(),
    ensures
        forall|entry: MapEntry| #[trigger]
            lists_under(dictionary, key, entry) <==> dictionary.listed(key).contains(entry),
        lists_something(dictionary, key) <==> dictionary.listed(key).len() > 0,
{
    let pairs = dictionary.lookup_map.pairs();
    let listed = dictionary.listed(key);
    if text_map::has_pair(pairs, key) {
        let i = choose|i: int| 0 <= i < pairs.len() && (#[trigger] pairs[i]).0 == key;
        assert forall|j: int| 0 <= j < pairs.len() && (#[trigger] pairs[j]).0 == key implies j
            == i by {
            dictionary.lookup_map.law_keys_are_distinct(i, j);
        }
        text_map::lemma_value_of(pairs, key, i);
        assert(listed == pairs[i].1@);
        assert forall|entry: MapEntry| #[trigger]
            lists_under(dictionary, key, entry) <==> listed.contains(entry) by {
            if listed.contains(entry) {
                let e = choose|e: int| 0 <= e < listed.len() && listed[e] == entry;
                assert(pairs[i].1@[e] == entry);
            }
            if lists_under(dictionary, key, entry) {
                let (k, e) = choose|k: int, e: int|
                    0 <= k < pairs.len() && pairs[k].0 == key && 0 <= e < pairs[k].1@.len()
                        && #[trigger] pairs[k].1@[e] == entry;
                assert(k == i);
                assert(listed[e] == entry);
            }
        }
    } else {
        assert forall|entry: MapEntry| #[trigger]
            lists_under(dictionary, key, entry) <==> listed.contains(entry) by {
            if lists_under(dictionary, key, entry) {
                let (k, e) = choose|k: int, e: int|
                    0 <= k < pairs.len() && pairs[k].0 == key && 0 <= e < pairs[k].1@.len()
                        && #[trigger] pairs[k].1@[e] == entry;
                assert(pairs[k].0 == key);
            }
        }
    }
    if listed.len() > 0 {
        assert(listed.contains(listed[0]));
        assert(lists_under(dictionary, key, listed[0]));
    }
}

proof fn lemma_found(dictionary: &Dictionary, text: Seq<char>, entry: MapEntry)
    requires
        dictionary.wf(),
    ensures
        is_found(dictionary, text, entry) <==> dictionary.found(text).contains(entry),
{
    lemma_listed(dictionary, text);
    lemma_listed(dictionary, kana::in_katakana(text));
    lemma_listed(dictionary, kana::in_hiragana(text));
    let listed = dictionary.listed(text);
    let kata = dictionary.listed(kana::in_katakana(text));
    let hira = dictionary.listed(kana::in_hiragana(text));
    assert(listed.len() == 0 ==> !listed.contains(entry));
    assert(kata.len() == 0 ==> !kata.contains(entry));
}

proof fn lemma_accepts(
    dictionary: &Dictionary,
    entry: MapEntry,
    form: FormView,
    prefix: Seq<char>,
    primary: bool,
)
    ensures
        dictionary.accepts(entry, form, prefix, primary) <==> goes_with(dictionary, entry, form)
            && !(primary && is_kanji_for_kana(entry, prefix)),
{
    kana::law_kanji_are_told_by_their_codes(form.text);
    kana::law_kanji_are_told_by_their_codes(prefix);
    if entry.written_form is Some {
        kana::law_kanji_are_told_by_their_codes(entry.written_form->0@);
    }
    if form.tags.len() > 0 {
        let pos = form.tags.last();
        let id = entry.entry_id;
        if dictionary.has_pos(id, pos) {
            let (s, p) = choose|s: int, p: int|
                0 <= s < dictionary.entries@[id]@.len() && 0 <= p
                    < dictionary.entries@[id]@[s].pos@.len()
                    && #[trigger] dictionary.entries@[id]@[s].pos@[p]@ == pos;
            assert(dictionary.entries@[id]@[s].pos@[p]@ == pos);
        }
        if is_part_of_speech(dictionary, id, pos) {
            let (s, p) = choose|s: int, p: int|
                dictionary.entries@.contains_key(id) && 0 <= s < dictionary.entries@[id]@.len()
                    && 0 <= p < dictionary.entries@[id]@[s].pos@.len()
                    && #[trigger] dictionary.entries@[id]@[s].pos@[p]@ == pos;
            assert(dictionary.entries@[id]@[s].pos@[p]@ == pos);
        }
    }
}

/// Whether the hits behind the first `from` are for forms in the list, each for an entry that was
/// found for its form and goes with it, and for none that has an earlier hit.
spec fn are_new_hits(
    dictionary: &Dictionary,
    hits: Seq<HitView>,
    from: int,
    forms: Seq<FormView>,
    prefix: Seq<char>,
    primary: bool,
) -> bool {
    forall|k: int|
        from <= k < hits.len() ==> {
            &&& (#[trigger] hits[k]).match_len == prefix.len() as usize
            &&& forms.contains(hits[k].form)
            &&& dictionary.found(hits[k].form.text).contains(hits[k].entry)
            &&& dictionary.accepts(hits[k].entry, hits[k].form, prefix, primary)
        }
}

/// Whether no two hits are for the same entry.
spec fn have_distinct_ids(hits: Seq<HitView>) -> bool {
    forall|i: int, j: int|
        #![trigger hits[i], hits[j]]
        0 <= i < j < hits.len() ==> hits[i].entry.entry_id != hits[j].entry.entry_id
}

proof fn lemma_with_entries(
    dictionary: &Dictionary,
    hits: Seq<HitView>,
    entries: Seq<MapEntry>,
    form: FormView,
    prefix: Seq<char>,
    primary: bool,
)
    requires
        have_distinct_ids(hits),
    ensures
        ({
            let after = with_entries(dictionary, hits, entries, form, prefix, primary);
            &&& hits.len() <= after.len()
            &&& after.take(hits.len() as int) == hits
            &&& have_distinct_ids(after)
            &&& forall|k: int|
                hits.len() <= k < after.len() ==> {
                    &&& (#[trigger] after[k]).match_len == prefix.len() as usize
                    &&& after[k].form == form
                    &&& entries.contains(after[k].entry)
                    &&& dictionary.accepts(after[k].entry, form, prefix, primary)
                }
            &&& forall|e: int|
                0 <= e < entries.len() && dictionary.accepts(
                    #[trigger] entries[e],
                    form,
                    prefix,
                    primary,
                ) ==> has_id(after, entries[e].entry_id)
        }),
    decreases entries.len(),
{
    let after = with_entries(dictionary, hits, entries, form, prefix, primary);
    if entries.len() == 0 {
        assert(after.take(hits.len() as int) =~= hits);
    } else {
        let fewer = entries.drop_last();
        lemma_with_entries(dictionary, hits, fewer, form, prefix, primary);
        let before = with_entries(dictionary, hits, fewer, form, prefix, primary);
        let entry = entries.last();
        assert(entries[entries.len() - 1] == entry);
        assert forall|k: int| hits.len() <= k < before.len() implies entries.contains(
            (#[trigger] before[k]).entry,
        ) by {
            let e = choose|e: int| 0 <= e < fewer.len() && fewer[e] == before[k].entry;
            assert(entries[e] == before[k].entry);
        }
        assert(before.len() <= after.len() && after.take(before.len() as int) =~= before);
        assert(after.take(hits.len() as int) =~= before.take(hits.len() as int));
        assert forall|i: int, j: int|
            #![trigger after[i], after[j]]
            0 <= i < j < after.len() implies after[i].entry.entry_id
            != after[j].entry.entry_id by {
            if j >= before.len() {
                assert(before[i] == after[i]);
            } else {
                assert(before[i].entry.entry_id != before[j].entry.entry_id);
            }
        }
        assert forall|k: int| hits.len() <= k < after.len() implies {
            &&& (#[trigger] after[k]).match_len == prefix.len() as usize
            &&& after[k].form == form
            &&& entries.contains(after[k].entry)
            &&& dictionary.accepts(after[k].entry, form, prefix, primary)
        } by {
            if k < before.len() {
                assert(after[k] == before[k]);
            }
        }
        assert forall|e: int|
            0 <= e < entries.len() && dictionary.accepts(
                #[trigger] entries[e],
                form,
                prefix,
                primary,
            ) implies has_id(after, entries[e].entry_id) by {
            if e < fewer.len() {
                assert(fewer[e] == entries[e]);
                let i = choose|i: int|
                    0 <= i < before.len() && (#[trigger] before[i]).entry.entry_id
                        == entries[e].entry_id;
                assert(after[i] == before[i]);
            } else if has_id(before, entry.entry_id) {
                let i = choose|i: int|
                    0 <= i < before.len() && (#[trigger] before[i]).entry.entry_id
                        == entry.entry_id;
                assert(after[i] == before[i]);
            } else {
                assert(after[before.len() as int].entry.entry_id == entry.entry_id);
            }
        }
    }
}

proof fn lemma_with_forms(
    dictionary: &Dictionary,
    hits: Seq<HitView>,
    forms: Seq<FormView>,
    prefix: Seq<char>,
    primary: bool,
)
    requires
        have_distinct_ids(hits),
    ensures
        ({
            let after = with_forms(dictionary, hits, forms, prefix, primary);
            &&& hits.len() <= after.len()
            &&& after.take(hits.len() as int) == hits
            &&& have_distinct_ids(after)
            &&& are_new_hits(dictionary, after, hits.len() as int, forms, prefix, primary)
            &&& forall|form: FormView, entry: MapEntry|
                #![trigger forms.contains(form), dictionary.accepts(entry, form, prefix, primary)]
                forms.contains(form) && dictionary.found(form.text).contains(entry)
                    && dictionary.accepts(entry, form, prefix, primary) ==> has_id(
                    after,
                    entry.entry_id,
                )
        }),
    decreases forms.len(),
{
    let after = with_forms(dictionary, hits, forms, prefix, primary);
    if forms.len() == 0 {
        assert(after.take(hits.len() as int) =~= hits);
    } else {
        let fewer = forms.drop_last();
        lemma_with_forms(dictionary, hits, fewer, prefix, primary);
        let before = with_forms(dictionary, hits, fewer, prefix, primary);
        let form = forms.last();
        let found = dictionary.found(form.text);
        assert(forms[forms.len() - 1] == form);
        lemma_with_entries(dictionary, before, found, form, prefix, primary);
        assert(after.take(before.len() as int) == before);
        assert(after.take(hits.len() as int) =~= before.take(hits.len() as int));
        assert forall|k: int| hits.len() <= k < after.len() implies {
            &&& (#[trigger] after[k]).match_len == prefix.len() as usize
            &&& forms.contains(after[k].form)
            &&& dictionary.found(after[k].form.text).contains(after[k].entry)
            &&& dictionary.accepts(after[k].entry, after[k].form, prefix, primary)
        } by {
            if k < before.len() {
                assert(after.take(before.len() as int)[k] == before[k]);
                let f = choose|f: int| 0 <= f < fewer.len() && fewer[f] == before[k].form;
                assert(forms[f] == before[k].form);
            }
        }
        assert forall|f: FormView, entry: MapEntry|
            #![trigger forms.contains(f), dictionary.accepts(entry, f, prefix, primary)]
            forms.contains(f) && dictionary.found(f.text).contains(entry) && dictionary.accepts(
                entry,
                f,
                prefix,
                primary,
            ) implies has_id(after, entry.entry_id) by {
            let n = choose|n: int| 0 <= n < forms.len() && forms[n] == f;
            if n < fewer.len() {
                assert(fewer[n] == f);
                assert(fewer.contains(f));
                let i = choose|i: int|
                    0 <= i < before.len() && (#[trigger] before[i]).entry.entry_id
                        == entry.entry_id;
                assert(after.take(before.len() as int)[i] == before[i]);
                assert(after[i].entry.entry_id == entry.entry_id);
            } else {
                let e = choose|e: int| 0 <= e < found.len() && found[e] == entry;
                assert(dictionary.accepts(found[e], form, prefix, primary));
            }
        }
    }
}

/// What is known of the hits after some steps.
spec fn are_sound(
    dictionary: &Dictionary,
    text: Seq<char>,
    lists: Seq<Seq<FormView>>,
    steps: nat,
) -> bool {
    let hits = hits_after(dictionary, text, lists, steps);
    &&& have_distinct_ids(hits)
    &&& forall|k: int|
        0 <= k < hits.len() ==> {
            let n = text.len() - (#[trigger] hits[k]).match_len;
            let before = hits_after(dictionary, text, lists, n as nat);
            &&& 0 <= n < steps
            &&& before.len() <= k
            &&& lists[n].contains(hits[k].form)
            &&& dictionary.found(hits[k].form.text).contains(hits[k].entry)
            &&& dictionary.accepts(
                hits[k].entry,
                hits[k].form,
                step_prefix(text, n),
                before.len() > 0,
            )
        }
    &&& forall|i: int, j: int|
        #![trigger hits[i], hits[j]]
        0 <= i < j < hits.len() ==> hits[i].match_len >= hits[j].match_len
}

proof fn lemma_hits_sound(
    dictionary: &Dictionary,
    text: Seq<char>,
    lists: Seq<Seq<FormView>>,
    steps: nat,
)
    requires
        text.len() <= usize::MAX,
        steps <= text.len(),
    ensures
        are_sound(dictionary, text, lists, steps),
    decreases steps,
{
    let hits = hits_after(dictionary, text, lists, steps);
    if steps > 0 {
        let n = steps - 1;
        lemma_hits_sound(dictionary, text, lists, n as nat);
        let before = hits_after(dictionary, text, lists, n as nat);
        lemma_with_forms(dictionary, before, lists[n], step_prefix(text, n), before.len() > 0);
        assert forall|k: int| 0 <= k < before.len() implies #[trigger] hits[k] == before[k] by {
            assert(hits.take(before.len() as int)[k] == before[k]);
        }
        assert forall|k: int| 0 <= k < hits.len() implies {
            let m = text.len() - (#[trigger] hits[k]).match_len;
            let earlier = hits_after(dictionary, text, lists, m as nat);
            &&& 0 <= m < steps
            &&& earlier.len() <= k
            &&& lists[m].contains(hits[k].form)
            &&& dictionary.found(hits[k].form.text).contains(hits[k].entry)
            &&& dictionary.accepts(
                hits[k].entry,
                hits[k].form,
                step_prefix(text, m),
                earlier.len() > 0,
            )
        } by {
            if k < before.len() {
                assert(hits[k] == before[k]);
            }
        }
        assert forall|i: int, j: int|
            #![trigger hits[i], hits[j]]
            0 <= i < j < hits.len() implies hits[i].match_len >= hits[j].match_len by {
            if j < before.len() {
                assert(before[i].match_len >= before[j].match_len);
            } else if i < before.len() {
                assert(hits[i] == before[i]);
            }
        }
    }
}

/// Hits stay, and a step is over before the next begins.
proof fn lemma_hits_stay(
    dictionary: &Dictionary,
    text: Seq<char>,
    lists: Seq<Seq<FormView>>,
    fewer: nat,
    more: nat,
)
    requires
        text.len() <= usize::MAX,
        fewer <= more <= text.len(),
    ensures
        hits_after(dictionary, text, lists, fewer).len() <= hits_after(
            dictionary,
            text,
            lists,
            more,
        ).len(),
        forall|k: int|
            0 <= k < hits_after(dictionary, text, lists, fewer).len() ==> #[trigger] hits_after(
                dictionary,
                text,
                lists,
                more,
            )[k] == hits_after(dictionary, text, lists, fewer)[k],
    decreases more,
{
    if fewer < more {
        let n = (more - 1) as nat;
        lemma_hits_stay(dictionary, text, lists, fewer, n);
        lemma_hits_sound(dictionary, text, lists, n);
        let before = hits_after(dictionary, text, lists, n);
        let after = hits_after(dictionary, text, lists, more);
        lemma_with_forms(
            dictionary,
            before,
            lists[n as int],
            step_prefix(text, n as int),
            before.len() > 0,
        );
        assert forall|k: int|
            0 <= k < hits_after(dictionary, text, lists, fewer).len() implies #[trigger] after[k]
            == hits_after(dictionary, text, lists, fewer)[k] by {
            assert(after.take(before.len() as int)[k] == before[k]);
        }
    }
}

/// Every hit is for a prefix of the text and one of its forms, and for an entry that is found for
/// the form and goes with it. No entry has two hits, longer prefixes come first, and an entry in
/// kanji is found for a prefix in kana only where no longer prefix has a hit.
pub proof fn law_hits_go_with_their_forms(
    dictionary: &Dictionary,
    text: Seq<char>,
    hits: Seq<HitView>,
    i: int,
)
    requires
        dictionary.wf(),
        text.len() <= usize::MAX,
        are_hits(dictionary, text, hits),
        0 <= i < hits.len(),
    ensures
        1 <= hits[i].match_len <= text.len(),
        is_form_of(dictionary, text.take(hits[i].match_len as int), hits[i].form),
        is_found(dictionary, hits[i].form.text, hits[i].entry),
        goes_with(dictionary, hits[i].entry, hits[i].form),
        is_kanji_for_kana(hits[i].entry, text.take(hits[i].match_len as int)) ==> forall|j: int|
            0 <= j < hits.len() ==> (#[trigger] hits[j]).match_len <= hits[i].match_len,
        forall|j: int|
            0 <= j < i ==> (#[trigger] hits[j]).entry.entry_id != hits[i].entry.entry_id
                && hits[j].match_len >= hits[i].match_len,
{
    let lists = choose|lists: Seq<Seq<FormView>>| #[trigger]
        lists_all_forms(dictionary.rules(), text, lists) && hits == hits_after(
            dictionary,
            text,
            lists,
            text.len(),
        );
    lemma_hits_sound(dictionary, text, lists, text.len());
    let n = text.len() - hits[i].match_len;
    let prefix = step_prefix(text, n);
    let before = hits_after(dictionary, text, lists, n as nat);
    assert(prefix == text.take(hits[i].match_len as int));
    assert(lists_forms(dictionary.rules(), prefix, lists[n]));
    lemma_found(dictionary, hits[i].form.text, hits[i].entry);
    lemma_accepts(dictionary, hits[i].entry, hits[i].form, prefix, before.len() > 0);
    if is_kanji_for_kana(hits[i].entry, prefix) {
        assert forall|j: int| 0 <= j < hits.len() implies (#[trigger] hits[j]).match_len
            <= hits[i].match_len by {
            if hits[j].match_len > hits[i].match_len {
                lemma_found_by_step(dictionary, text, lists, n as nat, j);
            }
        }
    }
}

/// A hit for a longer prefix is there before the shorter one is tried.
proof fn lemma_found_by_step(
    dictionary: &Dictionary,
    text: Seq<char>,
    lists: Seq<Seq<FormView>>,
    n: nat,
    j: int,
)
    requires
        text.len() <= usize::MAX,
        n <= text.len(),
        0 <= j < hits_after(dictionary, text, lists, text.len()).len(),
        hits_after(dictionary, text, lists, text.len())[j].match_len > text.len() - n,
    ensures
        j < hits_after(dictionary, text, lists, n).len(),
{
    let hits = hits_after(dictionary, text, lists, text.len());
    lemma_found_by_step_from(dictionary, text, lists, n, text.len(), j);
}

proof fn lemma_found_by_step_from(
    dictionary: &Dictionary,
    text: Seq<char>,
    lists: Seq<Seq<FormView>>,
    n: nat,
    steps: nat,
    j: int,
)
    requires
        text.len() <= usize::MAX,
        n <= steps <= text.len(),
        0 <= j < hits_after(dictionary, text, lists, steps).len(),
        hits_after(dictionary, text, lists, steps)[j].match_len > text.len() - n,
    ensures
        j < hits_after(dictionary, text, lists, n).len(),
    decreases steps,
{
    if n < steps {
        let m = (steps - 1) as nat;
        let before = hits_after(dictionary, text, lists, m);
        lemma_hits_sound(dictionary, text, lists, m);
        lemma_with_forms(
            dictionary,
            before,
            lists[m as int],
            step_prefix(text, m as int),
            before.len() > 0,
        );
        let after = hits_after(dictionary, text, lists, steps);
        if j < before.len() {
            assert(after.take(before.len() as int)[j] == before[j]);
            lemma_found_by_step_from(dictionary, text, lists, n, m, j);
        } else {
            assert(after[j].match_len == step_prefix(text, m as int).len() as usize);
        }
    }
}

/// Every entry that is found for a form of a prefix and goes with it has a hit, for this prefix
/// or a longer one; but one in kanji for a prefix in kana only where no longer prefix has a hit.
pub proof fn law_entries_that_go_with_a_form_are_hit(
    dictionary: &Dictionary,
    text: Seq<char>,
    hits: Seq<HitView>,
    length: int,
    form: FormView,
    entry: MapEntry,
)
    requires
        dictionary.wf(),
        text.len() <= usize::MAX,
        are_hits(dictionary, text, hits),
        1 <= length <= text.len(),
        is_form_of(dictionary, text.take(length), form),
        is_found(dictionary, form.text, entry),
        goes_with(dictionary, entry, form),
        is_kanji_for_kana(entry, text.take(length)) ==> forall|j: int|
            0 <= j < hits.len() ==> (#[trigger] hits[j]).match_len <= length,
    ensures
        exists|j: int|
            0 <= j < hits.len() && (#[trigger] hits[j]).entry.entry_id == entry.entry_id
                && hits[j].match_len >= length,
{
    let lists = choose|lists: Seq<Seq<FormView>>| #[trigger]
        lists_all_forms(dictionary.rules(), text, lists) && hits == hits_after(
            dictionary,
            text,
            lists,
            text.len(),
        );
    let n = text.len() - length;
    let prefix = step_prefix(text, n);
    assert(prefix == text.take(length));
    let before = hits_after(dictionary, text, lists, n as nat);
    let after = hits_after(dictionary, text, lists, (n + 1) as nat);
    lemma_hits_sound(dictionary, text, lists, n as nat);
    lemma_hits_sound(dictionary, text, lists, (n + 1) as nat);
    lemma_hits_stay(dictionary, text, lists, n as nat, text.len());
    lemma_hits_stay(dictionary, text, lists, (n + 1) as nat, text.len());
    lemma_with_forms(dictionary, before, lists[n], prefix, before.len() > 0);
    assert(lists_forms(dictionary.rules(), prefix, lists[n]));
    if form.text == prefix && form.process.len() == 0 && form.tags.len() == 0 {
        assert(form =~= deconjugator::plain_form(prefix));
    }
    assert(lists[n].contains(form));
    lemma_found(dictionary, form.text, entry);
    if is_kanji_for_kana(entry, prefix) && before.len() > 0 {
        assert(hits[0] == before[0]);
        assert(before[0].match_len > length);
    }
    lemma_accepts(dictionary, entry, form, prefix, before.len() > 0);
    assert(has_id(after, entry.entry_id));
    let j = choose|j: int|
        0 <= j < after.len() && (#[trigger] after[j]).entry.entry_id == entry.entry_id;
    assert(hits[j] == after[j]);
}

/// The contents of hits are their entries, their forms and the lengths of their matches, in their
/// order.
pub proof fn law_hits_are_told_by_their_parts(hits: Seq<Hit>, i: int)
    requires
        0 <= i < hits.len(),
    ensures
        hit_views(hits).len() == hits.len(),
        hit_views(hits)[i].entry == *hits[i].entry,
        hit_views(hits)[i].form.text == hits[i].form.text@,
        hit_views(hits)[i].form.tags.len() == hits[i].form.tags@.len(),
        hit_views(hits)[i].form.process.len() == hits[i].form.process@.len(),
        hit_views(hits)[i].match_len == hits[i].match_len,
{
}

} // verus!
