//! The records that a dictionary is made of.

use crate::text;
use crate::text::copy_texts;
use vstd::prelude::*;

verus! {

/// One meaning of a dictionary entry.
#[derive(Debug, PartialEq, Eq)]
pub struct Sense {
    pub glosses: Vec<String>,
    pub pos: Vec<String>,
    pub tags: Vec<String>,
}

/// The contents of a `Sense`.
#[verifier::ext_equal]
pub struct SenseView {
    pub glosses: Seq<Seq<char>>,
    pub pos: Seq<Seq<char>>,
    pub tags: Seq<Seq<char>>,
}

impl View for Sense {
    type V = SenseView;

    open spec fn view(&self) -> SenseView {
        SenseView {
            glosses: text::texts(self.glosses@),
            pos: text::texts(self.pos@),
            tags: text::texts(self.tags@),
        }
    }
}

impl Clone for Sense {
    fn clone(&self) -> (r: Self)
        ensures
            r@ == self@,
    {
        Sense {
            glosses: copy_texts(&self.glosses),
            pos: copy_texts(&self.pos),
            tags: copy_texts(&self.tags),
        }
    }
}

/// The contents of a list of senses.
pub open spec fn sense_views(senses: Seq<Sense>) -> Seq<SenseView> {
    Seq::new(senses.len(), |i: int| senses[i]@)
}

/// Appends copies of `more` to `senses`.
pub fn append_senses(senses: &mut Vec<Sense>, more: &Vec<Sense>)
    ensures
        sense_views(final(senses)@) == sense_views(old(senses)@) + sense_views(more@),
{
    let ghost before = senses@;
    let mut i: usize = 0;
    while i < more.len()
        invariant
            i <= more@.len(),
            senses@.len() == before.len() + i,
            forall|k: int| 0 <= k < before.len() ==> senses@[k] == before[k],
            forall|k: int| 0 <= k < i ==> senses@[before.len() + k]@ == (#[trigger] more@[k])@,
        decreases more@.len() - i,
    {
        senses.push(more[i].clone());
        i += 1;
    }
    assert forall|k: int| 0 <= k < senses@.len() implies (#[trigger] senses@[k])@ == (sense_views(
        before,
    ) + sense_views(more@))[k] by {
        if k >= before.len() {
            assert(senses@[before.len() + (k - before.len())]@ == more@[k - before.len()]@);
        }
    }
    assert(sense_views(senses@) =~= sense_views(before) + sense_views(more@));
}

/// A copy of a list of senses.
pub fn copy_senses(senses: &Vec<Sense>) -> (r: Vec<Sense>)
    ensures
        sense_views(r@) == sense_views(senses@),
{
    let mut r: Vec<Sense> = Vec::new();
    append_senses(&mut r, senses);
    assert(sense_views(r@) =~= sense_views(senses@));
    r
}

/// A part of a kanji, with its meaning where one is known.
#[derive(Debug, PartialEq, Eq)]
pub struct KanjiComponent {
    pub c: String,
    pub m: Option<String>,
}

/// A word that a kanji occurs in: its spelling, its reading and its meaning.
#[derive(Debug, PartialEq, Eq)]
pub struct KanjiExample {
    pub w: String,
    pub r: String,
    pub m: String,
}

/// What the dictionary knows of one kanji.
#[derive(Debug, PartialEq, Eq)]
pub struct KanjiEntry {
    pub character: String,
    pub meanings: Vec<String>,
    pub readings: Vec<String>,
    pub components: Vec<KanjiComponent>,
    pub examples: Vec<KanjiExample>,
}

/// The contents of an optional string.
pub open spec fn text_of(text: Option<String>) -> Option<Seq<char>> {
    match text {
        Some(text) => Some(text@),
        None => None,
    }
}

/// A copy of an optional string.
pub fn copy_text(text: &Option<String>) -> (r: Option<String>)
    ensures
        r == *text,
{
    match text {
        Some(text) => Some(text.clone()),
        None => None,
    }
}

/// The contents of a `KanjiEntry`.
#[verifier::ext_equal]
pub struct KanjiEntryView {
    pub character: Seq<char>,
    pub meanings: Seq<Seq<char>>,
    pub readings: Seq<Seq<char>>,
    pub components: Seq<(Seq<char>, Option<Seq<char>>)>,
    pub examples: Seq<(Seq<char>, Seq<char>, Seq<char>)>,
}

impl View for KanjiEntry {
    type V = KanjiEntryView;

    open spec fn view(&self) -> KanjiEntryView {
        KanjiEntryView {
            character: self.character@,
            meanings: text::texts(self.meanings@),
            readings: text::texts(self.readings@),
            components: Seq::new(
                self.components@.len(),
                |i: int| (self.components@[i].c@, text_of(self.components@[i].m)),
            ),
            examples: Seq::new(
                self.examples@.len(),
                |i: int| (self.examples@[i].w@, self.examples@[i].r@, self.examples@[i].m@),
            ),
        }
    }
}

impl Clone for KanjiEntry {
    fn clone(&self) -> (r: Self)
        ensures
            r@ == self@,
    {
        let mut components: Vec<KanjiComponent> = Vec::new();
        let mut i: usize = 0;
        while i < self.components.len()
            invariant
                i <= self.components@.len(),
                components@.len() == i,
                forall|k: int|
                    0 <= k < i ==> (#[trigger] components@[k]).c@ == self.components@[k].c@
                        && components@[k].m == self.components@[k].m,
            decreases self.components@.len() - i,
        {
            let part = &self.components[i];
            components.push(KanjiComponent { c: part.c.clone(), m: copy_text(&part.m) });
            i += 1;
        }
        let mut examples: Vec<KanjiExample> = Vec::new();
        let mut j: usize = 0;
        while j < self.examples.len()
            invariant
                j <= self.examples@.len(),
                examples@.len() == j,
                forall|k: int|
                    0 <= k < j ==> (#[trigger] examples@[k]).w@ == self.examples@[k].w@
                        && examples@[k].r@ == self.examples@[k].r@ && examples@[k].m@
                        == self.examples@[k].m@,
            decreases self.examples@.len() - j,
        {
            let word = &self.examples[j];
            examples.push(
                KanjiExample { w: word.w.clone(), r: word.r.clone(), m: word.m.clone() },
            );
            j += 1;
        }
        let r = KanjiEntry {
            character: self.character.clone(),
            meanings: copy_texts(&self.meanings),
            readings: copy_texts(&self.readings),
            components,
            examples,
        };
        assert(r@ =~= self@);
        r
    }
}

/// A dictionary entry as the lookup map refers to it.
#[derive(Debug, PartialEq, Eq)]
pub struct MapEntry {
    pub written_form: Option<String>,
    pub reading: Option<String>,
    pub frequency: i64,
    pub entry_id: i64,
}

/// Whether a written form is valid: where there is one, it is not empty. Words in kana have none.
pub open spec fn is_written_form(written_form: Option<Seq<char>>) -> bool {
    written_form is Some ==> written_form->0.len() > 0
}

impl MapEntry {
    /// The entry with these parts; there is none with a written form that is not valid.
    pub fn from_parts(
        written_form: Option<String>,
        reading: Option<String>,
        frequency: i64,
        entry_id: i64,
    ) -> (r: Option<Self>)
        ensures
            r == (if is_written_form(text_of(written_form)) {
                Some(MapEntry { written_form, reading, frequency, entry_id })
            } else {
                None
            }),
    {
        if let Some(written) = &written_form {
            if written.as_str().is_empty() {
                return None;
            }
        }
        Some(MapEntry { written_form, reading, frequency, entry_id })
    }
}

/// An entry as it is shown. The priority is the bit pattern of a double.
#[derive(Debug, PartialEq, Eq)]
pub struct DictionaryEntry {
    pub id: i64,
    pub written_form: Option<String>,
    pub reading: String,
    pub senses: Vec<Sense>,
    pub freq: i64,
    pub deconjugation_process: Vec<String>,
    pub priority: u64,
}

/// The contents of a `DictionaryEntry`.
#[verifier::ext_equal]
pub struct DictionaryEntryView {
    pub id: i64,
    pub written_form: Option<Seq<char>>,
    pub reading: Seq<char>,
    pub senses: Seq<SenseView>,
    pub freq: i64,
    pub process: Seq<Seq<char>>,
    pub priority: u64,
}

impl View for DictionaryEntry {
    type V = DictionaryEntryView;

    open spec fn view(&self) -> DictionaryEntryView {
        DictionaryEntryView {
            id: self.id,
            written_form: text_of(self.written_form),
            reading: self.reading@,
            senses: sense_views(self.senses@),
            freq: self.freq,
            process: text::texts(self.deconjugation_process@),
            priority: self.priority,
        }
    }
}

impl Clone for DictionaryEntry {
    fn clone(&self) -> (r: Self)
        ensures
            r@ == self@,
    {
        DictionaryEntry {
            id: self.id,
            written_form: copy_text(&self.written_form),
            reading: self.reading.clone(),
            senses: copy_senses(&self.senses),
            freq: self.freq,
            deconjugation_process: copy_texts(&self.deconjugation_process),
            priority: self.priority,
        }
    }
}

/// The contents of a list of entries.
pub open spec fn entry_views(entries: Seq<DictionaryEntry>) -> Seq<DictionaryEntryView> {
    Seq::new(entries.len(), |i: int| entries[i]@)
}

/// A copy of a list of entries.
pub fn copy_entries(entries: &Vec<DictionaryEntry>) -> (r: Vec<DictionaryEntry>)
    ensures
        entry_views(r@) == entry_views(entries@),
{
    let mut r: Vec<DictionaryEntry> = Vec::new();
    let mut i: usize = 0;
    while i < entries.len()
        invariant
            i <= entries@.len(),
            r@.len() == i,
            forall|k: int| 0 <= k < i ==> (#[trigger] r@[k])@ == entries@[k]@,
        decreases entries@.len() - i,
    {
        r.push(entries[i].clone());
        i += 1;
    }
    assert(entry_views(r@) =~= entry_views(entries@));
    r
}

/// Only an empty written form is not valid.
pub proof fn law_only_empty_written_forms_are_not_valid(written_form: Option<String>)
    ensures
        is_written_form(text_of(written_form)) <==> !(written_form is Some
            && written_form->0@.len() == 0),
{
}

/// The contents of a sense are its glosses, its parts of speech and its tags.
pub proof fn law_senses_are_told_by_their_texts(a: Sense, b: Sense)
    requires
        a@ == b@,
    ensures
        a.glosses@.len() == b.glosses@.len() && a.pos@.len() == b.pos@.len() && a.tags@.len()
            == b.tags@.len(),
        forall|i: int| 0 <= i < a.glosses@.len() ==> (#[trigger] a.glosses@[i])@ == b.glosses@[i]@,
        forall|i: int| 0 <= i < a.pos@.len() ==> (#[trigger] a.pos@[i])@ == b.pos@[i]@,
        forall|i: int| 0 <= i < a.tags@.len() ==> (#[trigger] a.tags@[i])@ == b.tags@[i]@,
{
    assert(text::texts(a.glosses@).len() == text::texts(b.glosses@).len());
    assert(text::texts(a.pos@).len() == text::texts(b.pos@).len());
    assert(text::texts(a.tags@).len() == text::texts(b.tags@).len());
    assert forall|i: int| 0 <= i < a.glosses@.len() implies (#[trigger] a.glosses@[i])@
        == b.glosses@[i]@ by {
        assert(text::texts(a.glosses@)[i] == text::texts(b.glosses@)[i]);
    }
    assert forall|i: int| 0 <= i < a.pos@.len() implies (#[trigger] a.pos@[i])@
        == b.pos@[i]@ by {
        assert(text::texts(a.pos@)[i] == text::texts(b.pos@)[i]);
    }
    assert forall|i: int| 0 <= i < a.tags@.len() implies (#[trigger] a.tags@[i])@
        == b.tags@[i]@ by {
        assert(text::texts(a.tags@)[i] == text::texts(b.tags@)[i]);
    }
}

/// The contents of a kanji entry are all its texts.
pub proof fn law_kanji_entries_are_told_by_their_texts(a: KanjiEntry, b: KanjiEntry)
    requires
        a@ == b@,
    ensures
        a.character@ == b.character@,
        a.meanings@.len() == b.meanings@.len() && a.readings@.len() == b.readings@.len(),
        a.components@.len() == b.components@.len() && a.examples@.len() == b.examples@.len(),
        forall|i: int| 0 <= i < a.meanings@.len() ==> (#[trigger] a.meanings@[i])@ == b.meanings@[i]@,
        forall|i: int| 0 <= i < a.readings@.len() ==> (#[trigger] a.readings@[i])@ == b.readings@[i]@,
        forall|i: int|
            0 <= i < a.components@.len() ==> {
                &&& (#[trigger] a.components@[i]).c@ == b.components@[i].c@
                &&& match (a.components@[i].m, b.components@[i].m) {
                    (Some(x), Some(y)) => x@ == y@,
                    (None, None) => true,
                    _ => false,
                }
            },
        forall|i: int|
            0 <= i < a.examples@.len() ==> (#[trigger] a.examples@[i]).w@ == b.examples@[i].w@
                && a.examples@[i].r@ == b.examples@[i].r@ && a.examples@[i].m@
                == b.examples@[i].m@,
{
    let (x, y) = (a@, b@);
    assert(x.components.len() == y.components.len());
    assert(x.examples.len() == y.examples.len());
    assert(text::texts(a.meanings@).len() == text::texts(b.meanings@).len());
    assert(text::texts(a.readings@).len() == text::texts(b.readings@).len());
    assert forall|i: int| 0 <= i < a.meanings@.len() implies (#[trigger] a.meanings@[i])@
        == b.meanings@[i]@ by {
        assert(text::texts(a.meanings@)[i] == text::texts(b.meanings@)[i]);
    }
    assert forall|i: int| 0 <= i < a.readings@.len() implies (#[trigger] a.readings@[i])@
        == b.readings@[i]@ by {
        assert(text::texts(a.readings@)[i] == text::texts(b.readings@)[i]);
    }
    assert forall|i: int| 0 <= i < a.components@.len() implies {
        &&& (#[trigger] a.components@[i]).c@ == b.components@[i].c@
        &&& match (a.components@[i].m, b.components@[i].m) {
            (Some(x), Some(y)) => x@ == y@,
            (None, None) => true,
            _ => false,
        }
    } by {
        assert(x.components[i] == y.components[i]);
    }
    assert forall|i: int| 0 <= i < a.examples@.len() implies (#[trigger] a.examples@[i]).w@
        == b.examples@[i].w@ && a.examples@[i].r@ == b.examples@[i].r@ && a.examples@[i].m@
        == b.examples@[i].m@ by {
        assert(x.examples[i] == y.examples[i]);
    }
}

/// The contents of an entry that is shown are all its parts.
pub proof fn law_entries_are_told_by_their_parts(a: DictionaryEntry, b: DictionaryEntry)
    requires
        a@ == b@,
    ensures
        a.id == b.id && a.freq == b.freq && a.priority == b.priority,
        a.reading@ == b.reading@,
        match (a.written_form, b.written_form) {
            (Some(x), Some(y)) => x@ == y@,
            (None, None) => true,
            _ => false,
        },
        a.senses@.len() == b.senses@.len(),
        forall|i: int| 0 <= i < a.senses@.len() ==> (#[trigger] a.senses@[i])@ == b.senses@[i]@,
        a.deconjugation_process@.len() == b.deconjugation_process@.len(),
        forall|i: int|
            0 <= i < a.deconjugation_process@.len() ==> (#[trigger] a.deconjugation_process@[i])@
                == b.deconjugation_process@[i]@,
{
    assert(sense_views(a.senses@).len() == sense_views(b.senses@).len());
    assert(text::texts(a.deconjugation_process@).len() == text::texts(
        b.deconjugation_process@,
    ).len());
    assert forall|i: int| 0 <= i < a.senses@.len() implies (#[trigger] a.senses@[i])@
        == b.senses@[i]@ by {
        assert(sense_views(a.senses@)[i] == sense_views(b.senses@)[i]);
    }
    assert forall|i: int|
        0 <= i < a.deconjugation_process@.len() implies (#[trigger] a.deconjugation_process@[i])@
        == b.deconjugation_process@[i]@ by {
        assert(text::texts(a.deconjugation_process@)[i] == text::texts(
            b.deconjugation_process@,
        )[i]);
    }
}

} // verus!
