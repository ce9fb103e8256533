//! How entries are shown.

use crate::dictionary::entry::{
    DictionaryEntry, DictionaryEntryView, KanjiEntry, Sense, SenseView,
};
use crate::dictionary::entry;
use crate::dictionary::lookup::DEFAULT_FREQ;
use crate::text;
use crate::text::{join_texts, push_decimal};
use vstd::prelude::*;

verus! {

/// An entry as it is shown.
#[derive(Debug)]
pub struct FormattedEntryData {
    pub word: String,
    pub reading: String,
    pub deconjugation: String,
    pub freq: String,
    pub definitions: String,
}

/// The contents of a `FormattedEntryData`.
#[verifier::ext_equal]
pub struct FormattedEntryView {
    pub word: Seq<char>,
    pub reading: Seq<char>,
    pub deconjugation: Seq<char>,
    pub freq: Seq<char>,
    pub definitions: Seq<char>,
}

impl View for FormattedEntryData {
    type V = FormattedEntryView;

    open spec fn view(&self) -> FormattedEntryView {
        FormattedEntryView {
            word: self.word@,
            reading: self.reading@,
            deconjugation: self.deconjugation@,
            freq: self.freq@,
            definitions: self.definitions@,
        }
    }
}

/// A kanji as it is shown.
#[derive(Debug)]
pub struct FormattedKanjiData {
    pub character: String,
    pub readings: String,
    pub meanings: String,
}

/// The texts that are not empty.
pub open spec fn non_empty(parts: Seq<Seq<char>>) -> Seq<Seq<char>>
    decreases parts.len(),
{
    if parts.len() == 0 {
        Seq::empty()
    } else if parts.last().len() > 0 {
        non_empty(parts.drop_last()).push(parts.last())
    } else {
        non_empty(parts.drop_last())
    }
}

/// A list of one text, or an empty one.
pub open spec fn part_if(condition: bool, part: Seq<char>) -> Seq<Seq<char>> {
    if condition {
        seq![part]
    } else {
        Seq::empty()
    }
}

/// What is shown of a sense: its number, where there are several, then its parts of speech, its
/// tags and its glosses, as far as there are any.
pub open spec fn sense_parts(sense: SenseView, number: int, is_numbered: bool) -> Seq<Seq<char>> {
    part_if(is_numbered, "("@ + text::decimal_of(number as nat) + ")"@) + part_if(
        sense.pos.len() > 0,
        "("@ + text::separated(sense.pos, ", "@) + ")"@,
    ) + part_if(sense.tags.len() > 0, "["@ + text::separated(sense.tags, ", "@) + "]"@) + part_if(
        sense.glosses.len() > 0,
        text::separated(sense.glosses, "; "@),
    )
}

/// The line for a sense.
pub open spec fn sense_line(senses: Seq<SenseView>, i: int) -> Seq<char> {
    text::separated(sense_parts(senses[i], i + 1, senses.len() > 1), " "@)
}

/// The lines for the senses.
pub open spec fn sense_lines(senses: Seq<SenseView>) -> Seq<Seq<char>> {
    Seq::new(senses.len(), |i: int| sense_line(senses, i))
}

/// The frequency rank as it is shown: only where it is known.
pub open spec fn shown_freq(freq: i64) -> Seq<char> {
    if 0 < freq < DEFAULT_FREQ {
        text::decimal_of(freq as nat)
    } else {
        Seq::empty()
    }
}

/// An entry as it is shown.
pub open spec fn formatted(entry: DictionaryEntryView) -> FormattedEntryView {
    FormattedEntryView {
        word: match entry.written_form {
            Some(form) => form,
            None => entry.reading,
        },
        reading: match entry.written_form {
            Some(_) => entry.reading,
            None => Seq::empty(),
        },
        deconjugation: text::separated(non_empty(entry.process), " ← "@),
        freq: shown_freq(entry.freq),
        definitions: text::separated(sense_lines(entry.senses), "\n"@),
    }
}

fn keep_non_empty(parts: &Vec<String>) -> (r: Vec<String>)
    ensures
        text::texts(r@) == non_empty(text::texts(parts@)),
{
    let mut kept: Vec<String> = Vec::new();
    let ghost all = text::texts(parts@);
    let mut i: usize = 0;
    assert(text::texts(kept@) =~= non_empty(all.take(0)));
    while i < parts.len()
        invariant
            i <= parts@.len(),
            all == text::texts(parts@),
            text::texts(kept@) == non_empty(all.take(i as int)),
        decreases parts@.len() - i,
    {
        let ghost before = kept@;
        proof {
            assert(all.take(i + 1).drop_last() =~= all.take(i as int));
            assert(all.take(i + 1).last() == parts@[i as int]@);
        }
        if !parts[i].as_str().is_empty() {
            kept.push(parts[i].clone());
            assert(text::texts(kept@) =~= text::texts(before).push(parts@[i as int]@));
        }
        i += 1;
    }
    assert(all.take(i as int) =~= all);
    kept
}

fn bracketed(open: &str, inner: &str, close: &str) -> (r: String)
    ensures
        r@ == open@ + inner@ + close@,
{
    let mut out: String = open.to_owned();
    out.append(inner);
    out.append(close);
    out
}

fn push_part(parts: &mut Vec<String>, part: String)
    ensures
        text::texts(final(parts)@) == text::texts(old(parts)@) + seq![part@],
{
    let ghost before = parts@;
    parts.push(part);
    assert(text::texts(parts@) =~= text::texts(before) + seq![part@]);
}

fn format_sense(sense: &Sense, number: usize, is_numbered: bool) -> (r: String)
    ensures
        r@ == text::separated(sense_parts(sense@, number as int, is_numbered), " "@),
{
    let mut parts: Vec<String> = Vec::new();
    assert(text::texts(parts@) =~= Seq::empty());
    if is_numbered {
        let mut digits: String = String::new();
        push_decimal(&mut digits, number as u64);
        assert(digits@ =~= text::decimal_of(number as nat));
        push_part(&mut parts, bracketed("(", digits.as_str(), ")"));
    }
    let ghost first = text::texts(parts@);
    assert(first =~= part_if(is_numbered, "("@ + text::decimal_of(number as nat) + ")"@));
    if sense.pos.len() > 0 {
        push_part(&mut parts, bracketed("(", join_texts(&sense.pos, ", ").as_str(), ")"));
    }
    let ghost second = text::texts(parts@);
    assert(second =~= first + part_if(
        sense@.pos.len() > 0,
        "("@ + text::separated(sense@.pos, ", "@) + ")"@,
    ));
    if sense.tags.len() > 0 {
        push_part(&mut parts, bracketed("[", join_texts(&sense.tags, ", ").as_str(), "]"));
    }
    let ghost third = text::texts(parts@);
    assert(third =~= second + part_if(
        sense@.tags.len() > 0,
        "["@ + text::separated(sense@.tags, ", "@) + "]"@,
    ));
    if sense.glosses.len() > 0 {
        push_part(&mut parts, join_texts(&sense.glosses, "; "));
    }
    assert(text::texts(parts@) =~= third + part_if(
        sense@.glosses.len() > 0,
        text::separated(sense@.glosses, "; "@),
    ));
    join_texts(&parts, " ")
}

fn format_senses(senses: &Vec<Sense>) -> (r: Vec<String>)
    ensures
        text::texts(r@) == sense_lines(entry::sense_views(senses@)),
{
    let mut lines: Vec<String> = Vec::new();
    let count: usize = senses.len();
    let ghost views = entry::sense_views(senses@);
    let mut i: usize = 0;
    while i < senses.len()
        invariant
            i <= senses@.len(),
            count == senses@.len(),
            views == entry::sense_views(senses@),
            lines@.len() == i,
            forall|j: int| 0 <= j < i ==> (#[trigger] lines@[j])@ == sense_line(views, j),
        decreases senses@.len() - i,
    {
        let line = format_sense(&senses[i], i + 1, count > 1);
        assert(views[i as int] == senses@[i as int]@);
        lines.push(line);
        i += 1;
    }
    assert(text::texts(lines@) =~= sense_lines(views));
    lines
}

/// An entry as it is shown.
pub fn format_entry(entry: &DictionaryEntry) -> (r: FormattedEntryData)
    ensures
        r@ == formatted(entry@),
{
    let (word, reading) = match &entry.written_form {
        Some(form) => (form.clone(), entry.reading.clone()),
        None => {
            let none: String = String::new();
            assert(none@ =~= Seq::empty());
            (entry.reading.clone(), none)
        },
    };
    let process = keep_non_empty(&entry.deconjugation_process);
    let mut freq: String = String::new();
    assert(freq@ =~= Seq::empty());
    if entry.freq > 0 && entry.freq < DEFAULT_FREQ {
        push_decimal(&mut freq, entry.freq as u64);
    }
    assert(freq@ =~= shown_freq(entry.freq));
    let lines = format_senses(&entry.senses);
    FormattedEntryData {
        word,
        reading,
        deconjugation: join_texts(&process, " ← "),
        freq,
        definitions: join_texts(&lines, "\n"),
    }
}

/// A kanji as it is shown.
pub fn format_kanji(kanji: &KanjiEntry) -> (r: FormattedKanjiData)
    ensures
        r.character@ == kanji@.character,
        r.readings@ == text::separated(kanji@.readings, ", "@),
        r.meanings@ == text::separated(kanji@.meanings, "; "@),
{
    FormattedKanjiData {
        character: kanji.character.clone(),
        readings: join_texts(&kanji.readings, ", "),
        meanings: join_texts(&kanji.meanings, "; "),
    }
}

/// The contents of shown entries.
pub open spec fn formatted_all(entries: Seq<DictionaryEntryView>) -> Seq<FormattedEntryView> {
    Seq::new(entries.len(), |i: int| formatted(entries[i]))
}

/// The contents of shown entries.
pub open spec fn shown_views(shown: Seq<FormattedEntryData>) -> Seq<FormattedEntryView> {
    Seq::new(shown.len(), |i: int| shown[i]@)
}

/// Entries as they are shown.
pub fn format_entries(entries: &Vec<DictionaryEntry>) -> (r: Vec<FormattedEntryData>)
    ensures
        shown_views(r@) == formatted_all(entry::entry_views(entries@)),
{
    let mut shown: Vec<FormattedEntryData> = Vec::new();
    let mut i: usize = 0;
    while i < entries.len()
        invariant
            i <= entries@.len(),
            shown@.len() == i,
            forall|j: int| 0 <= j < i ==> (#[trigger] shown@[j])@ == formatted(entries@[j]@),
        decreases entries@.len() - i,
    {
        shown.push(format_entry(&entries[i]));
        i += 1;
    }
    assert(shown_views(shown@) =~= formatted_all(entry::entry_views(entries@)));
    shown
}

/// A word is always shown: where an entry has no written form, its reading.
pub proof fn law_something_is_shown(entry: DictionaryEntryView)
    requires
        entry.reading.len() > 0,
        entry.written_form is Some ==> entry.written_form->0.len() > 0,
    ensures
        formatted(entry).word.len() > 0,
{
}

/// The texts that are not empty are kept, in their order.
pub proof fn law_only_empty_texts_go(parts: Seq<Seq<char>>) -> (places: Seq<int>)
    ensures
        places.len() == non_empty(parts).len(),
        forall|k: int|
            0 <= k < places.len() ==> {
                &&& 0 <= #[trigger] places[k] < parts.len()
                &&& non_empty(parts)[k] == parts[places[k]]
                &&& parts[places[k]].len() > 0
            },
        forall|k: int, l: int|
            #![trigger places[k], places[l]]
            0 <= k < l < places.len() ==> places[k] < places[l],
        forall|i: int|
            0 <= i < parts.len() && (#[trigger] parts[i]).len() > 0 ==> places.contains(i),
    decreases parts.len(),
{
    if parts.len() == 0 {
        Seq::empty()
    } else {
        let fewer = parts.drop_last();
        let last = parts.len() - 1;
        let before = law_only_empty_texts_go(fewer);
        let places = if parts[last].len() > 0 {
            before.push(last)
        } else {
            before
        };
        assert forall|k: int| 0 <= k < places.len() implies {
            &&& 0 <= #[trigger] places[k] < parts.len()
            &&& non_empty(parts)[k] == parts[places[k]]
            &&& parts[places[k]].len() > 0
        } by {
            if k < before.len() {
                assert(before[k] == places[k]);
                assert(fewer[before[k]] == parts[before[k]]);
            }
        }
        assert forall|k: int, l: int|
            #![trigger places[k], places[l]]
            0 <= k < l < places.len() implies places[k] < places[l] by {
            assert(before[k] == places[k]);
            if l < before.len() {
                assert(before[l] == places[l]);
            }
        }
        assert forall|i: int|
            0 <= i < parts.len() && (#[trigger] parts[i]).len() > 0 implies places.contains(i) by {
            if i < last {
                assert(fewer[i] == parts[i]);
                let k = choose|k: int| 0 <= k < before.len() && before[k] == i;
                assert(places[k] == i);
            } else {
                assert(places[before.len() as int] == i);
            }
        }
        places
    }
}

/// Texts that are put together with a blank behind each.
spec fn with_blanks(parts: Seq<Seq<char>>) -> Seq<char>
    decreases parts.len(),
{
    if parts.len() == 0 {
        Seq::empty()
    } else {
        with_blanks(parts.drop_last()) + parts.last() + seq![' ']
    }
}

proof fn lemma_with_blanks(parts: Seq<Seq<char>>)
    requires
        parts.len() > 0,
    ensures
        text::separated(parts, " "@) + seq![' '] == with_blanks(parts),
    decreases parts.len(),
{
    reveal_strlit(" ");
    assert(" "@ =~= seq![' ']);
    let fewer = parts.drop_last();
    if parts.len() > 1 {
        lemma_with_blanks(fewer);
        assert(text::separated(parts, " "@) + seq![' '] =~= with_blanks(fewer) + parts.last()
            + seq![' ']);
    } else {
        assert(with_blanks(fewer) =~= Seq::empty());
        assert(text::separated(parts, " "@) + seq![' '] =~= with_blanks(parts));
    }
}

proof fn lemma_blanks_behind(parts: Seq<Seq<char>>, condition: bool, part: Seq<char>)
    ensures
        with_blanks(parts + part_if(condition, part)) == with_blanks(parts) + (if condition {
            part + seq![' ']
        } else {
            Seq::empty()
        }),
{
    if condition {
        let all = parts + part_if(condition, part);
        assert(all =~= parts.push(part));
        assert(all.drop_last() =~= parts);
        assert(with_blanks(all) =~= with_blanks(parts) + (part + seq![' ']));
    } else {
        assert(parts + part_if(condition, part) =~= parts);
        assert(with_blanks(parts) + Seq::<char>::empty() =~= with_blanks(parts));
    }
}

/// The line of a sense holds, with a blank between each two, its number in brackets where there
/// are several senses, its parts of speech in brackets and its tags in square brackets, with
/// commas, and its glosses with semicolons; what a sense does not have is left out.
pub proof fn law_sense_lines_hold_what_there_is(senses: Seq<SenseView>, i: int)
    requires
        0 <= i < senses.len(),
        senses.len() > 1 || senses[i].pos.len() > 0 || senses[i].tags.len() > 0
            || senses[i].glosses.len() > 0,
    ensures
        sense_lines(senses).len() == senses.len(),
        sense_lines(senses)[i] + seq![' '] == (if senses.len() > 1 {
            seq!['('] + text::decimal_of((i + 1) as nat) + seq![')', ' ']
        } else {
            Seq::empty()
        }) + (if senses[i].pos.len() > 0 {
            seq!['('] + text::separated(senses[i].pos, seq![',', ' ']) + seq![')', ' ']
        } else {
            Seq::empty()
        }) + (if senses[i].tags.len() > 0 {
            seq!['['] + text::separated(senses[i].tags, seq![',', ' ']) + seq![']', ' ']
        } else {
            Seq::empty()
        }) + (if senses[i].glosses.len() > 0 {
            text::separated(senses[i].glosses, seq![';', ' ']) + seq![' ']
        } else {
            Seq::empty()
        }),
{
    reveal_strlit("(");
    reveal_strlit(")");
    reveal_strlit("[");
    reveal_strlit("]");
    reveal_strlit(", ");
    reveal_strlit("; ");
    assert(", "@ =~= seq![',', ' ']);
    assert("; "@ =~= seq![';', ' ']);
    let sense = senses[i];
    let several = senses.len() > 1;
    let number = "("@ + text::decimal_of((i + 1) as nat) + ")"@;
    let pos = "("@ + text::separated(sense.pos, ", "@) + ")"@;
    let tags = "["@ + text::separated(sense.tags, ", "@) + "]"@;
    let glosses = text::separated(sense.glosses, "; "@);
    let none = Seq::<Seq<char>>::empty();
    let a = part_if(several, number);
    let b = a + part_if(sense.pos.len() > 0, pos);
    let c = b + part_if(sense.tags.len() > 0, tags);
    let d = c + part_if(sense.glosses.len() > 0, glosses);
    assert(none + a =~= a);
    lemma_blanks_behind(none, several, number);
    lemma_blanks_behind(a, sense.pos.len() > 0, pos);
    lemma_blanks_behind(b, sense.tags.len() > 0, tags);
    lemma_blanks_behind(c, sense.glosses.len() > 0, glosses);
    assert(d == sense_parts(sense, i + 1, several));
    lemma_with_blanks(d);
    assert(number + seq![' '] =~= seq!['('] + text::decimal_of((i + 1) as nat) + seq![')', ' ']);
    assert(pos + seq![' '] =~= seq!['('] + text::separated(sense.pos, seq![',', ' ']) + seq![
        ')',
        ' ',
    ]);
    assert(tags + seq![' '] =~= seq!['['] + text::separated(sense.tags, seq![',', ' ']) + seq![
        ']',
        ' ',
    ]);
    let first = if several {
        number + seq![' ']
    } else {
        Seq::empty()
    };
    assert(with_blanks(none) + first =~= first);
}

/// An entry shows its written form and its reading, or only its reading as the word; its history
/// with arrows between the steps that have a name, its rank where that is between 0 and 999999,
/// and a line for each sense.
pub proof fn law_entries_show_their_parts(entry: DictionaryEntryView)
    ensures
        entry.written_form is Some ==> formatted(entry).word == entry.written_form->0 && formatted(
            entry,
        ).reading == entry.reading,
        entry.written_form is None ==> formatted(entry).word == entry.reading && formatted(
            entry,
        ).reading.len() == 0,
        formatted(entry).deconjugation == text::separated(
            non_empty(entry.process),
            seq![' ', '←', ' '],
        ),
        entry.freq <= 0 || entry.freq >= 999999 ==> formatted(entry).freq.len() == 0,
        0 < entry.freq < 999999 ==> formatted(entry).freq == text::decimal_of(entry.freq as nat),
        formatted(entry).definitions == text::separated(sense_lines(entry.senses), seq!['\n']),
{
    reveal_strlit(" ← ");
    reveal_strlit("\n");
    assert(" ← "@ =~= seq![' ', '←', ' ']);
    assert("\n"@ =~= seq!['\n']);
}

/// Each entry is shown as it is shown alone, in its place.
pub proof fn law_entries_are_shown_one_by_one(entries: Seq<DictionaryEntryView>, i: int)
    requires
        0 <= i < entries.len(),
    ensures
        formatted_all(entries).len() == entries.len(),
        formatted_all(entries)[i] == formatted(entries[i]),
{
}

/// What is shown of an entry are its five texts.
pub proof fn law_shown_entries_are_told_by_their_texts(shown: FormattedEntryData)
    ensures
        shown@.word == shown.word@ && shown@.reading == shown.reading@,
        shown@.deconjugation == shown.deconjugation@ && shown@.freq == shown.freq@,
        shown@.definitions == shown.definitions@,
{
}

} // verus!
