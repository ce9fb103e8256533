//! What programs in other languages are told, and what they ask for.

use crate::dictionary::entry::{
    DictionaryEntry, KanjiEntry, Sense,
};
use crate::ocr::ocr::OcrProviderInfo;
use crate::pipeline::{PipelineConfig, PipelineEvent};
use crate::platform::interface::CaptureGeometry;
use crate::text;
use crate::text::{copy_texts, joined};
use vstd::prelude::*;

verus! {

/// The number of entries that a lookup shows.
pub const MAX_DICT_ENTRIES: usize = 10;

/// The number of characters that are looked up.
pub const MAX_LOOKUP_LENGTH: usize = 25;

/// The time between two frames, in milliseconds.
pub const CAPTURE_INTERVAL: u64 = 300;

/// A sense, as programs in other languages see it.
#[derive(Debug)]
pub struct EntrySense {
    pub glosses: Vec<String>,
    pub pos: Vec<String>,
    pub tags: Vec<String>,
}

/// An entry, as programs in other languages see it.
#[derive(Debug)]
pub struct Entry {
    pub written_form: Option<String>,
    pub reading: String,
    pub senses: Vec<EntrySense>,
    pub freq: i64,
    pub deconjugation_process: Vec<String>,
}

/// A kanji, as programs in other languages see it.
#[derive(Debug)]
pub struct Kanji {
    pub character: String,
    pub meanings: Vec<String>,
    pub readings: Vec<String>,
}

/// What programs in other languages are told.
#[derive(Debug)]
pub enum Event {
    CaptureReady,
    OcrProviders {
        providers: Vec<OcrProviderInfo>,
        active_provider: String,
        error: Option<String>,
    },
    Show { entries: Vec<Entry>, kanji: Option<Kanji> },
    Hide,
    Error { message: String },
}

/// Whether `entry` is an entry of the dictionary without its number and its priority.
pub open spec fn is_entry(entry: Entry, of: DictionaryEntry) -> bool {
    &&& entry.written_form == of.written_form
    &&& entry.reading == of.reading
    &&& entry.freq == of.freq
    &&& entry.deconjugation_process == of.deconjugation_process
    &&& entry.senses@.len() == of.senses@.len()
    &&& forall|i: int|
        0 <= i < entry.senses@.len() ==> is_sense(#[trigger] entry.senses@[i], of.senses@[i])
}

/// Whether `sense` is a sense of the dictionary.
pub open spec fn is_sense(sense: EntrySense, of: Sense) -> bool {
    &&& text::texts(sense.glosses@) == text::texts(of.glosses@)
    &&& text::texts(sense.pos@) == text::texts(of.pos@)
    &&& text::texts(sense.tags@) == text::texts(of.tags@)
}

/// Whether `kanji` is a kanji of the dictionary without its components and examples.
pub open spec fn is_kanji(kanji: Kanji, of: KanjiEntry) -> bool {
    &&& kanji.character == of.character
    &&& kanji.meanings == of.meanings
    &&& kanji.readings == of.readings
}

fn sense_of(sense: &Sense) -> (r: EntrySense)
    ensures
        is_sense(r, *sense),
{
    EntrySense {
        glosses: copy_texts(&sense.glosses),
        pos: copy_texts(&sense.pos),
        tags: copy_texts(&sense.tags),
    }
}

/// An entry, as programs in other languages see it.
pub fn entry_of(entry: DictionaryEntry) -> (r: Entry)
    ensures
        is_entry(r, entry),
{
    let mut senses: Vec<EntrySense> = Vec::new();
    let mut i: usize = 0;
    while i < entry.senses.len()
        invariant
            i <= entry.senses@.len(),
            senses@.len() == i,
            forall|j: int| 0 <= j < i ==> is_sense(#[trigger] senses@[j], entry.senses@[j]),
        decreases entry.senses@.len() - i,
    {
        senses.push(sense_of(&entry.senses[i]));
        i += 1;
    }
    Entry {
        written_form: entry.written_form,
        reading: entry.reading,
        senses,
        freq: entry.freq,
        deconjugation_process: entry.deconjugation_process,
    }
}

/// A kanji, as programs in other languages see it.
pub fn kanji_of(kanji: KanjiEntry) -> (r: Kanji)
    ensures
        is_kanji(r, kanji),
{
    Kanji { character: kanji.character, meanings: kanji.meanings, readings: kanji.readings }
}

/// Whether `shown` are entries of the dictionary, in their order.
pub open spec fn are_entries(shown: Seq<Entry>, of: Seq<DictionaryEntry>) -> bool {
    &&& shown.len() == of.len()
    &&& forall|i: int| 0 <= i < shown.len() ==> is_entry(#[trigger] shown[i], of[i])
}

fn entries_of(entries: Vec<DictionaryEntry>) -> (r: Vec<Entry>)
    ensures
        are_entries(r@, entries@),
{
    let mut left = entries;
    let mut reversed: Vec<Entry> = Vec::new();
    let count: usize = left.len();
    while left.len() > 0
        invariant
            left@.len() + reversed@.len() == count,
            count == entries@.len(),
            left@ == entries@.take(left@.len() as int),
            forall|j: int|
                0 <= j < reversed@.len() ==> is_entry(
                    #[trigger] reversed@[j],
                    entries@[count - 1 - j],
                ),
        decreases left@.len(),
    {
        let last = left.pop();
        if let Some(last) = last {
            assert(last == entries@[left@.len() as int]);
            assert(left@ =~= entries@.take(left@.len() as int));
            reversed.push(entry_of(last));
        }
    }
    let mut shown: Vec<Entry> = Vec::new();
    while reversed.len() > 0
        invariant
            reversed@.len() + shown@.len() == count,
            count == entries@.len(),
            forall|j: int|
                0 <= j < reversed@.len() ==> is_entry(
                    #[trigger] reversed@[j],
                    entries@[count - 1 - j],
                ),
            forall|j: int| 0 <= j < shown@.len() ==> is_entry(#[trigger] shown@[j], entries@[j]),
        decreases reversed@.len(),
    {
        let last = reversed.pop();
        if let Some(last) = last {
            shown.push(last);
        }
    }
    shown
}

/// Whether `told` says what happened in the pipeline.
pub open spec fn tells(told: Event, event: PipelineEvent) -> bool {
    match event {
        PipelineEvent::CaptureReady => told is CaptureReady,
        PipelineEvent::LookupResult { entries, kanji, .. } => {
            &&& told is Show
            &&& are_entries(told->entries@, entries@)
            &&& match (told->kanji, kanji) {
                (Some(shown), Some(kanji)) => is_kanji(shown, kanji),
                (None, None) => true,
                _ => false,
            }
        },
        PipelineEvent::HidePopup { .. } => told is Hide,
        PipelineEvent::Error(message) => told is Error && told->message == message,
    }
}

/// What programs in other languages are told of what happened in the pipeline.
pub fn event_of(event: PipelineEvent) -> (r: Event)
    ensures
        tells(r, event),
{
    match event {
        PipelineEvent::CaptureReady => Event::CaptureReady,
        PipelineEvent::LookupResult { entries, kanji, .. } => Event::Show {
            entries: entries_of(entries),
            kanji: match kanji {
                Some(kanji) => Some(kanji_of(kanji)),
                None => None,
            },
        },
        PipelineEvent::HidePopup { .. } => Event::Hide,
        PipelineEvent::Error(message) => Event::Error { message },
    }
}

/// A text that a program in another language handed over.
#[derive(Debug)]
pub enum RawText {
    Null,
    NotUtf8,
    Text(String),
}

/// The text that was handed over as the argument `name`.
pub fn text_argument(argument: RawText, name: &str) -> (r: Result<String, String>)
    ensures
        match argument {
            RawText::Null => r is Err && r->Err_0@ == name@ + " must not be null"@,
            RawText::NotUtf8 => r is Err && r->Err_0@ == name@ + " must be valid UTF-8"@,
            RawText::Text(text) => r == Ok::<String, String>(text),
        },
{
    match argument {
        RawText::Null => Err(joined(name, " must not be null")),
        RawText::NotUtf8 => Err(joined(name, " must be valid UTF-8")),
        RawText::Text(text) => Ok(text),
    }
}

/// The configuration that was handed over, once it was read.
pub fn configuration_argument<T>(parsed: Result<T, String>) -> (r: Result<T, String>)
    ensures
        match parsed {
            Ok(config) => r == Ok::<T, String>(config),
            Err(error) => r is Err && r->Err_0@ == "Invalid pipeline configuration: "@ + error@,
        },
{
    match parsed {
        Ok(config) => Ok(config),
        Err(error) => Err(joined("Invalid pipeline configuration: ", error.as_str())),
    }
}

/// How the pipeline is set up for a dictionary.
pub fn pipeline_config(dictionary_path: String, screencast_token_path: String) -> (r: PipelineConfig)
    ensures
        r.dictionary_path == dictionary_path,
        r.screencast_token_path == screencast_token_path,
        r.max_dict_entries == MAX_DICT_ENTRIES,
        r.max_lookup_length == MAX_LOOKUP_LENGTH,
        r.show_kanji,
        r.capture_interval == CAPTURE_INTERVAL,
{
    PipelineConfig {
        dictionary_path,
        screencast_token_path,
        max_dict_entries: MAX_DICT_ENTRIES,
        max_lookup_length: MAX_LOOKUP_LENGTH,
        show_kanji: true,
        capture_interval: CAPTURE_INTERVAL,
    }
}

/// The area that the popup covers, while it is shown.
pub fn popup_area(visible: bool, left: i32, top: i32, width: u32, height: u32) -> (r: Option<
    CaptureGeometry,
>)
    ensures
        r == (if visible {
            Some(
                CaptureGeometry { left, top, width: width as usize, height: height as usize },
            )
        } else {
            None
        }),
{
    if visible {
        Some(CaptureGeometry { left, top, width: width as usize, height: height as usize })
    } else {
        None
    }
}

/// An entry is handed over with its spelling, its reading, its rank, its history and all its
/// senses, in their order.
pub proof fn law_entries_are_handed_over_whole(shown: Entry, of: DictionaryEntry, i: int)
    requires
        is_entry(shown, of),
        0 <= i < of.senses@.len(),
    ensures
        shown.written_form == of.written_form && shown.reading == of.reading,
        shown.freq == of.freq && shown.deconjugation_process == of.deconjugation_process,
        shown.senses@.len() == of.senses@.len(),
        shown.senses@[i].glosses@.len() == of.senses@[i].glosses@.len(),
        shown.senses@[i].pos@.len() == of.senses@[i].pos@.len(),
        shown.senses@[i].tags@.len() == of.senses@[i].tags@.len(),
        forall|k: int|
            0 <= k < of.senses@[i].glosses@.len() ==> (#[trigger] of.senses@[i].glosses@[k])@
                == shown.senses@[i].glosses@[k]@,
        forall|k: int|
            0 <= k < of.senses@[i].pos@.len() ==> (#[trigger] of.senses@[i].pos@[k])@
                == shown.senses@[i].pos@[k]@,
        forall|k: int|
            0 <= k < of.senses@[i].tags@.len() ==> (#[trigger] of.senses@[i].tags@[k])@
                == shown.senses@[i].tags@[k]@,
{
    let a = shown.senses@[i];
    let b = of.senses@[i];
    assert(is_sense(a, b));
    assert(text::texts(a.glosses@).len() == text::texts(b.glosses@).len());
    assert(text::texts(a.pos@).len() == text::texts(b.pos@).len());
    assert(text::texts(a.tags@).len() == text::texts(b.tags@).len());
    assert forall|k: int| 0 <= k < b.glosses@.len() implies (#[trigger] b.glosses@[k])@
        == a.glosses@[k]@ by {
        assert(text::texts(a.glosses@)[k] == text::texts(b.glosses@)[k]);
    }
    assert forall|k: int| 0 <= k < b.pos@.len() implies (#[trigger] b.pos@[k])@
        == a.pos@[k]@ by {
        assert(text::texts(a.pos@)[k] == text::texts(b.pos@)[k]);
    }
    assert forall|k: int| 0 <= k < b.tags@.len() implies (#[trigger] b.tags@[k])@
        == a.tags@[k]@ by {
        assert(text::texts(a.tags@)[k] == text::texts(b.tags@)[k]);
    }
}

/// A lookup is told with all its entries, in their order, and its kanji; that the popup goes,
/// that the source is ready and errors are told as what they are.
pub proof fn law_events_are_told_as_they_are(told: Event, event: PipelineEvent)
    requires
        tells(told, event),
    ensures
        told is CaptureReady <==> event is CaptureReady,
        told is Show <==> event is LookupResult,
        told is Hide <==> event is HidePopup,
        told is Error <==> event is Error,
        !(told is OcrProviders),
        event matches PipelineEvent::LookupResult { entries, kanji, .. } ==> {
            &&& told->entries@.len() == entries@.len()
            &&& forall|i: int|
                0 <= i < entries@.len() ==> is_entry(told->entries@[i], #[trigger] entries@[i])
            &&& told->kanji is Some <==> kanji is Some
            &&& kanji is Some ==> told->kanji->0.character == kanji->0.character
                && told->kanji->0.meanings == kanji->0.meanings && told->kanji->0.readings
                == kanji->0.readings
        },
        event matches PipelineEvent::Error(message) ==> told->message == message,
{
}

} // verus!
