//! Dictionaries that are kept as converted, versioned copies of a source file.

use crate::dictionary::customdict;
use crate::dictionary::deconjugator::{Deconjugator, Rule};
use crate::dictionary::engine::LookupEngine;
use crate::dictionary::entry::{KanjiEntry, MapEntry, Sense};
use crate::text;
use crate::text::push_decimal;
use crate::text_map::TextMap;
use std::collections::HashMap;
use vstd::prelude::*;

verus! {

/// Where the source file is downloaded from.
pub const DICT_URL: &'static str =
    "https://github.com/rtr46/meikipop/releases/download/dictionary-latest/dictionary.zip";

/// The name of the source file in the archive and on disk.
pub const DICTIONARY_FILENAME: &'static str = "dictionary.pkl";

/// The version of converted copies that can be read.
pub const FORMAT_VERSION: u32 = 1;

/// The program that converts source files.
pub const PYTHON_EXECUTABLE: &'static str = "python";

/// The data that a converted copy holds, with the size and the modification time of the source
/// file that it was made from.
pub struct DictionaryData {
    pub format_version: u32,
    pub source_size: u64,
    pub source_mtime_ns: u64,
    pub entries: HashMap<i64, Vec<Sense>>,
    pub lookup_map: TextMap<Vec<MapEntry>>,
    pub kanji_entries: TextMap<KanjiEntry>,
    pub deconjugator_rules: Vec<Rule>,
}

/// What is said of a copy with an unknown version.
pub open spec fn unsupported_version(version: u32) -> Seq<char> {
    "Unsupported dictionary format version "@ + text::decimal_of(version as nat) + " (expected "@
        + text::decimal_of(FORMAT_VERSION as nat) + ")"@
}

/// Whether `result` is data itself, where its version is known, or says what version it has.
pub open spec fn is_version_checked(
    data: DictionaryData,
    result: Result<DictionaryData, String>,
) -> bool {
    match result {
        Ok(checked) => data.format_version == FORMAT_VERSION && checked == data,
        Err(message) => data.format_version != FORMAT_VERSION && message@ == unsupported_version(
            data.format_version,
        ),
    }
}

impl DictionaryData {
    /// Whether the copy was made from a source file with this size and modification time.
    pub open spec fn was_made_of(&self, source_size: u64, source_mtime_ns: u64) -> bool {
        self.source_size == source_size && self.source_mtime_ns == source_mtime_ns
    }

    /// The data itself if its version is known.
    pub fn check_version(self) -> (r: Result<Self, String>)
        ensures
            is_version_checked(self, r),
    {
        if self.format_version != FORMAT_VERSION {
            let mut message: String = "Unsupported dictionary format version ".to_owned();
            push_decimal(&mut message, self.format_version as u64);
            message.append(" (expected ");
            push_decimal(&mut message, FORMAT_VERSION as u64);
            message.append(")");
            return Err(message);
        }
        Ok(self)
    }

    /// Whether the copy was made from a source file with this size and modification time.
    pub fn matches_source(&self, source_size: u64, source_mtime_ns: u64) -> (r: bool)
        ensures
            r == self.was_made_of(source_size, source_mtime_ns),
    {
        self.source_size == source_size && self.source_mtime_ns == source_mtime_ns
    }

    /// An engine for this data that shows at most `max_dict_entries` entries.
    pub fn into_lookup_engine(self, max_dict_entries: usize) -> (r: LookupEngine)
        requires
            self.lookup_map.wf(),
            self.kanji_entries.wf(),
            customdict::issue_count(self.entries@, self.lookup_map.pairs()) <= usize::MAX,
        ensures
            r.wf(),
            r.order() == Seq::<Seq<char>>::empty(),
            r.dictionary.entries == self.entries,
            r.dictionary.lookup_map == self.lookup_map,
            r.dictionary.kanji_entries == self.kanji_entries,
            r.dictionary.deconjugator.rules == self.deconjugator_rules,
            r.max_dict_entries == max_dict_entries,
            r.validation_issues == customdict::issue_count(
                self.entries@,
                self.lookup_map.pairs(),
            ),
            customdict::are_warnings(
                self.entries@,
                self.lookup_map.pairs(),
                text::texts(r.validation_warnings@),
            ),
    {
        LookupEngine::new(
            self.entries,
            self.lookup_map,
            self.kanji_entries,
            Deconjugator::new(self.deconjugator_rules),
            max_dict_entries,
        )
    }
}

/// The modification time of a source file, in nanoseconds, as it is kept in a copy.
pub fn source_mtime(nanoseconds: u128) -> (r: Result<u64, String>)
    ensures
        match r {
            Ok(time) => time == nanoseconds,
            Err(message) => nanoseconds > u64::MAX && message@
                == "Dictionary modification time is out of range"@,
        },
{
    if nanoseconds > u64::MAX as u128 {
        Err("Dictionary modification time is out of range".to_owned())
    } else {
        Ok(nanoseconds as u64)
    }
}

/// Size and modification time of a source file.
#[derive(Clone, Copy, Debug, PartialEq, Eq, Structural)]
pub struct SourceStamp {
    pub size: u64,
    pub mtime_ns: u64,
}

/// What is to be done next to load a dictionary.
pub enum LoadStep {
    /// Read the converted copy that may be there.
    ReadCopy,
    /// Ask for the stamp of the source file; the copy that was read has the given one.
    StampSource(SourceStamp),
    /// Convert the source file.
    Convert,
    /// Read the copy that was just made.
    ReadNewCopy,
    /// Ask for the stamp of the source file; the new copy has the given one.
    StampSourceAgain(SourceStamp),
    /// Use the copy that was read last.
    Use,
    /// Give up with this message.
    Fail(String),
}

/// How a step went.
pub enum LoadEvent {
    /// A copy was read, or could not be.
    Copy(Result<SourceStamp, String>),
    /// The source file was asked for its stamp.
    Source(Result<SourceStamp, String>),
    /// The source file was converted, or could not be.
    Converted(Result<(), String>),
}

/// What is said of a new copy that does not match its source file.
pub open spec fn mismatch_text() -> Seq<char> {
    "Converted dictionary JSON does not match its source pickle"@
}

/// Whether `after` is the step that follows `before` when it went as `event` says. Events that
/// do not belong to a step change nothing.
pub open spec fn follows(before: LoadStep, event: LoadEvent, after: LoadStep) -> bool {
    match (before, event) {
        (LoadStep::ReadCopy, LoadEvent::Copy(Ok(stamp))) => after == LoadStep::StampSource(stamp),
        (LoadStep::ReadCopy, LoadEvent::Copy(Err(_))) => after is Convert,
        (LoadStep::StampSource(copy), LoadEvent::Source(Ok(stamp))) => if copy == stamp {
            after is Use
        } else {
            after is Convert
        },
        (LoadStep::StampSource(_), LoadEvent::Source(Err(message))) => after == LoadStep::Fail(
            message,
        ),
        (LoadStep::Convert, LoadEvent::Converted(Ok(()))) => after is ReadNewCopy,
        (LoadStep::Convert, LoadEvent::Converted(Err(message))) => after == LoadStep::Fail(message),
        (LoadStep::ReadNewCopy, LoadEvent::Copy(Ok(stamp))) => after == LoadStep::StampSourceAgain(
            stamp,
        ),
        (LoadStep::ReadNewCopy, LoadEvent::Copy(Err(message))) => after == LoadStep::Fail(message),
        (LoadStep::StampSourceAgain(copy), LoadEvent::Source(Ok(stamp))) => if copy == stamp {
            after is Use
        } else {
            after matches LoadStep::Fail(message) && message@ == mismatch_text()
        },
        (LoadStep::StampSourceAgain(_), LoadEvent::Source(Err(message))) => after
            == LoadStep::Fail(message),
        (before, _) => after == before,
    }
}

/// The step that follows `step` when it went as `event` says. An existing copy is used if it
/// matches the source file; else the source file is converted once.
pub fn load_or_convert(step: LoadStep, event: LoadEvent) -> (r: LoadStep)
    ensures
        follows(step, event, r),
{
    match (step, event) {
        (LoadStep::ReadCopy, LoadEvent::Copy(copy)) => match copy {
            Ok(stamp) => LoadStep::StampSource(stamp),
            Err(_) => LoadStep::Convert,
        },
        (LoadStep::StampSource(copy), LoadEvent::Source(source)) => match source {
            Ok(stamp) => if copy == stamp {
                LoadStep::Use
            } else {
                LoadStep::Convert
            },
            Err(message) => LoadStep::Fail(message),
        },
        (LoadStep::Convert, LoadEvent::Converted(converted)) => match converted {
            Ok(_) => LoadStep::ReadNewCopy,
            Err(message) => LoadStep::Fail(message),
        },
        (LoadStep::ReadNewCopy, LoadEvent::Copy(copy)) => match copy {
            Ok(stamp) => LoadStep::StampSourceAgain(stamp),
            Err(message) => LoadStep::Fail(message),
        },
        (LoadStep::StampSourceAgain(copy), LoadEvent::Source(source)) => match source {
            Ok(stamp) => if copy == stamp {
                LoadStep::Use
            } else {
                LoadStep::Fail(
                    "Converted dictionary JSON does not match its source pickle".to_owned(),
                )
            },
            Err(message) => LoadStep::Fail(message),
        },
        (step, _) => step,
    }
}

/// How many steps may still follow.
pub open spec fn steps_left(step: LoadStep) -> nat {
    match step {
        LoadStep::ReadCopy => 5,
        LoadStep::StampSource(_) => 4,
        LoadStep::Convert => 3,
        LoadStep::ReadNewCopy => 2,
        LoadStep::StampSourceAgain(_) => 1,
        LoadStep::Use => 0,
        LoadStep::Fail(_) => 0,
    }
}

/// Loading ends: every step that changes anything leaves fewer steps.
pub proof fn law_loading_ends(before: LoadStep, event: LoadEvent, after: LoadStep)
    requires
        follows(before, event, after),
        after != before,
    ensures
        steps_left(after) < steps_left(before),
{
}

/// A copy is used only when it has the stamp of the source file.
pub proof fn law_only_matching_copies_are_used(
    before: LoadStep,
    event: LoadEvent,
    after: LoadStep,
)
    requires
        follows(before, event, after),
        after is Use,
        !(before is Use),
    ensures
        event matches LoadEvent::Source(Ok(stamp)) && (before == LoadStep::StampSource(stamp)
            || before == LoadStep::StampSourceAgain(stamp)),
{
}

/// A copy that was read is used without conversion if it has the stamp of its source file, and
/// else the source file is converted.
pub proof fn law_copies_are_used_or_made_anew(
    stamp: SourceStamp,
    source: SourceStamp,
    then: LoadStep,
    end: LoadStep,
)
    requires
        follows(LoadStep::ReadCopy, LoadEvent::Copy(Ok(stamp)), then),
        follows(then, LoadEvent::Source(Ok(source)), end),
    ensures
        stamp.size == source.size && stamp.mtime_ns == source.mtime_ns ==> end is Use,
        stamp.size != source.size || stamp.mtime_ns != source.mtime_ns ==> end is Convert,
{
}

/// A copy that was just made is used if it has the stamp of its source file; else loading fails,
/// and the source file is not converted again.
pub proof fn law_new_copies_are_used_or_refused(
    stamp: SourceStamp,
    source: SourceStamp,
    copied: LoadStep,
    read: LoadStep,
    end: LoadStep,
)
    requires
        follows(LoadStep::Convert, LoadEvent::Converted(Ok(())), copied),
        follows(copied, LoadEvent::Copy(Ok(stamp)), read),
        follows(read, LoadEvent::Source(Ok(source)), end),
    ensures
        stamp.size == source.size && stamp.mtime_ns == source.mtime_ns ==> end is Use,
        stamp.size != source.size || stamp.mtime_ns != source.mtime_ns ==> end is Fail,
{
}

/// A copy that cannot be read is made anew; every other failure ends loading with its message.
pub proof fn law_failures_end_loading(before: LoadStep, event: LoadEvent, after: LoadStep)
    requires
        follows(before, event, after),
    ensures
        before is ReadCopy ==> (event matches LoadEvent::Copy(Err(_)) ==> after is Convert),
        before is ReadNewCopy ==> (event matches LoadEvent::Copy(Err(message)) ==> after
            == LoadStep::Fail(message)),
        before is Convert ==> (event matches LoadEvent::Converted(Err(message)) ==> after
            == LoadStep::Fail(message)),
        before is StampSource || before is StampSourceAgain ==> (event matches LoadEvent::Source(
            Err(message),
        ) ==> after == LoadStep::Fail(message)),
        before is Use || before is Fail ==> after == before,
{
}

/// Only data of version 1 is used, and it is used as it is.
pub proof fn law_other_versions_are_refused(
    data: DictionaryData,
    result: Result<DictionaryData, String>,
)
    requires
        is_version_checked(data, result),
    ensures
        result is Ok <==> data.format_version == 1,
        result is Ok ==> result->Ok_0 == data,
{
}

/// A copy goes with one source file only: two that it goes with have one size and one time.
pub proof fn law_copies_go_with_one_source(data: DictionaryData, a: (u64, u64), b: (u64, u64))
    requires
        data.was_made_of(a.0, a.1),
    ensures
        data.was_made_of(b.0, b.1) <==> a == b,
        data.was_made_of(data.source_size, data.source_mtime_ns),
{
}

} // verus!
