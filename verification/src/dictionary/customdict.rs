//! Checking of dictionary data and extraction of the dictionary from a downloaded archive.

use crate::dictionary::deconjugator::{Deconjugator, Rule};
use crate::dictionary::engine::LookupEngine;
use crate::dictionary::entry::{KanjiEntry, MapEntry, Sense};
use crate::dictionary::kana;
use crate::dictionary::kana::contains_kanji;
use crate::text;
use crate::text::{push_decimal, push_signed_decimal};
use crate::text_map::TextMap;
use std::collections::HashMap;
use std::io::Read;
use vstd::prelude::*;

verus! {

/// Where the dictionary is downloaded from.
pub const DICT_URL: &'static str =
    "https://github.com/kamoshi/meikipop/releases/download/dictionary-latest/dictionary.zip";

/// The name of the dictionary in the archive and on disk.
pub const DICTIONARY_FILENAME: &'static str = "dictionary.cbor";

/// The greatest size of the archive and of the dictionary in it.
pub const MAX_DOWNLOAD_SIZE: u64 = 268_435_456;

/// What a check of dictionary data found.
#[derive(Debug)]
pub struct ValidationResult {
    pub issues: usize,
    pub warnings: Vec<String>,
}

/// Whether an entry listed under `surface` would be shown without its kanji.
pub open spec fn is_invisible(surface: Seq<char>, entry: MapEntry) -> bool {
    kana::has_kanji(surface) && entry.written_form is None
}

/// The number of issues among the entries listed under `surface`.
pub open spec fn list_issues(
    entries: Map<i64, Vec<Sense>>,
    surface: Seq<char>,
    list: Seq<MapEntry>,
) -> nat
    decreases list.len(),
{
    if list.len() == 0 {
        0
    } else {
        let last = list.last();
        list_issues(entries, surface, list.drop_last()) + (if is_invisible(surface, last) {
            1nat
        } else {
            0
        }) + (if entries.dom().contains(last.entry_id) {
            0nat
        } else {
            1
        })
    }
}

/// The number of issues in a lookup map: entries that would be shown without their kanji, and
/// references to entries that do not exist.
pub open spec fn issue_count(
    entries: Map<i64, Vec<Sense>>,
    pairs: Seq<(Seq<char>, Vec<MapEntry>)>,
) -> nat
    decreases pairs.len(),
{
    if pairs.len() == 0 {
        0
    } else {
        issue_count(entries, pairs.drop_last()) + list_issues(
            entries,
            pairs.last().0,
            pairs.last().1@,
        )
    }
}

/// The warning on an entry listed under `surface` that would be shown without its kanji.
pub open spec fn invisible_warning(surface: Seq<char>, entry: MapEntry) -> Seq<char> {
    "Map entry under kanji key '"@ + surface
        + "' has written_form=None (entry will display incorrectly) — entry_id="@
        + text::signed_decimal_of(entry.entry_id as int)
}

/// The warnings on the entries listed under `surface`.
pub open spec fn list_warnings(surface: Seq<char>, list: Seq<MapEntry>) -> Seq<Seq<char>>
    decreases list.len(),
{
    if list.len() == 0 {
        Seq::empty()
    } else {
        let before = list_warnings(surface, list.drop_last());
        if is_invisible(surface, list.last()) {
            before.push(invisible_warning(surface, list.last()))
        } else {
            before
        }
    }
}

/// The warnings on all entries that would be shown without their kanji.
pub open spec fn invisible_warnings(pairs: Seq<(Seq<char>, Vec<MapEntry>)>) -> Seq<Seq<char>>
    decreases pairs.len(),
{
    if pairs.len() == 0 {
        Seq::empty()
    } else {
        invisible_warnings(pairs.drop_last()) + list_warnings(pairs.last().0, pairs.last().1@)
    }
}

/// Whether the lookup map refers to the entry `id`, which does not exist.
pub open spec fn is_missing(
    entries: Map<i64, Vec<Sense>>,
    pairs: Seq<(Seq<char>, Vec<MapEntry>)>,
    id: i64,
) -> bool {
    &&& !entries.dom().contains(id)
    &&& exists|i: int, j: int|
        0 <= i < pairs.len() && 0 <= j < pairs[i].1@.len() && #[trigger] pairs[i].1@[j].entry_id
            == id
}

/// Whether the numbers ascend, none occurring twice.
pub open spec fn ascending(ids: Seq<i64>) -> bool {
    forall|i: int, j: int| #![trigger ids[i], ids[j]] 0 <= i < j < ids.len() ==> ids[i] < ids[j]
}

/// The numbers with a comma between each two.
pub open spec fn comma_separated(ids: Seq<i64>) -> Seq<char>
    decreases ids.len(),
{
    if ids.len() == 0 {
        Seq::empty()
    } else if ids.len() == 1 {
        text::signed_decimal_of(ids[0] as int)
    } else {
        comma_separated(ids.drop_last()) + ", "@ + text::signed_decimal_of(ids.last() as int)
    }
}

/// The warning on references to entries that do not exist; it names the first five.
pub open spec fn missing_warning(ids: Seq<i64>) -> Seq<char> {
    text::decimal_of(ids.len())
        + " entry ID(s) referenced in lookup_map have no matching core entry — first few: ["@
        + comma_separated(
        if ids.len() < 5 {
            ids
        } else {
            ids.take(5)
        },
    ) + "]"@
}

/// Whether `ids` are the missing entries in ascending order.
pub open spec fn are_missing_ids(
    entries: Map<i64, Vec<Sense>>,
    pairs: Seq<(Seq<char>, Vec<MapEntry>)>,
    ids: Seq<i64>,
) -> bool {
    &&& ascending(ids)
    &&& forall|id: i64| #[trigger] ids.contains(id) <==> is_missing(entries, pairs, id)
}

/// Whether these are the warnings on a lookup map.
pub open spec fn are_warnings(
    entries: Map<i64, Vec<Sense>>,
    pairs: Seq<(Seq<char>, Vec<MapEntry>)>,
    warnings: Seq<Seq<char>>,
) -> bool {
    exists|ids: Seq<i64>| #[trigger]
        are_missing_ids(entries, pairs, ids) && warnings == (if ids.len() == 0 {
            invisible_warnings(pairs)
        } else {
            invisible_warnings(pairs).push(missing_warning(ids))
        })
}

/// Adds `id` to an ascending list unless it is there.
fn add_id(ids: &mut Vec<i64>, id: i64)
    requires
        ascending(old(ids)@),
    ensures
        ascending(final(ids)@),
        forall|k: i64| #[trigger] final(ids)@.contains(k) <==> old(ids)@.contains(k) || k == id,
{
    let ghost before = ids@;
    let mut place: usize = ids.len();
    while place > 0 && ids[place - 1] >= id
        invariant
            place <= ids@.len(),
            ids@ == before,
            ascending(before),
            forall|k: int| place <= k < before.len() ==> #[trigger] before[k] >= id,
        decreases place,
    {
        place -= 1;
    }
    if place < ids.len() && ids[place] == id {
        assert(before.contains(id)) by {
            assert(before[place as int] == id);
        }
        return;
    }
    ids.insert(place, id);
    assert forall|k: i64| #[trigger] ids@.contains(k) <==> before.contains(k) || k == id by {
        if before.contains(k) {
            let i = choose|i: int| 0 <= i < before.len() && before[i] == k;
            if i < place {
                assert(ids@[i] == k);
            } else {
                assert(ids@[i + 1] == k);
            }
        }
        if k == id {
            assert(ids@[place as int] == k);
        }
        if ids@.contains(k) {
            let i = choose|i: int| 0 <= i < ids@.len() && ids@[i] == k;
            if i < place {
                assert(before[i] == k);
            } else if i > place {
                assert(before[i - 1] == k);
            }
        }
    }
    assert forall|i: int, j: int| #![trigger ids@[i], ids@[j]] 0 <= i < j < ids@.len() implies ids@[i]
        < ids@[j] by {
        let a = if i < place { i } else { i - 1 };
        let b = if j < place { j } else { j - 1 };
        if i != place {
            assert(ids@[i] == before[a]);
        }
        if j != place {
            assert(ids@[j] == before[b]);
        }
        if i != place && j != place {
            assert(before[a] < before[b]);
        } else if i == place {
            assert(before[b] >= id && before[place as int] != id);
            if b > place {
                assert(before[place as int] < before[b]);
            }
        } else {
            if a < place - 1 {
                assert(before[a] < before[place - 1]);
            }
        }
    }
}

/// The warning on an entry listed under `surface` that would be shown without its kanji.
fn warn_invisible(surface: &str, entry: &MapEntry) -> (r: String)
    ensures
        r@ == invisible_warning(surface@, *entry),
{
    let mut r: String = "Map entry under kanji key '".to_owned();
    r.append(surface);
    r.append("' has written_form=None (entry will display incorrectly) — entry_id=");
    push_signed_decimal(&mut r, entry.entry_id);
    r
}

/// The warning on references to entries that do not exist.
fn warn_missing(ids: &Vec<i64>) -> (r: String)
    ensures
        r@ == missing_warning(ids@),
{
    let mut r: String = String::new();
    push_decimal(&mut r, ids.len() as u64);
    r.append(" entry ID(s) referenced in lookup_map have no matching core entry — first few: [");
    let ghost head = r@;
    let count: usize = if ids.len() < 5 {
        ids.len()
    } else {
        5
    };
    let ghost named = ids@.take(count as int);
    let mut i: usize = 0;
    while i < count
        invariant
            i <= count <= ids@.len(),
            named == ids@.take(count as int),
            r@ == head + comma_separated(named.take(i as int)),
        decreases count - i,
    {
        let ghost before = r@;
        assert(named.take(i + 1).drop_last() =~= named.take(i as int));
        if i > 0 {
            r.append(", ");
        }
        push_signed_decimal(&mut r, ids[i]);
        if i == 0 {
            assert(comma_separated(named.take(0)) =~= Seq::empty());
            assert(r@ =~= head + comma_separated(named.take(1)));
        } else {
            assert(r@ =~= head + comma_separated(named.take(i + 1)));
        }
        i += 1;
    }
    assert(named.take(count as int) =~= named);
    assert(ids@.len() < 5 ==> named =~= ids@);
    r.append("]");
    assert(text::decimal_of(ids@.len()) == text::decimal_of(ids@.len() as u64 as nat));
    assert(r@ =~= missing_warning(ids@)) by {
        reveal_strlit("]");
    }
    r
}

/// Checks that the entries of the lookup map exist and show their kanji.
pub fn validate(
    entries: &HashMap<i64, Vec<Sense>>,
    lookup_map: &TextMap<Vec<MapEntry>>,
) -> (r: ValidationResult)
    requires
        issue_count(entries@, lookup_map.pairs()) <= usize::MAX,
    ensures
        r.issues == issue_count(entries@, lookup_map.pairs()),
        are_warnings(entries@, lookup_map.pairs(), text::texts(r.warnings@)),
{
    broadcast use vstd::std_specs::hash::group_hash_axioms;

    let ghost pairs = lookup_map.pairs();
    let ghost known = entries@;
    let mut issues: usize = 0;
    let mut warnings: Vec<String> = Vec::new();
    let mut missing: Vec<i64> = Vec::new();
    let mut i: usize = 0;
    assert(text::texts(warnings@) =~= Seq::empty());
    while i < lookup_map.len()
        invariant
            i <= pairs.len(),
            pairs == lookup_map.pairs(),
            known == entries@,
            issue_count(known, pairs) <= usize::MAX,
            issues == issue_count(known, pairs.take(i as int)),
            text::texts(warnings@) == invisible_warnings(pairs.take(i as int)),
            are_missing_ids(known, pairs.take(i as int), missing@),
        decreases pairs.len() - i,
    {
        let surface = lookup_map.key_at(i);
        let list = lookup_map.value_at(i);
        let has_kanji = contains_kanji(surface.as_str());
        let ghost done = pairs.take(i as int);
        let ghost so_far = invisible_warnings(done);
        proof {
            assert(pairs.take(i + 1).drop_last() =~= done);
            lemma_issues_grow(known, pairs, i + 1);
        }
        let mut j: usize = 0;
        assert(list@.take(0) =~= Seq::empty());
        assert(so_far + list_warnings(surface@, list@.take(0)) =~= so_far);
        assert forall|id: i64| #[trigger] missing@.contains(id) <==> is_missing(known, done, id)
            || (!known.dom().contains(id) && exists|k: int|
            0 <= k < 0 && #[trigger] list@[k].entry_id == id) by {}
        while j < list.len()
            invariant
                j <= list@.len(),
                known == entries@,
                has_kanji == kana::has_kanji(surface@),
                issues == issue_count(known, done) + list_issues(
                    known,
                    surface@,
                    list@.take(j as int),
                ),
                issue_count(known, done) + list_issues(known, surface@, list@) <= usize::MAX,
                text::texts(warnings@) == so_far + list_warnings(surface@, list@.take(j as int)),
                ascending(missing@),
                forall|id: i64| #[trigger]
                    missing@.contains(id) <==> is_missing(known, done, id) || (!known.dom().contains(
                        id,
                    ) && exists|k: int| 0 <= k < j && #[trigger] list@[k].entry_id == id),
            decreases list@.len() - j,
        {
            let entry = &list[j];
            assert(list@.take(j + 1).drop_last() =~= list@.take(j as int));
            proof {
                lemma_list_issues_grow(known, surface@, list@, j + 1);
            }
            let ghost shown = warnings@;
            if has_kanji && entry.written_form.is_none() {
                warnings.push(warn_invisible(surface.as_str(), entry));
                issues += 1;
                assert(text::texts(warnings@) =~= text::texts(shown).push(
                    invisible_warning(surface@, *entry),
                ));
            }
            assert(text::texts(warnings@) =~= so_far + list_warnings(surface@, list@.take(j + 1)));
            let ghost ids = missing@;
            if !entries.contains_key(&entry.entry_id) {
                add_id(&mut missing, entry.entry_id);
                issues += 1;
            }
            assert forall|id: i64| #[trigger]
                missing@.contains(id) <==> is_missing(known, done, id) || (!known.dom().contains(id)
                    && exists|k: int| 0 <= k < j + 1 && #[trigger] list@[k].entry_id == id) by {
                assert(ids.contains(id) ==> missing@.contains(id));
                if exists|k: int| 0 <= k < j + 1 && #[trigger] list@[k].entry_id == id {
                    let k = choose|k: int| 0 <= k < j + 1 && #[trigger] list@[k].entry_id == id;
                    if k < j {
                        assert(exists|k: int| 0 <= k < j && #[trigger] list@[k].entry_id == id);
                    }
                }
                if id == entry.entry_id {
                    assert(list@[j as int].entry_id == id);
                }
            }
            j += 1;
        }
        assert(list@.take(j as int) =~= list@);
        assert forall|id: i64| #[trigger]
            missing@.contains(id) <==> is_missing(known, pairs.take(i + 1), id) by {
            lemma_missing_grows(known, pairs, i as int, id);
            assert(pairs[i as int].1@ == list@);
        }
        i += 1;
    }
    assert(pairs.take(i as int) =~= pairs);
    let ghost shown = warnings@;
    let ghost ids = missing@;
    if missing.len() > 0 {
        warnings.push(warn_missing(&missing));
        assert(text::texts(warnings@) =~= text::texts(shown).push(missing_warning(ids)));
    }
    assert(are_missing_ids(known, pairs, ids));
    ValidationResult { issues, warnings }
}

proof fn lemma_list_issues_grow(
    entries: Map<i64, Vec<Sense>>,
    surface: Seq<char>,
    list: Seq<MapEntry>,
    n: int,
)
    requires
        0 <= n <= list.len(),
    ensures
        list_issues(entries, surface, list.take(n)) <= list_issues(entries, surface, list),
    decreases list.len() - n,
{
    if n < list.len() {
        lemma_list_issues_grow(entries, surface, list, n + 1);
        assert(list.take(n + 1).drop_last() =~= list.take(n));
    } else {
        assert(list.take(n) =~= list);
    }
}

proof fn lemma_issues_grow(
    entries: Map<i64, Vec<Sense>>,
    pairs: Seq<(Seq<char>, Vec<MapEntry>)>,
    n: int,
)
    requires
        0 <= n <= pairs.len(),
    ensures
        issue_count(entries, pairs.take(n)) <= issue_count(entries, pairs),
    decreases pairs.len() - n,
{
    if n < pairs.len() {
        lemma_issues_grow(entries, pairs, n + 1);
        assert(pairs.take(n + 1).drop_last() =~= pairs.take(n));
    } else {
        assert(pairs.take(n) =~= pairs);
    }
}

proof fn lemma_missing_grows(
    entries: Map<i64, Vec<Sense>>,
    pairs: Seq<(Seq<char>, Vec<MapEntry>)>,
    n: int,
    id: i64,
)
    requires
        0 <= n < pairs.len(),
    ensures
        is_missing(entries, pairs.take(n + 1), id) <==> is_missing(entries, pairs.take(n), id) || (
        !entries.dom().contains(id) && exists|k: int|
            0 <= k < pairs[n].1@.len() && #[trigger] pairs[n].1@[k].entry_id == id),
{
    let longer = pairs.take(n + 1);
    let shorter = pairs.take(n);
    if is_missing(entries, shorter, id) {
        let (i, j) = choose|i: int, j: int|
            0 <= i < shorter.len() && 0 <= j < shorter[i].1@.len() && #[trigger] shorter[i].1@[j].entry_id
                == id;
        assert(longer[i].1@[j].entry_id == id);
    }
    if exists|k: int| 0 <= k < pairs[n].1@.len() && #[trigger] pairs[n].1@[k].entry_id == id {
        let k = choose|k: int|
            0 <= k < pairs[n].1@.len() && #[trigger] pairs[n].1@[k].entry_id == id;
        assert(longer[n].1@[k].entry_id == id);
    }
    if is_missing(entries, longer, id) {
        let (i, j) = choose|i: int, j: int|
            0 <= i < longer.len() && 0 <= j < longer[i].1@.len() && #[trigger] longer[i].1@[j].entry_id
                == id;
        if i < n {
            assert(shorter[i].1@[j].entry_id == id);
        } else {
            assert(pairs[n].1@[j].entry_id == id);
        }
    }
}

/// A dictionary whose entries all exist and show their kanji has no issues, and without issues
/// there are no warnings.
pub proof fn law_no_issues_no_warnings(
    entries: Map<i64, Vec<Sense>>,
    pairs: Seq<(Seq<char>, Vec<MapEntry>)>,
    warnings: Seq<Seq<char>>,
)
    requires
        issue_count(entries, pairs) == 0,
        are_warnings(entries, pairs, warnings),
    ensures
        warnings.len() == 0,
    decreases pairs.len(),
{
    let ids = choose|ids: Seq<i64>| #[trigger]
        are_missing_ids(entries, pairs, ids) && warnings == (if ids.len() == 0 {
            invisible_warnings(pairs)
        } else {
            invisible_warnings(pairs).push(missing_warning(ids))
        });
    lemma_no_issues(entries, pairs);
    if ids.len() > 0 {
        assert(ids.contains(ids[0]));
    }
}

proof fn lemma_no_issues(
    entries: Map<i64, Vec<Sense>>,
    pairs: Seq<(Seq<char>, Vec<MapEntry>)>,
)
    requires
        issue_count(entries, pairs) == 0,
    ensures
        invisible_warnings(pairs).len() == 0,
        forall|id: i64| !is_missing(entries, pairs, id),
    decreases pairs.len(),
{
    if pairs.len() > 0 {
        let n = pairs.len() - 1;
        lemma_no_issues(entries, pairs.drop_last());
        lemma_no_list_issues(entries, pairs[n].0, pairs[n].1@);
        assert(pairs.take(n + 1) =~= pairs);
        assert(pairs.take(n) =~= pairs.drop_last());
        assert forall|id: i64| !is_missing(entries, pairs, id) by {
            lemma_missing_grows(entries, pairs, n, id);
        }
    }
}

proof fn lemma_no_list_issues(
    entries: Map<i64, Vec<Sense>>,
    surface: Seq<char>,
    list: Seq<MapEntry>,
)
    requires
        list_issues(entries, surface, list) == 0,
    ensures
        list_warnings(surface, list).len() == 0,
        forall|k: int|
            0 <= k < list.len() ==> entries.dom().contains(#[trigger] list[k].entry_id),
    decreases list.len(),
{
    if list.len() > 0 {
        let shorter = list.drop_last();
        lemma_no_list_issues(entries, surface, shorter);
        assert forall|k: int| 0 <= k < list.len() implies entries.dom().contains(
            #[trigger] list[k].entry_id,
        ) by {
            if k < shorter.len() {
                assert(shorter[k] == list[k]);
            }
        }
    }
}

/// The data that a dictionary file holds.
pub struct DictionaryData {
    pub entries: HashMap<i64, Vec<Sense>>,
    pub lookup_map: TextMap<Vec<MapEntry>>,
    pub kanji_entries: TextMap<KanjiEntry>,
    pub deconjugator_rules: Vec<Rule>,
}

impl DictionaryData {
    /// An engine for this data that shows at most `max_dict_entries` entries.
    pub fn into_lookup_engine(self, max_dict_entries: usize) -> (r: LookupEngine)
        requires
            self.lookup_map.wf(),
            self.kanji_entries.wf(),
            issue_count(self.entries@, self.lookup_map.pairs()) <= usize::MAX,
        ensures
            r.wf(),
            r.order() == Seq::<Seq<char>>::empty(),
            r.dictionary.entries == self.entries,
            r.dictionary.lookup_map == self.lookup_map,
            r.dictionary.kanji_entries == self.kanji_entries,
            r.dictionary.deconjugator.rules == self.deconjugator_rules,
            r.max_dict_entries == max_dict_entries,
            r.validation_issues == issue_count(self.entries@, self.lookup_map.pairs()),
            are_warnings(
                self.entries@,
                self.lookup_map.pairs(),
                text::texts(r.validation_warnings@),
            ),
    {
        LookupEngine::new(
            self.entries,
            self.lookup_map,
            self.kanji_entries,
            Deconjugator::new(self.deconjugator_rules),
            max_dict_entries,
        )
    }
}

/// An error of the `zip` crate.
#[verifier::external_type_specification]
#[verifier::external_body]
pub struct ExZipError(zip::result::ZipError);

/// The uncompressed size that a zip archive states for its file `name`; `None` where the bytes
/// are no archive that can be read or hold no such file.
pub uninterp spec fn zip_file_size(archive: Seq<u8>, name: Seq<char>) -> Option<u64>;

/// The uncompressed contents of the file `name` in a zip archive; `None` where they cannot be
/// read.
pub uninterp spec fn zip_file_contents(archive: Seq<u8>, name: Seq<char>) -> Option<Seq<u8>>;

/// Opens the archive with `zip::ZipArchive::new`, looks the file up with `by_name` and returns
/// its `size`. The result depends on the bytes and the name alone.
#[verifier::external_body]
fn archived_size(archive: &[u8], name: &str) -> (r: Result<u64, zip::result::ZipError>)
    ensures
        match r {
            Ok(size) => zip_file_size(archive@, name@) == Some(size),
            Err(_) => zip_file_size(archive@, name@) is None,
        },
{
    let mut opened = zip::ZipArchive::new(std::io::Cursor::new(archive))?;
    let file = opened.by_name(name)?;
    Ok(file.size())
}

/// Opens the archive with `zip::ZipArchive::new`, looks the file up with `by_name` and reads it
/// to its end. The result depends on the bytes and the name alone.
#[verifier::external_body]
fn archived_contents(archive: &[u8], name: &str) -> (r: Result<Vec<u8>, zip::result::ZipError>)
    ensures
        match r {
            Ok(contents) => zip_file_contents(archive@, name@) == Some(contents@),
            Err(_) => zip_file_contents(archive@, name@) is None,
        },
{
    let mut opened = zip::ZipArchive::new(std::io::Cursor::new(archive))?;
    let mut file = opened.by_name(name)?;
    let mut contents: Vec<u8> = Vec::new();
    file.read_to_end(&mut contents)?;
    Ok(contents)
}

/// Why no dictionary could be taken out of an archive.
#[derive(Debug)]
pub enum ExtractError {
    /// The archive or the file in it cannot be read.
    Archive(zip::result::ZipError),
    /// The dictionary is larger than allowed.
    TooLarge,
}

/// Whether `result` is what taking a file out of an archive gives, where the archive states this
/// size for it and it has these contents; either is missing where it cannot be read.
pub open spec fn is_extracted(
    stated: Option<u64>,
    contents: Option<Seq<u8>>,
    result: Result<Vec<u8>, ExtractError>,
) -> bool {
    match stated {
        None => result matches Err(ExtractError::Archive(_)),
        Some(size) => if size > MAX_DOWNLOAD_SIZE {
            result matches Err(ExtractError::TooLarge)
        } else {
            match contents {
                None => result matches Err(ExtractError::Archive(_)),
                Some(contents) => result is Ok && result->Ok_0@ == contents,
            }
        },
    }
}

/// Whether a dictionary of the stated size may be extracted.
pub fn size_is_supported(size: u64) -> (r: bool)
    ensures
        r == (size <= MAX_DOWNLOAD_SIZE),
{
    size <= MAX_DOWNLOAD_SIZE
}

/// The file `name` of a zip archive, unless it cannot be read or states a size that is too
/// large.
pub fn extract_file(archive: &[u8], name: &str) -> (r: Result<Vec<u8>, ExtractError>)
    ensures
        is_extracted(zip_file_size(archive@, name@), zip_file_contents(archive@, name@), r),
{
    let size: u64 = match archived_size(archive, name) {
        Ok(size) => size,
        Err(error) => return Err(ExtractError::Archive(error)),
    };
    if !size_is_supported(size) {
        return Err(ExtractError::TooLarge);
    }
    match archived_contents(archive, name) {
        Ok(contents) => Ok(contents),
        Err(error) => Err(ExtractError::Archive(error)),
    }
}

/// The dictionary in a downloaded archive.
pub fn extract_dictionary(archive: &[u8]) -> (r: Result<Vec<u8>, ExtractError>)
    ensures
        is_extracted(
            zip_file_size(archive@, DICTIONARY_FILENAME@),
            zip_file_contents(archive@, DICTIONARY_FILENAME@),
            r,
        ),
{
    extract_file(archive, DICTIONARY_FILENAME)
}

/// Each entry under a text with a kanji that has no written form is an issue, and each that does
/// not exist is one; texts and their lists count one by one.
pub proof fn law_issues_are_counted_one_by_one(
    entries: Map<i64, Vec<Sense>>,
    pairs: Seq<(Seq<char>, Vec<MapEntry>)>,
    pair: (Seq<char>, Vec<MapEntry>),
    list: Seq<MapEntry>,
    entry: MapEntry,
)
    ensures
        issue_count(entries, Seq::empty()) == 0,
        issue_count(entries, pairs.push(pair)) == issue_count(entries, pairs) + list_issues(
            entries,
            pair.0,
            pair.1@,
        ),
        list_issues(entries, pair.0, Seq::empty()) == 0,
        ({
            let without_kanji = entry.written_form is None && exists|i: int|
                0 <= i < pair.0.len() && 0x4e00 <= #[trigger] pair.0[i] as int <= 0x9faf;
            let missing = !entries.contains_key(entry.entry_id);
            list_issues(entries, pair.0, list.push(entry)) - list_issues(entries, pair.0, list)
                == (if without_kanji && missing {
                2int
            } else if without_kanji || missing {
                1
            } else {
                0
            })
        }),
{
    assert(pairs.push(pair).drop_last() =~= pairs);
    assert(list.push(entry).drop_last() =~= list);
    kana::law_kanji_are_told_by_their_codes(pair.0);
}

/// There is a warning for each entry without a written form under a text with a kanji, in their
/// order; it holds the text and the number of the entry.
pub proof fn law_entries_without_kanji_are_warned_of(
    pairs: Seq<(Seq<char>, Vec<MapEntry>)>,
    pair: (Seq<char>, Vec<MapEntry>),
    list: Seq<MapEntry>,
    entry: MapEntry,
)
    ensures
        invisible_warnings(Seq::empty()).len() == 0,
        invisible_warnings(pairs.push(pair)) == invisible_warnings(pairs) + list_warnings(
            pair.0,
            pair.1@,
        ),
        list_warnings(pair.0, Seq::empty()).len() == 0,
        ({
            let without_kanji = entry.written_form is None && exists|i: int|
                0 <= i < pair.0.len() && 0x4e00 <= #[trigger] pair.0[i] as int <= 0x9faf;
            list_warnings(pair.0, list.push(entry)) == (if without_kanji {
                list_warnings(pair.0, list).push(
                    ("Map entry under kanji key '"@ + pair.0)
                        + "' has written_form=None (entry will display incorrectly) — entry_id="@
                        + text::signed_decimal_of(entry.entry_id as int),
                )
            } else {
                list_warnings(pair.0, list)
            })
        }),
{
    assert(pairs.push(pair).drop_last() =~= pairs);
    assert(list.push(entry).drop_last() =~= list);
    kana::law_kanji_are_told_by_their_codes(pair.0);
}

/// The last warning, where entries are missing, counts them and names the five least, with commas
/// between them.
pub proof fn law_missing_entries_are_named(
    entries: Map<i64, Vec<Sense>>,
    pairs: Seq<(Seq<char>, Vec<MapEntry>)>,
    warnings: Seq<Seq<char>>,
) -> (ids: Seq<i64>)
    requires
        are_warnings(entries, pairs, warnings),
    ensures
        forall|i: int, j: int|
            #![trigger pairs[i].1@[j]]
            0 <= i < pairs.len() && 0 <= j < pairs[i].1@.len() && !entries.contains_key(
                pairs[i].1@[j].entry_id,
            ) ==> ids.contains(pairs[i].1@[j].entry_id),
        forall|k: int|
            0 <= k < ids.len() ==> !entries.contains_key(#[trigger] ids[k]) && exists|i: int, j: int|
                0 <= i < pairs.len() && 0 <= j < pairs[i].1@.len() && (
                #[trigger] pairs[i].1@[j]).entry_id == ids[k],
        forall|k: int, l: int|
            #![trigger ids[k], ids[l]]
            0 <= k < l < ids.len() ==> ids[k] < ids[l],
        ids.len() == 0 ==> warnings == invisible_warnings(pairs),
        ids.len() > 0 ==> warnings == invisible_warnings(pairs).push(
            text::decimal_of(ids.len())
                + " entry ID(s) referenced in lookup_map have no matching core entry — first few: ["@
                + comma_separated(
                if ids.len() > 5 {
                    ids.subrange(0, 5)
                } else {
                    ids
                },
            ) + "]"@,
        ),
{
    let ids = choose|ids: Seq<i64>| #[trigger]
        are_missing_ids(entries, pairs, ids) && warnings == (if ids.len() == 0 {
            invisible_warnings(pairs)
        } else {
            invisible_warnings(pairs).push(missing_warning(ids))
        });
    assert forall|i: int, j: int|
        #![trigger pairs[i].1@[j]]
        0 <= i < pairs.len() && 0 <= j < pairs[i].1@.len() && !entries.contains_key(
            pairs[i].1@[j].entry_id,
        ) implies ids.contains(pairs[i].1@[j].entry_id) by {
        assert(is_missing(entries, pairs, pairs[i].1@[j].entry_id));
    }
    assert forall|k: int| 0 <= k < ids.len() implies !entries.contains_key(#[trigger] ids[k])
        && exists|i: int, j: int|
        0 <= i < pairs.len() && 0 <= j < pairs[i].1@.len() && (#[trigger] pairs[i].1@[j]).entry_id
            == ids[k] by {
        assert(ids.contains(ids[k]));
        assert(is_missing(entries, pairs, ids[k]));
        let (i, j) = choose|i: int, j: int|
            0 <= i < pairs.len() && 0 <= j < pairs[i].1@.len() && #[trigger] pairs[i].1@[j].entry_id
                == ids[k];
        assert(pairs[i].1@[j].entry_id == ids[k]);
    }
    assert(ids.len() >= 5 ==> ids.take(5) =~= ids.subrange(0, 5));
    assert(ids.len() == 5 ==> ids.take(5) =~= ids);
    ids
}

/// Numbers are separated by a comma and a blank.
pub proof fn law_commas_separate_numbers(ids: Seq<i64>, id: i64)
    ensures
        comma_separated(Seq::empty()).len() == 0,
        ids.len() == 0 ==> comma_separated(ids.push(id)) == text::signed_decimal_of(id as int),
        ids.len() > 0 ==> comma_separated(ids.push(id)) == comma_separated(ids) + seq![',', ' ']
            + text::signed_decimal_of(id as int),
{
    reveal_strlit(", ");
    assert(", "@ =~= seq![',', ' ']);
    assert(ids.push(id).drop_last() =~= ids);
}

/// A file is taken out whole where the archive can be read and states no more than 256 MiB for
/// it; a larger one is refused, whatever it holds.
pub proof fn law_large_files_are_refused(
    stated: Option<u64>,
    contents: Option<Seq<u8>>,
    result: Result<Vec<u8>, ExtractError>,
)
    requires
        is_extracted(stated, contents, result),
    ensures
        result is Ok <==> stated is Some && stated->0 <= 256 * 1024 * 1024 && contents is Some,
        result is Ok ==> result->Ok_0@ == contents->0,
        result is Err && result->Err_0 is TooLarge <==> stated is Some && stated->0 > 256 * 1024
            * 1024,
{
}

} // verus!
