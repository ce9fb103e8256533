use std::collections::{HashMap, HashSet};
use std::io::{Cursor, Write};

use meikipop::dictionary::customdict;
use meikipop::dictionary::customdict::{extract_dictionary, extract_file, validate, ExtractError};
use meikipop::dictionary::deconjugator::{Deconjugator, Form, OneOrMany, Rule};
use meikipop::dictionary::engine::LookupEngine;
use meikipop::dictionary::entry::{
    KanjiComponent, KanjiEntry, KanjiExample, MapEntry, Sense,
};
use meikipop::dictionary::kana::{contains_kanji, hira_to_kata, kata_to_hira};
use meikipop::dictionary::lookup::{Dictionary, Hit, CACHE_SIZE, DEFAULT_FREQ};
use meikipop::dictionary::ranking::{priority_parts, PriorityParts};
use meikipop::dictionary::versioned;
use meikipop::dictionary::versioned::{load_or_convert, source_mtime, LoadEvent, LoadStep, SourceStamp};
use meikipop::text_map::TextMap;
use serde_json::Value;
use zip::write::SimpleFileOptions;

fn priority(parts: PriorityParts) -> f64 {
    let mut priority = parts.match_len as f64;
    if parts.ranked {
        priority += 10.0 * (1.0 - (parts.freq as f64).ln() / (DEFAULT_FREQ as f64).ln());
    }
    if parts.kana_bonus {
        priority += 3.0;
    }
    priority - parts.process_len as f64
}

fn priority_bits(parts: PriorityParts) -> u64 {
    priority(parts).to_bits()
}

fn one_or_many(value: &Value) -> Option<OneOrMany<String>> {
    match value {
        Value::String(text) => Some(OneOrMany::One(text.clone())),
        Value::Array(items) => Some(OneOrMany::Many(
            items
                .iter()
                .map(|item| item.as_str().unwrap().to_owned())
                .collect(),
        )),
        _ => None,
    }
}

fn rules_of(value: &Value) -> Vec<Rule> {
    value
        .as_array()
        .unwrap()
        .iter()
        .map(|rule| Rule {
            rule_type: rule["type"].as_str().map(str::to_owned),
            dec_end: one_or_many(&rule["dec_end"]),
            con_end: one_or_many(&rule["con_end"]),
            dec_tag: one_or_many(&rule["dec_tag"]),
            con_tag: one_or_many(&rule["con_tag"]),
            detail: rule["detail"].as_str().unwrap_or("").to_owned(),
        })
        .collect()
}

fn rules(json: &str) -> Vec<Rule> {
    rules_of(&serde_json::from_str(json).unwrap())
}

fn as_set(forms: Vec<Form>) -> HashSet<Form> {
    let count = forms.len();
    let set: HashSet<Form> = forms.into_iter().collect();
    assert_eq!(set.len(), count);
    set
}

#[test]
fn trims_and_returns_the_original_form() {
    let deconjugator = Deconjugator::new(Vec::new());

    assert_eq!(
        as_set(deconjugator.deconjugate("  食べる  ")),
        HashSet::from([Form::new("食べる")])
    );
    assert!(deconjugator.deconjugate("  ").is_empty());
}

#[test]
fn applies_a_starter_rule_and_a_followup_rule() {
    let deconjugator = Deconjugator::new(rules(
        r#"[
            {
                "type": "stdrule",
                "con_end": "ました",
                "dec_end": "る",
                "dec_tag": "v1",
                "detail": "polite past"
            },
            {
                "type": "neverfinalrule",
                "con_end": "る",
                "dec_end": "",
                "con_tag": "v1",
                "detail": "remove dictionary ending"
            }
        ]"#,
    ));

    let forms = as_set(deconjugator.deconjugate("食べました"));

    assert!(forms.contains(&Form::new("食べました")));
    assert!(forms.contains(&Form::with_details(
        "食べる",
        vec!["polite past".into()],
        vec!["v1".into()],
    )));
    assert!(forms.contains(&Form::with_details(
        "食べ",
        vec!["polite past".into(), "remove dictionary ending".into()],
        Vec::new(),
    )));
    assert_eq!(forms.len(), 3);
}

#[test]
fn supports_parallel_rule_arrays() {
    let deconjugator = Deconjugator::new(rules(
        r#"[{
            "type": "stdrule",
            "con_end": ["った", "んだ"],
            "dec_end": ["う", "む"],
            "dec_tag": ["v5u", "v5m"],
            "detail": "past"
        }]"#,
    ));

    assert!(deconjugator
        .deconjugate("読んだ")
        .contains(&Form::with_details(
            "読む",
            vec!["past".into()],
            vec!["v5m".into()],
        )));
}

#[test]
fn more_rules_keep_the_forms_of_fewer() {
    let few = r#"[{"type":"stdrule","con_end":"ました","dec_end":"る","dec_tag":"v1","detail":"past"}]"#;
    let many = r#"[
        {"type":"stdrule","con_end":"ました","dec_end":"る","dec_tag":"v1","detail":"past"},
        {"type":"stdrule","con_end":"した","dec_end":"す","dec_tag":"v5s","detail":"past"}
    ]"#;
    let fewer = as_set(Deconjugator::new(rules(few)).deconjugate("食べました"));
    let more = as_set(Deconjugator::new(rules(many)).deconjugate("食べました"));

    assert!(fewer.is_subset(&more));
    assert!(more.contains(&Form::with_details(
        "食べます",
        vec!["past".into()],
        vec!["v5s".into()],
    )));
    assert!(more.iter().all(|form| form.process.len() <= 10));
}

fn map_entry(
    written_form: Option<&str>,
    reading: Option<&str>,
    frequency: i64,
    entry_id: i64,
) -> MapEntry {
    MapEntry {
        written_form: written_form.map(str::to_owned),
        reading: reading.map(str::to_owned),
        frequency,
        entry_id,
    }
}

fn simple_entry(written_form: Option<&str>, entry_id: i64) -> MapEntry {
    map_entry(written_form, Some("かな"), 10, entry_id)
}

fn text_map<V>(pairs: Vec<(&str, V)>) -> TextMap<V> {
    let mut map = TextMap::new();
    for (key, value) in pairs {
        map.insert(key.to_owned(), value);
    }
    map
}

#[test]
fn customdict_valid_dictionary_has_no_issues() {
    let entries = HashMap::from([(1, Vec::new())]);
    let lookup_map = text_map(vec![("かな", vec![simple_entry(None, 1)])]);

    let result = validate(&entries, &lookup_map);

    assert_eq!(result.issues, 0);
    assert!(result.warnings.is_empty());
}

#[test]
fn customdict_reports_invisible_kanji_entries_and_missing_ids() {
    let entries = HashMap::new();
    let lookup_map = text_map(vec![("猫", vec![simple_entry(None, 42)])]);

    let result = validate(&entries, &lookup_map);

    assert_eq!(result.issues, 2);
    assert_eq!(result.warnings.len(), 2);
    assert!(result.warnings[0].contains("written_form=None"));
    assert!(result.warnings[1].contains("42"));
}

fn archive(names: &[(&str, &[u8])]) -> Vec<u8> {
    let mut archive = zip::ZipWriter::new(Cursor::new(Vec::new()));
    for (name, contents) in names {
        archive
            .start_file(*name, SimpleFileOptions::default())
            .unwrap();
        archive.write_all(contents).unwrap();
    }
    archive.finish().unwrap().into_inner()
}

#[test]
fn customdict_extracts_only_the_dictionary_file() {
    let bytes = archive(&[
        ("ignored.txt", b"ignored"),
        (customdict::DICTIONARY_FILENAME, b"cbor data"),
    ]);

    assert_eq!(extract_dictionary(&bytes).unwrap(), b"cbor data");

    let bytes = archive(&[
        ("ignored.txt", b"ignored"),
        (versioned::DICTIONARY_FILENAME, b"pickle data"),
    ]);

    assert_eq!(
        extract_file(&bytes, versioned::DICTIONARY_FILENAME).unwrap(),
        b"pickle data"
    );
}

#[test]
fn archives_without_the_file_are_refused() {
    let bytes = archive(&[("ignored.txt", b"ignored")]);

    assert!(matches!(
        extract_dictionary(&bytes),
        Err(ExtractError::Archive(_))
    ));
    assert!(matches!(
        extract_dictionary(b"no archive"),
        Err(ExtractError::Archive(_))
    ));
}

#[test]
fn only_sizes_up_to_the_limit_are_supported() {
    assert!(customdict::size_is_supported(0));
    assert!(customdict::size_is_supported(customdict::MAX_DOWNLOAD_SIZE));
    assert!(!customdict::size_is_supported(customdict::MAX_DOWNLOAD_SIZE + 1));
}

fn texts(value: &Value) -> Vec<String> {
    value
        .as_array()
        .unwrap()
        .iter()
        .map(|item| item.as_str().unwrap().to_owned())
        .collect()
}

fn entries_of(value: &Value) -> HashMap<i64, Vec<Sense>> {
    value
        .as_object()
        .unwrap()
        .iter()
        .map(|(id, senses)| {
            let senses = senses
                .as_array()
                .unwrap()
                .iter()
                .map(|sense| Sense {
                    glosses: texts(&sense["glosses"]),
                    pos: texts(&sense["pos"]),
                    tags: texts(&sense["tags"]),
                })
                .collect();
            (id.parse().unwrap(), senses)
        })
        .collect()
}

fn lookup_map_of(value: &Value) -> TextMap<Vec<MapEntry>> {
    let mut map = TextMap::new();
    for (key, entries) in value.as_object().unwrap() {
        let entries = entries
            .as_array()
            .unwrap()
            .iter()
            .map(|entry| {
                map_entry(
                    entry[0].as_str(),
                    entry[1].as_str(),
                    entry[2].as_i64().unwrap(),
                    entry[3].as_i64().unwrap(),
                )
            })
            .collect();
        map.insert(key.clone(), entries);
    }
    map
}

fn kanji_entries_of(value: &Value) -> TextMap<KanjiEntry> {
    let mut map = TextMap::new();
    for (key, kanji) in value.as_object().unwrap() {
        let entry = KanjiEntry {
            character: kanji["character"].as_str().unwrap().to_owned(),
            meanings: texts(&kanji["meanings"]),
            readings: texts(&kanji["readings"]),
            components: kanji["components"]
                .as_array()
                .unwrap()
                .iter()
                .map(|component| KanjiComponent {
                    c: component["c"].as_str().unwrap().to_owned(),
                    m: component["m"].as_str().map(str::to_owned),
                })
                .collect(),
            examples: kanji["examples"]
                .as_array()
                .unwrap()
                .iter()
                .map(|example| KanjiExample {
                    w: example["w"].as_str().unwrap().to_owned(),
                    r: example["r"].as_str().unwrap().to_owned(),
                    m: example["m"].as_str().unwrap().to_owned(),
                })
                .collect(),
        };
        map.insert(key.clone(), entry);
    }
    map
}

const CAT: &str = r#"{
    "format_version": 1,
    "source_size": 123,
    "source_mtime_ns": 456,
    "entries": {
        "1": [{"glosses": ["cat"], "pos": ["n"], "tags": []}]
    },
    "lookup_map": {
        "猫": [["猫", "ねこ", 10, 1]]
    },
    "kanji_entries": {
        "猫": {
            "character": "猫",
            "meanings": ["cat"],
            "readings": ["ねこ"],
            "components": [{"c": "犭"}],
            "examples": [{"w": "子猫", "r": "こねこ", "m": "kitten"}]
        }
    },
    "deconjugator_rules": []
}"#;

#[test]
fn loads_cbor_dictionary() {
    let payload: Value = serde_json::from_str(CAT).unwrap();
    let mut cbor = Vec::new();
    ciborium::into_writer(&payload, &mut cbor).unwrap();
    let value: Value = ciborium::from_reader(cbor.as_slice()).unwrap();

    let dictionary = customdict::DictionaryData {
        entries: entries_of(&value["entries"]),
        lookup_map: lookup_map_of(&value["lookup_map"]),
        kanji_entries: kanji_entries_of(&value["kanji_entries"]),
        deconjugator_rules: rules_of(&value["deconjugator_rules"]),
    };

    assert_eq!(dictionary.entries.len(), 1);
    assert_eq!(dictionary.lookup_map.get("猫").unwrap()[0].entry_id, 1);
    assert_eq!(dictionary.kanji_entries.get("猫").unwrap().components[0].m, None);

    let engine = dictionary.into_lookup_engine(10);
    assert_eq!(
        engine.lookup("猫", priority_bits)[0].written_form.as_deref(),
        Some("猫")
    );
    assert_eq!(engine.get_kanji_entry("猫").unwrap().character, "猫");
    assert_eq!(engine.validate().0, 0);
}

fn versioned_data(json: &str) -> Result<versioned::DictionaryData, String> {
    let value: Value = serde_json::from_str(json).unwrap();
    let empty = Value::Object(serde_json::Map::new());
    let kanji = if value["kanji_entries"].is_null() {
        &empty
    } else {
        &value["kanji_entries"]
    };
    versioned::DictionaryData {
        format_version: value["format_version"].as_u64().unwrap() as u32,
        source_size: value["source_size"].as_u64().unwrap(),
        source_mtime_ns: value["source_mtime_ns"].as_u64().unwrap(),
        entries: entries_of(&value["entries"]),
        lookup_map: lookup_map_of(&value["lookup_map"]),
        kanji_entries: kanji_entries_of(kanji),
        deconjugator_rules: if value["deconjugator_rules"].is_null() {
            Vec::new()
        } else {
            rules_of(&value["deconjugator_rules"])
        },
    }
    .check_version()
}

#[test]
fn loads_the_versioned_json_dictionary() {
    let dictionary = versioned_data(CAT).unwrap();

    assert_eq!(dictionary.source_size, 123);
    assert_eq!(dictionary.source_mtime_ns, 456);
    assert_eq!(dictionary.entries.len(), 1);
    assert_eq!(dictionary.lookup_map.get("猫").unwrap()[0].entry_id, 1);
    assert_eq!(dictionary.kanji_entries.get("猫").unwrap().components[0].m, None);
    assert!(dictionary.matches_source(123, 456));
    assert!(!dictionary.matches_source(123, 457));

    let engine = dictionary.into_lookup_engine(10);
    assert_eq!(
        engine.lookup("猫", priority_bits)[0].written_form.as_deref(),
        Some("猫")
    );
    assert_eq!(engine.get_kanji_entry("猫").unwrap().character, "猫");
}

#[test]
fn rejects_an_unknown_json_format_version() {
    let json = r#"{
        "format_version": 2,
        "source_size": 0,
        "source_mtime_ns": 0,
        "entries": {},
        "lookup_map": {}
    }"#;

    let error = match versioned_data(json) {
        Ok(_) => panic!("another version was accepted"),
        Err(error) => error,
    };

    assert!(error.contains("Unsupported dictionary format version 2"));
}

#[test]
fn reuses_current_json_and_reconverts_stale_json() {
    let copy = SourceStamp {
        size: 11,
        mtime_ns: 1_000,
    };
    let step = load_or_convert(LoadStep::ReadCopy, LoadEvent::Copy(Ok(copy)));
    assert!(matches!(step, LoadStep::StampSource(stamp) if stamp == copy));
    let step = load_or_convert(step, LoadEvent::Source(Ok(copy)));
    assert!(matches!(step, LoadStep::Use));

    let changed = SourceStamp {
        size: 19,
        mtime_ns: 2_000,
    };
    let step = load_or_convert(LoadStep::ReadCopy, LoadEvent::Copy(Ok(copy)));
    let step = load_or_convert(step, LoadEvent::Source(Ok(changed)));
    assert!(matches!(step, LoadStep::Convert));
    let failed = load_or_convert(
        step,
        LoadEvent::Converted(Err("Could not start dictionary converter: none".into())),
    );
    assert!(matches!(
        failed,
        LoadStep::Fail(message) if message.contains("Could not start dictionary converter")
    ));
}

#[test]
fn a_new_copy_has_to_match_its_source() {
    let old = SourceStamp { size: 1, mtime_ns: 1 };
    let new = SourceStamp { size: 2, mtime_ns: 2 };
    let step = load_or_convert(LoadStep::ReadCopy, LoadEvent::Copy(Err("none".into())));
    assert!(matches!(step, LoadStep::Convert));
    let step = load_or_convert(step, LoadEvent::Converted(Ok(())));
    assert!(matches!(step, LoadStep::ReadNewCopy));
    let step = load_or_convert(step, LoadEvent::Copy(Ok(old)));
    let step = load_or_convert(step, LoadEvent::Source(Ok(new)));
    assert!(matches!(
        step,
        LoadStep::Fail(message)
            if message == "Converted dictionary JSON does not match its source pickle"
    ));
}

#[test]
fn modification_times_have_to_fit() {
    assert_eq!(source_mtime(5), Ok(5));
    assert_eq!(
        source_mtime(u64::MAX as u128 + 1),
        Err("Dictionary modification time is out of range".to_owned())
    );
}

fn engine(
    entries: HashMap<i64, Vec<Sense>>,
    lookup_map: TextMap<Vec<MapEntry>>,
    max_dict_entries: usize,
) -> LookupEngine {
    LookupEngine::new(
        entries,
        lookup_map,
        TextMap::new(),
        Deconjugator::new(rules("[]")),
        max_dict_entries,
    )
}

#[test]
fn detects_kanji() {
    assert!(contains_kanji("食べる"));
    assert!(!contains_kanji("たべる"));
    assert!(!contains_kanji(""));
}

#[test]
fn prepares_lookup_text_like_upstream() {
    let engine = engine(HashMap::new(), TextMap::new(), 10);

    assert_eq!(engine.prepare_lookup_text("  食べました  ", 4), "食べまし");
    assert_eq!(engine.prepare_lookup_text("猫。犬", 10), "猫");
    assert_eq!(engine.prepare_lookup_text("猫!犬", 10), "猫");
    assert_eq!(engine.prepare_lookup_text("  ", 10), "");
    assert_eq!(engine.prepare_lookup_text("猫", 0), "");
}

fn calculate_priority(
    written_form: Option<&str>,
    freq: i64,
    form: &Form,
    match_len: usize,
    original_lookup: &str,
) -> f64 {
    let entry = map_entry(written_form, None, freq, 1);
    let hit = Hit {
        entry: &entry,
        form: form.clone(),
        match_len,
    };
    priority(priority_parts(&hit, original_lookup))
}

#[test]
fn calculates_upstream_priority_components() {
    let plain = Form::new("たべる");
    assert_eq!(
        calculate_priority(Some("たべる"), DEFAULT_FREQ, &plain, 3, "たべる"),
        6.0
    );

    let deconjugated = Form::with_details(
        "食べる",
        vec!["past".into(), "polite".into()],
        vec!["v1".into()],
    );
    assert_eq!(
        calculate_priority(Some("食べる"), DEFAULT_FREQ, &deconjugated, 3, "食べた"),
        1.0
    );

    let frequency_priority = calculate_priority(Some("食べる"), 1, &plain, 3, "食べる");
    assert!((frequency_priority - 13.0).abs() < 1e-10);
}

#[test]
fn gets_exact_and_kana_fallback_entries() {
    let lookup_map = text_map(vec![(
        "タベル",
        vec![map_entry(Some("食べる"), Some("たべる"), 10, 1)],
    )]);
    let dictionary = Dictionary {
        entries: HashMap::new(),
        lookup_map,
        kanji_entries: TextMap::new(),
        deconjugator: Deconjugator::new(Vec::new()),
    };
    let entry = map_entry(Some("食べる"), Some("たべる"), 10, 1);

    assert_eq!(dictionary.get_map_entries("タベル").unwrap()[..], [entry]);
    let entry = map_entry(Some("食べる"), Some("たべる"), 10, 1);
    assert_eq!(dictionary.get_map_entries("たべる").unwrap()[..], [entry]);
    assert!(dictionary.get_map_entries("ない").is_none());
}

#[test]
fn looks_up_prefixes_and_builds_dictionary_entries() {
    let entries = HashMap::from([(
        1,
        vec![Sense {
            glosses: vec!["to eat".into()],
            pos: vec!["v1".into()],
            tags: vec![],
        }],
    )]);
    let lookup_map = text_map(vec![(
        "食べる",
        vec![map_entry(Some("食べる"), Some("たべる"), 100, 1)],
    )]);
    let engine = engine(entries, lookup_map, 10);

    let result = engine.lookup("食べるもの", priority_bits);

    assert_eq!(result.len(), 1);
    assert_eq!(result[0].written_form.as_deref(), Some("食べる"));
    assert_eq!(result[0].reading, "たべる");
    assert_eq!(result[0].id, 1);
}

#[test]
fn longer_matches_come_first_and_the_limit_holds() {
    let sense = |gloss: &str| {
        vec![Sense {
            glosses: vec![gloss.to_owned()],
            pos: vec!["n".into()],
            tags: vec![],
        }]
    };
    let entries = HashMap::from([(1, sense("sun")), (2, sense("Japan")), (3, sense("Japanese"))]);
    let lookup_map = text_map(vec![
        ("日", vec![map_entry(Some("日"), Some("ひ"), 10, 1)]),
        ("日本", vec![map_entry(Some("日本"), Some("にほん"), 10, 2)]),
        ("日本語", vec![map_entry(Some("日本語"), Some("にほんご"), 10, 3)]),
    ]);
    let engine = engine(entries, lookup_map, 2);

    let result = engine.lookup("日本語", priority_bits);

    let ids: Vec<i64> = result.iter().map(|entry| entry.id).collect();
    assert_eq!(ids, [3, 2]);
}

#[test]
fn words_found_twice_are_shown_once() {
    let entries = HashMap::from([(
        1,
        vec![Sense {
            glosses: vec!["cat".into()],
            pos: vec!["n".into()],
            tags: vec![],
        }],
    )]);
    let lookup_map = text_map(vec![(
        "ねこ",
        vec![
            map_entry(None, Some("ねこ"), 10, 1),
            map_entry(None, Some("ねこ"), 20, 1),
        ],
    )]);
    let engine = engine(entries, lookup_map, 10);

    assert_eq!(engine.lookup("ねこ", priority_bits).len(), 1);
}

fn cat_kanji() -> KanjiEntry {
    KanjiEntry {
        character: "猫".into(),
        meanings: vec!["cat".into()],
        readings: vec!["ビョウ".into(), "ねこ".into()],
        components: vec![KanjiComponent {
            c: "犭".into(),
            m: None,
        }],
        examples: vec![KanjiExample {
            w: "子猫".into(),
            r: "こねこ".into(),
            m: "kitten".into(),
        }],
    }
}

#[test]
fn gets_kanji_entries() {
    let kanji_entry = cat_kanji();
    let engine = LookupEngine::new(
        HashMap::new(),
        TextMap::new(),
        text_map(vec![("猫", cat_kanji())]),
        Deconjugator::new(rules("[]")),
        10,
    );

    assert_eq!(engine.get_kanji_entry("猫"), Some(&kanji_entry));
    assert_eq!(engine.get_kanji_entry("犬"), None);
}

#[test]
fn the_leading_kanji_goes_with_a_lookup() {
    let mut engine = LookupEngine::new(
        HashMap::new(),
        TextMap::new(),
        text_map(vec![("猫", cat_kanji())]),
        Deconjugator::new(Vec::new()),
        10,
    );

    let shown = engine.lookup_cached("猫と犬", 10, true, priority_bits);
    assert_eq!(shown.kanji_entry, Some(cat_kanji()));
    let hidden = engine.lookup_cached("犬と猫", 10, true, priority_bits);
    assert_eq!(hidden.kanji_entry, None);
    let off = engine.lookup_cached("猫の", 10, false, priority_bits);
    assert_eq!(off.kanji_entry, None);
}

#[test]
fn caches_by_preprocessed_text_and_clears_the_cache() {
    let mut engine = engine(HashMap::new(), TextMap::new(), 10);

    engine.lookup_cached("  猫。犬  ", 10, false, priority_bits);
    engine.lookup_cached("猫", 10, false, priority_bits);

    assert_eq!(engine.lookup_cache.len(), 1);
    assert_eq!(engine.cache_order, ["猫"]);

    engine.clear_cache();

    assert!(engine.lookup_cache.is_empty());
    assert!(engine.cache_order.is_empty());
}

#[test]
fn what_is_wrong_with_a_dictionary_is_kept() {
    let missing = MapEntry::from_parts(Some("猫".into()), None, 1, 9).unwrap();
    let mut engine = engine(HashMap::new(), text_map(vec![("猫", vec![missing])]), 10);
    let before = engine.validate().1.clone();

    engine.lookup_cached("猫", 10, false, priority_bits);
    engine.lookup_cached("猫", 10, false, priority_bits);
    engine.clear_cache();

    assert_eq!(engine.validate(), (1, &before));
    assert_eq!(before.len(), 1);
}

#[test]
fn written_forms_are_missing_or_not_empty() {
    assert_eq!(MapEntry::from_parts(Some(String::new()), None, 1, 2), None);
    assert_eq!(
        MapEntry::from_parts(None, Some("ねこ".into()), 1, 2),
        Some(MapEntry {
            written_form: None,
            reading: Some("ねこ".into()),
            frequency: 1,
            entry_id: 2,
        })
    );
}

#[test]
fn limits_the_lookup_cache_to_the_upstream_size() {
    let mut engine = engine(HashMap::new(), TextMap::new(), 10);

    for index in 0..=CACHE_SIZE {
        engine.lookup_cached(&format!("word{index}"), 20, false, priority_bits);
    }

    assert_eq!(engine.lookup_cache.len(), CACHE_SIZE);
    assert!(!engine.lookup_cache.contains_key("word0"));
    assert!(engine
        .lookup_cache
        .contains_key(&format!("word{CACHE_SIZE}")));
}

#[test]
fn a_text_that_is_used_again_stays_longer() {
    let mut engine = engine(HashMap::new(), TextMap::new(), 10);

    for index in 0..CACHE_SIZE {
        engine.lookup_cached(&format!("word{index}"), 20, false, priority_bits);
    }
    engine.lookup_cached("word0", 20, false, priority_bits);
    engine.lookup_cached("another", 20, false, priority_bits);

    assert!(engine.lookup_cache.contains_key("word0"));
    assert!(!engine.lookup_cache.contains_key("word1"));
    assert_eq!(engine.lookup_cache.len(), CACHE_SIZE);
}

#[test]
fn converts_hiragana_to_katakana() {
    assert_eq!(hira_to_kata("たべる"), "タベル");
}

#[test]
fn preserves_non_hiragana_characters() {
    assert_eq!(hira_to_kata("食べる123"), "食ベル123");
}

#[test]
fn converts_katakana_to_hiragana() {
    assert_eq!(kata_to_hira("タベル"), "たべる");
}

#[test]
fn converts_katakana_iteration_marks() {
    assert_eq!(kata_to_hira("ヽヾ"), "ゝゞ");
}

#[test]
fn preserves_non_katakana_characters() {
    assert_eq!(kata_to_hira("食ベル123"), "食べる123");
}

#[test]
fn hiragana_comes_back_from_katakana() {
    for code in 0x3041..=0x3096 {
        let hiragana = char::from_u32(code).unwrap().to_string();
        assert_eq!(kata_to_hira(&hira_to_kata(&hiragana)), hiragana);
    }
}

#[test]
fn map_keys_keep_their_place() {
    let mut map = text_map(vec![("b", 1), ("a", 2)]);
    map.insert("b".into(), 3);

    assert_eq!(map.len(), 2);
    assert_eq!(map.key_at(0), "b");
    assert_eq!(*map.value_at(0), 3);
    assert_eq!(map.get("a"), Some(&2));
    assert_eq!(map.get("c"), None);
}
