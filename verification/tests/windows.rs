use meikipop::dictionary::entry::{DictionaryEntry, KanjiEntry, Sense};
use meikipop::gui::focus::{FocusCommand, PopupFocusControl, Property, PropertyKind};
use meikipop::gui::fonts::{font_family_names, preferred_font_family};
use meikipop::gui::format::{format_entries, format_entry, format_kanji};
use meikipop::gui::frontend::{
    configuration_argument, event_of, pipeline_config, popup_area, text_argument, Event, RawText,
};
use meikipop::gui::hotkey::{
    access_notice, chooser, shortcut_description, Chooser, HoldState, KeyEvent, Once, Shortcut,
    KEY_CODE_C, SHORTCUT_ID,
};
use meikipop::gui::paths::{
    dictionary_path, join_path, screencast_token_path, settings_path,
};
use meikipop::gui::popup::{
    calculate_popup_position, HideAction, PopupAction, PopupBounds, PopupState,
};
use meikipop::gui::settings::{
    check_settings, choose_scan_mode, parse_settings, scan_mode, write_settings, AppSettings,
    SettingsController, SettingsStore,
};
use meikipop::ocr::ocr::DEFAULT_PROVIDER_ID;
use meikipop::order::stable_order;
use meikipop::pipeline::PipelineEvent;
use meikipop::platform::interface::CaptureGeometry;
use meikipop::text;

fn single(text: &str) -> Option<u32> {
    text.parse::<f32>().ok().map(f32::to_bits)
}

fn defaults() -> AppSettings {
    AppSettings::with_provider(DEFAULT_PROVIDER_ID.to_owned())
}

fn parsed(contents: &str) -> AppSettings {
    parse_settings(contents, defaults(), &single)
}

#[test]
fn invalid_numeric_values_keep_safe_defaults() {
    let settings =
        parsed("max_lookup_length=1000\nauto_scan_cooldown_seconds=NaN\nauto_scan=false\n");

    assert_eq!(settings.max_lookup_length, 25);
    assert_eq!(f32::from_bits(settings.auto_scan_cooldown_seconds), 0.5);
    assert!(!settings.auto_scan);
}

#[test]
fn parses_supported_values_and_ignores_unknown_keys() {
    let settings = parsed(
        "ocr_provider=dummy\nmax_lookup_length=40\nauto_scan=false\nauto_scan_on_mouse_move=false\nauto_scan_cooldown_seconds=1.5\nshow_popup_without_hotkey=false\nfuture_setting=true\n",
    );

    assert_eq!(settings.ocr_provider, "dummy");
    assert_eq!(settings.max_lookup_length, 40);
    assert!(!settings.auto_scan);
    assert!(!settings.auto_scan_on_mouse_move);
    assert_eq!(f32::from_bits(settings.auto_scan_cooldown_seconds), 1.5);
    assert!(!settings.show_popup_without_hotkey);
}

#[test]
fn settings_at_the_ends_of_their_ranges_are_read() {
    for (text, expected) in [
        ("5", 5),
        ("+100", 100),
        ("4", 25),
        ("101", 25),
        ("-5", 25),
        ("", 25),
        ("5x", 25),
        ("99999999999999999999", 25),
    ] {
        assert_eq!(
            parsed(&format!("max_lookup_length={text}\r\n")).max_lookup_length,
            expected,
            "{text}"
        );
    }
    for (text, expected) in [
        ("0.1", 0.1_f32),
        ("60", 60.0),
        ("0.09", 0.5),
        ("60.1", 0.5),
        ("-1", 0.5),
        ("inf", 0.5),
    ] {
        let settings = parsed(&format!("auto_scan_cooldown_seconds={text}"));
        assert_eq!(
            f32::from_bits(settings.auto_scan_cooldown_seconds),
            expected,
            "{text}"
        );
    }
}

#[test]
fn written_settings_are_read_back() {
    let settings = AppSettings {
        ocr_provider: "apple_vision".into(),
        max_lookup_length: 42,
        auto_scan: false,
        auto_scan_on_mouse_move: true,
        auto_scan_cooldown_seconds: 1.5_f32.to_bits(),
        show_popup_without_hotkey: false,
    };

    let written = write_settings(&settings, "1.5");

    assert_eq!(
        written,
        "ocr_provider=apple_vision\nmax_lookup_length=42\nauto_scan=false\nauto_scan_on_mouse_move=true\nauto_scan_cooldown_seconds=1.5\nshow_popup_without_hotkey=false\n"
    );
    let read = parsed(&written);
    assert_eq!(read.ocr_provider, settings.ocr_provider);
    assert_eq!(read.max_lookup_length, 42);
    assert!(!read.auto_scan);
    assert!(read.auto_scan_on_mouse_move);
    assert_eq!(
        read.auto_scan_cooldown_seconds,
        settings.auto_scan_cooldown_seconds
    );
    assert!(!read.show_popup_without_hotkey);
}

fn controller() -> SettingsController {
    SettingsController::load(
        SettingsStore {
            path: "/settings".into(),
        },
        None,
        defaults(),
        &single,
    )
}

#[test]
fn settings_are_used_once_they_are_saved() {
    let mut controller = controller();
    let mut wanted = controller.current();
    wanted.max_lookup_length = 30;

    assert_eq!(
        controller
            .apply(wanted.clone(), "0.5", |_, _| Err("disk full".into()))
            .unwrap_err(),
        "Could not save settings: disk full"
    );
    assert_eq!(controller.current().max_lookup_length, 25);
    controller
        .apply(wanted.clone(), "0.5", |path, contents| {
            assert_eq!(path, "/settings");
            assert!(contents.contains("max_lookup_length=30\n"));
            Ok(())
        })
        .unwrap();
    assert_eq!(controller.current().max_lookup_length, 30);
    assert_eq!(controller.pipeline_config().max_lookup_length, 30);

    wanted.max_lookup_length = 4;
    assert!(controller
        .apply(wanted.clone(), "0.5", |_, _| panic!("not saved"))
        .is_err());
    wanted.max_lookup_length = 5;
    wanted.auto_scan_cooldown_seconds = f32::NAN.to_bits();
    assert!(check_settings(&wanted).is_err());
    assert_eq!(controller.current().max_lookup_length, 30);
}

#[test]
fn scan_modes_are_told_apart() {
    for auto_scan in [false, true] {
        let chosen = choose_scan_mode(defaults(), scan_mode(auto_scan));
        assert_eq!(chosen.auto_scan, auto_scan);
    }
}

#[test]
fn files_are_kept_below_the_directories_of_the_user() {
    assert_eq!(join_path("/a", "b"), "/a/b");
    assert_eq!(join_path("/a/", "b"), "/a/b");
    assert_eq!(join_path("", "b"), "b");
    assert_eq!(
        settings_path(Some("/config"), Some("/home/u"), "/tmp"),
        "/config/meikipop/settings.conf"
    );
    assert_eq!(
        settings_path(None, Some("/home/u"), "/tmp"),
        "/home/u/.config/meikipop/settings.conf"
    );
    assert_eq!(
        dictionary_path(None, None, "/tmp"),
        "/tmp/meikipop/dictionary.pkl"
    );
    assert_eq!(
        screencast_token_path(None, Some("/home/u"), "/tmp"),
        "/home/u/.cache/meikipop/.ocr_screencapture_token"
    );
}

#[test]
fn the_first_installed_font_is_used() {
    let names = font_family_names();

    assert_eq!(
        preferred_font_family(&|name: &'static str| name == names[2] || name == names[4]),
        names[2]
    );
    assert_eq!(preferred_font_family(&|_: &'static str| false), "");
}

fn sense(glosses: &[&str], pos: &[&str], tags: &[&str]) -> Sense {
    let owned = |texts: &[&str]| texts.iter().map(|text| text.to_string()).collect();
    Sense {
        glosses: owned(glosses),
        pos: owned(pos),
        tags: owned(tags),
    }
}

fn entry() -> DictionaryEntry {
    DictionaryEntry {
        id: 1,
        written_form: Some("食べる".into()),
        reading: "たべる".into(),
        senses: vec![
            sense(&["to eat"], &["v1", "vt"], &["food"]),
            sense(&["to live on", "to subsist on"], &[], &[]),
        ],
        freq: 120,
        deconjugation_process: vec!["past".into(), String::new(), "polite".into()],
        priority: 0,
    }
}

#[test]
fn entries_are_shown_with_their_senses() {
    let shown = format_entry(&entry());

    assert_eq!(shown.word, "食べる");
    assert_eq!(shown.reading, "たべる");
    assert_eq!(shown.deconjugation, "past ← polite");
    assert_eq!(shown.freq, "120");
    assert_eq!(
        shown.definitions,
        "(1) (v1, vt) [food] to eat\n(2) to live on; to subsist on"
    );

    let mut kana = entry();
    kana.written_form = None;
    kana.senses.pop();
    kana.freq = 999_999;
    let shown = format_entries(&vec![kana]);
    assert_eq!(shown[0].word, "たべる");
    assert_eq!(shown[0].reading, "");
    assert_eq!(shown[0].freq, "");
    assert_eq!(shown[0].definitions, "(v1, vt) [food] to eat");
}

fn kanji() -> KanjiEntry {
    KanjiEntry {
        character: "猫".into(),
        meanings: vec!["cat".into(), "feline".into()],
        readings: vec!["ビョウ".into(), "ねこ".into()],
        components: Vec::new(),
        examples: Vec::new(),
    }
}

#[test]
fn kanji_are_shown_with_their_readings() {
    let shown = format_kanji(&kanji());

    assert_eq!(shown.character, "猫");
    assert_eq!(shown.readings, "ビョウ, ねこ");
    assert_eq!(shown.meanings, "cat; feline");
}

fn screen() -> CaptureGeometry {
    CaptureGeometry {
        left: 0,
        top: 0,
        width: 1000,
        height: 800,
    }
}

#[test]
fn the_popup_stays_on_the_screen() {
    let placed = |x, y| calculate_popup_position(x, y, &screen(), 300, 200);

    assert_eq!(placed(100, 100), (116, 116));
    assert_eq!(placed(900, 700), (900 - 316, 700 - 216));
    assert_eq!(placed(984, 10), (984 - 316, 26));
    let small = CaptureGeometry {
        width: 200,
        ..screen()
    };
    assert_eq!(
        calculate_popup_position(150, 10, &small, 300, 200),
        (0, 26)
    );
    let far = CaptureGeometry {
        left: i32::MIN,
        ..screen()
    };
    assert_eq!(
        calculate_popup_position(i32::MIN, 10, &far, 300, 200),
        (i32::MIN + 16, 26)
    );
}

#[test]
fn popups_cover_their_own_points() {
    let bounds = PopupBounds {
        x: 10,
        y: 20,
        width: 5,
        height: i32::MAX,
    };

    assert!(bounds.contains(10, 20));
    assert!(bounds.contains(14, i32::MAX - 1));
    assert!(!bounds.contains(15, 20));
    assert!(!bounds.contains(10, 19));
}

fn result_at(mouse_x: i32, mouse_y: i32) -> PipelineEvent {
    PipelineEvent::LookupResult {
        entries: vec![entry()],
        kanji: Some(kanji()),
        mouse_x,
        mouse_y,
        capture_geometry: screen(),
    }
}

#[test]
fn a_popup_under_the_pointer_stays() {
    let mut popup = PopupState::new();
    assert!(matches!(
        popup.pipeline_event(PipelineEvent::CaptureReady),
        PopupAction::Nothing
    ));
    assert!(matches!(
        popup.pipeline_event(result_at(100, 100)),
        PopupAction::Show { .. }
    ));
    assert_eq!(popup.shown(100, 100, &screen(), 300, 200), (116, 116));
    assert!(matches!(
        popup.pipeline_event(result_at(120, 120)),
        PopupAction::Keep
    ));

    let hide = |mouse_x, mouse_y| PipelineEvent::HidePopup { mouse_x, mouse_y };
    assert!(matches!(
        popup.pipeline_event(hide(120, 120)),
        PopupAction::StartHiding
    ));
    assert_eq!(popup.hide_due(), HideAction::Keep);
    assert!(matches!(
        popup.pipeline_event(hide(10, 10)),
        PopupAction::StartHiding
    ));
    assert_eq!(popup.hide_due(), HideAction::Hide);
    assert!(popup.bounds.is_none());
    assert!(matches!(
        popup.pipeline_event(PipelineEvent::Error("broken".into())),
        PopupAction::ShowError(message) if message == "broken"
    ));
}

fn intern(name: &'static str) -> Option<u32> {
    match name {
        "_NET_WM_USER_TIME" => Some(1),
        "_NET_WM_WINDOW_TYPE" => Some(2),
        "_NET_WM_WINDOW_TYPE_TOOLTIP" => Some(3),
        "WM_PROTOCOLS" => Some(4),
        "WM_DELETE_WINDOW" => Some(5),
        _ => None,
    }
}

#[test]
fn the_popup_never_takes_the_focus() {
    let mut control = PopupFocusControl::new(Some(&intern));
    assert!(control.ensure_configured(None).is_empty());

    let commands = control.prepare_show(Some(77));

    assert!(control.configured);
    assert!(commands.iter().any(|command| matches!(
        command,
        FocusCommand::Replace { property: Property::WmHints, kind: PropertyKind::WmHints, values }
            if values == &[1, 0, 0, 0, 0, 0, 0, 0, 0]
    )));
    assert!(commands.iter().any(|command| matches!(
        command,
        FocusCommand::Replace { property: Property::Named(2), kind: PropertyKind::Atom, values }
            if values == &[3]
    )));
    assert!(commands.iter().any(|command| matches!(
        command,
        FocusCommand::Replace { property: Property::Named(1), kind: PropertyKind::Cardinal, values }
            if values == &[0]
    )));
    assert!(matches!(commands.last(), Some(FocusCommand::Flush)));

    assert_eq!(control.window_id, Some(77));
    let again = control.prepare_show(None);
    assert_eq!(control.window_id, Some(77));
    assert!(control.configured);
    assert_eq!(again.len(), commands.len());
    assert!(matches!(
        again[again.len() - 4],
        FocusCommand::OverrideRedirect
    ));
    assert!(matches!(again[again.len() - 2], FocusCommand::RaiseAbove));

    let mut without = PopupFocusControl::new(None::<&fn(&'static str) -> Option<u32>>);
    assert!(without.prepare_show(Some(77)).is_empty());
    assert_eq!(without.window_id, None);
    assert!(!without.configured);
}

#[test]
fn shortcuts_are_described_by_the_desktop() {
    let shortcuts = vec![
        Shortcut {
            id: "other".into(),
            trigger_description: "F1".into(),
        },
        Shortcut {
            id: SHORTCUT_ID.into(),
            trigger_description: "Shift".into(),
        },
    ];

    assert_eq!(shortcut_description(&shortcuts), "Shift");
    assert_eq!(shortcut_description(&Vec::new()), "");
    assert_eq!(chooser(&Vec::new(), 2), Chooser::Bind);
    assert_eq!(chooser(&shortcuts, 2), Chooser::Configure);
    assert_eq!(chooser(&shortcuts, 1), Chooser::Notice);
    assert_eq!(access_notice(true).0, "Global shortcut enabled");
    assert_eq!(access_notice(false).0, "Input Monitoring is required");

    let mut once = Once { begun: false };
    assert!(once.begin());
    assert!(!once.begin());
    once.end();
    assert!(once.begin());
}

#[test]
fn holding_begins_and_ends_with_the_keys() {
    let mut state = HoldState { held: false };
    let down = |modifiers_held| KeyEvent::KeyDown {
        key_code: KEY_CODE_C,
        modifiers_held,
    };

    assert_eq!(state.key_event(down(false)).changed, None);
    assert_eq!(state.key_event(down(true)).changed, Some(true));
    assert_eq!(state.key_event(down(true)).changed, None);
    assert_eq!(
        state
            .key_event(KeyEvent::FlagsChanged {
                modifiers_held: false
            })
            .changed,
        Some(false)
    );
    state.key_event(down(true));
    assert_eq!(
        state
            .key_event(KeyEvent::KeyUp {
                key_code: KEY_CODE_C
            })
            .changed,
        Some(false)
    );
    state.key_event(down(true));
    let step = state.key_event(KeyEvent::TapDisabled);
    assert!(step.enable_tap);
    assert_eq!(step.changed, Some(false));
    assert_eq!(state.key_event(KeyEvent::Other).changed, None);
}

#[test]
fn events_for_the_frontend_leave_out_what_it_does_not_show() {
    match event_of(result_at(1, 2)) {
        Event::Show { entries, kanji } => {
            assert_eq!(entries.len(), 1);
            assert_eq!(entries[0].written_form.as_deref(), Some("食べる"));
            assert_eq!(entries[0].senses[0].glosses, ["to eat"]);
            assert_eq!(kanji.unwrap().readings, ["ビョウ", "ねこ"]);
        }
        other => panic!("unexpected {other:?}"),
    }
    assert!(matches!(
        event_of(PipelineEvent::HidePopup {
            mouse_x: 0,
            mouse_y: 0
        }),
        Event::Hide
    ));
    assert!(matches!(
        event_of(PipelineEvent::Error("e".into())),
        Event::Error { message } if message == "e"
    ));
    assert!(matches!(
        event_of(PipelineEvent::CaptureReady),
        Event::CaptureReady
    ));
}

fn provider_of(json: &str) -> Result<String, String> {
    let json = text_argument(RawText::Text(json.to_owned()), "configuration")?;
    let parsed = serde_json::from_str::<serde_json::Value>(&json)
        .map_err(|error| error.to_string())
        .and_then(|value| match &value["ocr_provider"] {
            serde_json::Value::String(provider) => Ok(provider.clone()),
            _ => Err("missing field `ocr_provider`".to_owned()),
        });
    configuration_argument(parsed)
}

#[test]
fn parses_frontend_runtime_configuration() {
    assert_eq!(
        provider_of(r#"{"ocr_provider":"apple_vision"}"#).unwrap(),
        "apple_vision"
    );
}

#[test]
fn rejects_incomplete_runtime_configuration() {
    assert!(provider_of("{}").is_err());
}

#[test]
fn arguments_have_to_be_text() {
    assert_eq!(
        text_argument(RawText::Null, "path").unwrap_err(),
        "path must not be null"
    );
    assert_eq!(
        text_argument(RawText::NotUtf8, "path").unwrap_err(),
        "path must be valid UTF-8"
    );
    assert_eq!(
        configuration_argument(Err::<(), String>("e".into())).unwrap_err(),
        "Invalid pipeline configuration: e"
    );
    let config = pipeline_config("dictionary".into(), "token".into());
    assert_eq!(config.dictionary_path, "dictionary");
    assert_eq!(config.max_dict_entries, 10);
    assert_eq!(config.max_lookup_length, 25);
    assert_eq!(config.capture_interval, 300);
    assert!(popup_area(false, 1, 2, 3, 4).is_none());
    assert_eq!(
        popup_area(true, 1, 2, 3, 4),
        Some(CaptureGeometry {
            left: 1,
            top: 2,
            width: 3,
            height: 4
        })
    );
}

#[test]
fn white_space_is_told_as_usual() {
    for code in 0..=0x10_ffff_u32 {
        if let Some(c) = char::from_u32(code) {
            assert_eq!(text::is_whitespace(c), c.is_whitespace(), "{code:x}");
        }
    }
    assert_eq!(text::trim("\u{3000} a b\n"), "a b");
    assert_eq!(text::strip_suffix("abc", "bc").as_deref(), Some("a"));
    assert_eq!(text::strip_suffix("abc", "ab"), None);
    assert_eq!(
        text::join_texts(&vec!["a".into(), "b".into(), "".into()], ", "),
        "a, b, "
    );
}

#[test]
fn numbers_are_spelled_as_usual() {
    for n in [0, 1, 9, 10, 4_294_967_296, u64::MAX] {
        let mut spelled = String::new();
        text::push_decimal(&mut spelled, n);
        assert_eq!(spelled, n.to_string());
    }
    for n in [i64::MIN, -10, -1, 0, 7, i64::MAX] {
        let mut spelled = String::new();
        text::push_signed_decimal(&mut spelled, n);
        assert_eq!(spelled, n.to_string());
    }
}

#[test]
fn equal_keys_keep_their_order() {
    let order = stable_order(&vec![(2, 0), (1, 5), (2, 0), (1, 4)]);

    assert_eq!(order, [3, 1, 0, 2]);
}
