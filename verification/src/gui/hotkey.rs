//! The shortcut that scans while it is held.

use crate::text::same_text;
use vstd::prelude::*;

verus! {

/// The name of the shortcut.
pub const SHORTCUT_ID: &'static str = "scan_text";

/// The words for the shortcut on macOS.
pub const SHORTCUT_DESCRIPTION: &'static str = "⇧⌘C";

/// The number of the key of the shortcut on macOS.
pub const KEY_CODE_C: i64 = 8;

/// A shortcut that the desktop knows.
#[derive(Debug)]
pub struct Shortcut {
    pub id: String,
    pub trigger_description: String,
}

/// The first shortcut with the name, from `from` on.
pub open spec fn first_scan_shortcut(shortcuts: Seq<Shortcut>, from: int) -> int
    decreases shortcuts.len() - from,
{
    if from >= shortcuts.len() || shortcuts[from].id@ == SHORTCUT_ID@ {
        from
    } else {
        first_scan_shortcut(shortcuts, from + 1)
    }
}

/// The words for the shortcut, as the desktop gives them; none where it does not know it.
pub open spec fn description_in(shortcuts: Seq<Shortcut>) -> Seq<char> {
    let k = first_scan_shortcut(shortcuts, 0);
    if k < shortcuts.len() {
        shortcuts[k].trigger_description@
    } else {
        Seq::empty()
    }
}

fn find_shortcut(shortcuts: &Vec<Shortcut>) -> (r: usize)
    ensures
        r <= shortcuts@.len(),
        r < shortcuts@.len() ==> r == first_scan_shortcut(shortcuts@, 0),
        r == shortcuts@.len() ==> first_scan_shortcut(shortcuts@, 0) >= shortcuts@.len(),
{
    let mut i: usize = 0;
    while i < shortcuts.len()
        invariant
            i <= shortcuts@.len(),
            first_scan_shortcut(shortcuts@, 0) == first_scan_shortcut(shortcuts@, i as int),
        decreases shortcuts@.len() - i,
    {
        if same_text(shortcuts[i].id.as_str(), SHORTCUT_ID) {
            return i;
        }
        i += 1;
    }
    i
}

/// The words for the shortcut, as the desktop gives them; none where it does not know it.
pub fn shortcut_description(shortcuts: &Vec<Shortcut>) -> (r: String)
    ensures
        r@ == description_in(shortcuts@),
{
    let at: usize = find_shortcut(shortcuts);
    if at < shortcuts.len() {
        shortcuts[at].trigger_description.clone()
    } else {
        let none: String = String::new();
        assert(none@ =~= Seq::empty());
        none
    }
}

/// What opens where the user wants another shortcut.
#[derive(Clone, Copy, Debug, PartialEq, Eq, Structural)]
pub enum Chooser {
    /// The picker for a first shortcut.
    Bind,
    /// The editor of the shortcut.
    Configure,
    /// A notice that the desktop cannot edit it.
    Notice,
}

/// What opens where the user wants another shortcut.
pub open spec fn chooser_for(shortcuts: Seq<Shortcut>, portal_version: u32) -> Chooser {
    if first_scan_shortcut(shortcuts, 0) >= shortcuts.len() {
        Chooser::Bind
    } else if portal_version >= 2 {
        Chooser::Configure
    } else {
        Chooser::Notice
    }
}

/// What opens where the user wants another shortcut: a shortcut can be bound once, and only
/// desktops with the second version of the portal can edit it.
pub fn chooser(shortcuts: &Vec<Shortcut>, portal_version: u32) -> (r: Chooser)
    ensures
        r == chooser_for(shortcuts@, portal_version),
{
    if find_shortcut(shortcuts) == shortcuts.len() {
        Chooser::Bind
    } else if portal_version >= 2 {
        Chooser::Configure
    } else {
        Chooser::Notice
    }
}

/// Something that can be begun once at a time.
#[derive(Clone, Copy, Debug, PartialEq, Eq, Structural)]
pub struct Once {
    pub begun: bool,
}

impl Once {
    /// Begins it. Returns whether it had not begun.
    pub fn begin(&mut self) -> (r: bool)
        ensures
            final(self).begun,
            r == !old(self).begun,
    {
        let is_first = !self.begun;
        self.begun = true;
        is_first
    }

    /// It can be begun again.
    pub fn end(&mut self)
        ensures
            !final(self).begun,
    {
        self.begun = false;
    }
}

/// What an observer of keys is told.
#[derive(Clone, Copy, Debug, PartialEq, Eq, Structural)]
pub enum KeyEvent {
    /// The system switched the observer off.
    TapDisabled,
    KeyDown { key_code: i64, modifiers_held: bool },
    KeyUp { key_code: i64 },
    FlagsChanged { modifiers_held: bool },
    Other,
}

/// Whether the shortcut is held.
#[derive(Clone, Copy, Debug, PartialEq, Eq, Structural)]
pub struct HoldState {
    pub held: bool,
}

/// Whether the shortcut is held after an event.
pub open spec fn held_after(held: bool, event: KeyEvent) -> bool {
    match event {
        KeyEvent::TapDisabled => false,
        KeyEvent::KeyDown { key_code, modifiers_held } => held || (modifiers_held && key_code
            == KEY_CODE_C),
        KeyEvent::KeyUp { key_code } => held && key_code != KEY_CODE_C,
        KeyEvent::FlagsChanged { modifiers_held } => held && modifiers_held,
        KeyEvent::Other => held,
    }
}

/// What follows an event.
#[derive(Clone, Copy, Debug, PartialEq, Eq, Structural)]
pub struct HoldStep {
    /// Whether the observer is to be switched on again.
    pub enable_tap: bool,
    /// What is told of the shortcut, if it changed: whether it is held.
    pub changed: Option<bool>,
}

impl HoldState {
    /// Notes whether the shortcut is held. Returns what is told of it, if it changed.
    pub fn set_held(&mut self, held: bool) -> (r: Option<bool>)
        ensures
            final(self).held == held,
            r == (if old(self).held != held {
                Some(held)
            } else {
                None
            }),
    {
        if self.held != held {
            self.held = held;
            Some(held)
        } else {
            None
        }
    }

    /// Something happened to the keys.
    pub fn key_event(&mut self, event: KeyEvent) -> (r: HoldStep)
        ensures
            final(self).held == held_after(old(self).held, event),
            r.enable_tap == (event is TapDisabled),
            r.changed == (if final(self).held != old(self).held {
                Some(final(self).held)
            } else {
                None
            }),
    {
        match event {
            KeyEvent::TapDisabled => HoldStep { enable_tap: true, changed: self.set_held(false) },
            KeyEvent::KeyDown { key_code, modifiers_held } => {
                let changed = if modifiers_held && key_code == KEY_CODE_C {
                    self.set_held(true)
                } else {
                    None
                };
                HoldStep { enable_tap: false, changed }
            },
            KeyEvent::KeyUp { key_code } => {
                let changed = if key_code == KEY_CODE_C {
                    self.set_held(false)
                } else {
                    None
                };
                HoldStep { enable_tap: false, changed }
            },
            KeyEvent::FlagsChanged { modifiers_held } => {
                let changed = if !modifiers_held {
                    self.set_held(false)
                } else {
                    None
                };
                HoldStep { enable_tap: false, changed }
            },
            KeyEvent::Other => HoldStep { enable_tap: false, changed: None },
        }
    }
}

/// Whether the shortcut is held after events.
pub open spec fn held_after_all(held: bool, events: Seq<KeyEvent>) -> bool
    decreases events.len(),
{
    if events.len() == 0 {
        held
    } else {
        held_after(held_after_all(held, events.drop_last()), events.last())
    }
}

/// The shortcut is held only after its key went down, with the modifiers, and nothing ended that.
pub proof fn law_holding_begins_with_the_key(events: Seq<KeyEvent>) -> (k: int)
    requires
        held_after_all(false, events),
    ensures
        0 <= k < events.len(),
        events[k] == (KeyEvent::KeyDown { key_code: KEY_CODE_C, modifiers_held: true }),
        forall|j: int|
            k < j < events.len() ==> held_after(true, #[trigger] events[j]),
    decreases events.len(),
{
    let last = events.len() - 1;
    if held_after_all(false, events.drop_last()) {
        let k = law_holding_begins_with_the_key(events.drop_last());
        assert forall|j: int| k < j < events.len() implies held_after(true, #[trigger] events[j]) by {
            if j < last {
                assert(events.drop_last()[j] == events[j]);
            }
        }
        k
    } else {
        last
    }
}

/// What is shown where the user asks for the shortcut on macOS: a title and a text.
pub fn access_notice(granted: bool) -> (r: (&'static str, &'static str))
    ensures
        granted ==> r.0@ == "Global shortcut enabled"@ && r.1@
            == "MeikiPop can now scan while you hold ⇧⌘C. You can review this permission in System Settings → Privacy & Security → Input Monitoring."@,
        !granted ==> r.0@ == "Input Monitoring is required"@ && r.1@
            == "Allow MeikiPop in System Settings → Privacy & Security → Input Monitoring, then return here and click the shortcut again."@,
{
    if granted {
        (
            "Global shortcut enabled",
            "MeikiPop can now scan while you hold ⇧⌘C. You can review this permission in System Settings → Privacy & Security → Input Monitoring.",
        )
    } else {
        (
            "Input Monitoring is required",
            "Allow MeikiPop in System Settings → Privacy & Security → Input Monitoring, then return here and click the shortcut again.",
        )
    }
}

proof fn lemma_first_scan_shortcut(shortcuts: Seq<Shortcut>, from: int, k: int)
    requires
        0 <= from <= k <= shortcuts.len(),
        forall|j: int| from <= j < k ==> (#[trigger] shortcuts[j]).id@ != "scan_text"@,
        k < shortcuts.len() ==> shortcuts[k].id@ == "scan_text"@,
    ensures
        first_scan_shortcut(shortcuts, from) == k,
    decreases k - from,
{
    if from < k {
        assert(shortcuts[from].id@ != "scan_text"@);
        lemma_first_scan_shortcut(shortcuts, from + 1, k);
    }
}

/// The words for the shortcut are those of the first that is named `scan_text`; there are none
/// where no shortcut is.
pub proof fn law_the_shortcut_is_found_by_its_name(shortcuts: Seq<Shortcut>, k: int)
    requires
        0 <= k <= shortcuts.len(),
        forall|j: int| 0 <= j < k ==> (#[trigger] shortcuts[j]).id@ != "scan_text"@,
        k < shortcuts.len() ==> shortcuts[k].id@ == "scan_text"@,
    ensures
        first_scan_shortcut(shortcuts, 0) == k,
        k < shortcuts.len() ==> description_in(shortcuts) == shortcuts[k].trigger_description@,
        k == shortcuts.len() ==> description_in(shortcuts).len() == 0,
{
    lemma_first_scan_shortcut(shortcuts, 0, k);
}

/// Holding begins when key 8 goes down with the modifiers. It ends when that key goes up, when
/// the modifiers are no longer held, and when the observer is switched off. No other event
/// changes it.
pub proof fn law_holding_follows_the_keys(held: bool, key_code: i64, modifiers_held: bool)
    ensures
        held_after(held, KeyEvent::KeyDown { key_code: 8, modifiers_held: true }),
        key_code != 8 || !modifiers_held ==> held_after(
            held,
            KeyEvent::KeyDown { key_code, modifiers_held },
        ) == held,
        !held_after(held, KeyEvent::KeyUp { key_code: 8 }),
        key_code != 8 ==> held_after(held, KeyEvent::KeyUp { key_code }) == held,
        !held_after(held, KeyEvent::FlagsChanged { modifiers_held: false }),
        held_after(held, KeyEvent::FlagsChanged { modifiers_held: true }) == held,
        !held_after(held, KeyEvent::TapDisabled),
        held_after(held, KeyEvent::Other) == held,
{
}

/// A shortcut is bound where no shortcut is named `scan_text` yet. Else it is edited, or, before
/// the second version of the portal, only spoken of.
pub proof fn law_shortcuts_are_bound_once(shortcuts: Seq<Shortcut>, portal_version: u32, k: int)
    requires
        0 <= k <= shortcuts.len(),
        forall|j: int| 0 <= j < k ==> (#[trigger] shortcuts[j]).id@ != "scan_text"@,
        k < shortcuts.len() ==> shortcuts[k].id@ == "scan_text"@,
    ensures
        chooser_for(shortcuts, portal_version) == Chooser::Bind <==> k == shortcuts.len(),
        chooser_for(shortcuts, portal_version) == Chooser::Configure <==> k < shortcuts.len()
            && portal_version != 0 && portal_version != 1,
{
    law_the_shortcut_is_found_by_its_name(shortcuts, k);
}

} // verus!
