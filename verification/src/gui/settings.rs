//! The settings, and the file that they are kept in.

use crate::text;
use crate::text::{chars_of, joined, push_signed_decimal, same_text, string_of, trim};
use vstd::prelude::*;

verus! {

/// The shortest time between two scans: the bits of 0.1 as a single.
pub const COOLDOWN_MIN: u32 = 0x3dcc_cccd;

/// The longest time between two scans: the bits of 60 as a single.
pub const COOLDOWN_MAX: u32 = 0x4270_0000;

/// The usual time between two scans: the bits of 0.5 as a single.
pub const COOLDOWN_DEFAULT: u32 = 0x3f00_0000;

/// The settings.
#[derive(Debug)]
pub struct AppSettings {
    pub ocr_provider: String,
    pub max_lookup_length: i32,
    pub auto_scan: bool,
    pub auto_scan_on_mouse_move: bool,
    /// The bits of a single.
    pub auto_scan_cooldown_seconds: u32,
    pub show_popup_without_hotkey: bool,
}

/// The contents of `AppSettings`.
#[verifier::ext_equal]
pub struct AppSettingsView {
    pub ocr_provider: Seq<char>,
    pub max_lookup_length: i32,
    pub auto_scan: bool,
    pub auto_scan_on_mouse_move: bool,
    pub auto_scan_cooldown_seconds: u32,
    pub show_popup_without_hotkey: bool,
}

impl View for AppSettings {
    type V = AppSettingsView;

    open spec fn view(&self) -> AppSettingsView {
        AppSettingsView {
            ocr_provider: self.ocr_provider@,
            max_lookup_length: self.max_lookup_length,
            auto_scan: self.auto_scan,
            auto_scan_on_mouse_move: self.auto_scan_on_mouse_move,
            auto_scan_cooldown_seconds: self.auto_scan_cooldown_seconds,
            show_popup_without_hotkey: self.show_popup_without_hotkey,
        }
    }
}

impl Clone for AppSettings {
    fn clone(&self) -> (r: Self)
        ensures
            r@ == self@,
    {
        AppSettings {
            ocr_provider: self.ocr_provider.clone(),
            max_lookup_length: self.max_lookup_length,
            auto_scan: self.auto_scan,
            auto_scan_on_mouse_move: self.auto_scan_on_mouse_move,
            auto_scan_cooldown_seconds: self.auto_scan_cooldown_seconds,
            show_popup_without_hotkey: self.show_popup_without_hotkey,
        }
    }
}

impl AppSettings {
    /// The usual settings, with the engine that is asked for.
    pub fn with_provider(ocr_provider: String) -> (r: Self)
        ensures
            r@ == (AppSettingsView {
                ocr_provider: ocr_provider@,
                max_lookup_length: 25,
                auto_scan: true,
                auto_scan_on_mouse_move: true,
                auto_scan_cooldown_seconds: COOLDOWN_DEFAULT,
                show_popup_without_hotkey: true,
            }),
    {
        AppSettings {
            ocr_provider,
            max_lookup_length: 25,
            auto_scan: true,
            auto_scan_on_mouse_move: true,
            auto_scan_cooldown_seconds: COOLDOWN_DEFAULT,
            show_popup_without_hotkey: true,
        }
    }
}

/// Whether numbers are in their ranges.
pub open spec fn in_range(settings: AppSettingsView) -> bool {
    &&& 5 <= settings.max_lookup_length <= 100
    &&& COOLDOWN_MIN <= settings.auto_scan_cooldown_seconds <= COOLDOWN_MAX
}

/// The place of the first `c` in a text; its length where there is none.
pub open spec fn position(s: Seq<char>, c: char) -> nat
    decreases s.len(),
{
    if s.len() == 0 || s[0] == c {
        0
    } else {
        1 + position(s.drop_first(), c)
    }
}

/// A line without the carriage return at its end.
pub open spec fn without_return(line: Seq<char>) -> Seq<char> {
    if line.len() > 0 && line.last() == '\r' {
        line.drop_last()
    } else {
        line
    }
}

/// The lines of a text, without what ends them.
pub open spec fn lines_of(s: Seq<char>) -> Seq<Seq<char>>
    decreases s.len(),
{
    let k = position(s, '\n');
    if s.len() == 0 {
        Seq::empty()
    } else if k >= s.len() {
        seq![s]
    } else {
        seq![without_return(s.take(k as int))] + lines_of(s.skip((k + 1) as int))
    }
}

/// The number that digits spell.
pub open spec fn digits_value(digits: Seq<char>) -> nat
    decreases digits.len(),
{
    if digits.len() == 0 {
        0
    } else {
        digits_value(digits.drop_last()) * 10 + digit_value(digits.last())
    }
}

/// The number that a digit stands for.
pub open spec fn digit_value(c: char) -> nat {
    (c as int - 48) as nat
}

/// Whether a character is a digit.
pub open spec fn is_digit(c: char) -> bool {
    48 <= c as int <= 57
}

/// Whether a text consists of digits, and of at least one.
pub open spec fn are_digits(s: Seq<char>) -> bool {
    s.len() > 0 && forall|i: int| 0 <= i < s.len() ==> is_digit(#[trigger] s[i])
}

/// The number that a text spells: digits, after a sign or none.
pub open spec fn number_of(s: Seq<char>) -> Option<int> {
    if s.len() > 0 && (s[0] == '+' || s[0] == '-') {
        if are_digits(s.skip(1)) {
            Some(
                if s[0] == '-' {
                    -digits_value(s.skip(1))
                } else {
                    digits_value(s.skip(1)) as int
                },
            )
        } else {
            None
        }
    } else if are_digits(s) {
        Some(digits_value(s) as int)
    } else {
        None
    }
}

/// The truth value that a text spells.
pub open spec fn truth_of(s: Seq<char>) -> Option<bool> {
    if s == "true"@ {
        Some(true)
    } else if s == "false"@ {
        Some(false)
    } else {
        None
    }
}

/// The truth value that a text spells, or else `otherwise`.
pub open spec fn truth_or(s: Seq<char>, otherwise: bool) -> bool {
    match truth_of(s) {
        Some(value) => value,
        None => otherwise,
    }
}

/// Whether a reader of singles always reads the same text in the same way.
pub open spec fn is_steady<P: Fn(&str) -> Option<u32>>(parse: P) -> bool {
    &&& forall|s: &str| #[trigger] call_requires(parse, (s,))
    &&& forall|s: &str, t: &str, x: Option<u32>, y: Option<u32>|
        s@ == t@ && #[trigger] call_ensures(parse, (s,), x) && #[trigger] call_ensures(
            parse,
            (t,),
            y,
        ) ==> x == y
}

/// Whether a reader can read a text as a value.
pub open spec fn reads<P: Fn(&str) -> Option<u32>>(parse: P, s: Seq<char>, value: Option<u32>) -> bool {
    exists|t: &str| t@ == s && #[trigger] call_ensures(parse, (t,), value)
}

/// The bits of the single that a text spells, as a reader reads it.
pub open spec fn single_of<P: Fn(&str) -> Option<u32>>(parse: P, s: Seq<char>) -> Option<u32> {
    choose|value: Option<u32>| reads(parse, s, value)
}

/// The bits of the singles that texts spell.
pub type Singles = spec_fn(Seq<char>) -> Option<u32>;

/// The bits of the singles that texts spell, as a reader reads them.
pub open spec fn singles<P: Fn(&str) -> Option<u32>>(parse: P) -> Singles {
    |s: Seq<char>| single_of(parse, s)
}

/// The settings after a line with a name and a value. Values that cannot be read, or are out of
/// range, and names that are not known change nothing.
pub open spec fn with_pair(
    read: Singles,
    settings: AppSettingsView,
    name: Seq<char>,
    value: Seq<char>,
) -> AppSettingsView {
    if name == "ocr_provider"@ {
        AppSettingsView { ocr_provider: value, ..settings }
    } else if name == "max_lookup_length"@ {
        match number_of(value) {
            Some(number) => if 5 <= number <= 100 {
                AppSettingsView { max_lookup_length: number as i32, ..settings }
            } else {
                settings
            },
            None => settings,
        }
    } else if name == "auto_scan"@ {
        AppSettingsView { auto_scan: truth_or(value, settings.auto_scan), ..settings }
    } else if name == "auto_scan_on_mouse_move"@ {
        AppSettingsView {
            auto_scan_on_mouse_move: truth_or(value, settings.auto_scan_on_mouse_move),
            ..settings
        }
    } else if name == "auto_scan_cooldown_seconds"@ {
        match read(value) {
            Some(bits) => if COOLDOWN_MIN <= bits <= COOLDOWN_MAX {
                AppSettingsView { auto_scan_cooldown_seconds: bits, ..settings }
            } else {
                settings
            },
            None => settings,
        }
    } else if name == "show_popup_without_hotkey"@ {
        AppSettingsView {
            show_popup_without_hotkey: truth_or(value, settings.show_popup_without_hotkey),
            ..settings
        }
    } else {
        settings
    }
}

/// The settings after a line: a name and a value with an equals sign between them.
pub open spec fn with_line(
    read: Singles,
    settings: AppSettingsView,
    line: Seq<char>,
) -> AppSettingsView {
    let k = position(line, '=');
    if k < line.len() {
        with_pair(read, settings, line.take(k as int), line.skip((k + 1) as int))
    } else {
        settings
    }
}

/// The settings after lines.
pub open spec fn with_lines(
    read: Singles,
    settings: AppSettingsView,
    lines: Seq<Seq<char>>,
) -> AppSettingsView
    decreases lines.len(),
{
    if lines.len() == 0 {
        settings
    } else {
        with_lines(read, with_line(read, settings, lines[0]), lines.drop_first())
    }
}

/// Whether a line gives the time between two scans.
pub open spec fn gives_cooldown(line: Seq<char>) -> bool {
    let k = position(line, '=');
    k < line.len() && line.take(k as int) == "auto_scan_cooldown_seconds"@
}

/// Whether the reader was asked for the single that a line spells as the time between two scans,
/// where it gives one, and answered in the way that `with_line` goes by.
pub open spec fn line_is_read<P: Fn(&str) -> Option<u32>>(parse: P, line: Seq<char>) -> bool {
    gives_cooldown(line) ==> {
        let value = line.skip((position(line, '=') + 1) as int);
        reads(parse, value, single_of(parse, value))
    }
}

/// Whether the reader answered in the way that `with_lines` goes by.
pub open spec fn lines_are_read<P: Fn(&str) -> Option<u32>>(
    parse: P,
    lines: Seq<Seq<char>>,
) -> bool {
    forall|i: int| 0 <= i < lines.len() ==> line_is_read(parse, #[trigger] lines[i])
}

/// The place of the first `c` in `chars[from..to]`; `to` where there is none.
fn find_char(chars: &Vec<char>, from: usize, to: usize, c: char) -> (r: usize)
    requires
        from <= to <= chars@.len(),
    ensures
        from <= r <= to,
        r - from == position(chars@.subrange(from as int, to as int), c),
{
    let ghost all = chars@.subrange(from as int, to as int);
    let mut i: usize = from;
    assert(chars@.subrange(i as int, to as int) =~= all);
    while i < to && chars[i] != c
        invariant
            from <= i <= to <= chars@.len(),
            all == chars@.subrange(from as int, to as int),
            position(all, c) == (i - from) + position(chars@.subrange(i as int, to as int), c),
        decreases to - i,
    {
        assert(chars@.subrange(i as int, to as int).drop_first() =~= chars@.subrange(
            i + 1,
            to as int,
        ));
        i += 1;
    }
    assert(i < to ==> chars@.subrange(i as int, to as int)[0] == c);
    i
}

fn code_of(c: char) -> (r: u32)
    ensures
        r == c as int,
{
    c as u32
}

/// The number between 5 and 100 that `chars` spell, if they spell one.
fn read_length(chars: &Vec<char>) -> (r: Option<i32>)
    ensures
        r == (match number_of(chars@) {
            Some(number) => if 5 <= number <= 100 {
                Some(number as i32)
            } else {
                None
            },
            None => None,
        }),
{
    let count: usize = chars.len();
    if count == 0 {
        return None;
    }
    if chars[0] == '-' {
        return None;
    }
    let start: usize = if chars[0] == '+' {
        1
    } else {
        0
    };
    let ghost digits = chars@.skip(start as int);
    assert(start == 0 ==> digits =~= chars@);
    if start == count {
        return None;
    }
    let mut value: i32 = 0;
    let mut i: usize = start;
    assert(digits.take(0) =~= Seq::empty());
    while i < count
        invariant
            count == chars@.len(),
            start <= i <= count,
            start < count,
            chars@[0] != '-',
            start == (if chars@[0] == '+' {
                1int
            } else {
                0int
            }),
            digits == chars@.skip(start as int),
            start == 0 ==> digits == chars@,
            forall|j: int| 0 <= j < i - start ==> is_digit(#[trigger] digits[j]),
            0 <= value <= 101,
            value <= 100 ==> digits_value(digits.take(i - start)) == value,
            value == 101 ==> digits_value(digits.take(i - start)) > 100,
        decreases count - i,
    {
        let c: char = chars[i];
        let code: u32 = code_of(c);
        assert(digits[i - start] == c);
        if code < 48 || code > 57 {
            assert(!is_digit(digits[i - start]));
            return None;
        }
        proof {
            assert(is_digit(digits[i - start]));
            assert(digits.take(i - start + 1).drop_last() =~= digits.take(i - start));
        }
        let next: i32 = value * 10 + (code - 48) as i32;
        value = if next > 100 {
            101
        } else {
            next
        };
        i += 1;
    }
    assert(digits.take(i - start) =~= digits);
    if 5 <= value && value <= 100 {
        Some(value)
    } else {
        None
    }
}

fn read_truth(value: &str, otherwise: bool) -> (r: bool)
    ensures
        r == truth_or(value@, otherwise),
{
    if same_text(value, "true") {
        true
    } else if same_text(value, "false") {
        false
    } else {
        otherwise
    }
}

fn read_single<P: Fn(&str) -> Option<u32>>(parse: &P, value: &str) -> (r: Option<u32>)
    requires
        is_steady(*parse),
    ensures
        r == single_of(*parse, value@),
        reads(*parse, value@, r),
{
    let r = parse(value);
    assert(reads(*parse, value@, r));
    r
}

fn apply_line<P: Fn(&str) -> Option<u32>>(
    settings: &mut AppSettings,
    chars: &Vec<char>,
    from: usize,
    to: usize,
    parse: &P,
)
    requires
        from <= to <= chars@.len(),
        is_steady(*parse),
    ensures
        final(settings)@ == with_line(
            singles(*parse),
            old(settings)@,
            chars@.subrange(from as int, to as int),
        ),
        line_is_read(*parse, chars@.subrange(from as int, to as int)),
{
    let ghost line = chars@.subrange(from as int, to as int);
    let k: usize = find_char(chars, from, to, '=');
    if k == to {
        return;
    }
    let name = string_of(chars.as_slice(), from, k);
    let value = string_of(chars.as_slice(), k + 1, to);
    proof {
        assert(name@ =~= line.take(k - from));
        assert(value@ =~= line.skip(k - from + 1));
        reveal_strlit("ocr_provider");
        reveal_strlit("max_lookup_length");
        reveal_strlit("auto_scan");
        reveal_strlit("auto_scan_on_mouse_move");
        reveal_strlit("auto_scan_cooldown_seconds");
    }
    let name = name.as_str();
    if same_text(name, "ocr_provider") {
        settings.ocr_provider = value;
    } else if same_text(name, "max_lookup_length") {
        if let Some(length) = read_length(&chars_of(value.as_str())) {
            settings.max_lookup_length = length;
        }
    } else if same_text(name, "auto_scan") {
        settings.auto_scan = read_truth(value.as_str(), settings.auto_scan);
    } else if same_text(name, "auto_scan_on_mouse_move") {
        settings.auto_scan_on_mouse_move = read_truth(
            value.as_str(),
            settings.auto_scan_on_mouse_move,
        );
    } else if same_text(name, "auto_scan_cooldown_seconds") {
        if let Some(bits) = read_single(parse, value.as_str()) {
            if COOLDOWN_MIN <= bits && bits <= COOLDOWN_MAX {
                settings.auto_scan_cooldown_seconds = bits;
            }
        }
    } else if same_text(name, "show_popup_without_hotkey") {
        settings.show_popup_without_hotkey = read_truth(
            value.as_str(),
            settings.show_popup_without_hotkey,
        );
    }
}

/// The settings that a file holds; what it does not say is as in `defaults`. `parse_single`
/// reads a single and gives its bits.
pub fn parse_settings<P: Fn(&str) -> Option<u32>>(
    contents: &str,
    defaults: AppSettings,
    parse_single: &P,
) -> (r: AppSettings)
    requires
        is_steady(*parse_single),
    ensures
        r@ == with_lines(singles(*parse_single), defaults@, lines_of(contents@)),
        lines_are_read(*parse_single, lines_of(contents@)),
{
    let chars = chars_of(contents);
    let count: usize = chars.len();
    let mut settings = defaults;
    let mut start: usize = 0;
    assert(chars@.subrange(0, count as int) =~= contents@);
    while start < count
        invariant
            count == chars@.len(),
            chars@ == contents@,
            start <= count,
            is_steady(*parse_single),
            with_lines(singles(*parse_single), defaults@, lines_of(contents@)) == with_lines(
                singles(*parse_single),
                settings@,
                lines_of(chars@.subrange(start as int, count as int)),
            ),
            lines_are_read(
                *parse_single,
                lines_of(chars@.subrange(start as int, count as int)),
            ) ==> lines_are_read(*parse_single, lines_of(contents@)),
        decreases count - start,
    {
        let ghost rest = chars@.subrange(start as int, count as int);
        let end: usize = find_char(&chars, start, count, '\n');
        let ghost k = position(rest, '\n');
        let mut to: usize = end;
        if end < count && end > start && chars[end - 1] == '\r' {
            to = end - 1;
        }
        let ghost line = chars@.subrange(start as int, to as int);
        let ghost after = if end < count {
            rest.skip((k + 1) as int)
        } else {
            Seq::<char>::empty()
        };
        proof {
            if end < count {
                assert(rest.take(k as int) =~= chars@.subrange(start as int, end as int));
                if end > start {
                    assert(rest.take(k as int).last() == chars@[end - 1]);
                }
                assert(line =~= without_return(rest.take(k as int)));
                assert(lines_of(rest) == seq![line] + lines_of(after));
            } else {
                assert(line =~= rest);
                assert(lines_of(after) =~= Seq::<Seq<char>>::empty());
                assert(lines_of(rest) =~= seq![line] + lines_of(after));
            }
            assert((seq![line] + lines_of(after)).drop_first() =~= lines_of(after));
        }
        apply_line(&mut settings, &chars, start, to, parse_single);
        start = if end < count {
            end + 1
        } else {
            count
        };
        proof {
            assert(chars@.subrange(start as int, count as int) =~= after);
            if lines_are_read(*parse_single, lines_of(after)) {
                let lines = seq![line] + lines_of(after);
                assert forall|i: int| 0 <= i < lines.len() implies line_is_read(
                    *parse_single,
                    #[trigger] lines[i],
                ) by {
                    if i > 0 {
                        assert(lines[i] == lines_of(after)[i - 1]);
                    }
                }
            }
        }
    }
    proof {
        assert(chars@.subrange(start as int, count as int) =~= Seq::<char>::empty());
        assert(lines_of(Seq::<char>::empty()) =~= Seq::<Seq<char>>::empty());
    }
    settings
}

/// The word for a truth value.
pub open spec fn truth_word(value: bool) -> Seq<char> {
    if value {
        "true"@
    } else {
        "false"@
    }
}

/// A line with a name and a value.
pub open spec fn pair_line(name: Seq<char>, value: Seq<char>) -> Seq<char> {
    name.push('=') + value
}

/// The lines for settings, where the time between two scans is spelled `cooldown`.
pub open spec fn settings_lines(settings: AppSettingsView, cooldown: Seq<char>) -> Seq<Seq<char>> {
    seq![
        pair_line("ocr_provider"@, settings.ocr_provider),
        pair_line(
            "max_lookup_length"@,
            text::signed_decimal_of(settings.max_lookup_length as int),
        ),
        pair_line("auto_scan"@, truth_word(settings.auto_scan)),
        pair_line("auto_scan_on_mouse_move"@, truth_word(settings.auto_scan_on_mouse_move)),
        pair_line("auto_scan_cooldown_seconds"@, cooldown),
        pair_line("show_popup_without_hotkey"@, truth_word(settings.show_popup_without_hotkey)),
    ]
}

/// Lines, each with a line feed behind it.
pub open spec fn ended(lines: Seq<Seq<char>>) -> Seq<char>
    decreases lines.len(),
{
    if lines.len() == 0 {
        Seq::empty()
    } else {
        ended(lines.drop_last()) + lines.last().push('\n')
    }
}

fn push_line(out: &mut String, name: &str, value: &str)
    ensures
        final(out)@ == old(out)@ + pair_line(name@, value@).push('\n'),
{
    out.append(name);
    out.push('=');
    out.append(value);
    out.push('\n');
    assert(out@ =~= old(out)@ + pair_line(name@, value@).push('\n'));
}

fn truth_text(value: bool) -> (r: &'static str)
    ensures
        r@ == truth_word(value),
{
    if value {
        "true"
    } else {
        "false"
    }
}

/// What a file with settings holds. `cooldown` spells the time between two scans.
pub fn write_settings(settings: &AppSettings, cooldown: &str) -> (r: String)
    ensures
        r@ == ended(settings_lines(settings@, cooldown@)),
{
    let mut length: String = String::new();
    push_signed_decimal(&mut length, settings.max_lookup_length as i64);
    let ghost lines = settings_lines(settings@, cooldown@);
    proof {
        assert(length@ =~= text::signed_decimal_of(settings.max_lookup_length as int));
        reveal_with_fuel(ended, 7);
        assert(lines.take(6) =~= lines);
        assert(lines.take(6).drop_last() =~= lines.take(5));
        assert(lines.take(5).drop_last() =~= lines.take(4));
        assert(lines.take(4).drop_last() =~= lines.take(3));
        assert(lines.take(3).drop_last() =~= lines.take(2));
        assert(lines.take(2).drop_last() =~= lines.take(1));
        assert(lines.take(1).drop_last() =~= lines.take(0));
    }
    let mut out: String = String::new();
    assert(out@ =~= ended(lines.take(0)));
    push_line(&mut out, "ocr_provider", settings.ocr_provider.as_str());
    push_line(&mut out, "max_lookup_length", length.as_str());
    push_line(&mut out, "auto_scan", truth_text(settings.auto_scan));
    push_line(
        &mut out,
        "auto_scan_on_mouse_move",
        truth_text(settings.auto_scan_on_mouse_move),
    );
    push_line(&mut out, "auto_scan_cooldown_seconds", cooldown);
    push_line(
        &mut out,
        "show_popup_without_hotkey",
        truth_text(settings.show_popup_without_hotkey),
    );
    out
}

/// Whether a text lacks a character.
pub open spec fn lacks(s: Seq<char>, c: char) -> bool {
    forall|i: int| 0 <= i < s.len() ==> #[trigger] s[i] != c
}

/// Whether a text stays as it is when it is written as the end of a line and read again.
pub open spec fn fits_a_line(s: Seq<char>) -> bool {
    lacks(s, '\n') && (s.len() > 0 ==> s.last() != '\r')
}

/// Reading settings never gives numbers out of their ranges.
pub proof fn law_read_settings_are_in_range(
    read: Singles,
    defaults: AppSettingsView,
    contents: Seq<char>,
)
    requires
        in_range(defaults),
    ensures
        in_range(with_lines(read, defaults, lines_of(contents))),
{
    lemma_lines_in_range(read, defaults, lines_of(contents));
}

proof fn lemma_lines_in_range(
    read: Singles,
    settings: AppSettingsView,
    lines: Seq<Seq<char>>,
)
    requires
        in_range(settings),
    ensures
        in_range(with_lines(read, settings, lines)),
    decreases lines.len(),
{
    if lines.len() > 0 {
        lemma_lines_in_range(
            read,
            with_line(read, settings, lines[0]),
            lines.drop_first(),
        );
    }
}

proof fn lemma_position(prefix: Seq<char>, c: char, rest: Seq<char>)
    requires
        lacks(prefix, c),
    ensures
        position(prefix.push(c) + rest, c) == prefix.len(),
    decreases prefix.len(),
{
    let all = prefix.push(c) + rest;
    if prefix.len() > 0 {
        assert(all[0] == prefix[0]);
        assert(all.drop_first() =~= prefix.drop_first().push(c) + rest);
        lemma_position(prefix.drop_first(), c, rest);
    } else {
        assert(all[0] == c);
    }
}

proof fn lemma_ended_first(lines: Seq<Seq<char>>)
    requires
        lines.len() > 0,
    ensures
        ended(lines) == lines[0].push('\n') + ended(lines.drop_first()),
    decreases lines.len(),
{
    if lines.len() > 1 {
        lemma_ended_first(lines.drop_last());
        assert(lines.drop_last().drop_first() =~= lines.drop_first().drop_last());
        assert(ended(lines) =~= lines[0].push('\n') + ended(lines.drop_first()));
    } else {
        assert(lines.drop_last() =~= Seq::empty());
        assert(lines.drop_first() =~= Seq::empty());
        assert(ended(lines) =~= lines[0].push('\n') + ended(lines.drop_first()));
    }
}

proof fn lemma_lines_of_ended(lines: Seq<Seq<char>>)
    requires
        forall|i: int| 0 <= i < lines.len() ==> fits_a_line(#[trigger] lines[i]),
    ensures
        lines_of(ended(lines)) == lines,
    decreases lines.len(),
{
    if lines.len() > 0 {
        let all = ended(lines);
        let rest = lines.drop_first();
        lemma_ended_first(lines);
        assert(fits_a_line(lines[0]));
        lemma_position(lines[0], '\n', ended(rest));
        assert(all.take(lines[0].len() as int) =~= lines[0]);
        assert(all.skip((lines[0].len() + 1) as int) =~= ended(rest));
        assert forall|i: int| 0 <= i < rest.len() implies fits_a_line(#[trigger] rest[i]) by {
            assert(rest[i] == lines[i + 1]);
        }
        lemma_lines_of_ended(rest);
        assert(lines_of(all) =~= lines);
    } else {
        assert(lines_of(ended(lines)) =~= lines);
    }
}

/// Whether a character can stand in a name.
pub open spec fn is_plain(c: char) -> bool {
    c != '=' && c != '\n' && c != '\r'
}

/// Whether all characters of a text can stand in a name.
pub open spec fn all_plain(s: Seq<char>) -> bool {
    forall|i: int| 0 <= i < s.len() ==> is_plain(#[trigger] s[i])
}

proof fn lemma_names_are_plain()
    ensures
        all_plain("ocr_provider"@),
        "ocr_provider"@.len() == 12,
        all_plain("max_lookup_length"@),
        "max_lookup_length"@.len() == 17,
        all_plain("auto_scan"@),
        "auto_scan"@.len() == 9,
        all_plain("auto_scan_on_mouse_move"@),
        "auto_scan_on_mouse_move"@.len() == 23,
        all_plain("auto_scan_cooldown_seconds"@),
        "auto_scan_cooldown_seconds"@.len() == 26,
        all_plain("show_popup_without_hotkey"@),
        "show_popup_without_hotkey"@.len() == 25,
        all_plain("true"@),
        "true"@.len() == 4,
        all_plain("false"@),
        "false"@.len() == 5,
{
    reveal_strlit("ocr_provider");
    assert forall|i: int| 0 <= i < "ocr_provider"@.len() implies is_plain(#[trigger] "ocr_provider"@[i]) by {
        assert(i == 0 || i == 1 || i == 2 || i == 3 || i == 4 || i == 5 || i == 6 || i == 7 || i == 8 || i == 9 || i == 10 || i == 11);
    }
    reveal_strlit("max_lookup_length");
    assert forall|i: int| 0 <= i < "max_lookup_length"@.len() implies is_plain(#[trigger] "max_lookup_length"@[i]) by {
        assert(i == 0 || i == 1 || i == 2 || i == 3 || i == 4 || i == 5 || i == 6 || i == 7 || i == 8 || i == 9 || i == 10 || i == 11 || i == 12 || i == 13 || i == 14 || i == 15 || i == 16);
    }
    reveal_strlit("auto_scan");
    assert forall|i: int| 0 <= i < "auto_scan"@.len() implies is_plain(#[trigger] "auto_scan"@[i]) by {
        assert(i == 0 || i == 1 || i == 2 || i == 3 || i == 4 || i == 5 || i == 6 || i == 7 || i == 8);
    }
    reveal_strlit("auto_scan_on_mouse_move");
    assert forall|i: int| 0 <= i < "auto_scan_on_mouse_move"@.len() implies is_plain(#[trigger] "auto_scan_on_mouse_move"@[i]) by {
        assert(i == 0 || i == 1 || i == 2 || i == 3 || i == 4 || i == 5 || i == 6 || i == 7 || i == 8 || i == 9 || i == 10 || i == 11 || i == 12 || i == 13 || i == 14 || i == 15 || i == 16 || i == 17 || i == 18 || i == 19 || i == 20 || i == 21 || i == 22);
    }
    reveal_strlit("auto_scan_cooldown_seconds");
    assert forall|i: int| 0 <= i < "auto_scan_cooldown_seconds"@.len() implies is_plain(#[trigger] "auto_scan_cooldown_seconds"@[i]) by {
        assert(i == 0 || i == 1 || i == 2 || i == 3 || i == 4 || i == 5 || i == 6 || i == 7 || i == 8 || i == 9 || i == 10 || i == 11 || i == 12 || i == 13 || i == 14 || i == 15 || i == 16 || i == 17 || i == 18 || i == 19 || i == 20 || i == 21 || i == 22 || i == 23 || i == 24 || i == 25);
    }
    reveal_strlit("show_popup_without_hotkey");
    assert forall|i: int| 0 <= i < "show_popup_without_hotkey"@.len() implies is_plain(#[trigger] "show_popup_without_hotkey"@[i]) by {
        assert(i == 0 || i == 1 || i == 2 || i == 3 || i == 4 || i == 5 || i == 6 || i == 7 || i == 8 || i == 9 || i == 10 || i == 11 || i == 12 || i == 13 || i == 14 || i == 15 || i == 16 || i == 17 || i == 18 || i == 19 || i == 20 || i == 21 || i == 22 || i == 23 || i == 24);
    }
    reveal_strlit("true");
    assert forall|i: int| 0 <= i < "true"@.len() implies is_plain(#[trigger] "true"@[i]) by {
        assert(i == 0 || i == 1 || i == 2 || i == 3);
    }
    reveal_strlit("false");
    assert forall|i: int| 0 <= i < "false"@.len() implies is_plain(#[trigger] "false"@[i]) by {
        assert(i == 0 || i == 1 || i == 2 || i == 3 || i == 4);
    }
}

proof fn lemma_decimal(n: nat)
    ensures
        are_digits(text::decimal_of(n)),
        digits_value(text::decimal_of(n)) == n,
    decreases n,
{
    let s = text::decimal_of(n);
    let last = text::digit_char((n % 10) as int);
    assert(is_digit(last) && digit_value(last) == n % 10);
    if n < 10 {
        assert(s =~= seq![last]);
        assert(s.drop_last() =~= Seq::empty());
        assert(digits_value(s.drop_last()) == 0);
    } else {
        lemma_decimal(n / 10);
        assert(s.drop_last() =~= text::decimal_of(n / 10));
        assert(s.last() == last);
        assert(digits_value(s) == (n / 10) * 10 + n % 10);
        assert forall|i: int| 0 <= i < s.len() implies is_digit(#[trigger] s[i]) by {
            if i < s.len() - 1 {
                assert(s[i] == text::decimal_of(n / 10)[i]);
            }
        }
    }
}

proof fn lemma_number(n: nat)
    ensures
        number_of(text::signed_decimal_of(n as int)) == Some(n as int),
        all_plain(text::signed_decimal_of(n as int)),
{
    lemma_decimal(n);
    let s = text::decimal_of(n);
    assert(is_digit(s[0]));
    assert forall|i: int| 0 <= i < s.len() implies is_plain(#[trigger] s[i]) by {
        assert(is_digit(s[i]));
    }
}

proof fn lemma_pair_line(
    read: Singles,
    settings: AppSettingsView,
    name: Seq<char>,
    value: Seq<char>,
)
    requires
        all_plain(name),
    ensures
        with_line(read, settings, pair_line(name, value)) == with_pair(
            read,
            settings,
            name,
            value,
        ),
        fits_a_line(value) ==> fits_a_line(pair_line(name, value)),
        position(pair_line(name, value), '=') == name.len(),
        pair_line(name, value).take(name.len() as int) == name,
        pair_line(name, value).skip((name.len() + 1) as int) == value,
{
    let line = pair_line(name, value);
    assert(lacks(name, '=')) by {
        assert forall|i: int| 0 <= i < name.len() implies #[trigger] name[i] != '=' by {
            assert(is_plain(name[i]));
        }
    }
    lemma_position(name, '=', value);
    assert(line.take(name.len() as int) =~= name);
    assert(line.skip((name.len() + 1) as int) =~= value);
    if fits_a_line(value) {
        assert forall|i: int| 0 <= i < line.len() implies #[trigger] line[i] != '\n' by {
            if i < name.len() {
                assert(is_plain(name[i]));
                assert(line[i] == name[i]);
            } else if i > name.len() {
                assert(line[i] == value[i - name.len() - 1]);
            }
        }
        if value.len() > 0 {
            assert(line.last() == value.last());
        }
    }
}

proof fn lemma_plain_fits(s: Seq<char>)
    requires
        all_plain(s),
    ensures
        fits_a_line(s),
{
    assert forall|i: int| 0 <= i < s.len() implies #[trigger] s[i] != '\n' by {
        assert(is_plain(s[i]));
    }
    if s.len() > 0 {
        assert(is_plain(s[s.len() - 1]));
    }
}

/// Settings are read back as they were written, whatever the defaults are: those with numbers in
/// their ranges and an engine whose name fits a line. The time between two scans is spelled on
/// one line, and the reader, which is asked for it, reads such a spelling as the time itself and
/// as nothing else.
pub proof fn law_written_settings_are_read_back<P: Fn(&str) -> Option<u32>>(
    parse: P,
    defaults: AppSettingsView,
    settings: AppSettingsView,
    cooldown: Seq<char>,
)
    requires
        in_range(settings),
        fits_a_line(settings.ocr_provider),
        fits_a_line(cooldown),
        lines_are_read(parse, lines_of(ended(settings_lines(settings, cooldown)))),
        forall|value: Option<u32>| #[trigger]
            reads(parse, cooldown, value) ==> value == Some(settings.auto_scan_cooldown_seconds),
    ensures
        with_lines(singles(parse), defaults, lines_of(ended(settings_lines(settings, cooldown))))
            == settings,
{
    lemma_names_are_plain();
    let lines = settings_lines(settings, cooldown);
    let length = text::signed_decimal_of(settings.max_lookup_length as int);
    lemma_number(settings.max_lookup_length as nat);
    lemma_plain_fits(length);
    lemma_plain_fits("true"@);
    lemma_plain_fits("false"@);
    let s1 = with_line(singles(parse), defaults, lines[0]);
    let s2 = with_line(singles(parse), s1, lines[1]);
    let s3 = with_line(singles(parse), s2, lines[2]);
    let s4 = with_line(singles(parse), s3, lines[3]);
    let s5 = with_line(singles(parse), s4, lines[4]);
    let s6 = with_line(singles(parse), s5, lines[5]);
    lemma_pair_line(singles(parse), defaults, "ocr_provider"@, settings.ocr_provider);
    lemma_pair_line(singles(parse), s1, "max_lookup_length"@, length);
    lemma_pair_line(singles(parse), s2, "auto_scan"@, truth_word(settings.auto_scan));
    lemma_pair_line(
        singles(parse),
        s3,
        "auto_scan_on_mouse_move"@,
        truth_word(settings.auto_scan_on_mouse_move),
    );
    lemma_pair_line(singles(parse), s4, "auto_scan_cooldown_seconds"@, cooldown);
    lemma_pair_line(
        singles(parse),
        s5,
        "show_popup_without_hotkey"@,
        truth_word(settings.show_popup_without_hotkey),
    );
    assert forall|i: int| 0 <= i < lines.len() implies fits_a_line(#[trigger] lines[i]) by {
        assert(i == 0 || i == 1 || i == 2 || i == 3 || i == 4 || i == 5);
    }
    lemma_lines_of_ended(lines);
    assert(line_is_read(parse, lines[4]));
    assert(gives_cooldown(lines[4]));
    assert(reads(parse, cooldown, single_of(parse, cooldown)));
    assert(s6 == settings);
    reveal_with_fuel(with_lines, 7);
    let r1 = lines.drop_first();
    let r2 = r1.drop_first();
    let r3 = r2.drop_first();
    let r4 = r3.drop_first();
    let r5 = r4.drop_first();
    assert(with_lines(singles(parse), defaults, lines) == with_lines(singles(parse), s1, r1));
    assert(with_lines(singles(parse), s1, r1) == with_lines(singles(parse), s2, r2));
    assert(with_lines(singles(parse), s2, r2) == with_lines(singles(parse), s3, r3));
    assert(with_lines(singles(parse), s3, r3) == with_lines(singles(parse), s4, r4));
    assert(with_lines(singles(parse), s4, r4) == with_lines(singles(parse), s5, r5));
    assert(with_lines(singles(parse), s5, r5) == with_lines(singles(parse), s6, r5.drop_first()));
}

/// What is wrong with settings, if anything.
pub open spec fn settings_error(settings: AppSettingsView) -> Option<Seq<char>> {
    if text::trimmed(settings.ocr_provider).len() == 0 {
        Some("OCR provider must not be empty"@)
    } else if !(5 <= settings.max_lookup_length <= 100) {
        Some("Max lookup length must be between 5 and 100"@)
    } else if !(COOLDOWN_MIN <= settings.auto_scan_cooldown_seconds <= COOLDOWN_MAX) {
        Some("Scan interval must be between 100 ms and 60 seconds"@)
    } else {
        None
    }
}

/// Checks settings.
pub fn check_settings(settings: &AppSettings) -> (r: Result<(), String>)
    ensures
        match r {
            Ok(_) => settings_error(settings@) is None,
            Err(message) => settings_error(settings@) == Some(message@),
        },
{
    if trim(settings.ocr_provider.as_str()).as_str().is_empty() {
        return Err("OCR provider must not be empty".to_owned());
    }
    if settings.max_lookup_length < 5 || settings.max_lookup_length > 100 {
        return Err("Max lookup length must be between 5 and 100".to_owned());
    }
    if settings.auto_scan_cooldown_seconds < COOLDOWN_MIN || settings.auto_scan_cooldown_seconds
        > COOLDOWN_MAX {
        return Err("Scan interval must be between 100 ms and 60 seconds".to_owned());
    }
    Ok(())
}

/// Where the settings are kept.
#[derive(Debug)]
pub struct SettingsStore {
    pub path: String,
}

impl SettingsStore {
    /// The settings of the file, whose contents are `contents` where it can be read.
    pub fn load<P: Fn(&str) -> Option<u32>>(
        contents: Option<&str>,
        defaults: AppSettings,
        parse_single: &P,
    ) -> (r: AppSettings)
        requires
            is_steady(*parse_single),
        ensures
            r@ == (match contents {
                Some(contents) => with_lines(singles(*parse_single), defaults@, lines_of(contents@)),
                None => defaults@,
            }),
            contents is Some ==> lines_are_read(*parse_single, lines_of(contents->0@)),
    {
        match contents {
            Some(contents) => parse_settings(contents, defaults, parse_single),
            None => defaults,
        }
    }
}

/// What the pipeline needs of the settings.
#[derive(Debug)]
pub struct PipelineRuntimeConfig {
    pub ocr_provider: String,
    pub max_lookup_length: usize,
    pub auto_scan: bool,
    pub auto_scan_on_mouse_move: bool,
    /// The bits of a single.
    pub auto_scan_cooldown: u32,
    pub show_popup_without_hotkey: bool,
}

/// The settings in use, and where they are kept.
#[derive(Debug)]
pub struct SettingsController {
    pub applied: AppSettings,
    pub store: SettingsStore,
}

impl SettingsController {
    /// The numbers of the settings in use are in their ranges.
    pub open spec fn wf(self) -> bool {
        in_range(self.applied@)
    }

    /// Uses the settings of the file, whose contents are `contents` where it can be read.
    pub fn load<P: Fn(&str) -> Option<u32>>(
        store: SettingsStore,
        contents: Option<&str>,
        defaults: AppSettings,
        parse_single: &P,
    ) -> (r: Self)
        requires
            is_steady(*parse_single),
            in_range(defaults@),
        ensures
            r.wf(),
            r.store == store,
            r.applied@ == (match contents {
                Some(contents) => with_lines(singles(*parse_single), defaults@, lines_of(contents@)),
                None => defaults@,
            }),
            contents is Some ==> lines_are_read(*parse_single, lines_of(contents->0@)),
    {
        proof {
            if contents is Some {
                law_read_settings_are_in_range(singles(*parse_single), defaults@, contents->0@);
            }
        }
        let applied = SettingsStore::load(contents, defaults, parse_single);
        SettingsController { applied, store }
    }

    /// The settings in use.
    pub fn current(&self) -> (r: AppSettings)
        ensures
            r@ == self.applied@,
    {
        self.applied.clone()
    }

    /// Uses other settings, once they were checked and saved. `save` writes the contents of the
    /// file, and `cooldown` spells the time between two scans.
    pub fn apply<S: FnOnce(&str, &str) -> Result<(), String>>(
        &mut self,
        settings: AppSettings,
        cooldown: &str,
        save: S,
    ) -> (r: Result<(), String>)
        requires
            old(self).wf(),
            forall|path: &str, contents: &str| #[trigger] call_requires(save, (path, contents)),
        ensures
            final(self).wf(),
            final(self).store == old(self).store,
            match settings_error(settings@) {
                Some(message) => {
                    &&& r is Err && r->Err_0@ == message
                    &&& *final(self) == *old(self)
                },
                None => exists|path: &str, contents: &str, saved: Result<(), String>|
                    {
                        &&& #[trigger] call_ensures(save, (path, contents), saved)
                        &&& path@ == old(self).store.path@
                        &&& contents@ == ended(settings_lines(settings@, cooldown@))
                        &&& match saved {
                            Ok(_) => r is Ok && final(self).applied == settings,
                            Err(error) => {
                                &&& r is Err && r->Err_0@ == "Could not save settings: "@ + error@
                                &&& *final(self) == *old(self)
                            },
                        }
                    },
            },
    {
        match check_settings(&settings) {
            Ok(_) => {},
            Err(message) => return Err(message),
        }
        let contents = write_settings(&settings, cooldown);
        match save(self.store.path.as_str(), contents.as_str()) {
            Ok(_) => {
                self.applied = settings;
                Ok(())
            },
            Err(error) => Err(joined("Could not save settings: ", error.as_str())),
        }
    }

    /// What the pipeline needs of the settings in use.
    pub fn pipeline_config(&self) -> (r: PipelineRuntimeConfig)
        requires
            self.wf(),
        ensures
            r.ocr_provider@ == self.applied@.ocr_provider,
            r.max_lookup_length == self.applied.max_lookup_length,
            r.auto_scan == self.applied.auto_scan,
            r.auto_scan_on_mouse_move == self.applied.auto_scan_on_mouse_move,
            r.auto_scan_cooldown == self.applied.auto_scan_cooldown_seconds,
            r.show_popup_without_hotkey == self.applied.show_popup_without_hotkey,
    {
        PipelineRuntimeConfig {
            ocr_provider: self.applied.ocr_provider.clone(),
            max_lookup_length: self.applied.max_lookup_length as usize,
            auto_scan: self.applied.auto_scan,
            auto_scan_on_mouse_move: self.applied.auto_scan_on_mouse_move,
            auto_scan_cooldown: self.applied.auto_scan_cooldown_seconds,
            show_popup_without_hotkey: self.applied.show_popup_without_hotkey,
        }
    }
}

/// The word for the way of scanning.
pub open spec fn mode_word(auto_scan: bool) -> Seq<char> {
    if auto_scan {
        "auto"@
    } else {
        "hotkey"@
    }
}

/// The word for the way of scanning.
pub fn scan_mode(auto_scan: bool) -> (r: &'static str)
    ensures
        r@ == mode_word(auto_scan),
{
    if auto_scan {
        "auto"
    } else {
        "hotkey"
    }
}

/// The settings after the way of scanning was chosen by its word.
pub fn choose_scan_mode(settings: AppSettings, mode: &str) -> (r: AppSettings)
    ensures
        r@ == (AppSettingsView { auto_scan: mode@ == "auto"@, ..settings@ }),
{
    let mut settings = settings;
    settings.auto_scan = same_text(mode, "auto");
    settings
}

/// The words for the ways of scanning are told apart.
pub proof fn law_scan_modes_are_told_apart(auto_scan: bool)
    ensures
        (mode_word(auto_scan) == "auto"@) == auto_scan,
{
    reveal_strlit("auto");
    reveal_strlit("hotkey");
    assert("auto"@.len() != "hotkey"@.len());
}

/// A line ends at a line feed, and the carriage return before that belongs to its end; a last
/// line needs no line feed and keeps its carriage return.
pub proof fn law_lines_end_at_line_feeds(line: Seq<char>, rest: Seq<char>)
    requires
        lacks(line, '\n'),
    ensures
        lines_of(Seq::empty()).len() == 0,
        line.len() > 0 ==> lines_of(line) == seq![line],
        lines_of(line.push('\r').push('\n') + rest) == seq![line] + lines_of(rest),
        line.len() == 0 || line.last() != '\r' ==> lines_of(line.push('\n') + rest) == seq![line]
            + lines_of(rest),
{
    let ended_by_two = line.push('\r').push('\n') + rest;
    let ended_by_one = line.push('\n') + rest;
    lemma_position(line.push('\r'), '\n', rest);
    lemma_position(line, '\n', rest);
    lemma_no_position(line, '\n');
    assert(ended_by_two.take((line.len() + 1) as int) =~= line.push('\r'));
    assert(line.push('\r').drop_last() =~= line);
    assert(ended_by_two.skip((line.len() + 2) as int) =~= rest);
    assert(ended_by_one.take(line.len() as int) =~= line);
    assert(ended_by_one.skip((line.len() + 1) as int) =~= rest);
}

proof fn lemma_no_position(s: Seq<char>, c: char)
    requires
        lacks(s, c),
    ensures
        position(s, c) == s.len(),
    decreases s.len(),
{
    if s.len() > 0 {
        assert(s[0] != c);
        assert forall|i: int| 0 <= i < s.drop_first().len() implies #[trigger] s.drop_first()[i]
            != c by {
            assert(s.drop_first()[i] == s[i + 1]);
        }
        lemma_no_position(s.drop_first(), c);
    }
}

/// A line sets the one setting that stands before its first equals sign to what stands behind it,
/// and leaves the others: a text as it is, a number from 5 to 100, a truth value by its word, and
/// a single from 0.1 to 60. What does not fit leaves all of them, and so does a line without an
/// equals sign.
pub proof fn law_a_line_sets_one_setting(
    read: Singles,
    settings: AppSettingsView,
    name: Seq<char>,
    value: Seq<char>,
)
    requires
        lacks(name, '='),
    ensures
        with_line(read, settings, name) == settings,
        ({
            let after = with_line(read, settings, name.push('=') + value);
            &&& after.ocr_provider == (if name == "ocr_provider"@ {
                value
            } else {
                settings.ocr_provider
            })
            &&& after.max_lookup_length == (if name == "max_lookup_length"@ && number_of(
                value,
            ) is Some && 5 <= number_of(value)->0 <= 100 {
                number_of(value)->0
            } else {
                settings.max_lookup_length as int
            })
            &&& after.auto_scan == (if name == "auto_scan"@ && value == "true"@ {
                true
            } else if name == "auto_scan"@ && value == "false"@ {
                false
            } else {
                settings.auto_scan
            })
            &&& after.auto_scan_on_mouse_move == (if name == "auto_scan_on_mouse_move"@ && value
                == "true"@ {
                true
            } else if name == "auto_scan_on_mouse_move"@ && value == "false"@ {
                false
            } else {
                settings.auto_scan_on_mouse_move
            })
            &&& after.auto_scan_cooldown_seconds == (if name == "auto_scan_cooldown_seconds"@
                && read(value) is Some && 0x3dcc_cccd <= read(value)->0 <= 0x4270_0000 {
                read(value)->0
            } else {
                settings.auto_scan_cooldown_seconds
            })
            &&& after.show_popup_without_hotkey == (if name == "show_popup_without_hotkey"@
                && value == "true"@ {
                true
            } else if name == "show_popup_without_hotkey"@ && value == "false"@ {
                false
            } else {
                settings.show_popup_without_hotkey
            })
        }),
{
    let line = name.push('=') + value;
    lemma_no_position(name, '=');
    lemma_position(name, '=', value);
    lemma_names_are_plain();
    assert(line.take(name.len() as int) =~= name);
    assert(line.skip((name.len() + 1) as int) =~= value);
}

/// Lines are read from the first to the last, so of several that set one setting the last that
/// fits counts.
pub proof fn law_later_lines_count(
    read: Singles,
    settings: AppSettingsView,
    lines: Seq<Seq<char>>,
    line: Seq<char>,
)
    ensures
        with_lines(read, settings, Seq::empty()) == settings,
        with_lines(read, settings, lines.push(line)) == with_line(
            read,
            with_lines(read, settings, lines),
            line,
        ),
    decreases lines.len(),
{
    if lines.len() > 0 {
        law_later_lines_count(read, with_line(read, settings, lines[0]), lines.drop_first(), line);
        assert(lines.push(line).drop_first() =~= lines.drop_first().push(line));
        assert(lines.push(line)[0] == lines[0]);
    } else {
        assert(lines.push(line).drop_first() =~= Seq::empty());
        assert(with_lines(read, with_line(read, settings, line), Seq::empty()) == with_line(
            read,
            settings,
            line,
        ));
        assert(lines.push(line)[0] == line);
    }
}

/// A text spells a number by decimal digits, of which the last counts once and the others ten
/// times as much as without it, with a sign before them or none. Any other character spells none,
/// and so does a sign alone.
pub proof fn law_numbers_are_spelled_by_digits(digits: Seq<char>, last: char)
    requires
        forall|i: int| 0 <= i < digits.len() ==> '0' <= #[trigger] digits[i] <= '9',
    ensures
        number_of(Seq::empty()) is None,
        number_of(seq!['+']) is None,
        number_of(seq!['-']) is None,
        digits.len() > 0 ==> number_of(digits) is Some && number_of(seq!['+'] + digits)
            == number_of(digits) && number_of(seq!['-'] + digits) == Some(-number_of(digits)->0),
        '0' <= last <= '9' ==> number_of(seq![last]) == Some(last as int - '0' as int),
        '0' <= last <= '9' && digits.len() > 0 ==> number_of(digits.push(last)) == Some(
            10 * number_of(digits)->0 + (last as int - '0' as int),
        ),
        !('0' <= last <= '9') && digits.len() > 0 ==> number_of(digits.push(last)) is None,
{
    let all = digits.push(last);
    assert(seq!['+'].skip(1) =~= Seq::empty());
    assert(seq!['-'].skip(1) =~= Seq::empty());
    assert((seq!['+'] + digits).skip(1) =~= digits);
    assert((seq!['-'] + digits).skip(1) =~= digits);
    assert(all.drop_last() =~= digits);
    assert(seq![last].drop_last() =~= Seq::empty());
    assert(digits_value(seq![last].drop_last()) == 0);
    assert forall|i: int| 0 <= i < digits.len() implies is_digit(#[trigger] digits[i]) by {}
    if digits.len() > 0 {
        assert(is_digit(digits[0]));
        assert(all[0] == digits[0]);
        if '0' <= last <= '9' {
            assert forall|i: int| 0 <= i < all.len() implies is_digit(#[trigger] all[i]) by {
                if i < digits.len() {
                    assert(all[i] == digits[i]);
                }
            }
        } else {
            assert(!is_digit(all[digits.len() as int]));
        }
    }
    if '0' <= last <= '9' {
        assert(is_digit(seq![last][0]));
    }
}

/// A written number is read as that number.
pub proof fn law_written_numbers_are_read(n: nat)
    ensures
        number_of(text::decimal_of(n)) == Some(n as int),
        number_of(text::signed_decimal_of(-n)) == Some(-n),
{
    lemma_number(n);
    lemma_decimal(n);
    if n > 0 {
        let s = text::signed_decimal_of(-n);
        assert(s.skip(1) =~= text::decimal_of(n));
    }
}

/// Settings are in order if an engine is named by more than white space, the greatest length of
/// lookups is from 5 to 100, and the time between two scans is from 0.1 to 60 seconds; of several
/// things that are wrong the first in this order is told.
pub proof fn law_settings_are_checked_in_order(settings: AppSettingsView)
    ensures
        ({
            let named = exists|i: int|
                0 <= i < settings.ocr_provider.len() && !text::is_space(
                    #[trigger] settings.ocr_provider[i],
                );
            let length = settings.max_lookup_length;
            let time = settings.auto_scan_cooldown_seconds;
            match settings_error(settings) {
                None => named && 5 <= length <= 100 && 0x3dcc_cccd <= time <= 0x4270_0000,
                Some(message) => {
                    ||| !named && message == "OCR provider must not be empty"@
                    ||| named && !(5 <= length <= 100) && message
                        == "Max lookup length must be between 5 and 100"@
                    ||| named && 5 <= length <= 100 && !(0x3dcc_cccd <= time <= 0x4270_0000)
                        && message == "Scan interval must be between 100 ms and 60 seconds"@
                },
            }
        }),
{
    let name = settings.ocr_provider;
    let (from, to) = text::law_trimming_takes_only_the_ends(name);
    if text::trimmed(name).len() > 0 {
        assert(text::trimmed(name)[0] == name[from]);
    } else {
        assert(from == to);
        assert forall|i: int| 0 <= i < name.len() implies text::is_space(#[trigger] name[i]) by {}
    }
}

/// The contents of settings are all of them.
pub proof fn law_settings_are_told_by_their_parts(settings: AppSettings)
    ensures
        settings@.ocr_provider == settings.ocr_provider@,
        settings@.max_lookup_length == settings.max_lookup_length,
        settings@.auto_scan == settings.auto_scan,
        settings@.auto_scan_on_mouse_move == settings.auto_scan_on_mouse_move,
        settings@.auto_scan_cooldown_seconds == settings.auto_scan_cooldown_seconds,
        settings@.show_popup_without_hotkey == settings.show_popup_without_hotkey,
{
}

} // verus!
