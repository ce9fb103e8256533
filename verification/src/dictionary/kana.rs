//! Kanji detection and conversion between the two kana scripts.

use crate::text::chars_of;
use vstd::prelude::*;

verus! {

/// `char::from_u32` gives the character with the given code, and nothing where the code is
/// not that of a character.
pub assume_specification[ char::from_u32 ](code: u32) -> (r: Option<char>)
    ensures
        r is Some <==> code <= 0xd7ff || 0xe000 <= code <= 0x10ffff,
        r is Some ==> r->0 == code as char,
;

/// Whether `c` is a kanji of the common block.
pub open spec fn kanji(c: char) -> bool {
    0x4e00 <= c as int <= 0x9faf
}

/// Whether `s` holds a kanji.
pub open spec fn has_kanji(s: Seq<char>) -> bool {
    exists|i: int| 0 <= i < s.len() && kanji(#[trigger] s[i])
}

/// Whether `character` is a kanji.
pub fn is_kanji(character: char) -> (r: bool)
    ensures
        r == kanji(character),
{
    let code: u32 = character as u32;
    0x4e00 <= code && code <= 0x9faf
}

/// Whether `text` holds a kanji.
pub fn contains_kanji(text: &str) -> (r: bool)
    ensures
        r == has_kanji(text@),
{
    let chars: Vec<char> = chars_of(text);
    let mut i: usize = 0;
    while i < chars.len()
        invariant
            i <= chars@.len(),
            chars@ == text@,
            forall|k: int| 0 <= k < i ==> !kanji(#[trigger] text@[k]),
        decreases chars@.len() - i,
    {
        if is_kanji(chars[i]) {
            assert(kanji(text@[i as int]));
            return true;
        }
        i += 1;
    }
    false
}

/// The katakana for a hiragana; any other character stands for itself.
pub open spec fn katakana_for(c: char) -> char {
    if 0x3041 <= c as int <= 0x3096 {
        (c as int + 0x60) as char
    } else {
        c
    }
}

/// The hiragana for a katakana; any other character stands for itself.
pub open spec fn hiragana_for(c: char) -> char {
    let code = c as int;
    if 0x30a1 <= code <= 0x30f6 {
        (code - 0x60) as char
    } else if code == 0x30fd {
        '\u{309d}'
    } else if code == 0x30fe {
        '\u{309e}'
    } else {
        c
    }
}

/// `s` with its hiragana turned into katakana.
pub open spec fn in_katakana(s: Seq<char>) -> Seq<char> {
    Seq::new(s.len(), |i: int| katakana_for(s[i]))
}

/// `s` with its katakana turned into hiragana.
pub open spec fn in_hiragana(s: Seq<char>) -> Seq<char> {
    Seq::new(s.len(), |i: int| hiragana_for(s[i]))
}

fn shifted(code: u32, fallback: char) -> (r: char)
    requires
        0x3041 <= code <= 0x30f6,
    ensures
        r == code as char,
{
    match char::from_u32(code) {
        Some(c) => c,
        None => fallback,
    }
}

/// `text` with its hiragana turned into katakana.
pub fn hira_to_kata(text: &str) -> (r: String)
    ensures
        r@ == in_katakana(text@),
{
    let chars: Vec<char> = chars_of(text);
    let mut out: String = String::new();
    let mut i: usize = 0;
    while i < chars.len()
        invariant
            i <= chars@.len(),
            chars@ == text@,
            out@ == in_katakana(text@).take(i as int),
        decreases chars@.len() - i,
    {
        let c: char = chars[i];
        let code: u32 = c as u32;
        let converted: char = if 0x3041 <= code && code <= 0x3096 {
            shifted(code + 0x60, c)
        } else {
            c
        };
        out.push(converted);
        assert(out@ =~= in_katakana(text@).take(i + 1));
        i += 1;
    }
    assert(out@ =~= in_katakana(text@));
    out
}

/// `text` with its katakana turned into hiragana.
pub fn kata_to_hira(text: &str) -> (r: String)
    ensures
        r@ == in_hiragana(text@),
{
    let chars: Vec<char> = chars_of(text);
    let mut out: String = String::new();
    let mut i: usize = 0;
    while i < chars.len()
        invariant
            i <= chars@.len(),
            chars@ == text@,
            out@ == in_hiragana(text@).take(i as int),
        decreases chars@.len() - i,
    {
        let c: char = chars[i];
        let code: u32 = c as u32;
        let converted: char = if 0x30a1 <= code && code <= 0x30f6 {
            shifted(code - 0x60, c)
        } else if code == 0x30fd {
            '\u{309d}'
        } else if code == 0x30fe {
            '\u{309e}'
        } else {
            c
        };
        out.push(converted);
        assert(out@ =~= in_hiragana(text@).take(i + 1));
        i += 1;
    }
    assert(out@ =~= in_hiragana(text@));
    out
}

/// Text without katakana comes back unchanged from katakana.
pub proof fn law_hiragana_survives_katakana(s: Seq<char>)
    requires
        forall|i: int| 0 <= i < s.len() ==> hiragana_for(#[trigger] s[i]) == s[i],
    ensures
        in_hiragana(in_katakana(s)) == s,
{
    assert forall|i: int| 0 <= i < s.len() implies in_hiragana(in_katakana(s))[i] == s[i] by {
        assert(hiragana_for(s[i]) == s[i]);
    }
    assert(in_hiragana(in_katakana(s)) =~= s);
}

/// Conversion to either script keeps the kanji where they are.
pub proof fn law_conversion_keeps_kanji(s: Seq<char>)
    ensures
        has_kanji(in_katakana(s)) == has_kanji(s),
        has_kanji(in_hiragana(s)) == has_kanji(s),
{
    let kata = in_katakana(s);
    let hira = in_hiragana(s);
    assert forall|i: int| 0 <= i < s.len() implies kanji(#[trigger] s[i]) == kanji(kata[i])
        && kanji(s[i]) == kanji(hira[i]) by {}
    if has_kanji(s) {
        let i = choose|i: int| 0 <= i < s.len() && kanji(#[trigger] s[i]);
        assert(kanji(kata[i]) && kanji(hira[i]));
    }
    if has_kanji(kata) {
        let i = choose|i: int| 0 <= i < kata.len() && kanji(#[trigger] kata[i]);
        assert(kanji(s[i]));
    }
    if has_kanji(hira) {
        let i = choose|i: int| 0 <= i < hira.len() && kanji(#[trigger] hira[i]);
        assert(kanji(s[i]));
    }
}

/// A text holds a kanji where one of its characters has a code from 4e00 to 9faf.
pub proof fn law_kanji_are_told_by_their_codes(s: Seq<char>)
    ensures
        has_kanji(s) <==> exists|i: int| 0 <= i < s.len() && 0x4e00 <= #[trigger] s[i] as int <= 0x9faf,
{
    if has_kanji(s) {
        let i = choose|i: int| 0 <= i < s.len() && kanji(#[trigger] s[i]);
        assert(0x4e00 <= s[i] as int <= 0x9faf);
    }
    if exists|i: int| 0 <= i < s.len() && 0x4e00 <= #[trigger] s[i] as int <= 0x9faf {
        let i = choose|i: int| 0 <= i < s.len() && 0x4e00 <= #[trigger] s[i] as int <= 0x9faf;
        assert(kanji(s[i]));
    }
}

/// The scripts lie side by side: a hiragana and its katakana are 60 codes apart, from small a to
/// small ke, and the two marks of repetition likewise from katakana on. No other character
/// changes, and none moves.
pub proof fn law_scripts_are_a_fixed_distance_apart(s: Seq<char>, i: int)
    requires
        0 <= i < s.len(),
    ensures
        in_katakana(s).len() == s.len(),
        in_hiragana(s).len() == s.len(),
        in_katakana(s)[i] as int - s[i] as int == (if 0x3041 <= s[i] as int <= 0x3096 {
            0x60int
        } else {
            0int
        }),
        s[i] as int - in_hiragana(s)[i] as int == (if 0x30a1 <= s[i] as int <= 0x30f6 || s[i]
            as int == 0x30fd || s[i] as int == 0x30fe {
            0x60int
        } else {
            0int
        }),
{
}

/// Text without hiragana comes back unchanged from hiragana, but for the marks of repetition.
pub proof fn law_katakana_survives_hiragana(s: Seq<char>)
    requires
        forall|i: int|
            0 <= i < s.len() ==> !(0x3041 <= #[trigger] s[i] as int <= 0x3096) && s[i] as int
                != 0x30fd && s[i] as int != 0x30fe,
    ensures
        in_katakana(in_hiragana(s)) == s,
{
    assert(in_katakana(in_hiragana(s)) =~= s);
}

} // verus!
