//! Character and string helpers shared by the rest of the crate.

use vstd::prelude::*;

verus! {

/// `String::push` appends the given character to the end of the string.
pub assume_specification[ String::push ](s: &mut String, c: char)
    ensures
        final(s)@ == old(s)@.push(c),
;

/// The characters with the Unicode property `White_Space`.
pub open spec fn is_space(c: char) -> bool {
    let n = c as int;
    ||| 0x9 <= n <= 0xd
    ||| n == 0x20
    ||| n == 0x85
    ||| n == 0xa0
    ||| n == 0x1680
    ||| 0x2000 <= n <= 0x200a
    ||| n == 0x2028
    ||| n == 0x2029
    ||| n == 0x202f
    ||| n == 0x205f
    ||| n == 0x3000
}

/// Whether `c` is a white space character.
pub fn is_whitespace(c: char) -> (r: bool)
    ensures
        r == is_space(c),
{
    let n: u32 = c as u32;
    (0x9 <= n && n <= 0xd) || n == 0x20 || n == 0x85 || n == 0xa0 || n == 0x1680 || (0x2000 <= n && n
        <= 0x200a) || n == 0x2028 || n == 0x2029 || n == 0x202f || n == 0x205f || n == 0x3000
}

/// The characters of `s`, in order.
pub fn chars_of(s: &str) -> (r: Vec<char>)
    ensures
        r@ == s@,
{
    let mut out: Vec<char> = Vec::new();
    for c in it: s.chars()
        invariant
            it.seq() == s@,
            out@ == s@.take(it.index() as int),
    {
        out.push(c);
    }
    out
}

/// The string made of `chars[from..to]`.
pub fn string_of(chars: &[char], from: usize, to: usize) -> (r: String)
    requires
        from <= to <= chars@.len(),
    ensures
        r@ == chars@.subrange(from as int, to as int),
{
    let mut out: String = String::new();
    let mut i: usize = from;
    while i < to
        invariant
            from <= i <= to <= chars@.len(),
            out@ == chars@.subrange(from as int, i as int),
        decreases to - i,
    {
        out.push(chars[i]);
        i += 1;
    }
    out
}

/// `s` without its leading white space.
pub open spec fn trimmed_start(s: Seq<char>) -> Seq<char>
    decreases s.len(),
{
    if s.len() > 0 && is_space(s[0]) {
        trimmed_start(s.subrange(1, s.len() as int))
    } else {
        s
    }
}

/// `s` without its trailing white space.
pub open spec fn trimmed_end(s: Seq<char>) -> Seq<char>
    decreases s.len(),
{
    if s.len() > 0 && is_space(s[s.len() - 1]) {
        trimmed_end(s.subrange(0, s.len() - 1))
    } else {
        s
    }
}

/// `s` without the white space at either end.
pub open spec fn trimmed(s: Seq<char>) -> Seq<char> {
    trimmed_end(trimmed_start(s))
}

/// `text` without the white space at either end.
pub fn trim(text: &str) -> (r: String)
    ensures
        r@ == trimmed(text@),
{
    let chars: Vec<char> = chars_of(text);
    let mut from: usize = 0;
    assert(chars@.subrange(0, chars@.len() as int) =~= chars@);
    while from < chars.len() && is_whitespace(chars[from])
        invariant
            from <= chars@.len(),
            trimmed_start(chars@) == trimmed_start(chars@.subrange(from as int, chars@.len() as int)),
        decreases chars@.len() - from,
    {
        let ghost rest = chars@.subrange(from as int, chars@.len() as int);
        assert(rest.subrange(1, rest.len() as int) =~= chars@.subrange(
            from + 1,
            chars@.len() as int,
        ));
        from += 1;
    }
    let ghost start = chars@.subrange(from as int, chars@.len() as int);
    assert(trimmed_start(chars@) == start);
    let mut to: usize = chars.len();
    while from < to && is_whitespace(chars[to - 1])
        invariant
            from <= to <= chars@.len(),
            trimmed_end(start) == trimmed_end(chars@.subrange(from as int, to as int)),
        decreases to,
    {
        let ghost rest = chars@.subrange(from as int, to as int);
        assert(rest.subrange(0, rest.len() - 1) =~= chars@.subrange(from as int, to - 1));
        to -= 1;
    }
    string_of(chars.as_slice(), from, to)
}

/// Whether two strings hold the same characters.
pub fn same_text(a: &str, b: &str) -> (r: bool)
    ensures
        r == (a@ == b@),
{
    let left: Vec<char> = chars_of(a);
    let right: Vec<char> = chars_of(b);
    if left.len() != right.len() {
        return false;
    }
    let mut i: usize = 0;
    while i < left.len()
        invariant
            i <= left@.len(),
            left@ == a@,
            right@ == b@,
            left@.len() == right@.len(),
            forall|k: int| 0 <= k < i ==> left@[k] == right@[k],
        decreases left@.len() - i,
    {
        if left[i] != right[i] {
            assert(a@[i as int] != b@[i as int]);
            return false;
        }
        i += 1;
    }
    assert(left@ =~= right@);
    true
}

/// `text` without the ending `suffix`, where it has that ending.
pub fn strip_suffix(text: &str, suffix: &str) -> (r: Option<String>)
    ensures
        r is Some <==> suffix@.is_suffix_of(text@),
        r is Some ==> r->0@ == text@.subrange(0, text@.len() - suffix@.len()),
{
    let chars: Vec<char> = chars_of(text);
    let ending: Vec<char> = chars_of(suffix);
    if ending.len() > chars.len() {
        return None;
    }
    let start: usize = chars.len() - ending.len();
    let mut i: usize = 0;
    while i < ending.len()
        invariant
            i <= ending@.len(),
            chars@ == text@,
            ending@ == suffix@,
            start + ending.len() == chars.len(),
            forall|k: int| 0 <= k < i ==> ending@[k] == #[trigger] chars@[start + k],
        decreases ending@.len() - i,
    {
        if chars[start + i] != ending[i] {
            assert(text@.subrange(start as int, text@.len() as int)[i as int] != suffix@[i as int]);
            return None;
        }
        i += 1;
    }
    assert(text@.subrange(start as int, text@.len() as int) =~= suffix@) by {
        assert forall|k: int| 0 <= k < suffix@.len() implies text@.subrange(
            start as int,
            text@.len() as int,
        )[k] == suffix@[k] by {
            assert(chars@[start + k] == ending@[k]);
        }
    }
    Some(string_of(chars.as_slice(), 0, start))
}

/// `a` followed by `b`.
pub fn joined(a: &str, b: &str) -> (r: String)
    ensures
        r@ == a@ + b@,
{
    let mut out: String = a.to_owned();
    out.append(b);
    out
}

/// The contents of a sequence of strings.
pub open spec fn texts(v: Seq<String>) -> Seq<Seq<char>> {
    Seq::new(v.len(), |i: int| v[i]@)
}

/// A copy of a list of strings.
pub fn copy_texts(v: &Vec<String>) -> (r: Vec<String>)
    ensures
        texts(r@) == texts(v@),
{
    let mut out: Vec<String> = Vec::new();
    let mut i: usize = 0;
    while i < v.len()
        invariant
            i <= v@.len(),
            out@.len() == i,
            forall|k: int| 0 <= k < i ==> out@[k]@ == #[trigger] v@[k]@,
        decreases v@.len() - i,
    {
        out.push(v[i].clone());
        i += 1;
    }
    assert(texts(out@) =~= texts(v@));
    out
}

/// Whether two lists of strings hold the same texts in the same order.
pub fn same_texts(a: &Vec<String>, b: &Vec<String>) -> (r: bool)
    ensures
        r == (texts(a@) == texts(b@)),
{
    if a.len() != b.len() {
        assert(texts(a@).len() != texts(b@).len());
        return false;
    }
    let mut i: usize = 0;
    while i < a.len()
        invariant
            i <= a@.len(),
            a@.len() == b@.len(),
            forall|k: int| 0 <= k < i ==> a@[k]@ == #[trigger] b@[k]@,
        decreases a@.len() - i,
    {
        if a[i] != b[i] {
            assert(texts(a@)[i as int] != texts(b@)[i as int]);
            return false;
        }
        i += 1;
    }
    assert(texts(a@) =~= texts(b@));
    true
}

/// The decimal digit `d` as a character.
pub open spec fn digit_char(d: int) -> char {
    (48 + d) as char
}

/// The decimal notation of a natural number.
pub open spec fn decimal_of(n: nat) -> Seq<char>
    decreases n,
{
    if n < 10 {
        seq![digit_char(n as int)]
    } else {
        decimal_of(n / 10).push(digit_char((n % 10) as int))
    }
}

/// The decimal notation of an integer, with a minus sign where it is negative.
pub open spec fn signed_decimal_of(n: int) -> Seq<char> {
    if n < 0 {
        seq!['-'] + decimal_of((-n) as nat)
    } else {
        decimal_of(n as nat)
    }
}

/// Appends the decimal notation of `n`.
pub fn push_decimal(out: &mut String, n: u64)
    ensures
        final(out)@ == old(out)@ + decimal_of(n as nat),
    decreases n,
{
    if n >= 10 {
        push_decimal(out, n / 10);
    }
    let digit: u8 = 48 + (n % 10) as u8;
    out.push(digit as char);
    assert(digit as char == digit_char((n % 10) as int));
    assert(out@ =~= old(out)@ + decimal_of(n as nat));
}

/// Appends the decimal notation of `n`, with a minus sign where it is negative.
pub fn push_signed_decimal(out: &mut String, n: i64)
    ensures
        final(out)@ == old(out)@ + signed_decimal_of(n as int),
{
    if n < 0 {
        out.push('-');
        let magnitude: u64 = if n == i64::MIN {
            0x8000_0000_0000_0000
        } else {
            (-n) as u64
        };
        push_decimal(out, magnitude);
        assert(out@ =~= old(out)@ + signed_decimal_of(n as int));
    } else {
        push_decimal(out, n as u64);
    }
}

/// Texts put together with a separator between them.
pub open spec fn separated(parts: Seq<Seq<char>>, separator: Seq<char>) -> Seq<char>
    decreases parts.len(),
{
    if parts.len() == 0 {
        Seq::empty()
    } else if parts.len() == 1 {
        parts[0]
    } else {
        separated(parts.drop_last(), separator) + separator + parts.last()
    }
}

/// Puts texts together with a separator between them.
pub fn join_texts(parts: &Vec<String>, separator: &str) -> (r: String)
    ensures
        r@ == separated(texts(parts@), separator@),
{
    let mut out: String = String::new();
    let ghost all = texts(parts@);
    let mut i: usize = 0;
    assert(out@ =~= separated(all.take(0), separator@));
    while i < parts.len()
        invariant
            i <= parts@.len(),
            all == texts(parts@),
            out@ == separated(all.take(i as int), separator@),
        decreases parts@.len() - i,
    {
        if i > 0 {
            out.append(separator);
        }
        out.append(parts[i].as_str());
        proof {
            assert(all.take(i + 1).drop_last() =~= all.take(i as int));
            assert(all.take(i + 1).last() == parts@[i as int]@);
            assert(out@ =~= separated(all.take(i + 1), separator@));
        }
        i += 1;
    }
    assert(all.take(i as int) =~= all);
    out
}

/// What is left of a text without the white space around it: a part of the text that neither
/// begins nor ends with white space, between stretches of nothing but white space.
pub proof fn law_trimming_takes_only_the_ends(s: Seq<char>) -> (place: (int, int))
    ensures
        0 <= place.0 <= place.1 <= s.len(),
        trimmed(s) == s.subrange(place.0, place.1),
        forall|i: int| 0 <= i < place.0 ==> is_space(#[trigger] s[i]),
        forall|i: int| place.1 <= i < s.len() ==> is_space(#[trigger] s[i]),
        trimmed(s).len() > 0 ==> !is_space(trimmed(s)[0]) && !is_space(trimmed(s).last()),
{
    let from = lemma_trimmed_start(s);
    let rest = s.subrange(from, s.len() as int);
    let to = lemma_trimmed_end(rest);
    assert(rest.subrange(0, to) =~= s.subrange(from, from + to));
    assert forall|i: int| from + to <= i < s.len() implies is_space(#[trigger] s[i]) by {
        assert(rest[i - from] == s[i]);
    }
    (from, from + to)
}

proof fn lemma_trimmed_start(s: Seq<char>) -> (from: int)
    ensures
        0 <= from <= s.len(),
        trimmed_start(s) == s.subrange(from, s.len() as int),
        forall|i: int| 0 <= i < from ==> is_space(#[trigger] s[i]),
        from < s.len() ==> !is_space(s[from]),
    decreases s.len(),
{
    if s.len() > 0 && is_space(s[0]) {
        let rest = s.subrange(1, s.len() as int);
        let from = lemma_trimmed_start(rest);
        assert(rest.subrange(from, rest.len() as int) =~= s.subrange(from + 1, s.len() as int));
        assert forall|i: int| 0 <= i < from + 1 implies is_space(#[trigger] s[i]) by {
            if i > 0 {
                assert(rest[i - 1] == s[i]);
            }
        }
        assert(from < rest.len() ==> rest[from] == s[from + 1]);
        from + 1
    } else {
        assert(s.subrange(0, s.len() as int) =~= s);
        0
    }
}

proof fn lemma_trimmed_end(s: Seq<char>) -> (to: int)
    ensures
        0 <= to <= s.len(),
        trimmed_end(s) == s.subrange(0, to),
        forall|i: int| to <= i < s.len() ==> is_space(#[trigger] s[i]),
        to > 0 ==> !is_space(s[to - 1]),
    decreases s.len(),
{
    if s.len() > 0 && is_space(s[s.len() - 1]) {
        let rest = s.subrange(0, s.len() - 1);
        let to = lemma_trimmed_end(rest);
        assert(rest.subrange(0, to) =~= s.subrange(0, to));
        assert forall|i: int| to <= i < s.len() implies is_space(#[trigger] s[i]) by {
            if i < rest.len() {
                assert(rest[i] == s[i]);
            }
        }
        assert(to > 0 ==> rest[to - 1] == s[to - 1]);
        to
    } else {
        assert(s.subrange(0, s.len() as int) =~= s);
        s.len() as int
    }
}

/// White space is what the Unicode standard lists as such: the controls from tab to carriage
/// return, the spaces and separators, and the next-line control.
pub proof fn law_white_space(c: char)
    ensures
        is_space(c) <==> seq![
            '\u{9}',
            '\u{a}',
            '\u{b}',
            '\u{c}',
            '\u{d}',
            '\u{20}',
            '\u{85}',
            '\u{a0}',
            '\u{1680}',
            '\u{2000}',
            '\u{2001}',
            '\u{2002}',
            '\u{2003}',
            '\u{2004}',
            '\u{2005}',
            '\u{2006}',
            '\u{2007}',
            '\u{2008}',
            '\u{2009}',
            '\u{200a}',
            '\u{2028}',
            '\u{2029}',
            '\u{202f}',
            '\u{205f}',
            '\u{3000}',
        ].contains(c),
{
    let all = seq![
        '\u{9}',
        '\u{a}',
        '\u{b}',
        '\u{c}',
        '\u{d}',
        '\u{20}',
        '\u{85}',
        '\u{a0}',
        '\u{1680}',
        '\u{2000}',
        '\u{2001}',
        '\u{2002}',
        '\u{2003}',
        '\u{2004}',
        '\u{2005}',
        '\u{2006}',
        '\u{2007}',
        '\u{2008}',
        '\u{2009}',
        '\u{200a}',
        '\u{2028}',
        '\u{2029}',
        '\u{202f}',
        '\u{205f}',
        '\u{3000}',
    ];
    let n = c as int;
    if 0x9 <= n <= 0xd {
        assert(all[n - 9] == c);
    } else if 0x2000 <= n <= 0x200a {
        assert(all[n - 0x2000 + 9] == c);
    } else if is_space(c) {
        assert(all[5] == c || all[6] == c || all[7] == c || all[8] == c || all[20] == c || all[21]
            == c || all[22] == c || all[23] == c || all[24] == c);
    }
}

/// Texts that are put together have the separator between each two and nothing else: with one
/// more text it and the separator come behind.
pub proof fn law_separators_stand_between_texts(
    parts: Seq<Seq<char>>,
    part: Seq<char>,
    separator: Seq<char>,
)
    ensures
        separated(Seq::empty(), separator).len() == 0,
        parts.len() == 0 ==> separated(parts.push(part), separator) == part,
        parts.len() > 0 ==> separated(parts.push(part), separator) == separated(parts, separator)
            + separator + part,
{
    assert(parts.push(part).drop_last() =~= parts);
}

/// The last digit of a number is what is left of it when it is divided by ten, and the others are
/// those of the quotient; numbers below ten have one digit. A negative number has a minus sign
/// before its digits.
pub proof fn law_decimals_are_written_by_tens(n: nat, digit: nat)
    requires
        digit < 10,
    ensures
        decimal_of(digit).len() == 1,
        decimal_of(digit)[0] as int == '0' as int + digit,
        n > 0 ==> decimal_of(10 * n + digit) == decimal_of(n) + decimal_of(digit),
        signed_decimal_of(n as int) == decimal_of(n),
        n > 0 ==> signed_decimal_of(-n) == seq!['-'] + decimal_of(n),
{
    if n > 0 {
        let m = 10 * n + digit;
        assert(m / 10 == n && m % 10 == digit);
        assert(decimal_of(n) + decimal_of(digit) =~= decimal_of(n).push(digit_char(digit as int)));
    }
}

} // verus!
