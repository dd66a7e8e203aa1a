//! Characters and decimal numbers.

use vstd::prelude::*;
use vstd::slice::slice_subrange;

verus! {

/// `String::push`: appends one character and changes nothing else.
pub assume_specification[ String::push ](target: &mut String, c: char)
    ensures
        final(target)@ == old(target)@.push(c),
;

/// The character that writes a digit below ten.
pub open spec fn digit(value: nat) -> char {
    (48 + value) as char
}

/// A number in decimal, without leading zeros.
pub open spec fn decimal(value: nat) -> Seq<char>
    decreases value,
{
    if value < 10 {
        seq![digit(value)]
    } else {
        decimal(value / 10).push(digit(value % 10))
    }
}

/// A number in decimal, with a minus sign where it is negative.
pub open spec fn signed_decimal(value: int) -> Seq<char> {
    if value < 0 {
        seq!['-'] + decimal((-value) as nat)
    } else {
        decimal(value as nat)
    }
}

/// Appends a number in decimal.
pub fn push_decimal(text: &mut String, value: u64)
    ensures
        final(text)@ == old(text)@ + decimal(value as nat),
    decreases value,
{
    if value >= 10 {
        push_decimal(text, value / 10);
    }
    let code: u8 = 48 + (value % 10) as u8;
    text.push(code as char);
    proof {
        assert(final(text)@ =~= old(text)@ + decimal(value as nat));
    }
}

/// Appends a number in decimal, signed where it is negative.
pub fn push_signed(text: &mut String, value: i64)
    requires
        value > i64::MIN,
    ensures
        final(text)@ == old(text)@ + signed_decimal(value as int),
{
    if value < 0 {
        text.push('-');
        push_decimal(text, (-value) as u64);
        assert(final(text)@ =~= old(text)@ + signed_decimal(value as int));
    } else {
        push_decimal(text, value as u64);
    }
}

/// The characters of a string.
pub fn chars_of(text: &str) -> (chars: Vec<char>)
    ensures
        chars@ == text@,
{
    let mut chars: Vec<char> = Vec::new();
    for c in iter: text.chars()
        invariant
            iter.seq() == text@,
            chars@ == text@.take(iter.index() as int),
    {
        chars.push(c);
        assert(chars@ =~= text@.take(iter.index() + 1));
    }
    assert(chars@ =~= text@);
    chars
}

/// The string of some characters.
pub fn string_of(chars: &[char]) -> (text: String)
    ensures
        text@ == chars@,
{
    let mut text = String::new();
    let mut i: usize = 0;
    while i < chars.len()
        invariant
            i <= chars.len(),
            text@ == chars@.take(i as int),
        decreases chars.len() - i,
    {
        text.push(chars[i]);
        i += 1;
        assert(text@ =~= chars@.take(i as int));
    }
    assert(text@ =~= chars@);
    text
}

/// A character with the letters A to Z in lower case.
pub open spec fn lower(c: char) -> char {
    if 'A' <= c <= 'Z' {
        (c as int + 32) as char
    } else {
        c
    }
}

/// Text with the letters A to Z in lower case.
pub open spec fn ascii_lower(text: Seq<char>) -> Seq<char> {
    text.map_values(|c: char| lower(c))
}

pub open spec fn ends_with(text: Seq<char>, end: Seq<char>) -> bool {
    text.len() >= end.len() && text.skip(text.len() - end.len()) == end
}

fn lower_char(c: char) -> (result: char)
    ensures
        result == lower(c),
{
    if 'A' <= c && c <= 'Z' {
        (c as u8 + 32) as char
    } else {
        c
    }
}

/// The characters with the letters A to Z in lower case.
pub fn lower_chars(chars: &[char]) -> (result: Vec<char>)
    ensures
        result@ == ascii_lower(chars@),
{
    let mut result: Vec<char> = Vec::new();
    let mut i: usize = 0;
    while i < chars.len()
        invariant
            i <= chars.len(),
            result@ == ascii_lower(chars@.take(i as int)),
        decreases chars.len() - i,
    {
        result.push(lower_char(chars[i]));
        i += 1;
        assert(result@ =~= ascii_lower(chars@.take(i as int)));
    }
    assert(chars@.take(i as int) =~= chars@);
    result
}

/// Whether two texts are the same.
pub fn same_chars(left: &[char], right: &[char]) -> (same: bool)
    ensures
        same == (left@ == right@),
{
    if left.len() != right.len() {
        return false;
    }
    let mut i: usize = 0;
    while i < left.len()
        invariant
            i <= left.len(),
            left.len() == right.len(),
            forall|k: int| 0 <= k < i ==> #[trigger] left@[k] == right@[k],
        decreases left.len() - i,
    {
        if left[i] != right[i] {
            return false;
        }
        i += 1;
    }
    assert(left@ =~= right@);
    true
}

/// Whether some characters are exactly a given text.
pub fn is_text(chars: &[char], text: &str) -> (same: bool)
    ensures
        same == (chars@ == text@),
{
    same_chars(chars, chars_of(text).as_slice())
}

/// Whether some characters end in a given text.
pub fn chars_end_with(chars: &[char], end: &str) -> (result: bool)
    ensures
        result == ends_with(chars@, end@),
{
    let end = chars_of(end);
    if chars.len() < end.len() {
        return false;
    }
    let tail = slice_subrange(chars, chars.len() - end.len(), chars.len());
    assert(tail@ =~= chars@.skip(chars@.len() - end@.len()));
    same_chars(tail, end.as_slice())
}

/// Whether two texts are the same but for the case of the letters A to Z.
pub fn same_ignoring_case(left: &[char], right: &str) -> (same: bool)
    ensures
        same == (ascii_lower(left@) == ascii_lower(right@)),
{
    same_chars(
        lower_chars(left).as_slice(),
        lower_chars(chars_of(right).as_slice()).as_slice(),
    )
}

/// Whether two strings are the same.
pub fn same_text(left: &str, right: &str) -> (same: bool)
    ensures
        same == (left@ == right@),
{
    same_chars(chars_of(left).as_slice(), chars_of(right).as_slice())
}

/// The characters of some strings.
pub open spec fn texts(list: Seq<String>) -> Seq<Seq<char>> {
    list.map_values(|entry: String| entry@)
}

/// White space, as Unicode defines it.
pub open spec fn is_space(c: char) -> bool {
    ||| '\u{9}' <= c <= '\u{d}'
    ||| c == ' '
    ||| c == '\u{85}'
    ||| c == '\u{a0}'
    ||| c == '\u{1680}'
    ||| '\u{2000}' <= c <= '\u{200a}'
    ||| c == '\u{2028}'
    ||| c == '\u{2029}'
    ||| c == '\u{202f}'
    ||| c == '\u{205f}'
    ||| c == '\u{3000}'
}

/// Text without white space in front.
pub open spec fn trimmed_front(text: Seq<char>) -> Seq<char>
    decreases text.len(),
{
    if text.len() > 0 && is_space(text[0]) {
        trimmed_front(text.skip(1))
    } else {
        text
    }
}

/// Text without white space behind.
pub open spec fn trimmed_back(text: Seq<char>) -> Seq<char>
    decreases text.len(),
{
    if text.len() > 0 && is_space(text.last()) {
        trimmed_back(text.drop_last())
    } else {
        text
    }
}

pub open spec fn trimmed(text: Seq<char>) -> Seq<char> {
    trimmed_back(trimmed_front(text))
}

fn spaces(c: char) -> (result: bool)
    ensures
        result == is_space(c),
{
    ('\u{9}' <= c && c <= '\u{d}') || c == ' ' || c == '\u{85}' || c == '\u{a0}' || c == '\u{1680}'
        || ('\u{2000}' <= c && c <= '\u{200a}') || c == '\u{2028}' || c == '\u{2029}' || c
        == '\u{202f}' || c == '\u{205f}' || c == '\u{3000}'
}

/// The characters without white space at either end.
pub fn trim_chars(chars: &[char]) -> (result: &[char])
    ensures
        result@ == trimmed(chars@),
{
    let mut start: usize = 0;
    assert(chars@.skip(0) =~= chars@);
    while start < chars.len() && spaces(chars[start])
        invariant
            start <= chars.len(),
            trimmed_front(chars@.skip(start as int)) == trimmed_front(chars@),
        decreases chars.len() - start,
    {
        assert(chars@.skip(start as int).skip(1) =~= chars@.skip(start + 1));
        start += 1;
    }
    assert(trimmed_front(chars@) == chars@.skip(start as int));
    let mut end: usize = chars.len();
    assert(chars@.subrange(start as int, end as int) =~= chars@.skip(start as int));
    while end > start && spaces(chars[end - 1])
        invariant
            start <= end <= chars.len(),
            trimmed_back(chars@.subrange(start as int, end as int)) == trimmed(chars@),
        decreases end,
    {
        let ghost now = chars@.subrange(start as int, end as int);
        assert(now.drop_last() =~= chars@.subrange(start as int, end - 1));
        assert(now.last() == chars@[end - 1]);
        end -= 1;
    }
    proof {
        let now = chars@.subrange(start as int, end as int);
        if end > start {
            assert(now.last() == chars@[end - 1]);
        }
    }
    slice_subrange(chars, start, end)
}

/// Copies texts.
pub fn copied_texts(list: &Vec<String>) -> (copy: Vec<String>)
    ensures
        texts(copy@) == texts(list@),
{
    let mut copy: Vec<String> = Vec::new();
    let mut next: usize = 0;
    while next < list.len()
        invariant
            next <= list@.len(),
            copy@.len() == next,
            forall|i: int| 0 <= i < next ==> (#[trigger] copy@[i])@ == list@[i]@,
        decreases list.len() - next,
    {
        copy.push(list[next].as_str().to_owned());
        next += 1;
    }
    assert(texts(copy@) =~= texts(list@));
    copy
}

} // verus!
