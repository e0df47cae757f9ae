//! Text: comparing it, searching in it, and reading numbers from it.
use vstd::prelude::*;

verus! {

/// The lower-case form of an ASCII letter; any other character stays as it is.
pub open spec fn ascii_lower(c: char) -> char {
    if 'A' <= c <= 'Z' {
        (c as int + 32) as char
    } else {
        c
    }
}

/// The text with its ASCII letters in lower case.
pub open spec fn ascii_lowercase(text: Seq<char>) -> Seq<char> {
    text.map_values(|c: char| ascii_lower(c))
}

/// Whether the text is ASCII.
pub open spec fn is_ascii_text(text: Seq<char>) -> bool {
    forall|i: int| 0 <= i < text.len() ==> (#[trigger] text[i] as int) < 128
}

/// Whether `part` stands in `text` at the given place.
pub open spec fn stands_at(text: Seq<char>, at: int, part: Seq<char>) -> bool {
    at + part.len() <= text.len() && text.subrange(at, at + part.len()) == part
}

/// Whether `part` stands anywhere in `text`.
pub open spec fn contains_text(text: Seq<char>, part: Seq<char>) -> bool {
    exists|at: int| 0 <= at && #[trigger] stands_at(text, at, part)
}

/// Whether the character is a decimal digit.
pub open spec fn is_digit(c: char) -> bool {
    '0' <= c <= '9'
}

/// Whether the text is made of decimal digits.
pub open spec fn all_digits(text: Seq<char>) -> bool {
    forall|i: int| 0 <= i < text.len() ==> is_digit(#[trigger] text[i])
}

/// The number that decimal digits spell.
pub open spec fn decimal_value(digits: Seq<char>) -> nat
    decreases digits.len(),
{
    if digits.len() == 0 {
        0
    } else {
        (10 * decimal_value(digits.drop_last()) + (digits.last() as int - '0' as int)) as nat
    }
}

/// The text behind an optional plus sign.
pub open spec fn unsigned_part(text: Seq<char>) -> Seq<char> {
    if text.len() > 0 && text[0] == '+' {
        text.skip(1)
    } else {
        text
    }
}

/// The number that the text spells: an optional plus sign and at least one digit, and the number
/// fits in 64 bits.
pub open spec fn number(text: Seq<char>) -> Option<u64> {
    let digits = unsigned_part(text);
    if digits.len() > 0 && all_digits(digits) && decimal_value(digits) <= u64::MAX {
        Some(decimal_value(digits) as u64)
    } else {
        None
    }
}

/// The name of what `str::to_lowercase` makes of a text.
pub uninterp spec fn lowercase_of(text: Seq<char>) -> Seq<char>;

/// `str::to_lowercase`: depends on the text alone, and on ASCII text puts each letter in lower
/// case. What Unicode makes of other characters is not stated.
pub assume_specification[ str::to_lowercase ](s: &str) -> (lower: String)
    ensures
        lower@ == lowercase_of(s@),
        is_ascii_text(s@) ==> lower@ == ascii_lowercase(s@),
;

/// The characters of a text.
pub fn chars_of(text: &str) -> (chars: Vec<char>)
    ensures
        chars@ == text@,
{
    let mut chars: Vec<char> = Vec::new();
    for c in it: text.chars()
        invariant
            it.seq() == text@,
            chars@ == text@.take(it.index() as int),
    {
        chars.push(c);
    }
    assert(chars@ =~= text@);
    chars
}

/// Whether `part` stands in `text` at the given place.
pub fn is_at(text: &Vec<char>, at: usize, part: &Vec<char>) -> (found: bool)
    requires
        at <= text.len(),
    ensures
        found == stands_at(text@, at as int, part@),
{
    if part.len() > text.len() - at {
        return false;
    }
    let mut i: usize = 0;
    while i < part.len()
        invariant
            at + part.len() <= text.len(),
            0 <= i <= part.len(),
            forall|j: int| 0 <= j < i ==> text[at + j] == part[j],
        decreases part.len() - i,
    {
        if text[at + i] != part[i] {
            assert(text@.subrange(at as int, at + part.len())[i as int] != part[i as int]);
            return false;
        }
        i += 1;
    }
    assert(text@.subrange(at as int, at + part.len()) =~= part@);
    true
}

/// Whether the two texts are the same.
pub fn same(a: &str, b: &str) -> (same: bool)
    ensures
        same == (a@ == b@),
{
    let a = chars_of(a);
    let b = chars_of(b);
    proof {
        assert(a@.subrange(0, a@.len() as int) =~= a@);
    }
    a.len() == b.len() && is_at(&a, 0, &b)
}

/// Whether `part` stands anywhere in `text`.
pub fn contains(text: &str, part: &str) -> (found: bool)
    ensures
        found == contains_text(text@, part@),
{
    let text_chars = chars_of(text);
    let part_chars = chars_of(part);
    let mut at: usize = 0;
    while at < text_chars.len()
        invariant
            text_chars@ == text@,
            part_chars@ == part@,
            0 <= at <= text_chars.len(),
            forall|k: int| 0 <= k < at ==> !#[trigger] stands_at(text@, k, part@),
        decreases text_chars.len() - at,
    {
        if is_at(&text_chars, at, &part_chars) {
            return true;
        }
        at += 1;
    }
    is_at(&text_chars, at, &part_chars)
}

/// What follows the prefix, where the text starts with it.
pub fn after_prefix(text: &str, prefix: &str) -> (rest: Option<String>)
    ensures
        rest is Some <==> prefix@.is_prefix_of(text@),
        rest matches Some(rest) ==> rest@ == text@.skip(prefix@.len() as int),
{
    let text_chars = chars_of(text);
    let prefix_chars = chars_of(prefix);
    if is_at(&text_chars, 0, &prefix_chars) {
        let rest = text.substring_char(prefix_chars.len(), text_chars.len()).to_owned();
        assert(rest@ =~= text@.skip(prefix@.len() as int));
        Some(rest)
    } else {
        None
    }
}

/// Whether the two texts are the same but for the case of ASCII letters.
pub fn same_ignoring_ascii_case(a: &str, b: &str) -> (same: bool)
    ensures
        same == (ascii_lowercase(a@) == ascii_lowercase(b@)),
{
    let a_chars = chars_of(a);
    let b_chars = chars_of(b);
    proof {
        assert(ascii_lowercase(a@).len() == a@.len());
        assert(ascii_lowercase(b@).len() == b@.len());
    }
    if a_chars.len() != b_chars.len() {
        return false;
    }
    let mut i: usize = 0;
    while i < a_chars.len()
        invariant
            a_chars@ == a@,
            b_chars@ == b@,
            a_chars.len() == b_chars.len(),
            0 <= i <= a_chars.len(),
            forall|j: int| 0 <= j < i ==> ascii_lower(a@[j]) == ascii_lower(b@[j]),
        decreases a_chars.len() - i,
    {
        let x = lower_code(a_chars[i]);
        let y = lower_code(b_chars[i]);
        if x != y {
            assert(ascii_lowercase(a@)[i as int] != ascii_lowercase(b@)[i as int]);
            return false;
        }
        i += 1;
    }
    assert(ascii_lowercase(a@) =~= ascii_lowercase(b@));
    true
}

/// The code of a character, with ASCII letters in lower case.
fn lower_code(c: char) -> (code: u32)
    ensures
        code == ascii_lower(c) as u32,
{
    if 'A' <= c && c <= 'Z' {
        c as u32 + 32
    } else {
        c as u32
    }
}

/// Reads the number that the text spells.
pub fn parse_u64(text: &str) -> (value: Option<u64>)
    ensures
        value == number(text@),
{
    let chars = chars_of(text);
    let start: usize = if chars.len() > 0 && chars[0] == '+' {
        1
    } else {
        0
    };
    let ghost digits = unsigned_part(text@);
    assert(digits =~= text@.skip(start as int));
    if start == chars.len() {
        return None;
    }
    let mut value: u64 = 0;
    let mut i: usize = start;
    while i < chars.len()
        invariant
            chars@ == text@,
            start <= i <= chars.len(),
            digits == unsigned_part(text@),
            digits == text@.skip(start as int),
            all_digits(digits.take(i - start)),
            value == decimal_value(digits.take(i - start)),
        decreases chars.len() - i,
    {
        let c = chars[i];
        let ghost longer = digits.take(i + 1 - start);
        proof {
            assert(longer.drop_last() =~= digits.take(i - start));
            assert(longer.last() == c && digits[i - start] == c);
        }
        if c < '0' || '9' < c {
            return None;
        }
        proof {
            if number(text@) is Some {
                value_grows(digits, (i + 1 - start) as nat);
            }
            assert forall|j: int| 0 <= j < longer.len() implies is_digit(#[trigger] longer[j]) by {
                if j < i - start {
                    assert(digits.take(i - start)[j] == longer[j]);
                }
            }
        }
        let digit: u64 = (c as u32 - 48) as u64;
        if value > (u64::MAX - digit) / 10 {
            return None;
        }
        value = 10 * value + digit;
        i += 1;
    }
    assert(digits.take(chars.len() - start) =~= digits);
    Some(value)
}

/// More digits spell at least as large a number.
proof fn value_grows(digits: Seq<char>, n: nat)
    requires
        n <= digits.len(),
        all_digits(digits),
    ensures
        decimal_value(digits.take(n as int)) <= decimal_value(digits),
    decreases digits.len(),
{
    if n < digits.len() {
        let fewer = digits.drop_last();
        assert forall|i: int| 0 <= i < fewer.len() implies is_digit(#[trigger] fewer[i]) by {
            assert(fewer[i] == digits[i]);
        }
        value_grows(fewer, n);
        assert(fewer.take(n as int) =~= digits.take(n as int));
        assert(is_digit(digits.last()));
    } else {
        assert(digits.take(n as int) =~= digits);
    }
}

/// The 26 capital letters of ASCII have their small letters, 32 places on; no other character
/// changes.
pub proof fn ascii_lower_in_full(c: char)
    ensures
        65 <= c as int <= 90 ==> ascii_lower(c) as int == c as int + 32,
        !(65 <= c as int <= 90) ==> ascii_lower(c) == c,
        ascii_lower(ascii_lower(c)) == ascii_lower(c),
{
}

/// A text is put in lower case character by character.
pub proof fn ascii_lowercase_in_full(text: Seq<char>)
    ensures
        ascii_lowercase(text).len() == text.len(),
        forall|i: int|
            0 <= i < text.len() ==> (#[trigger] ascii_lowercase(text)[i] as int) == (if 65
                <= text[i] as int <= 90 {
                text[i] as int + 32
            } else {
                text[i] as int
            }),
{
}

/// A text that has the part in its middle contains it.
pub proof fn what_is_inside_is_contained(before: Seq<char>, part: Seq<char>, after: Seq<char>)
    ensures
        stands_at(before + part + after, before.len() as int, part),
        contains_text(before + part + after, part),
{
    let text = before + part + after;
    assert(text.subrange(before.len() as int, before.len() as int + part.len()) =~= part);
    assert(stands_at(text, before.len() as int, part));
}

/// A text that contains a part is that part with something before and something behind.
pub proof fn what_is_contained_is_inside(text: Seq<char>, part: Seq<char>) -> (sides: (
    Seq<char>,
    Seq<char>,
))
    requires
        contains_text(text, part),
    ensures
        text == sides.0 + part + sides.1,
{
    let at = choose|at: int| 0 <= at && #[trigger] stands_at(text, at, part);
    let sides = (text.take(at), text.skip(at + part.len()));
    assert(text =~= text.take(at) + text.subrange(at, at + part.len()) + text.skip(
        at + part.len(),
    ));
    sides
}

/// A single digit is its number, and any other single character is none.
pub proof fn single_digits_are_numbers(c: char)
    ensures
        number(seq![c]) == (if 48 <= c as int <= 57 {
            Some((c as int - 48) as u64)
        } else {
            None
        }),
        number(Seq::empty()) is None,
{
    reveal_with_fuel(decimal_value, 3);
    let text = seq![c];
    assert(text.drop_last() =~= Seq::<char>::empty());
    assert(text[0] == c);
    assert(c == '+' ==> text.skip(1).len() == 0);
    if is_digit(c) {
        assert(all_digits(text));
        assert(decimal_value(text) == c as int - 48);
    } else {
        assert(!is_digit(text[0]));
    }
}

/// One more digit makes ten times the number and the digit, as long as it fits in 64 bits, and one
/// more of anything else makes none.
pub proof fn numbers_grow_by_digits(text: Seq<char>, c: char)
    requires
        text.len() > 0,
        text != seq!['+'],
    ensures
        number(text.push(c)) == (match number(text) {
            Some(v) => if 48 <= c as int <= 57 && 10 * v + (c as int - 48) <= u64::MAX {
                Some((10 * v + (c as int - 48)) as u64)
            } else {
                None
            },
            None => None,
        }),
{
    let longer = text.push(c);
    let digits = unsigned_part(text);
    let more = unsigned_part(longer);
    assert(text.len() == 1 && text[0] == '+' ==> text =~= seq!['+']);
    assert(longer[0] == text[0]);
    assert(more =~= digits.push(c));
    assert(more.drop_last() =~= digits);
    assert(more.last() == c);
    if all_digits(more) {
        assert forall|i: int| 0 <= i < digits.len() implies is_digit(#[trigger] digits[i]) by {
            assert(more[i] == digits[i]);
        }
        assert(is_digit(more[digits.len() as int]));
    } else if all_digits(digits) && is_digit(c) {
        assert forall|i: int| 0 <= i < more.len() implies is_digit(#[trigger] more[i]) by {
            if i < digits.len() {
                assert(more[i] == digits[i]);
            }
        }
    }
}

/// A plus sign before a text changes nothing, but a second one makes it no number.
pub proof fn plus_sign_changes_nothing(text: Seq<char>)
    requires
        text.len() > 0,
    ensures
        number(seq!['+'] + text) == (if text[0] == '+' {
            None
        } else {
            number(text)
        }),
{
    let signed = seq!['+'] + text;
    assert(signed[0] == '+');
    assert(signed.skip(1) =~= text);
    if text[0] == '+' {
        assert(!is_digit(signed.skip(1)[0]));
    }
}

/// Where a part stands in a text, the text is what is before it, the part, and what is behind it.
pub proof fn what_stands_is_between(text: Seq<char>, at: int, part: Seq<char>)
    requires
        0 <= at,
        stands_at(text, at, part),
    ensures
        at + part.len() <= text.len(),
        text == text.take(at) + part + text.skip(at + part.len()),
{
    assert(text =~= text.take(at) + text.subrange(at, at + part.len()) + text.skip(
        at + part.len(),
    ));
}

} // verus!
