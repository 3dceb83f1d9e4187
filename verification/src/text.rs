//! Characters and decimal numbers in text.

use vstd::prelude::*;

verus! {

/// `String::from_iter` of the standard library, on a vector of characters:
/// the string made of those characters in their order.
#[verifier::external_body]
pub(crate) fn string_from_chars(chars: Vec<char>) -> (text: String)
    ensures
        text@ == chars@,
{
    String::from_iter(chars)
}

/// The characters of `text`, in order.
pub fn chars_of(text: &str) -> (chars: Vec<char>)
    ensures
        chars@ == text@,
{
    let mut chars: Vec<char> = Vec::new();
    for c in it: text.chars()
        invariant
            it.seq() == text@,
            chars@ == it.seq().take(it.index()),
    {
        chars.push(c);
    }
    chars
}

/// Whether `c` is white space, as Unicode defines it.
pub open spec fn spec_is_whitespace(c: char) -> bool {
    let code = c as int;
    ||| 0x09 <= code <= 0x0D
    ||| code == 0x20
    ||| code == 0x85
    ||| code == 0xA0
    ||| code == 0x1680
    ||| 0x2000 <= code <= 0x200A
    ||| code == 0x2028
    ||| code == 0x2029
    ||| code == 0x202F
    ||| code == 0x205F
    ||| code == 0x3000
}

/// Tells whether `c` is white space.
pub fn is_whitespace(c: char) -> (white: bool)
    ensures
        white == spec_is_whitespace(c),
{
    let code = c as u32;
    (0x09 <= code && code <= 0x0D) || code == 0x20 || code == 0x85 || code == 0xA0 || code
        == 0x1680 || (0x2000 <= code && code <= 0x200A) || code == 0x2028 || code == 0x2029 || code
        == 0x202F || code == 0x205F || code == 0x3000
}

/// Whether `c` is one of the digits `0` to `9`.
pub open spec fn is_digit(c: char) -> bool {
    '0' as int <= c as int <= '9' as int
}

/// Whether `s` consists of digits only.
pub open spec fn all_digits(s: Seq<char>) -> bool {
    forall|i: int| 0 <= i < s.len() ==> is_digit(#[trigger] s[i])
}

/// The number that the digits of `s` write in base ten.
pub open spec fn digits_value(s: Seq<char>) -> nat
    decreases s.len(),
{
    if s.len() == 0 {
        0
    } else {
        10 * digits_value(s.drop_last()) + (s.last() as int - '0' as int) as nat
    }
}

/// The integer that `s` writes in base ten: digits, at least one, after an
/// optional `+` or, where `signed`, an optional `-`. `None` where `s` is
/// not of that form.
pub open spec fn spec_parse_int(s: Seq<char>, signed: bool) -> Option<int> {
    if s.len() == 0 {
        None
    } else if s[0] == '-' || s[0] == '+' {
        let rest = s.skip(1);
        if rest.len() == 0 || !all_digits(rest) || (s[0] == '-' && !signed) {
            None
        } else if s[0] == '-' {
            Some(-(digits_value(rest) as int))
        } else {
            Some(digits_value(rest) as int)
        }
    } else if all_digits(s) {
        Some(digits_value(s) as int)
    } else {
        None
    }
}

/// The integer that `s` writes, where it lies from `min` to `max`.
pub open spec fn spec_parse_bounded(s: Seq<char>, min: int, max: int) -> Option<int> {
    match spec_parse_int(s, min < 0) {
        Some(v) => if min <= v <= max {
            Some(v)
        } else {
            None
        },
        None => None,
    }
}

/// The value of a row of digits is at least that of each of its beginnings.
proof fn lemma_digits_value_grows(s: Seq<char>, k: int)
    requires
        0 <= k <= s.len(),
        all_digits(s),
    ensures
        digits_value(s.take(k)) <= digits_value(s),
    decreases s.len() - k,
{
    if k < s.len() {
        lemma_digits_value_grows(s, k + 1);
        assert(s.take(k + 1).drop_last() =~= s.take(k));
    } else {
        assert(s.take(k) =~= s);
    }
}

/// Reads the digits of `digits` as a number no greater than `limit`.
/// `None` if a character is no digit, if there is none, or if the number is
/// greater.
fn parse_digits(digits: &[char], start: usize, limit: u128) -> (value: Option<u128>)
    requires
        start <= digits@.len(),
        limit <= 0xFFFF_FFFF_FFFF_FFFF_FFFF,
    ensures
        value == if digits@.len() > start && all_digits(digits@.skip(start as int))
            && digits_value(digits@.skip(start as int)) <= limit {
            Some(digits_value(digits@.skip(start as int)) as u128)
        } else {
            None
        },
{
    let ghost s = digits@.skip(start as int);
    if digits.len() == start {
        return None;
    }
    let mut acc: u128 = 0;
    let mut i: usize = start;
    while i < digits.len()
        invariant
            start <= i <= digits@.len(),
            s == digits@.skip(start as int),
            all_digits(s.take(i - start)),
            acc == digits_value(s.take(i - start)),
            acc <= limit <= 0xFFFF_FFFF_FFFF_FFFF_FFFF,
        decreases digits@.len() - i,
    {
        let c = digits[i];
        let ghost next = s.take(i - start + 1);
        proof {
            assert(next.drop_last() =~= s.take(i - start));
        }
        if !('0' <= c && c <= '9') {
            assert(!is_digit(s[i - start]));
            return None;
        }
        let d = (c as u32 - '0' as u32) as u128;
        let grown = acc * 10 + d;
        if grown > limit {
            proof {
                if all_digits(s) {
                    lemma_digits_value_grows(s, i - start + 1);
                }
            }
            return None;
        }
        acc = grown;
        i += 1;
    }
    proof {
        assert(s.take(i - start) =~= s);
    }
    Some(acc)
}

/// Reads `text` as a decimal integer from `min` to `max`: digits after an
/// optional `+` or, where `min` is negative, `-`. `None` if `text` is not
/// of that form or the number is out of range.
pub fn parse_bounded(text: &str, min: i128, max: i128) -> (value: Option<i128>)
    requires
        -0x8000_0000_0000_0000 <= min <= 0 <= max <= 0xFFFF_FFFF_FFFF_FFFF,
    ensures
        value matches Some(v) ==> spec_parse_bounded(text@, min as int, max as int) == Some(
            v as int,
        ),
        value is None ==> spec_parse_bounded(text@, min as int, max as int) is None,
{
    let chars = chars_of(text);
    if chars.len() == 0 {
        return None;
    }
    let first = chars[0];
    if first == '-' {
        if min == 0 {
            return None;
        }
        match parse_digits(chars.as_slice(), 1, (-min) as u128) {
            Some(v) => Some(-(v as i128)),
            None => None,
        }
    } else if first == '+' {
        match parse_digits(chars.as_slice(), 1, max as u128) {
            Some(v) => Some(v as i128),
            None => None,
        }
    } else {
        proof {
            assert(chars@.skip(0) =~= chars@);
        }
        match parse_digits(chars.as_slice(), 0, max as u128) {
            Some(v) => Some(v as i128),
            None => None,
        }
    }
}

} // verus!
