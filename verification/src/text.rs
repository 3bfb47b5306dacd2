//! Character-level operations on asset keys.
//!
//! A key is modelled by the sequence of its characters. The predicates here
//! say where one sequence occurs inside another; the executable functions
//! decide them on character vectors.

use vstd::prelude::*;
use vstd::utf8::{decode_utf8, encode_utf8, valid_utf8};

verus! {

/// `part` occurs in `text` starting at position `at`.
pub open spec fn occurs_at(text: Seq<char>, part: Seq<char>, at: int) -> bool {
    &&& 0 <= at
    &&& at + part.len() <= text.len()
    &&& text.subrange(at, at + part.len()) == part
}

/// `text` begins with `prefix`.
pub open spec fn has_prefix(text: Seq<char>, prefix: Seq<char>) -> bool {
    occurs_at(text, prefix, 0)
}

/// `text` ends with `suffix`.
pub open spec fn has_suffix(text: Seq<char>, suffix: Seq<char>) -> bool {
    occurs_at(text, suffix, text.len() - suffix.len())
}

/// `part` occurs somewhere in `text`.
pub open spec fn has_substring(text: Seq<char>, part: Seq<char>) -> bool {
    exists|at: int| occurs_at(text, part, at)
}

/// `at` is the leftmost position at which `part` occurs in `text`.
pub open spec fn is_first_occurrence(text: Seq<char>, part: Seq<char>, at: int) -> bool {
    &&& occurs_at(text, part, at)
    &&& forall|earlier: int| 0 <= earlier < at ==> !occurs_at(text, part, earlier)
}

/// The characters of `s`, in order.
pub fn chars_of(s: &str) -> (out: Vec<char>)
    ensures
        out@ == s@,
{
    let mut out: Vec<char> = Vec::new();
    for c in it: s.chars()
        invariant
            out@ == it.seq().take(it.index()),
            it.seq() == s@,
    {
        out.push(c);
    }
    out
}

/// Decides whether `part` occurs in `text` at position `at`.
pub fn matches_at(text: &Vec<char>, part: &Vec<char>, at: usize) -> (found: bool)
    ensures
        found == occurs_at(text@, part@, at as int),
{
    if part.len() > text.len() || at > text.len() - part.len() {
        return false;
    }
    let mut j: usize = 0;
    while j < part.len()
        invariant
            j <= part.len(),
            at + part.len() <= text.len(),
            forall|k: int| 0 <= k < j ==> text@[at + k] == part@[k],
        decreases part.len() - j,
    {
        if text[at + j] != part[j] {
            proof {
                let window = text@.subrange(at as int, at + part.len());
                assert(window[j as int] == text@[at + j]);
            }
            return false;
        }
        j += 1;
    }
    proof {
        assert(text@.subrange(at as int, at + part.len()) =~= part@);
    }
    true
}

/// Decides whether `text` begins with `prefix`.
pub fn starts_with(text: &Vec<char>, prefix: &Vec<char>) -> (found: bool)
    ensures
        found == has_prefix(text@, prefix@),
{
    matches_at(text, prefix, 0)
}

/// Decides whether `text` ends with `suffix`.
pub fn ends_with(text: &Vec<char>, suffix: &Vec<char>) -> (found: bool)
    ensures
        found == has_suffix(text@, suffix@),
{
    if suffix.len() > text.len() {
        return false;
    }
    matches_at(text, suffix, text.len() - suffix.len())
}

/// The leftmost position at which `part` occurs in `text`, if there is one.
pub fn find(text: &Vec<char>, part: &Vec<char>) -> (found: Option<usize>)
    ensures
        match found {
            Some(at) => is_first_occurrence(text@, part@, at as int),
            None => !has_substring(text@, part@),
        },
{
    if part.len() > text.len() {
        return None;
    }
    let last: usize = text.len() - part.len();
    let mut at: usize = 0;
    loop
        invariant
            at <= last,
            last == text.len() - part.len(),
            forall|earlier: int| 0 <= earlier < at ==> !occurs_at(text@, part@, earlier),
        decreases last - at,
    {
        if matches_at(text, part, at) {
            return Some(at);
        }
        if at == last {
            return None;
        }
        at += 1;
    }
}

/// Decides whether `part` occurs somewhere in `text`.
pub fn contains(text: &Vec<char>, part: &Vec<char>) -> (found: bool)
    ensures
        found == has_substring(text@, part@),
{
    find(text, part).is_some()
}

/// The text that `bytes` encode, if they are valid UTF-8.
pub open spec fn text_of(bytes: Seq<u8>) -> Option<Seq<char>> {
    if valid_utf8(bytes) {
        Some(decode_utf8(bytes))
    } else {
        None
    }
}

/// Reads bytes as text with `std::str::from_utf8`.
///
/// Trusted: the text has exactly the given bytes; there is none if the
/// bytes are not valid UTF-8.
#[verifier::external_body]
fn read_text(bytes: &[u8]) -> (text: Option<&str>)
    ensures
        match text {
            Some(found) => encode_utf8(found@) == bytes@,
            None => !valid_utf8(bytes@),
        },
{
    std::str::from_utf8(bytes).ok()
}

/// The text that `bytes` encode.
pub fn text_in(bytes: &[u8]) -> (text: Option<&str>)
    ensures
        match text {
            Some(found) => text_of(bytes@) == Some(found@),
            None => text_of(bytes@) is None,
        },
{
    let text = read_text(bytes);
    proof {
        if let Some(found) = text {
            vstd::utf8::encode_utf8_valid_utf8(found@);
            vstd::utf8::encode_utf8_decode_utf8(found@);
        }
    }
    text
}

/// Makes a text of characters with `String::from_iter`.
///
/// Trusted: the text holds the given characters, in order.
#[verifier::external_body]
pub(crate) fn string_of(chars: Vec<char>) -> (text: String)
    ensures
        text@ == chars@,
{
    String::from_iter(chars)
}

/// The character of a decimal digit.
pub open spec fn digit_of(digit: nat) -> char {
    if digit == 0 {
        '0'
    } else if digit == 1 {
        '1'
    } else if digit == 2 {
        '2'
    } else if digit == 3 {
        '3'
    } else if digit == 4 {
        '4'
    } else if digit == 5 {
        '5'
    } else if digit == 6 {
        '6'
    } else if digit == 7 {
        '7'
    } else if digit == 8 {
        '8'
    } else {
        '9'
    }
}

/// `number` in decimal digits, the most significant first.
pub open spec fn decimal_of(number: nat) -> Seq<char>
    decreases number,
{
    if number < 10 {
        seq![digit_of(number)]
    } else {
        decimal_of(number / 10).push(digit_of(number % 10))
    }
}

/// The text of one decimal digit.
fn digit_text(digit: usize) -> (text: &'static str)
    requires
        digit < 10,
    ensures
        text@ == seq![digit_of(digit as nat)],
{
    proof {
        reveal_strlit("0");
        reveal_strlit("1");
        reveal_strlit("2");
        reveal_strlit("3");
        reveal_strlit("4");
        reveal_strlit("5");
        reveal_strlit("6");
        reveal_strlit("7");
        reveal_strlit("8");
        reveal_strlit("9");
    }
    let text = if digit == 0 {
        "0"
    } else if digit == 1 {
        "1"
    } else if digit == 2 {
        "2"
    } else if digit == 3 {
        "3"
    } else if digit == 4 {
        "4"
    } else if digit == 5 {
        "5"
    } else if digit == 6 {
        "6"
    } else if digit == 7 {
        "7"
    } else if digit == 8 {
        "8"
    } else {
        "9"
    };
    assert(text@ =~= seq![digit_of(digit as nat)]);
    text
}

/// Appends `number` in decimal digits to `text`.
pub fn append_decimal(text: &mut String, number: usize)
    ensures
        final(text)@ == old(text)@ + decimal_of(number as nat),
    decreases number,
{
    if number >= 10 {
        append_decimal(text, number / 10);
    }
    text.append(digit_text(number % 10));
    proof {
        let digit = seq![digit_of((number % 10) as nat)];
        if number >= 10 {
            assert(decimal_of((number / 10) as nat) + digit =~= decimal_of(number as nat));
            assert(old(text)@ + decimal_of((number / 10) as nat) + digit =~= old(text)@ + (
            decimal_of((number / 10) as nat) + digit));
        }
    }
}

} // verus!
