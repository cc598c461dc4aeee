//! Option values as they are spelled: compression methods, compression
//! levels and text encodings.

use vstd::prelude::*;
use crate::error::Error;
use crate::text::{char_code, chars_of, Encoding};
use crate::record::{COMPR_NONE, COMPR_ZLIB};
use crate::pack::{COMPR_LEVEL_BEST, COMPR_LEVEL_DEFAULT, COMPR_LEVEL_FAST};

verus! {

/// The code of a character with the upper-case ASCII letters folded onto the
/// lower-case ones.
pub open spec fn spec_fold(c: char) -> u32 {
    if 65 <= c as u32 <= 90 {
        (c as u32 + 32) as u32
    } else {
        c as u32
    }
}

/// Whether two texts are the same but for the case of ASCII letters.
pub open spec fn spec_same_word(a: Seq<char>, b: Seq<char>) -> bool {
    a.len() == b.len() && forall|i: int|
        0 <= i < a.len() ==> spec_fold(#[trigger] a[i]) == spec_fold(b[i])
}

/// The value of a decimal digit, or nothing for another character.
pub open spec fn spec_digit(c: char) -> Option<nat> {
    if 48 <= c as u32 <= 57 {
        Some((c as u32 - 48) as nat)
    } else {
        None
    }
}

/// Whether every character is a decimal digit.
pub open spec fn spec_all_digits(text: Seq<char>) -> bool {
    forall|i: int| 0 <= i < text.len() ==> spec_digit(#[trigger] text[i]).is_some()
}

/// The number that a run of decimal digits says.
pub open spec fn spec_decimal(digits: Seq<char>) -> nat
    decreases digits.len(),
{
    if digits.len() == 0 {
        0
    } else {
        spec_decimal(digits.drop_last()) * 10 + match spec_digit(digits.last()) {
            Some(d) => d,
            None => 0,
        }
    }
}

/// What follows the optional plus sign.
pub open spec fn spec_unsigned(text: Seq<char>) -> Seq<char> {
    if text.len() > 0 && text[0] == '+' {
        text.drop_first()
    } else {
        text
    }
}

/// The number that `text` says: an optional plus sign, then at least one
/// decimal digit, and nothing else.
pub open spec fn spec_number(text: Seq<char>) -> Option<nat> {
    let digits = spec_unsigned(text);
    if digits.len() > 0 && spec_all_digits(digits) {
        Some(spec_decimal(digits))
    } else {
        None
    }
}

/// The method that `value` names: `none` or `zlib`, in any case.
pub open spec fn spec_method_named(value: Seq<char>) -> Option<u32> {
    if spec_same_word(value, "none"@) {
        Some(COMPR_NONE)
    } else if spec_same_word(value, "zlib"@) {
        Some(COMPR_ZLIB)
    } else {
        None
    }
}

/// The level that `value` names: `best`, `fast` or `default` in any case, or
/// a number from 1 to 9.
pub open spec fn spec_level_named(value: Seq<char>) -> Option<u32> {
    if spec_same_word(value, "best"@) {
        Some(COMPR_LEVEL_BEST)
    } else if spec_same_word(value, "fast"@) {
        Some(COMPR_LEVEL_FAST)
    } else if spec_same_word(value, "default"@) {
        Some(COMPR_LEVEL_DEFAULT)
    } else {
        match spec_number(value) {
            Some(n) => if 1 <= n <= 9 {
                Some(n as u32)
            } else {
                None
            },
            None => None,
        }
    }
}

/// The encoding that `value` names: `utf-8` or `utf8`, `ascii`, `latin1` or
/// `latin-1`, in any case.
pub open spec fn spec_encoding_named(value: Seq<char>) -> Option<Encoding> {
    if spec_same_word(value, "utf-8"@) || spec_same_word(value, "utf8"@) {
        Some(Encoding::UTF8)
    } else if spec_same_word(value, "ascii"@) {
        Some(Encoding::ASCII)
    } else if spec_same_word(value, "latin1"@) || spec_same_word(value, "latin-1"@) {
        Some(Encoding::Latin1)
    } else {
        None
    }
}

/// The folded code of a character.
fn fold(c: char) -> (code: u32)
    ensures
        code == spec_fold(c),
{
    let code = char_code(c);
    if 65 <= code && code <= 90 {
        code + 32
    } else {
        code
    }
}

/// Whether `value` is `word` but for the case of ASCII letters.
fn same_word(value: &Vec<char>, word: &str) -> (r: bool)
    ensures
        r == spec_same_word(value@, word@),
{
    let letters = chars_of(word);
    if value.len() != letters.len() {
        return false;
    }
    let mut i: usize = 0;
    while i < value.len()
        invariant
            i <= value@.len(),
            value@.len() == letters@.len(),
            letters@ == word@,
            forall|j: int| 0 <= j < i ==> spec_fold(#[trigger] value@[j]) == spec_fold(letters@[j]),
        decreases value@.len() - i,
    {
        if fold(value[i]) != fold(letters[i]) {
            return false;
        }
        i += 1;
    }
    true
}

/// Reads a number from 1 to 9 out of `text`: an optional plus sign, then
/// decimal digits.
fn small_number(text: &Vec<char>) -> (r: Option<u32>)
    ensures
        match r {
            Some(n) => 1 <= n <= 9 && spec_number(text@) == Some(n as nat),
            None => match spec_number(text@) {
                Some(n) => n < 1 || n > 9,
                None => true,
            },
        },
{
    let start: usize = if text.len() > 0 && text[0] == '+' {
        1
    } else {
        0
    };
    if start >= text.len() {
        return None;
    }
    let ghost digits = text@.skip(start as int);
    let mut capped: u32 = 0;
    let mut i: usize = start;
    while i < text.len()
        invariant
            start <= i <= text@.len(),
            start <= 1,
            digits == text@.skip(start as int),
            digits == spec_unsigned(text@),
            spec_all_digits(digits.take(i - start)),
            capped <= 10,
            capped < 10 ==> capped == spec_decimal(digits.take(i - start)),
            capped == 10 ==> spec_decimal(digits.take(i - start)) >= 10,
        decreases text@.len() - i,
    {
        let code = char_code(text[i]);
        proof {
            assert(digits[i - start] == text@[i as int]);
        }
        if code < 48 || code > 57 {
            return None;
        }
        let d: u32 = code - 48;
        proof {
            let next = digits.take(i - start + 1);
            assert(next.drop_last() =~= digits.take(i - start));
        }
        capped = if capped >= 1 {
            10
        } else {
            d
        };
        i += 1;
    }
    proof {
        assert(digits.take(i - start) =~= digits);
    }
    if 1 <= capped && capped <= 9 {
        Some(capped)
    } else {
        None
    }
}

/// The compression method that `value` names: `COMPR_NONE` for `none` and
/// `COMPR_ZLIB` for `zlib`, in any case. Any other word is refused with
/// `IllegalArgument`.
pub fn parse_compression_method(value: &str) -> (r: Result<u32, Error>)
    ensures
        match r {
            Ok(method) => spec_method_named(value@) == Some(method),
            Err(e) => e == Error::IllegalArgument && spec_method_named(value@).is_none(),
        },
{
    let text = chars_of(value);
    if same_word(&text, "none") {
        Ok(COMPR_NONE)
    } else if same_word(&text, "zlib") {
        Ok(COMPR_ZLIB)
    } else {
        Err(Error::IllegalArgument)
    }
}

/// The compression level that `value` names: 9 for `best`, 1 for `fast`, 6
/// for `default`, in any case, or the number that it says where that is
/// between 1 and 9. Anything else is refused with `IllegalArgument`.
pub fn parse_compression_level(value: &str) -> (r: Result<u32, Error>)
    ensures
        match r {
            Ok(level) => spec_level_named(value@) == Some(level) && 1 <= level <= 9,
            Err(e) => e == Error::IllegalArgument && spec_level_named(value@).is_none(),
        },
{
    let text = chars_of(value);
    if same_word(&text, "best") {
        Ok(COMPR_LEVEL_BEST)
    } else if same_word(&text, "fast") {
        Ok(COMPR_LEVEL_FAST)
    } else if same_word(&text, "default") {
        Ok(COMPR_LEVEL_DEFAULT)
    } else {
        match small_number(&text) {
            Some(level) => Ok(level),
            None => Err(Error::IllegalArgument),
        }
    }
}

/// The text encoding that `value` names: UTF-8 for `utf-8` and `utf8`,
/// ASCII for `ascii`, Latin-1 for `latin1` and `latin-1`, in any case.
/// Any other word is refused with `IllegalArgument`.
pub fn parse_encoding(value: &str) -> (r: Result<Encoding, Error>)
    ensures
        match r {
            Ok(encoding) => spec_encoding_named(value@) == Some(encoding),
            Err(e) => e == Error::IllegalArgument && spec_encoding_named(value@).is_none(),
        },
{
    let text = chars_of(value);
    if same_word(&text, "utf-8") || same_word(&text, "utf8") {
        Ok(Encoding::UTF8)
    } else if same_word(&text, "ascii") {
        Ok(Encoding::ASCII)
    } else if same_word(&text, "latin1") || same_word(&text, "latin-1") {
        Ok(Encoding::Latin1)
    } else {
        Err(Error::IllegalArgument)
    }
}

/// The name of a compression method that this library handles, as
/// `parse_compression_method` reads it; nothing for any other code.
pub fn compression_method_name(method: u32) -> (r: Option<&'static str>)
    ensures
        match r {
            Some(name) => spec_method_named(name@) == Some(method) && (name@ == "none"@ || name@
                == "zlib"@),
            None => method != COMPR_NONE && method != COMPR_ZLIB,
        },
{
    proof {
        reveal_strlit("none");
        reveal_strlit("zlib");
        assert(spec_fold("zlib"@[0]) != spec_fold("none"@[0]));
    }
    if method == COMPR_NONE {
        Some("none")
    } else if method == COMPR_ZLIB {
        Some("zlib")
    } else {
        None
    }
}

} // verus!
