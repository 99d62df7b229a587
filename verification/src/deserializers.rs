//! How loosely written values of metadata are read: an empty text as a
//! missing one, one text as a list of one, and a count that is written as
//! a number or as a text.

use crate::text::{chars_of, views};
use vstd::prelude::*;
use vstd::string::StringExecFns;

verus! {

/// A text, or nothing where the text is empty.
pub fn option_string(s: String) -> (r: Option<String>)
    ensures
        r is None <==> s@.len() == 0,
        r matches Some(text) ==> text@ == s@,
{
    if s.as_str().is_empty() {
        return None;
    }
    Some(s)
}

/// A value that is one text or a list of texts.
#[derive(Clone, Debug, PartialEq)]
pub enum StrOrSeq {
    One(String),
    Many(Vec<String>),
}

/// The texts of a value that is one text or a list of texts.
pub fn str_or_seq(value: StrOrSeq) -> (r: Vec<String>)
    ensures
        views(r@) == (match value {
            StrOrSeq::One(s) => seq![s@],
            StrOrSeq::Many(v) => views(v@),
        }),
{
    match value {
        StrOrSeq::One(s) => {
            let mut v: Vec<String> = Vec::new();
            v.push(s);
            assert(views(v@) =~= seq![s@]);
            v
        },
        StrOrSeq::Many(v) => v,
    }
}

/// A value that is a number or a text.
#[derive(Clone, Debug, PartialEq)]
pub enum UintOrStr {
    Uint(u64),
    Str(String),
}

/// The number that the digits of `s` before `upto` write in decimal.
pub open spec fn digits_value(s: Seq<char>, upto: int) -> int
    decreases upto,
{
    if upto <= 0 || upto > s.len() {
        0
    } else {
        digits_value(s, upto - 1) * 10 + (s[upto - 1] as int - '0' as int)
    }
}

/// Every character of `s` from `from` on is a digit.
pub open spec fn all_digits(s: Seq<char>, from: int) -> bool {
    forall|i: int| from <= i < s.len() ==> '0' <= #[trigger] s[i] && s[i] <= '9'
}

/// `s` without a plus sign in front.
pub open spec fn unsigned_part(s: Seq<char>) -> Seq<char> {
    if s.len() > 0 && s[0] == '+' {
        s.skip(1)
    } else {
        s
    }
}

/// The number that `s` writes: digits, at least one, with or without a
/// plus sign in front, and no more than 64 bits can hold.
pub open spec fn parsed_u64(s: Seq<char>) -> Option<int> {
    let digits = unsigned_part(s);
    if digits.len() > 0 && all_digits(digits, 0) && digits_value(digits, digits.len() as int)
        <= u64::MAX {
        Some(digits_value(digits, digits.len() as int))
    } else {
        None
    }
}

/// The value of more digits is not smaller.
pub proof fn lemma_digits_grow(s: Seq<char>, a: int, b: int)
    requires
        0 <= a <= b <= s.len(),
        all_digits(s, 0),
    ensures
        0 <= digits_value(s, a) <= digits_value(s, b),
    decreases b,
{
    if a < b {
        lemma_digits_grow(s, a, b - 1);
        assert('0' <= s[b - 1] && s[b - 1] <= '9');
    } else if a > 0 {
        lemma_digits_grow(s, a - 1, a - 1);
        assert('0' <= s[a - 1] && s[a - 1] <= '9');
    }
}

/// Reads a count of 64 bits.
pub fn parse_u64(s: &str) -> (r: Option<u64>)
    ensures
        match parsed_u64(s@) {
            Some(v) => r matches Some(n) && n == v,
            None => r is None,
        },
{
    let text = chars_of(s);
    let start: usize = if text.len() > 0 && text[0] == '+' {
        1
    } else {
        0
    };
    let ghost digits = unsigned_part(s@);
    if start == text.len() {
        return None;
    }
    assert(digits =~= text@.skip(start as int));
    let mut value: u64 = 0;
    let mut i: usize = start;
    while i < text.len()
        invariant
            start <= i <= text.len(),
            start <= 1,
            text@ == s@,
            digits == text@.skip(start as int),
            digits == unsigned_part(s@),
            forall|k: int| 0 <= k < i - start ==> '0' <= #[trigger] digits[k] && digits[k] <= '9',
            value == digits_value(digits, i - start),
        decreases text.len() - i,
    {
        let c = text[i];
        assert(c == digits[i - start]);
        if !('0' <= c && c <= '9') {
            assert(!all_digits(digits, 0));
            return None;
        }
        let d: u64 = (c as u32 - '0' as u32) as u64;
        assert(d == digits[i - start] as int - '0' as int);
        assert(digits_value(digits, i - start + 1) == value * 10 + d);
        if value > (u64::MAX - d) / 10 {
            proof {
                let n = digits.len() as int;
                let next = digits_value(digits, i - start + 1);
                assert(next > u64::MAX);
                if all_digits(digits, 0) {
                    lemma_digits_grow(digits, i - start + 1, n);
                }
            }
            return None;
        }
        value = value * 10 + d;
        i += 1;
    }
    assert(all_digits(digits, 0));
    Some(value)
}

/// The message for a number that 32 bits cannot hold.
pub open spec fn invalid_uint_msg() -> Seq<char> {
    "invalid unsigned int value"@
}

/// The message for a text that writes no number.
pub open spec fn no_uint_msg() -> Seq<char> {
    "must contin an unsigned int"@
}

/// The count of 32 bits that a value gives, or the message of what is
/// wrong with it.
pub open spec fn uint_of(value: UintOrStr) -> Result<int, Seq<char>> {
    match value {
        UintOrStr::Uint(n) => if n <= u32::MAX {
            Ok(n as int)
        } else {
            Err(invalid_uint_msg())
        },
        UintOrStr::Str(s) => match parsed_u64(s@) {
            Some(n) => if n <= u32::MAX {
                Ok(n)
            } else {
                Err(invalid_uint_msg())
            },
            None => Err(no_uint_msg()),
        },
    }
}

/// Reads a count that is written as a number or as a text.
pub fn uint_or_str(value: UintOrStr) -> (r: Result<u32, String>)
    ensures
        match uint_of(value) {
            Ok(n) => r matches Ok(v) && v == n,
            Err(m) => r matches Err(text) && text@ == m,
        },
{
    let number = match value {
        UintOrStr::Uint(n) => n,
        UintOrStr::Str(s) => match parse_u64(s.as_str()) {
            Some(n) => n,
            None => {
                return Err(String::from_str("must contin an unsigned int"));
            },
        },
    };
    if number > 0xffff_ffff {
        return Err(String::from_str("invalid unsigned int value"));
    }
    Ok(number as u32)
}

} // verus!
