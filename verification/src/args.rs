//! Command-line arguments of the form `key=value`.

use crate::text::{append_chars, append_str, chars_of, string_of};
use vstd::prelude::*;
use vstd::string::StringExecFns;

verus! {

/// Why a text is no `key=value` argument.
pub enum ArgError {
    /// A backslash before a character other than `\` and `=`.
    UnknownEscape(char),
    /// A backslash at the very end.
    IncompleteEscape,
    /// The key or the value is empty.
    EmptyPart(Seq<char>, Seq<char>),
}

/// A key and its value, neither of them empty.
#[derive(Clone, Debug, PartialEq)]
pub struct KeyValue {
    key: String,
    value: String,
}

impl View for KeyValue {
    type V = (Seq<char>, Seq<char>);

    closed spec fn view(&self) -> (Seq<char>, Seq<char>) {
        (self.key@, self.value@)
    }
}

/// The message of an error, for the argument `s`.
pub open spec fn arg_error_message(e: ArgError, s: Seq<char>) -> Seq<char> {
    match e {
        ArgError::UnknownEscape(c) => "unknown escape sequence '\\"@ + seq![c] + "' in '"@ + s
            + "'"@,
        ArgError::IncompleteEscape => "incomplete escape sequence at the end of '"@ + s + "'"@,
        ArgError::EmptyPart(key, value) => empty_part_message(key, value),
    }
}

/// The message for a key or a value that is empty.
pub open spec fn empty_part_message(key: Seq<char>, value: Seq<char>) -> Seq<char> {
    "must have the form key=value where both parts are non-empty; got '"@ + key + "' '"@ + value
        + "'"@
}

/// Reads `s` from `i` on, where `key` and `value` hold what was read
/// before and `seen` tells whether the separator was met.
///
/// The first `=` that is not escaped separates the key from the value. A
/// backslash escapes a `\` or a `=`, which then stands for itself; before
/// anything else, or at the end, it is an error.
pub open spec fn split_from(
    s: Seq<char>,
    i: int,
    key: Seq<char>,
    value: Seq<char>,
    seen: bool,
) -> Result<(Seq<char>, Seq<char>), ArgError>
    decreases s.len() - i,
{
    if i < 0 || i >= s.len() {
        Ok((key, value))
    } else if s[i] == '=' && !seen {
        split_from(s, i + 1, key, value, true)
    } else if s[i] == '\\' {
        if i + 1 >= s.len() {
            Err(ArgError::IncompleteEscape)
        } else if s[i + 1] == '\\' || s[i + 1] == '=' {
            if seen {
                split_from(s, i + 2, key, value.push(s[i + 1]), seen)
            } else {
                split_from(s, i + 2, key.push(s[i + 1]), value, seen)
            }
        } else {
            Err(ArgError::UnknownEscape(s[i + 1]))
        }
    } else if seen {
        split_from(s, i + 1, key, value.push(s[i]), seen)
    } else {
        split_from(s, i + 1, key.push(s[i]), value, seen)
    }
}

/// The key and the value that `s` spells, both of which must be non-empty.
pub open spec fn key_value(s: Seq<char>) -> Result<(Seq<char>, Seq<char>), ArgError> {
    match split_from(s, 0, Seq::empty(), Seq::empty(), false) {
        Err(e) => Err(e),
        Ok(pair) => if pair.0.len() == 0 || pair.1.len() == 0 {
            Err(ArgError::EmptyPart(pair.0, pair.1))
        } else {
            Ok(pair)
        },
    }
}

impl KeyValue {
    /// The pair of `key` and `value`, if neither is empty.
    pub fn build(key: &str, value: &str) -> (r: Result<KeyValue, String>)
        ensures
            r is Ok <==> key@.len() > 0 && value@.len() > 0,
            r matches Ok(kv) ==> kv@ == (key@, value@),
            r matches Err(m) ==> m@ == empty_part_message(key@, value@),
    {
        if key.is_empty() || value.is_empty() {
            let mut m = String::from_str(
                "must have the form key=value where both parts are non-empty; got '",
            );
            m.append(key);
            m.append("' '");
            m.append(value);
            m.append("'");
            return Err(m);
        }
        Ok(KeyValue { key: String::from_str(key), value: String::from_str(value) })
    }

    pub fn key(&self) -> (key: &str)
        ensures
            key@ == self@.0,
    {
        self.key.as_str()
    }

    pub fn value(&self) -> (value: &str)
        ensures
            value@ == self@.1,
    {
        self.value.as_str()
    }

    /// The key and the value.
    pub fn to_tuple(self) -> (pair: (String, String))
        ensures
            pair.0@ == self@.0,
            pair.1@ == self@.1,
    {
        (self.key, self.value)
    }

    /// Reads an argument of the form `key=value`, in which `\\` and `\=`
    /// stand for a backslash and an equals sign that belong to the key or
    /// to the value.
    pub fn parse(s: &str) -> (r: Result<KeyValue, String>)
        ensures
            match key_value(s@) {
                Ok(pair) => r matches Ok(kv) && kv@ == pair,
                Err(e) => r matches Err(m) && m@ == arg_error_message(e, s@),
            },
    {
        let text = chars_of(s);
        let mut key: Vec<char> = Vec::new();
        let mut value: Vec<char> = Vec::new();
        let mut seen = false;
        let mut i: usize = 0;
        while i < text.len()
            invariant
                i <= text.len(),
                text@ == s@,
                split_from(s@, 0, Seq::empty(), Seq::empty(), false) == split_from(
                    s@,
                    i as int,
                    key@,
                    value@,
                    seen,
                ),
            decreases text.len() - i,
        {
            let c = text[i];
            if c == '=' && !seen {
                seen = true;
                i += 1;
            } else if c == '\\' {
                if text.len() - i < 2 {
                    let mut m = String::from_str("incomplete escape sequence at the end of '");
                    m.append(s);
                    m.append("'");
                    return Err(m);
                }
                let c2 = text[i + 1];
                if c2 == '\\' || c2 == '=' {
                    if seen {
                        value.push(c2);
                    } else {
                        key.push(c2);
                    }
                    i += 2;
                } else {
                    let mut m = String::from_str("unknown escape sequence '\\");
                    m.push(c2);
                    m.append("' in '");
                    m.append(s);
                    m.append("'");
                    return Err(m);
                }
            } else {
                if seen {
                    value.push(c);
                } else {
                    key.push(c);
                }
                i += 1;
            }
        }
        if key.len() == 0 || value.len() == 0 {
            let mut m: Vec<char> = Vec::new();
            append_str(&mut m, "must have the form key=value where both parts are non-empty; got '");
            append_chars(&mut m, key.as_slice());
            append_str(&mut m, "' '");
            append_chars(&mut m, value.as_slice());
            append_str(&mut m, "'");
            return Err(string_of(m.as_slice()));
        }
        Ok(KeyValue { key: string_of(key.as_slice()), value: string_of(value.as_slice()) })
    }
}

impl std::str::FromStr for KeyValue {
    type Err = String;

    fn from_str(s: &str) -> (r: Result<KeyValue, String>)
        ensures
            match key_value(s@) {
                Ok(pair) => r matches Ok(kv) && kv@ == pair,
                Err(e) => r matches Err(m) && m@ == arg_error_message(e, s@),
            },
    {
        KeyValue::parse(s)
    }
}

} // verus!
