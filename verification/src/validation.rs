//! Validation errors: one broken rule, and the broken rules of a record.

use crate::text::{append_str, join, join_chars, string_of, texts, views};
use vstd::prelude::*;
use vstd::string::StringExecFns;

verus! {

/// One rule that a value breaks, named by its code.
#[derive(Clone, Debug, PartialEq, Eq)]
pub struct ValidationError {
    code: String,
}

impl View for ValidationError {
    type V = Seq<char>;

    closed spec fn view(&self) -> Seq<char> {
        self.code@
    }
}

impl ValidationError {
    pub fn new(code: &str) -> (e: ValidationError)
        ensures
            e@ == code@,
    {
        ValidationError { code: String::from_str(code) }
    }

    pub fn code(&self) -> (code: &str)
        ensures
            code@ == self@,
    {
        self.code.as_str()
    }
}

/// The rules that a record breaks: each with the field that it is about,
/// in the order in which the fields are checked.
#[derive(Clone, Debug, PartialEq, Eq)]
pub struct ValidationErrors {
    errors: Vec<(String, String)>,
}

/// The views of the two strings of each pair, in order.
pub open spec fn error_views(v: Seq<(String, String)>) -> Seq<(Seq<char>, Seq<char>)> {
    v.map_values(|p: (String, String)| (p.0@, p.1@))
}

/// Each error as a line: the field, a colon, and the code.
pub open spec fn error_lines(errors: Seq<(Seq<char>, Seq<char>)>) -> Seq<Seq<char>> {
    errors.map_values(|e: (Seq<char>, Seq<char>)| e.0 + ": "@ + e.1)
}

/// The errors `errors` of the value at `path`: each field gets `path`
/// and a dot in front.
pub open spec fn nested(path: Seq<char>, errors: Seq<(Seq<char>, Seq<char>)>) -> Seq<
    (Seq<char>, Seq<char>),
> {
    errors.map_values(|e: (Seq<char>, Seq<char>)| (path + "."@ + e.0, e.1))
}

impl View for ValidationErrors {
    type V = Seq<(Seq<char>, Seq<char>)>;

    closed spec fn view(&self) -> Seq<(Seq<char>, Seq<char>)> {
        error_views(self.errors@)
    }
}

impl ValidationErrors {
    /// No error.
    pub fn new() -> (e: ValidationErrors)
        ensures
            e@ == Seq::<(Seq<char>, Seq<char>)>::empty(),
    {
        let e = ValidationErrors { errors: Vec::new() };
        assert(e@ =~= Seq::<(Seq<char>, Seq<char>)>::empty());
        e
    }

    pub fn is_empty(&self) -> (b: bool)
        ensures
            b == (self@.len() == 0),
    {
        self.errors.len() == 0
    }

    /// The number of errors.
    pub fn len(&self) -> (n: usize)
        ensures
            n == self@.len(),
    {
        self.errors.len()
    }

    /// Adds the error `error` of the field `field`.
    pub fn add(&mut self, field: &str, error: ValidationError)
        ensures
            final(self)@ == old(self)@.push((field@, error@)),
    {
        self.errors.push((String::from_str(field), error.code));
        assert(self@ =~= old(self)@.push((field@, error@)));
    }

    /// Adds the error of the field `field`, if `checked` is one.
    pub fn check(&mut self, field: &str, checked: Result<(), ValidationError>)
        ensures
            final(self)@ == (match checked {
                Ok(_) => old(self)@,
                Err(e) => old(self)@.push((field@, e@)),
            }),
    {
        match checked {
            Ok(_) => {},
            Err(e) => {
                self.add(field, e);
            },
        }
    }

    /// Adds the errors `inner` of the value at `path`.
    pub fn add_nested(&mut self, path: &str, inner: &ValidationErrors)
        ensures
            final(self)@ == old(self)@ + nested(path@, inner@),
    {
        let mut i: usize = 0;
        assert(self@ + nested(path@, inner@.take(0)) =~= self@);
        while i < inner.errors.len()
            invariant
                i <= inner.errors.len(),
                self@ == old(self)@ + nested(path@, inner@.take(i as int)),
            decreases inner.errors.len() - i,
        {
            let mut field: Vec<char> = Vec::new();
            append_str(&mut field, path);
            append_str(&mut field, ".");
            append_str(&mut field, inner.errors[i].0.as_str());
            let ghost before = self.errors@;
            self.errors.push((string_of(field.as_slice()), inner.errors[i].1.clone()));
            proof {
                assert(error_views(self.errors@) =~= error_views(before).push(
                    (path@ + "."@ + inner@[i as int].0, inner@[i as int].1),
                ));
                assert(nested(path@, inner@.take(i + 1)) =~= nested(
                    path@,
                    inner@.take(i as int),
                ).push((path@ + "."@ + inner@[i as int].0, inner@[i as int].1)));
            }
            i += 1;
        }
        assert(inner@.take(inner@.len() as int) =~= inner@);
    }

    /// The errors as text, one line for each.
    pub fn to_string(&self) -> (s: String)
        ensures
            s@ == join(error_lines(self@), "\n"@),
    {
        let mut lines: Vec<Vec<char>> = Vec::new();
        let mut i: usize = 0;
        assert(texts(lines@) =~= error_lines(self@.take(0)));
        while i < self.errors.len()
            invariant
                i <= self.errors.len(),
                texts(lines@) == error_lines(self@.take(i as int)),
            decreases self.errors.len() - i,
        {
            let mut line: Vec<char> = Vec::new();
            append_str(&mut line, self.errors[i].0.as_str());
            append_str(&mut line, ": ");
            append_str(&mut line, self.errors[i].1.as_str());
            let ghost before = lines@;
            lines.push(line);
            proof {
                assert(texts(lines@) =~= texts(before).push(line@));
                assert(error_lines(self@.take(i + 1)) =~= error_lines(self@.take(i as int)).push(
                    self@[i as int].0 + ": "@ + self@[i as int].1,
                ));
            }
            i += 1;
        }
        assert(self@.take(self@.len() as int) =~= self@);
        let out = join_chars(&lines, "\n");
        string_of(out.as_slice())
    }
}


/// The errors as text, one line for each: the field, a colon, the code.
pub open spec fn error_text(errors: Seq<(Seq<char>, Seq<char>)>) -> Seq<char> {
    join(error_lines(errors), "\n"@)
}

} // verus!
