//! Checks that the fields of several record types share.

use crate::text::views;
use crate::validation::ValidationError;
use vstd::prelude::*;

verus! {

/// The code for an empty text.
pub open spec fn empty_code() -> Seq<char> {
    "must be non-empty"@
}

/// The code for a list with an empty text in it.
pub open spec fn empty_element_code() -> Seq<char> {
    "each element must be non-empty"@
}

/// Some text of `v` is empty.
pub open spec fn has_empty(v: Seq<Seq<char>>) -> bool {
    exists|i: int| 0 <= i < v.len() && (#[trigger] v[i]).len() == 0
}

/// A text must not be empty.
pub fn non_empty(s: &str) -> (r: Result<(), ValidationError>)
    ensures
        r is Err <==> s@.len() == 0,
        r matches Err(e) ==> e@ == empty_code(),
{
    if s.is_empty() {
        return Err(ValidationError::new("must be non-empty"));
    }
    Ok(())
}

/// No text of a list may be empty.
pub fn each_non_empty(v: &Vec<String>) -> (r: Result<(), ValidationError>)
    ensures
        r is Err <==> has_empty(views(v@)),
        r matches Err(e) ==> e@ == empty_element_code(),
{
    let mut i: usize = 0;
    while i < v.len()
        invariant
            i <= v.len(),
            forall|k: int| 0 <= k < i ==> (#[trigger] views(v@)[k]).len() > 0,
        decreases v.len() - i,
    {
        if v[i].as_str().is_empty() {
            assert(views(v@)[i as int].len() == 0);
            return Err(ValidationError::new("each element must be non-empty"));
        }
        i += 1;
    }
    Ok(())
}

/// The error of a text field that must not be empty.
pub open spec fn required(field: Seq<char>, value: Seq<char>) -> Seq<(Seq<char>, Seq<char>)> {
    if value.len() == 0 {
        seq![(field, empty_code())]
    } else {
        Seq::empty()
    }
}

/// The error of a text field that must not be empty where it is set.
pub open spec fn optional(field: Seq<char>, value: Option<Seq<char>>) -> Seq<
    (Seq<char>, Seq<char>),
> {
    match value {
        Some(v) => required(field, v),
        None => Seq::empty(),
    }
}

/// The error of a list field that must not hold an empty text.
pub open spec fn each_required(field: Seq<char>, values: Seq<Seq<char>>) -> Seq<
    (Seq<char>, Seq<char>),
> {
    if has_empty(values) {
        seq![(field, empty_element_code())]
    } else {
        Seq::empty()
    }
}


/// A text that may be missing must not be empty where it is there.
pub fn non_empty_if_set(value: &Option<String>) -> (r: Result<(), ValidationError>)
    ensures
        r is Err <==> (value matches Some(v) && v@.len() == 0),
        r matches Err(e) ==> e@ == empty_code(),
{
    match value {
        Some(v) => non_empty(v.as_str()),
        None => Ok(()),
    }
}

} // verus!
