//! What a manuscript in the format of William Shunn needs to know of a
//! document.

use crate::metadata::{OutputMetadata, OutputMetadataView};
use crate::text::{chars_of, slice_of, string_of, views};
use vstd::prelude::*;
use vstd::string::StringExecFns;

verus! {

/// One of the five ASCII characters that count as white space.
pub open spec fn ascii_space(c: char) -> bool {
    c == ' ' || c == '\t' || c == '\n' || c == '\x0C' || c == '\r'
}

/// Index just after the last character of `s`, before `to`, that is no
/// ASCII white space; 0 when there is none.
pub open spec fn word_end(s: Seq<char>, to: int) -> int
    decreases to,
{
    if to <= 0 || to > s.len() {
        0
    } else if !ascii_space(s[to - 1]) {
        to
    } else {
        word_end(s, to - 1)
    }
}

/// Where the word that ends at `end` starts.
pub open spec fn word_start(s: Seq<char>, end: int) -> int
    decreases end,
{
    if end <= 0 || end > s.len() {
        0
    } else if ascii_space(s[end - 1]) {
        end
    } else {
        word_start(s, end - 1)
    }
}

/// The last word of `s`, where words are what ASCII white space
/// separates; nothing where `s` holds no word.
pub open spec fn last_word(s: Seq<char>) -> Option<Seq<char>> {
    let end = word_end(s, s.len() as int);
    if end == 0 {
        None
    } else {
        Some(s.subrange(word_start(s, end), end))
    }
}

/// The last word of `s`.
pub fn find_last_word(s: &str) -> (r: Option<String>)
    ensures
        match last_word(s@) {
            Some(word) => r matches Some(text) && text@ == word,
            None => r is None,
        },
{
    let text = chars_of(s);
    let mut end: usize = text.len();
    while end > 0 && (text[end - 1] == ' ' || text[end - 1] == '\t' || text[end - 1] == '\n'
        || text[end - 1] == '\x0C' || text[end - 1] == '\r')
        invariant
            end <= text.len(),
            word_end(text@, text.len() as int) == word_end(text@, end as int),
        decreases end,
    {
        end -= 1;
    }
    if end == 0 {
        return None;
    }
    let mut start: usize = end;
    while start > 0 && !(text[start - 1] == ' ' || text[start - 1] == '\t' || text[start - 1]
        == '\n' || text[start - 1] == '\x0C' || text[start - 1] == '\r')
        invariant
            start <= end <= text.len(),
            word_start(text@, end as int) == word_start(text@, start as int),
        decreases start,
    {
        start -= 1;
    }
    let word = slice_of(text.as_slice(), start, end);
    Some(string_of(word.as_slice()))
}

/// What the manuscript is given.
pub struct ShunnMetadata {
    pub short_title: String,
    pub author_lastname: String,
    pub contact_name: String,
    pub contact_address: String,
    pub contact_city_state_zip: String,
    pub contact_phone: String,
    pub contact_email: String,
    pub title: Option<String>,
    pub author: Vec<String>,
}

/// The title that a document without a title is given.
pub open spec fn untitled() -> Seq<char> {
    "[Untitled]"@
}

/// The author that a document without an author is given.
pub open spec fn unknown() -> Seq<char> {
    "[Unknown]"@
}

/// What stands where the contact details would: a line break for TeX.
pub open spec fn line_break() -> Seq<char> {
    "`\\n`{=tex}"@
}

/// The title of a document, or the one that stands in for it.
pub open spec fn shown_title(m: OutputMetadataView) -> Seq<char> {
    match m.title {
        Some(t) => t,
        None => untitled(),
    }
}

/// The first author of a document, or the one that stands in.
pub open spec fn shown_author(m: OutputMetadataView) -> Seq<char> {
    if m.authors.len() > 0 {
        m.authors[0]
    } else {
        unknown()
    }
}

/// `s` is what the manuscript of a document with the metadata `m` is
/// given: the title and the first author, the last word of the author as
/// the last name, line breaks for the contact details; and the title and
/// the author that stand in, where the document has none.
pub open spec fn describes(s: ShunnMetadata, m: OutputMetadataView) -> bool {
    &&& s.short_title@ == shown_title(m)
    &&& last_word(shown_author(m)) == Some(s.author_lastname@)
    &&& s.contact_name@ == shown_author(m)
    &&& s.contact_address@ == line_break()
    &&& s.contact_city_state_zip@ == line_break()
    &&& s.contact_phone@ == line_break()
    &&& s.contact_email@ == line_break()
    &&& m.title is None ==> (s.title matches Some(t) && t@ == untitled())
    &&& m.title is Some ==> s.title is None
    &&& views(s.author@) == (if m.authors.len() == 0 {
        seq![unknown()]
    } else {
        Seq::empty()
    })
}

/// What the manuscript of a document is given, if its author has a last
/// name: the name of the author must hold a word.
pub fn shunn_metadata(metadata: &OutputMetadata) -> (r: Option<ShunnMetadata>)
    ensures
        r is Some <==> last_word(shown_author(metadata@)) is Some,
        r matches Some(s) ==> describes(s, metadata@),
{
    let title = match metadata.title() {
        Some(t) => t.clone(),
        None => String::from_str("[Untitled]"),
    };
    let authors = metadata.authors();
    let author = if authors.len() > 0 {
        assert(views(authors@)[0] == authors@[0]@);
        authors[0].clone()
    } else {
        String::from_str("[Unknown]")
    };
    let lastname = match find_last_word(author.as_str()) {
        Some(word) => word,
        None => {
            return None;
        },
    };
    let mut stand_in: Vec<String> = Vec::new();
    if authors.len() == 0 {
        stand_in.push(author.clone());
        assert(views(stand_in@) =~= seq![unknown()]);
    } else {
        assert(views(stand_in@) =~= Seq::<Seq<char>>::empty());
    }
    Some(
        ShunnMetadata {
            short_title: title.clone(),
            author_lastname: lastname,
            contact_name: author,
            contact_address: String::from_str("`\\n`{=tex}"),
            contact_city_state_zip: String::from_str("`\\n`{=tex}"),
            contact_phone: String::from_str("`\\n`{=tex}"),
            contact_email: String::from_str("`\\n`{=tex}"),
            title: if metadata.title().is_none() {
                Some(title)
            } else {
                None
            },
            author: stand_in,
        },
    )
}

} // verus!
