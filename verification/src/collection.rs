//! The source of a collection: a document that includes other documents,
//! each under its own title.

use crate::metadata::{MetadataMap, OutputMetadata, OutputMetadataView};
use crate::text::{
    append_chars, append_str, chars_of, join, join_chars, pieces_from, same_text, split_chars,
    string_of, texts, trim_chars, trimmed, views,
};
use vstd::prelude::*;
use vstd::string::StringExecFns;

verus! {

/// The message for a target that the metadata does not know.
pub open spec fn not_found_message(target: Seq<char>) -> Seq<char> {
    "target '"@ + target + "' not found"@
}

/// A text that may be missing, or the empty text.
pub open spec fn or_blank(value: Option<Seq<char>>) -> Seq<char> {
    match value {
        Some(v) => v,
        None => Seq::empty(),
    }
}

/// What is shown under the title of a part: its first author, unless that
/// is the author of the collection, and its date.
pub open spec fn tagline(m: OutputMetadataView, author: Seq<char>) -> Seq<Seq<char>> {
    (if m.authors.len() > 0 && m.authors[0] != author {
        seq![m.authors[0]]
    } else {
        Seq::empty()
    }) + (match m.date {
        Some(date) => seq![date],
        None => Seq::empty(),
    })
}

/// The pieces of the part of the collection that includes the document
/// `target`: its title, its tagline if it has one, and the include.
pub open spec fn part(target: Seq<char>, m: OutputMetadataView, author: Seq<char>) -> Seq<
    Seq<char>,
> {
    seq!["::: nospellcheck\n\n# "@ + or_blank(m.title)] + (if tagline(m, author).len() > 0 {
        seq![
            "\n**"@ + join(tagline(m, author), ", "@) + "**\n\n::: collectionseparator\n&nbsp;\n:::"@,
        ]
    } else {
        Seq::empty()
    }) + seq!["\n:::\n\n!include //"@ + target + "\n"@]
}

/// The pieces of the parts for the targets `deps`, in order; or the
/// message for the first target that `data` does not know.
pub open spec fn parts(
    deps: Seq<Seq<char>>,
    data: Map<Seq<char>, OutputMetadata>,
    author: Seq<char>,
) -> Result<Seq<Seq<char>>, Seq<char>>
    decreases deps.len(),
{
    if deps.len() == 0 {
        Ok(Seq::empty())
    } else {
        match parts(deps.drop_last(), data, author) {
            Err(m) => Err(m),
            Ok(before) => if data.contains_key(deps.last()) {
                Ok(before + part(deps.last(), data[deps.last()]@, author))
            } else {
                Err(not_found_message(deps.last()))
            },
        }
    }
}

/// The source of a collection: the front matter between two rules, then
/// the parts, all joined by line feeds. The front matter is taken without
/// the white space around it, line by line.
pub open spec fn collection_text(
    front_matter: Seq<char>,
    author: Seq<char>,
    data: Map<Seq<char>, OutputMetadata>,
    deps: Seq<Seq<char>>,
) -> Result<Seq<char>, Seq<char>> {
    match parts(deps, data, author) {
        Err(m) => Err(m),
        Ok(pieces) => Ok(
            join(
                seq!["---"@] + pieces_from(trimmed(front_matter), '\n', 0) + seq!["---\n"@]
                    + pieces,
                "\n"@,
            ),
        ),
    }
}

/// Writes the pieces of the part that includes the document `target`.
fn write_part(out: &mut Vec<Vec<char>>, target: &str, m: &OutputMetadata, author: &str)
    ensures
        texts(final(out)@) == texts(old(out)@) + part(target@, m@, author@),
{
    let ghost start = texts(out@);
    let mut head: Vec<char> = Vec::new();
    append_str(&mut head, "::: nospellcheck\n\n# ");
    match m.title() {
        Some(t) => {
            append_str(&mut head, t.as_str());
        },
        None => {
            assert(head@ + Seq::<char>::empty() =~= head@);
        },
    }
    assert(head@ =~= "::: nospellcheck\n\n# "@ + or_blank(m@.title));
    out.push(head);
    assert(texts(out@) =~= start.push(head@));
    let mut line: Vec<Vec<char>> = Vec::new();
    let authors = m.authors();
    assert(texts(line@) =~= Seq::<Seq<char>>::empty());
    if authors.len() > 0 {
        assert(views(authors@)[0] == authors@[0]@);
        if !same_text(authors[0].as_str(), author) {
            line.push(chars_of(authors[0].as_str()));
            assert(texts(line@) =~= seq![m@.authors[0]]);
        }
    }
    match m.date() {
        Some(date) => {
            let ghost before = line@;
            line.push(chars_of(date.as_str()));
            assert(texts(line@) =~= texts(before) + seq![date@]);
        },
        None => {
            assert(texts(line@) + Seq::<Seq<char>>::empty() =~= texts(line@));
        },
    }
    assert(texts(line@) =~= tagline(m@, author@));
    if line.len() > 0 {
        let mut shown: Vec<char> = Vec::new();
        append_str(&mut shown, "\n**");
        append_chars(&mut shown, join_chars(&line, ", ").as_slice());
        append_str(&mut shown, "**\n\n::: collectionseparator\n&nbsp;\n:::");
        let ghost before = out@;
        out.push(shown);
        assert(texts(out@) =~= texts(before).push(shown@));
    }
    let mut directive: Vec<char> = Vec::new();
    append_str(&mut directive, "\n:::\n\n!include //");
    append_str(&mut directive, target);
    append_str(&mut directive, "\n");
    let ghost before = out@;
    out.push(directive);
    assert(texts(out@) =~= texts(before).push(directive@));
    assert(texts(out@) =~= start + part(target@, m@, author@));
}

/// The source of the collection of the documents `deps`, whose author is
/// `author` and whose front matter is `front_matter`; or the message for
/// the first of the documents that `metadata` does not know.
pub fn collection_source(
    front_matter: &str,
    author: &str,
    metadata: &MetadataMap,
    deps: &Vec<String>,
) -> (r: Result<String, String>)
    ensures
        match collection_text(front_matter@, author@, metadata@, views(deps@)) {
            Ok(text) => r matches Ok(out) && out@ == text,
            Err(m) => r matches Err(out) && out@ == m,
        },
{
    let matter = trim_chars(chars_of(front_matter).as_slice());
    let mut out: Vec<Vec<char>> = Vec::new();
    out.push(chars_of("---"));
    let mut lines = split_chars(matter.as_slice(), '\n');
    let ghost before = out@;
    let ghost added = texts(lines@);
    out.append(&mut lines);
    assert(texts(out@) =~= texts(before) + added);
    let ghost before = out@;
    out.push(chars_of("---\n"));
    assert(texts(out@) =~= texts(before).push("---\n"@));
    let ghost head = seq!["---"@] + pieces_from(trimmed(front_matter@), '\n', 0) + seq![
        "---\n"@,
    ];
    assert(texts(out@) =~= head);
    let ghost names = views(deps@);
    let ghost data = metadata@;
    let mut i: usize = 0;
    assert(texts(out@) =~= head + Seq::<Seq<char>>::empty());
    while i < deps.len()
        invariant
            i <= deps.len(),
            names == views(deps@),
            data == metadata@,
            parts(names.take(i as int), data, author@) matches Ok(pieces) && texts(out@) == head
                + pieces,
        decreases deps.len() - i,
    {
        proof {
            assert(names.take(i + 1).drop_last() =~= names.take(i as int));
            assert(names.take(i + 1).last() == names[i as int]);
        }
        let target = deps[i].as_str();
        match metadata.data().get(target) {
            Some(m) => {
                write_part(&mut out, target, m, author);
                assert(texts(out@) =~= head + parts(names.take(i + 1), data, author@)->Ok_0);
            },
            None => {
                let mut text = String::from_str("target '");
                text.append(target);
                text.append("' not found");
                proof {
                    lemma_parts_fail(names, data, author@, i + 1);
                    assert(names.take(names.len() as int) =~= names);
                }
                return Err(text);
            },
        }
        i += 1;
    }
    assert(names.take(names.len() as int) =~= names);
    let text = join_chars(&out, "\n");
    Ok(string_of(text.as_slice()))
}

/// Once the first targets fail, all of them fail in the same way.
pub proof fn lemma_parts_fail(
    deps: Seq<Seq<char>>,
    data: Map<Seq<char>, OutputMetadata>,
    author: Seq<char>,
    n: int,
)
    requires
        0 <= n <= deps.len(),
        parts(deps.take(n), data, author) is Err,
    ensures
        parts(deps, data, author) == parts(deps.take(n), data, author),
    decreases deps.len() - n,
{
    if n < deps.len() {
        assert(deps.take(n + 1).drop_last() =~= deps.take(n));
        lemma_parts_fail(deps, data, author, n + 1);
    } else {
        assert(deps.take(n) =~= deps);
    }
}

} // verus!
