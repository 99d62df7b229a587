//! The hash of the sources of a document: of its own text and of the
//! hashes of what it depends on.

use crate::labels::sorted_labels;
use crate::metadata::{MetadataMap, OutputMetadata, SourceHash};
use crate::text::{append_str, chars_of, join, join_chars, string_of, texts};
use crate::validation::ValidationErrors;
use vstd::prelude::*;

verus! {

/// The MD5 digest of the UTF-8 bytes of a text, in small hexadecimal
/// digits.
pub uninterp spec fn md5_text(text: Seq<char>) -> Seq<char>;

/// Has the md5 crate compute the digest of a text with `md5::compute` and
/// writes it in small hexadecimal digits. The digest depends on the text
/// alone and is given the name `md5_text`. It has 16 bytes, each written
/// with two digits.
#[verifier::external_body]
fn md5_hex(text: &str) -> (hex: String)
    ensures
        hex@ == md5_text(text@),
        hex@.len() == 32,
{
    format!("{:x}", md5::compute(text))
}

/// The lines that name the documents `names` with their source hashes.
pub open spec fn dep_lines(names: Seq<Seq<char>>, data: Map<Seq<char>, OutputMetadata>) -> Seq<
    Seq<char>,
>
    decreases names.len(),
{
    if names.len() == 0 {
        Seq::empty()
    } else {
        dep_lines(names.drop_last(), data).push(
            names.last() + " "@ + data[names.last()]@.source_hash,
        )
    }
}

/// What is hashed: between braces, the dependencies with their source
/// hashes, one line each, in the dictionary order of the targets; then
/// the source itself.
pub open spec fn hash_input(data: Map<Seq<char>, OutputMetadata>, src: Seq<char>) -> Seq<char> {
    join(seq!["{"@] + dep_lines(sorted_labels(data.dom()), data) + seq!["}"@, src], "\n"@)
}

/// The text that is hashed for a document with the source `src` and the
/// dependencies `deps`.
pub fn source_hash_input(deps: &MetadataMap, src: &str) -> (input: String)
    ensures
        input@ == hash_input(deps@, src@),
{
    let data = deps.data();
    let n = data.len();
    let ghost names = data.names();
    let ghost map = data@;
    let mut lines: Vec<Vec<char>> = Vec::new();
    lines.push(chars_of("{"));
    assert(texts(lines@) =~= seq!["{"@] + dep_lines(names.take(0), map));
    let mut i: usize = 0;
    while i < n
        invariant
            i <= n,
            n == data.names().len(),
            names == data.names(),
            map == data@,
            texts(lines@) == seq!["{"@] + dep_lines(names.take(i as int), map),
        decreases n - i,
    {
        proof {
            assert(names.take(i + 1).drop_last() =~= names.take(i as int));
            assert(names.take(i + 1).last() == names[i as int]);
        }
        let mut line: Vec<char> = Vec::new();
        append_str(&mut line, data.name_at(i).as_str());
        append_str(&mut line, " ");
        append_str(&mut line, data.value_at(i).source_hash());
        let ghost before = lines@;
        lines.push(line);
        assert(texts(lines@) =~= texts(before).push(line@));
        i += 1;
    }
    assert(names.take(names.len() as int) =~= names);
    let ghost before = lines@;
    lines.push(chars_of("}"));
    lines.push(chars_of(src));
    assert(texts(lines@) =~= texts(before) + seq!["}"@, src@]);
    let out = join_chars(&lines, "\n");
    string_of(out.as_slice())
}

/// The source hash of a document with the source `src` and the
/// dependencies `deps`.
pub fn compute_source_hash(deps: &MetadataMap, src: &str) -> (r: Result<
    SourceHash,
    ValidationErrors,
>)
    ensures
        r matches Ok(hash) && hash.source_hash@ == md5_text(hash_input(deps@, src@)),
{
    let input = source_hash_input(deps, src);
    let hex = md5_hex(input.as_str());
    SourceHash::build(hex.as_str())
}

} // verus!
