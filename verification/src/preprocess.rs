//! The directive preprocessor: finds the `!include` lines and the image
//! references of a document, canonicalises their labels, puts the declared
//! paths in their place, and holds what the text uses against what is
//! declared.

use crate::bazel::{canonical, error_message, resolve};
use crate::labels::{
    is_listing, lemma_finite_set_has_listing, sorted_labels, Dependencies, LabelSet,
};
use crate::problems::{row_col_text, RowColProblem};
use crate::text::{
    append_chars, append_str, chars_of, find_from, has_prefix, join, join_chars, position_from, slice_of, starts_with, string_of, texts, views,
};
use vstd::prelude::*;
use vstd::string::StringExecFns;

verus! {

/// What one scan found on one line: nothing to do, the line rewritten, or
/// the problems met, each with its column.
pub type LineResult = Result<Option<Seq<char>>, Seq<(int, Seq<char>)>>;

/// The outcome of one scan of one line, with the labels that it met,
/// declared or not.
pub struct Outcome {
    pub result: LineResult,
    pub used: Set<Seq<char>>,
}

/// A problem on a line: the column, counted in characters from 0, and the
/// message.
#[derive(Clone, Debug)]
pub struct LineProblem {
    pub col: usize,
    pub problem: String,
}

impl View for LineProblem {
    type V = (int, Seq<char>);

    open spec fn view(&self) -> (int, Seq<char>) {
        (self.col as int, self.problem@)
    }
}

/// A problem in a document: row and column, counted from 0, and the
/// message.
#[derive(Clone, Debug)]
pub struct Problem {
    pub row: usize,
    pub col: usize,
    pub problem: String,
}

impl View for Problem {
    type V = (int, int, Seq<char>);

    open spec fn view(&self) -> (int, int, Seq<char>) {
        (self.row as int, self.col as int, self.problem@)
    }
}

impl Problem {
    /// The problem as it is shown: row and column counted from 1, then the
    /// message.
    pub fn to_string(&self) -> (text: String)
        ensures
            text@ == row_col_text(self@.0, self@.1, self@.2),
    {
        RowColProblem::new(self.row, self.col, self.problem.as_str()).to_string()
    }
}

/// What a scan of one line gives back.
#[derive(Debug)]
pub struct ReplacementResult {
    pub result: Result<Option<String>, Vec<LineProblem>>,
    pub deps_used: LabelSet,
}

/// The views of the problems in `v`, in order.
pub open spec fn line_problem_views(v: Seq<LineProblem>) -> Seq<(int, Seq<char>)> {
    v.map_values(|p: LineProblem| p@)
}

/// The views of the problems in `v`, in order.
pub open spec fn problem_views(v: Seq<Problem>) -> Seq<(int, int, Seq<char>)> {
    v.map_values(|p: Problem| p@)
}

impl View for ReplacementResult {
    type V = Outcome;

    open spec fn view(&self) -> Outcome {
        Outcome {
            result: match self.result {
                Ok(None) => Ok(None),
                Ok(Some(line)) => Ok(Some(line@)),
                Err(problems) => Err(line_problem_views(problems@)),
            },
            used: self.deps_used@,
        }
    }
}

/// The key of a canonical pair in the dependency maps: `package:target`.
pub open spec fn label_key(pair: (Seq<char>, Seq<char>)) -> Seq<char> {
    pair.0 + ":"@ + pair.1
}

/// How the message of a bad include starts.
pub open spec fn include_msg() -> Seq<char> {
    "Incorrectly-formatted include. Must be '!include <md_file label>' where label is in deps, e.g. '!include //foo:bar'."@
}

/// How the message of a bad image starts.
pub open spec fn image_msg() -> Seq<char> {
    "Incorrectly-formatted image. Must be '![<text>](<label>[ \"text\"])' where label is in 'images', e.g. '![foo](//foo:bar)'."@
}

/// Index of the first character of `s`, at or after `from`, that is not a
/// space; the length of `s` when there is none.
pub open spec fn after_spaces(s: Seq<char>, from: int) -> int
    decreases s.len() - from,
{
    if from < 0 || from >= s.len() {
        s.len() as int
    } else if s[from] != ' ' {
        from
    } else {
        after_spaces(s, from + 1)
    }
}

/// What the include scan makes of a line.
///
/// A line that does not start with `!include` is no include. The token
/// must be followed by a space; the label is the rest of the line after
/// the spaces. A label that canonicalises counts as used, declared or not;
/// a declared one has the whole line replaced.
pub open spec fn include_outcome(
    line: Seq<char>,
    deps: Map<Seq<char>, Seq<char>>,
    current: Seq<char>,
) -> Outcome {
    if !has_prefix(line, "!include"@) {
        Outcome { result: Ok(None), used: Set::empty() }
    } else if !(line.len() > 8 && line[8] == ' ') {
        Outcome {
            result: Err(seq![(0int, "Include statement must be followed by a space: "@ + line)]),
            used: Set::empty(),
        }
    } else {
        match canonical(line.skip(after_spaces(line, 8)), current) {
            Ok(pair) => {
                let key = label_key(pair);
                if deps.contains_key(key) {
                    Outcome {
                        result: Ok(Some("!include "@ + deps[key])),
                        used: Set::empty().insert(key),
                    }
                } else {
                    Outcome {
                        result: Err(seq![(0int, include_msg() + " "@ + key)]),
                        used: Set::empty().insert(key),
                    }
                }
            },
            Err(e) => Outcome {
                result: Err(seq![(0int, include_msg() + " "@ + error_message(e))]),
                used: Set::empty(),
            },
        }
    }
}

/// Writes the key of a canonical pair.
fn key_of(package: &[char], target: &[char]) -> (key: Vec<char>)
    ensures
        key@ == label_key((package@, target@)),
{
    let mut key: Vec<char> = Vec::new();
    append_chars(&mut key, package);
    append_str(&mut key, ":");
    append_chars(&mut key, target);
    assert(key@ =~= label_key((package@, target@)));
    key
}

/// A result with one problem at column 0.
fn one_problem(message: String, used: LabelSet) -> (r: ReplacementResult)
    ensures
        r@ == (Outcome { result: Err(seq![(0int, message@)]), used: used@ }),
{
    let mut problems: Vec<LineProblem> = Vec::new();
    problems.push(LineProblem { col: 0, problem: message });
    assert(line_problem_views(problems@) =~= seq![(0int, message@)]);
    ReplacementResult { result: Err(problems), deps_used: used }
}

/// Scans `line` for an include directive.
pub fn process_include(line: &str, deps: &Dependencies, current_package: &str) -> (r:
    ReplacementResult)
    ensures
        r@ == include_outcome(line@, deps@, current_package@),
{
    let text = chars_of(line);
    let token = chars_of("!include");
    proof {
        reveal_strlit("!include");
    }
    if !starts_with(text.as_slice(), token.as_slice()) {
        return ReplacementResult { result: Ok(None), deps_used: LabelSet::new() };
    }
    if !(text.len() > 8 && text[8] == ' ') {
        let mut m = String::from_str("Include statement must be followed by a space: ");
        m.append(line);
        return one_problem(m, LabelSet::new());
    }
    let mut start: usize = 8;
    while start < text.len() && text[start] == ' '
        invariant
            8 <= start <= text.len(),
            after_spaces(text@, 8) == after_spaces(text@, start as int),
        decreases text.len() - start,
    {
        start += 1;
    }
    let raw = slice_of(text.as_slice(), start, text.len());
    assert(raw@ == text@.skip(start as int));
    let current = chars_of(current_package);
    match resolve(raw.as_slice(), current.as_slice()) {
        Ok(pair) => {
            let key = key_of(pair.0.as_slice(), pair.1.as_slice());
            let mut used = LabelSet::new();
            let mut m: Vec<char> = Vec::new();
            match deps.find(key.as_slice()) {
                Some(path) => {
                    append_str(&mut m, "!include ");
                    append_chars(&mut m, path.as_slice());
                    used.add(key);
                    ReplacementResult { result: Ok(Some(string_of(m.as_slice()))), deps_used: used }
                },
                None => {
                    append_str(
                        &mut m,
                        "Incorrectly-formatted include. Must be '!include <md_file label>' where label is in deps, e.g. '!include //foo:bar'.",
                    );
                    append_str(&mut m, " ");
                    append_chars(&mut m, key.as_slice());
                    used.add(key);
                    one_problem(string_of(m.as_slice()), used)
                },
            }
        },
        Err(e) => {
            let mut m = String::from_str(
                "Incorrectly-formatted include. Must be '!include <md_file label>' where label is in deps, e.g. '!include //foo:bar'.",
            );
            m.append(" ");
            m.append(e.as_str());
            one_problem(m, LabelSet::new())
        },
    }
}

/// The image that starts at `i`, if one does: `![`, an alternative text
/// without `]`, `](`, a reference of at least one character without `)`,
/// and `)`. The result tells where the reference starts and where it ends
/// (the index of the closing parenthesis).
pub open spec fn image_at(s: Seq<char>, i: int) -> Option<(int, int)> {
    if 0 <= i && i + 1 < s.len() && s[i] == '!' && s[i + 1] == '[' {
        let close = position_from(s, ']', i + 2);
        if i + 2 <= close && close + 1 < s.len() && s[close + 1] == '(' {
            let end = position_from(s, ')', close + 2);
            if close + 2 < end && end < s.len() {
                Some((close + 2, end))
            } else {
                None
            }
        } else {
            None
        }
    } else {
        None
    }
}

/// The references of the images of `s` from `i` on, from left to right.
/// The search for the next image goes on after the closing parenthesis of
/// the one before.
pub open spec fn images_from(s: Seq<char>, i: int) -> Seq<(int, int)>
    decreases s.len() - i,
{
    if i < 0 || i >= s.len() {
        Seq::empty()
    } else {
        match image_at(s, i) {
            Some(span) => seq![span] + images_from(s, span.1 + 1),
            None => images_from(s, i + 1),
        }
    }
}

/// The raw label of a reference and its title: the reference is cut at its
/// first space, and an empty title is no title.
pub open spec fn split_reference(text: Seq<char>) -> (Seq<char>, Option<Seq<char>>) {
    let space = position_from(text, ' ', 0);
    if space == text.len() {
        (text, None)
    } else if space + 1 == text.len() {
        (text.take(space), None)
    } else {
        (text.take(space), Some(text.skip(space + 1)))
    }
}

/// The key of the label of a reference, where it canonicalises.
pub open spec fn image_label(text: Seq<char>, current: Seq<char>) -> Option<Seq<char>> {
    match canonical(split_reference(text).0, current) {
        Ok(pair) => Some(label_key(pair)),
        Err(_) => None,
    }
}

/// What stands for a reference after the scan: the declared path, followed
/// by the title where there is one; or the message of what went wrong.
pub open spec fn image_result(
    text: Seq<char>,
    images: Map<Seq<char>, Seq<char>>,
    current: Seq<char>,
) -> Result<Seq<char>, Seq<char>> {
    let (raw, title) = split_reference(text);
    match canonical(raw, current) {
        Err(e) => Err(image_msg() + " "@ + error_message(e)),
        Ok(pair) => {
            let key = label_key(pair);
            if images.contains_key(key) {
                match title {
                    Some(t) => Ok(images[key] + " "@ + t),
                    None => Ok(images[key]),
                }
            } else {
                Err(image_msg() + " "@ + key)
            }
        },
    }
}

/// The text that takes the place of a reference: what it resolves to, or
/// the reference itself where it does not resolve.
pub open spec fn replacement(
    text: Seq<char>,
    images: Map<Seq<char>, Seq<char>>,
    current: Seq<char>,
) -> Seq<char> {
    match image_result(text, images, current) {
        Ok(new) => new,
        Err(_) => text,
    }
}

/// The problems of the references at `spans`, in order, each at the column
/// where its reference starts.
pub open spec fn image_problems(
    s: Seq<char>,
    spans: Seq<(int, int)>,
    images: Map<Seq<char>, Seq<char>>,
    current: Seq<char>,
) -> Seq<(int, Seq<char>)>
    decreases spans.len(),
{
    if spans.len() == 0 {
        Seq::empty()
    } else {
        let span = spans.last();
        let rest = image_problems(s, spans.drop_last(), images, current);
        match image_result(s.subrange(span.0, span.1), images, current) {
            Ok(_) => rest,
            Err(m) => rest.push((span.0, m)),
        }
    }
}

/// The labels of the references at `spans`, as far as they canonicalise.
pub open spec fn images_used(s: Seq<char>, spans: Seq<(int, int)>, current: Seq<char>) -> Set<
    Seq<char>,
>
    decreases spans.len(),
{
    if spans.len() == 0 {
        Set::empty()
    } else {
        let span = spans.last();
        let rest = images_used(s, spans.drop_last(), current);
        match image_label(s.subrange(span.0, span.1), current) {
            Some(key) => rest.insert(key),
            None => rest,
        }
    }
}

/// The text of `s` up to the end of the last reference of `spans`, with
/// each reference replaced and everything else kept.
pub open spec fn rewritten_to(
    s: Seq<char>,
    spans: Seq<(int, int)>,
    images: Map<Seq<char>, Seq<char>>,
    current: Seq<char>,
) -> Seq<char>
    decreases spans.len(),
{
    if spans.len() == 0 {
        Seq::empty()
    } else {
        let span = spans.last();
        let from = if spans.len() == 1 {
            0
        } else {
            spans[spans.len() - 2].1
        };
        rewritten_to(s, spans.drop_last(), images, current) + s.subrange(from, span.0)
            + replacement(s.subrange(span.0, span.1), images, current)
    }
}

/// What the image scan makes of a line.
///
/// A line without an image is left alone. Each reference that
/// canonicalises counts as used. If any reference fails, the problems are
/// the result and the line stays as it is; otherwise every reference is
/// replaced.
pub open spec fn images_outcome(
    line: Seq<char>,
    images: Map<Seq<char>, Seq<char>>,
    current: Seq<char>,
) -> Outcome {
    let spans = images_from(line, 0);
    if spans.len() == 0 {
        Outcome { result: Ok(None), used: Set::empty() }
    } else {
        let problems = image_problems(line, spans, images, current);
        Outcome {
            result: if problems.len() > 0 {
                Err(problems)
            } else {
                Ok(
                    Some(
                        rewritten_to(line, spans, images, current) + line.subrange(
                            spans.last().1,
                            line.len() as int,
                        ),
                    ),
                )
            },
            used: images_used(line, spans, current),
        }
    }
}

/// The pairs of `v` as pairs of integers.
pub open spec fn span_views(v: Seq<(usize, usize)>) -> Seq<(int, int)> {
    v.map_values(|p: (usize, usize)| (p.0 as int, p.1 as int))
}

/// The image that starts at `i`, if one does.
fn match_image(s: &[char], i: usize) -> (r: Option<(usize, usize)>)
    requires
        i < s.len(),
    ensures
        r is Some <==> image_at(s@, i as int) is Some,
        r matches Some(span) ==> image_at(s@, i as int) == Some((span.0 as int, span.1 as int))
            && i + 3 <= span.0 < span.1 < s.len(),
{
    if s.len() - i < 2 || s[i] != '!' || s[i + 1] != '[' {
        return None;
    }
    let close: usize = find_from(s, ']', i + 2);
    if s.len() - close < 2 || s[close + 1] != '(' {
        return None;
    }
    let end: usize = find_from(s, ')', close + 2);
    if close + 2 < end && end < s.len() {
        Some((close + 2, end))
    } else {
        None
    }
}

/// The references of the images of `s`, from left to right.
fn find_images(s: &[char]) -> (v: Vec<(usize, usize)>)
    ensures
        span_views(v@) == images_from(s@, 0),
        forall|k: int| 0 <= k < v@.len() ==> (#[trigger] v@[k]).0 < v@[k].1 < s.len(),
        forall|k: int| 0 <= k < v@.len() - 1 ==> (#[trigger] v@[k]).1 < v@[k + 1].0,
{
    let mut v: Vec<(usize, usize)> = Vec::new();
    let mut i: usize = 0;
    while i < s.len()
        invariant
            i <= s.len(),
            images_from(s@, 0) == span_views(v@) + images_from(s@, i as int),
            forall|k: int| 0 <= k < v@.len() ==> (#[trigger] v@[k]).0 < v@[k].1 < i,
            forall|k: int| 0 <= k < v@.len() - 1 ==> (#[trigger] v@[k]).1 < v@[k + 1].0,
        decreases s.len() - i,
    {
        match match_image(s, i) {
            Some(span) => {
                let ghost before = v@;
                v.push(span);
                proof {
                    assert(span_views(v@) =~= span_views(before).push(
                        (span.0 as int, span.1 as int),
                    ));
                    assert(span_views(before) + (seq![(span.0 as int, span.1 as int)]
                        + images_from(s@, span.1 + 1)) =~= span_views(v@) + images_from(
                        s@,
                        span.1 + 1,
                    ));
                }
                i = span.1 + 1;
            },
            None => {
                i += 1;
            },
        }
    }
    assert(span_views(v@) + Seq::<(int, int)>::empty() =~= span_views(v@));
    v
}

/// Resolves one reference: what replaces it or the message of what went
/// wrong, and the key of its label where it canonicalises.
fn resolve_image(text: &[char], images: &Dependencies, current: &[char]) -> (r: (
    Result<Vec<char>, String>,
    Option<Vec<char>>,
))
    ensures
        match image_result(text@, images@, current@) {
            Ok(new) => r.0 matches Ok(out) && out@ == new,
            Err(m) => r.0 matches Err(out) && out@ == m,
        },
        match image_label(text@, current@) {
            Some(key) => r.1 matches Some(out) && out@ == key,
            None => r.1 is None,
        },
{
    let space: usize = find_from(text, ' ', 0);
    let raw = slice_of(text, 0, space);
    assert(text@.subrange(0, text@.len() as int) == text@);
    match resolve(raw.as_slice(), current) {
        Err(e) => {
            let mut m = String::from_str(
                "Incorrectly-formatted image. Must be '![<text>](<label>[ \"text\"])' where label is in 'images', e.g. '![foo](//foo:bar)'.",
            );
            m.append(" ");
            m.append(e.as_str());
            (Err(m), None)
        },
        Ok(pair) => {
            let key = key_of(pair.0.as_slice(), pair.1.as_slice());
            match images.find(key.as_slice()) {
                Some(path) => {
                    let mut out: Vec<char> = Vec::new();
                    append_chars(&mut out, path.as_slice());
                    if space < text.len() && space + 1 < text.len() {
                        let title = slice_of(text, space + 1, text.len());
                        append_str(&mut out, " ");
                        append_chars(&mut out, title.as_slice());
                    }
                    (Ok(out), Some(key))
                },
                None => {
                    let mut m: Vec<char> = Vec::new();
                    append_str(
                        &mut m,
                        "Incorrectly-formatted image. Must be '![<text>](<label>[ \"text\"])' where label is in 'images', e.g. '![foo](//foo:bar)'.",
                    );
                    append_str(&mut m, " ");
                    append_chars(&mut m, key.as_slice());
                    (Err(string_of(m.as_slice())), Some(key))
                },
            }
        },
    }
}

/// Scans `line` for images.
pub fn process_images(line: &str, images: &Dependencies, current_package: &str) -> (r:
    ReplacementResult)
    ensures
        r@ == images_outcome(line@, images@, current_package@),
{
    let text = chars_of(line);
    let current = chars_of(current_package);
    let spans = find_images(text.as_slice());
    let mut used = LabelSet::new();
    if spans.len() == 0 {
        return ReplacementResult { result: Ok(None), deps_used: used };
    }
    let mut problems: Vec<LineProblem> = Vec::new();
    let mut out: Vec<char> = Vec::new();
    let mut from: usize = 0;
    let mut k: usize = 0;
    let ghost all = span_views(spans@);
    assert(line_problem_views(problems@) =~= Seq::<(int, Seq<char>)>::empty());
    while k < spans.len()
        invariant
            k <= spans.len(),
            all == span_views(spans@),
            text@ == line@,
            current@ == current_package@,
            forall|j: int| 0 <= j < spans@.len() ==> (#[trigger] spans@[j]).0 < spans@[j].1
                < text.len(),
            forall|j: int| 0 <= j < spans@.len() - 1 ==> (#[trigger] spans@[j]).1 < spans@[j
                + 1].0,
            from == (if k == 0 {
                0
            } else {
                spans@[k - 1].1 as int
            }),
            line_problem_views(problems@) == image_problems(
                line@,
                all.take(k as int),
                images@,
                current@,
            ),
            used@ == images_used(line@, all.take(k as int), current@),
            out@ == rewritten_to(line@, all.take(k as int), images@, current@),
        decreases spans.len() - k,
    {
        let span = spans[k];
        proof {
            assert(all.take(k + 1).drop_last() =~= all.take(k as int));
            assert(all.take(k + 1).last() == (span.0 as int, span.1 as int));
            if k > 0 {
                assert(spans@[k - 1].1 < spans@[k as int].0);
                assert(all.take(k + 1)[k - 1] == all[k - 1]);
            }
        }
        let reference = slice_of(text.as_slice(), span.0, span.1);
        let between = slice_of(text.as_slice(), from, span.0);
        append_chars(&mut out, between.as_slice());
        let resolved = resolve_image(reference.as_slice(), images, current.as_slice());
        match resolved.1 {
            Some(key) => {
                used.add(key);
            },
            None => {},
        }
        match resolved.0 {
            Ok(new) => {
                append_chars(&mut out, new.as_slice());
            },
            Err(m) => {
                let ghost before = problems@;
                problems.push(LineProblem { col: span.0, problem: m });
                assert(line_problem_views(problems@) =~= line_problem_views(before).push(
                    (span.0 as int, m@),
                ));
                append_chars(&mut out, reference.as_slice());
            },
        }
        from = span.1;
        k += 1;
    }
    assert(all.take(spans@.len() as int) =~= all);
    if problems.len() > 0 {
        return ReplacementResult { result: Err(problems), deps_used: used };
    }
    let tail = slice_of(text.as_slice(), from, text.len());
    append_chars(&mut out, tail.as_slice());
    assert(spans@[spans@.len() - 1].1 as int == all.last().1);
    ReplacementResult { result: Ok(Some(string_of(out.as_slice()))), deps_used: used }
}

/// Each label as a line of a list: two spaces, `//`, and the label.
pub open spec fn listed(labels: Seq<Seq<char>>) -> Seq<Seq<char>> {
    labels.map_values(|d: Seq<char>| "  //"@ + d)
}

/// The lines that report how the labels used differ from those declared:
/// a heading, then the labels used but not declared, then those declared
/// but not used, each list under its own heading and in dictionary order.
/// A list without a member is left out with its heading.
pub open spec fn mismatch_lines(
    used: Set<Seq<char>>,
    declared: Set<Seq<char>>,
    name: Seq<char>,
) -> Seq<Seq<char>> {
    let used_only = sorted_labels(used.difference(declared));
    let declared_only = sorted_labels(declared.difference(used));
    seq!["Used "@ + name + " do not match declared "@ + name] + (if used_only.len() > 0 {
        seq!["Used but not declared"@] + listed(used_only)
    } else {
        Seq::empty()
    }) + (if declared_only.len() > 0 {
        seq!["Declared but not used"@] + listed(declared_only)
    } else {
        Seq::empty()
    })
}

/// The report of a mismatch between the labels used and those declared, if
/// the two sets differ.
pub open spec fn strict_deps(
    used: Set<Seq<char>>,
    declared: Set<Seq<char>>,
    name: Seq<char>,
) -> Option<Seq<char>> {
    if used == declared {
        None
    } else {
        Some(join(mismatch_lines(used, declared, name), "\n"@))
    }
}

/// Adds to `lines` a heading and the members of `labels` as a list, unless
/// there is none.
fn list_labels(lines: &mut Vec<Vec<char>>, heading: &str, labels: &LabelSet)
    ensures
        texts(final(lines)@) == texts(old(lines)@) + (if sorted_labels(labels@).len() > 0 {
            seq![heading@] + listed(sorted_labels(labels@))
        } else {
            Seq::empty()
        }),
{
    let members = labels.to_vec();
    if members.len() == 0 {
        assert(texts(lines@) + Seq::<Seq<char>>::empty() =~= texts(lines@));
        return ;
    }
    let ghost start = texts(lines@);
    let ghost all = views(members@);
    lines.push(chars_of(heading));
    assert(texts(lines@) =~= start + seq![heading@] + listed(all.take(0)));
    let mut i: usize = 0;
    while i < members.len()
        invariant
            i <= members.len(),
            all == views(members@),
            texts(lines@) == start + seq![heading@] + listed(all.take(i as int)),
        decreases members.len() - i,
    {
        let mut entry: Vec<char> = Vec::new();
        append_str(&mut entry, "  //");
        append_str(&mut entry, members[i].as_str());
        let ghost before = lines@;
        lines.push(entry);
        proof {
            assert(texts(lines@) =~= texts(before).push(entry@));
            assert(listed(all.take(i + 1)) =~= listed(all.take(i as int)).push("  //"@ + all[i as int]));
            assert(texts(lines@) =~= start + seq![heading@] + listed(all.take(i + 1)));
        }
        i += 1;
    }
    proof {
        assert(all.take(all.len() as int) =~= all);
        assert(texts(lines@) =~= start + (seq![heading@] + listed(all)));
    }
}

/// Holds the labels used against the labels declared. Where the two sets
/// differ, the error is the report of the difference; `name` says what
/// kind of dependency it is about.
pub fn check_strict_deps(used: &LabelSet, declared: &LabelSet, name: &str) -> (r: Result<
    (),
    String,
>)
    ensures
        r is Ok <==> used@ == declared@,
        match strict_deps(used@, declared@, name@) {
            None => r is Ok,
            Some(m) => r matches Err(out) && out@ == m,
        },
        is_listing(sorted_labels(used@.difference(declared@)), used@.difference(declared@)),
        is_listing(sorted_labels(declared@.difference(used@)), declared@.difference(used@)),
{
    proof {
        used.lemma_finite();
        declared.lemma_finite();
        law_mismatch_lists_are_sorted(used@, declared@);
    }
    if used.same(declared) {
        return Ok(());
    }
    let used_only = used.difference(declared);
    let declared_only = declared.difference(used);
    let mut heading: Vec<char> = Vec::new();
    append_str(&mut heading, "Used ");
    append_str(&mut heading, name);
    append_str(&mut heading, " do not match declared ");
    append_str(&mut heading, name);
    let mut lines: Vec<Vec<char>> = Vec::new();
    lines.push(heading);
    assert(texts(lines@) =~= seq!["Used "@ + name@ + " do not match declared "@ + name@]);
    list_labels(&mut lines, "Used but not declared", &used_only);
    list_labels(&mut lines, "Declared but not used", &declared_only);
    let out = join_chars(&lines, "\n");
    Err(string_of(out.as_slice()))
}

/// The problems `problems` of the line at `row`.
pub open spec fn with_row(problems: Seq<(int, Seq<char>)>, row: int) -> Seq<
    (int, int, Seq<char>),
> {
    problems.map_values(|p: (int, Seq<char>)| (row, p.0, p.1))
}

/// The problems of a scan, if it ended in problems.
pub open spec fn problems_of(result: LineResult) -> Seq<(int, Seq<char>)> {
    match result {
        Err(problems) => problems,
        Ok(_) => Seq::empty(),
    }
}

/// The line is an include: it starts with the token `!include`. An
/// include takes the whole line, so such a line gets no image scan,
/// whether the include resolves or not.
pub open spec fn is_include(line: Seq<char>) -> bool {
    has_prefix(line, "!include"@)
}

/// A line after the scans. An include is replaced if it resolves and
/// stays as it is if it does not. Any other line is what the image scan
/// put in its place, or the line itself.
pub open spec fn line_after(
    line: Seq<char>,
    deps: Map<Seq<char>, Seq<char>>,
    images: Map<Seq<char>, Seq<char>>,
    current: Seq<char>,
) -> Seq<char> {
    match include_outcome(line, deps, current).result {
        Ok(Some(new)) => new,
        Ok(None) => match images_outcome(line, images, current).result {
            Ok(Some(new)) => new,
            _ => line,
        },
        Err(_) => line,
    }
}

/// The problems of the line at `row`: those of the include scan where the
/// line is an include, else those of the image scan.
pub open spec fn line_problems(
    line: Seq<char>,
    row: int,
    deps: Map<Seq<char>, Seq<char>>,
    images: Map<Seq<char>, Seq<char>>,
    current: Seq<char>,
) -> Seq<(int, int, Seq<char>)> {
    if is_include(line) {
        with_row(problems_of(include_outcome(line, deps, current).result), row)
    } else {
        with_row(problems_of(images_outcome(line, images, current).result), row)
    }
}

/// The image labels that a line uses: none where the line is an include.
pub open spec fn line_images(
    line: Seq<char>,
    images: Map<Seq<char>, Seq<char>>,
    current: Seq<char>,
) -> Set<Seq<char>> {
    if is_include(line) {
        Set::empty()
    } else {
        images_outcome(line, images, current).used
    }
}

/// The problems of all lines, in order.
pub open spec fn scan_problems(
    lines: Seq<Seq<char>>,
    deps: Map<Seq<char>, Seq<char>>,
    images: Map<Seq<char>, Seq<char>>,
    current: Seq<char>,
) -> Seq<(int, int, Seq<char>)>
    decreases lines.len(),
{
    if lines.len() == 0 {
        Seq::empty()
    } else {
        scan_problems(lines.drop_last(), deps, images, current) + line_problems(
            lines.last(),
            lines.len() - 1,
            deps,
            images,
            current,
        )
    }
}

/// The include labels that the lines use.
pub open spec fn used_includes(
    lines: Seq<Seq<char>>,
    deps: Map<Seq<char>, Seq<char>>,
    current: Seq<char>,
) -> Set<Seq<char>>
    decreases lines.len(),
{
    if lines.len() == 0 {
        Set::empty()
    } else {
        used_includes(lines.drop_last(), deps, current).union(
            include_outcome(lines.last(), deps, current).used,
        )
    }
}

/// The image labels that the lines use.
pub open spec fn used_images(
    lines: Seq<Seq<char>>,
    images: Map<Seq<char>, Seq<char>>,
    current: Seq<char>,
) -> Set<Seq<char>>
    decreases lines.len(),
{
    if lines.len() == 0 {
        Set::empty()
    } else {
        used_images(lines.drop_last(), images, current).union(
            line_images(lines.last(), images, current),
        )
    }
}

/// The problem that reports a mismatch, if there is one, at row 0 and
/// column 0.
pub open spec fn mismatch(used: Set<Seq<char>>, declared: Set<Seq<char>>, name: Seq<char>) -> Seq<
    (int, int, Seq<char>),
> {
    match strict_deps(used, declared, name) {
        Some(m) => seq![(0int, 0int, m)],
        None => Seq::empty(),
    }
}

/// Every problem of a document: those of its lines, then the mismatch of
/// the includes, then the mismatch of the images.
pub open spec fn all_problems(
    lines: Seq<Seq<char>>,
    deps: Map<Seq<char>, Seq<char>>,
    images: Map<Seq<char>, Seq<char>>,
    current: Seq<char>,
) -> Seq<(int, int, Seq<char>)> {
    scan_problems(lines, deps, images, current) + mismatch(
        used_includes(lines, deps, current),
        deps.dom(),
        "deps"@,
    ) + mismatch(used_images(lines, images, current), images.dom(), "images"@)
}

/// The document after both scans of every line.
pub open spec fn document_after(
    lines: Seq<Seq<char>>,
    deps: Map<Seq<char>, Seq<char>>,
    images: Map<Seq<char>, Seq<char>>,
    current: Seq<char>,
) -> Seq<Seq<char>> {
    lines.map_values(|line: Seq<char>| line_after(line, deps, images, current))
}

/// Adds the problems of one scan of the line at `row` to `problems`.
fn report(problems: &mut Vec<Problem>, found: Vec<LineProblem>, row: usize)
    ensures
        problem_views(final(problems)@) == problem_views(old(problems)@) + with_row(
            line_problem_views(found@),
            row as int,
        ),
{
    let ghost start = problem_views(problems@);
    let ghost all = line_problem_views(found@);
    let mut i: usize = 0;
    assert(start + with_row(all.take(0), row as int) =~= start);
    while i < found.len()
        invariant
            i <= found.len(),
            all == line_problem_views(found@),
            problem_views(problems@) == start + with_row(all.take(i as int), row as int),
        decreases found.len() - i,
    {
        let col = found[i].col;
        let problem = found[i].problem.clone();
        let ghost before = problems@;
        problems.push(Problem { row, col, problem });
        proof {
            assert(problem_views(problems@) =~= problem_views(before).push(
                (row as int, all[i as int].0, all[i as int].1),
            ));
            assert(with_row(all.take(i + 1), row as int) =~= with_row(
                all.take(i as int),
                row as int,
            ).push((row as int, all[i as int].0, all[i as int].1)));
        }
        i += 1;
    }
    assert(all.take(all.len() as int) =~= all);
}

/// Preprocesses a document: scans every line for an include, and, where
/// the line is no include, for images; rewrites the lines whose
/// directives all resolve; and reports every problem met, followed by the
/// mismatch between the labels used and those declared, for the includes
/// and then for the images.
pub fn preprocess(
    data: &mut [String],
    deps: &Dependencies,
    images: &Dependencies,
    current_package: &str,
) -> (problems: Vec<Problem>)
    ensures
        views(final(data)@) == document_after(
            views(old(data)@),
            deps@,
            images@,
            current_package@,
        ),
        problem_views(problems@) == all_problems(
            views(old(data)@),
            deps@,
            images@,
            current_package@,
        ),
{
    let mut problems: Vec<Problem> = Vec::new();
    let mut used_deps = LabelSet::new();
    let mut used_imgs = LabelSet::new();
    let ghost lines = views(data@);
    let n: usize = data.len();
    let mut row: usize = 0;
    assert(problem_views(problems@) =~= Seq::<(int, int, Seq<char>)>::empty());
    while row < n
        invariant
            row <= n,
            n == data@.len(),
            lines.len() == n,
            lines == views(old(data)@),
            forall|j: int| 0 <= j < row ==> (#[trigger] data@[j])@ == line_after(
                lines[j],
                deps@,
                images@,
                current_package@,
            ),
            forall|j: int| row <= j < n ==> (#[trigger] data@[j])@ == lines[j],
            problem_views(problems@) == scan_problems(
                lines.take(row as int),
                deps@,
                images@,
                current_package@,
            ),
            used_deps@ == used_includes(lines.take(row as int), deps@, current_package@),
            used_imgs@ == used_images(lines.take(row as int), images@, current_package@),
        decreases n - row,
    {
        proof {
            assert(lines.take(row + 1).drop_last() =~= lines.take(row as int));
            assert(lines.take(row + 1).last() == lines[row as int]);
        }
        let ghost nothing = with_row(Seq::<(int, Seq<char>)>::empty(), row as int);
        assert(problem_views(problems@) + nothing =~= problem_views(problems@));
        let included = process_include(data[row].as_str(), deps, current_package);
        used_deps.extend(&included.deps_used);
        match included.result {
            Ok(Some(new_line)) => {
                // An include takes up the whole line: there is nothing
                // else to look for on it.
                data[row] = new_line;
                assert(used_imgs@.union(Set::<Seq<char>>::empty()) =~= used_imgs@);
            },
            Err(found) => {
                report(&mut problems, found, row);
                assert(used_imgs@.union(Set::<Seq<char>>::empty()) =~= used_imgs@);
            },
            Ok(None) => {
                let scanned = process_images(data[row].as_str(), images, current_package);
                used_imgs.extend(&scanned.deps_used);
                match scanned.result {
                    Ok(Some(new_line)) => {
                        data[row] = new_line;
                    },
                    Ok(None) => {},
                    Err(found) => {
                        report(&mut problems, found, row);
                    },
                }
            },
        }
        row += 1;
    }
    proof {
        assert(lines.take(n as int) =~= lines);
        assert(views(data@) =~= document_after(lines, deps@, images@, current_package@));
    }
    let declared_deps = deps.labels();
    match check_strict_deps(&used_deps, &declared_deps, "deps") {
        Err(problem) => {
            let ghost before = problems@;
            problems.push(Problem { row: 0, col: 0, problem });
            assert(problem_views(problems@) =~= problem_views(before).push(
                (0int, 0int, problem@),
            ));
        },
        Ok(_) => {},
    }
    let declared_images = images.labels();
    match check_strict_deps(&used_imgs, &declared_images, "images") {
        Err(problem) => {
            let ghost before = problems@;
            problems.push(Problem { row: 0, col: 0, problem });
            assert(problem_views(problems@) =~= problem_views(before).push(
                (0int, 0int, problem@),
            ));
        },
        Ok(_) => {},
    }
    assert(problem_views(problems@) =~= all_problems(lines, deps@, images@, current_package@));
    problems
}

/// A line holds a directive: it starts with `!include`, or an image stands
/// in it.
pub open spec fn has_directive(line: Seq<char>) -> bool {
    is_include(line) || images_from(line, 0).len() > 0
}

/// Every reference that fails has its problem among the problems, at the
/// column where the reference starts.
pub proof fn lemma_failed_reference_is_reported(
    s: Seq<char>,
    spans: Seq<(int, int)>,
    images: Map<Seq<char>, Seq<char>>,
    current: Seq<char>,
    k: int,
)
    requires
        0 <= k < spans.len(),
        image_result(s.subrange(spans[k].0, spans[k].1), images, current) is Err,
    ensures
        image_problems(s, spans, images, current).len() > 0,
        image_problems(s, spans, images, current).contains(
            (spans[k].0, image_result(s.subrange(spans[k].0, spans[k].1), images, current)->Err_0),
        ),
    decreases spans.len(),
{
    let wanted = (
        spans[k].0,
        image_result(s.subrange(spans[k].0, spans[k].1), images, current)->Err_0,
    );
    let all = image_problems(s, spans, images, current);
    let rest = image_problems(s, spans.drop_last(), images, current);
    if k < spans.len() - 1 {
        lemma_failed_reference_is_reported(s, spans.drop_last(), images, current, k);
        let i = choose|i: int| 0 <= i < rest.len() && rest[i] == wanted;
        assert(all[i] == wanted);
    } else {
        assert(all == rest.push(wanted));
        assert(all[rest.len() as int] == wanted);
    }
}

/// A line that is no include, with images of which one does not resolve,
/// is not rewritten at all, and its image scan ends in problems: no image
/// of the line is replaced, not even one that resolves, and the problem of
/// every image that fails is reported.
pub proof fn law_failed_image_keeps_line(
    line: Seq<char>,
    deps: Map<Seq<char>, Seq<char>>,
    images: Map<Seq<char>, Seq<char>>,
    current: Seq<char>,
    k: int,
)
    requires
        !is_include(line),
        0 <= k < images_from(line, 0).len(),
        image_result(
            line.subrange(images_from(line, 0)[k].0, images_from(line, 0)[k].1),
            images,
            current,
        ) is Err,
    ensures
        images_outcome(line, images, current).result is Err,
        images_outcome(line, images, current).result->Err_0.contains(
            (
                images_from(line, 0)[k].0,
                image_result(
                    line.subrange(images_from(line, 0)[k].0, images_from(line, 0)[k].1),
                    images,
                    current,
                )->Err_0,
            ),
        ),
        line_after(line, deps, images, current) == line,
{
    lemma_failed_reference_is_reported(line, images_from(line, 0), images, current, k);
}

/// A line without a directive is left as it is, has no problem and uses no
/// label, whatever is declared.
pub proof fn lemma_plain_line(
    line: Seq<char>,
    row: int,
    deps: Map<Seq<char>, Seq<char>>,
    images: Map<Seq<char>, Seq<char>>,
    current: Seq<char>,
)
    requires
        !has_directive(line),
    ensures
        line_after(line, deps, images, current) == line,
        line_problems(line, row, deps, images, current) == Seq::<(int, int, Seq<char>)>::empty(),
        include_outcome(line, deps, current).used == Set::<Seq<char>>::empty(),
        line_images(line, images, current) == Set::<Seq<char>>::empty(),
{
    assert(with_row(Seq::<(int, Seq<char>)>::empty(), row) =~= Seq::<
        (int, int, Seq<char>),
    >::empty());
}

/// A document without a directive has no line problem and uses no label.
pub proof fn lemma_plain_document(
    lines: Seq<Seq<char>>,
    deps: Map<Seq<char>, Seq<char>>,
    images: Map<Seq<char>, Seq<char>>,
    current: Seq<char>,
)
    requires
        forall|i: int| 0 <= i < lines.len() ==> !has_directive(#[trigger] lines[i]),
    ensures
        scan_problems(lines, deps, images, current) == Seq::<(int, int, Seq<char>)>::empty(),
        used_includes(lines, deps, current) == Set::<Seq<char>>::empty(),
        used_images(lines, images, current) == Set::<Seq<char>>::empty(),
        document_after(lines, deps, images, current) == lines,
    decreases lines.len(),
{
    if lines.len() > 0 {
        let rest = lines.drop_last();
        assert forall|i: int| 0 <= i < rest.len() implies !has_directive(#[trigger] rest[i]) by {
            assert(rest[i] == lines[i]);
        }
        lemma_plain_document(rest, deps, images, current);
        lemma_plain_line(lines.last(), lines.len() - 1, deps, images, current);
        assert(used_includes(lines, deps, current) =~= Set::<Seq<char>>::empty());
        assert(used_images(lines, images, current) =~= Set::<Seq<char>>::empty());
    }
    assert forall|i: int| 0 <= i < lines.len() implies document_after(
        lines,
        deps,
        images,
        current,
    )[i] == lines[i] by {
        lemma_plain_line(lines[i], i, deps, images, current);
    }
    assert(document_after(lines, deps, images, current) =~= lines);
}

/// A document in which no directive is left, preprocessed with nothing
/// declared, has no problem and stays as it is: preprocessing it again
/// changes nothing.
pub proof fn law_plain_document_is_fixed(lines: Seq<Seq<char>>, current: Seq<char>)
    requires
        forall|i: int| 0 <= i < lines.len() ==> !has_directive(#[trigger] lines[i]),
    ensures
        all_problems(
            lines,
            Map::<Seq<char>, Seq<char>>::empty(),
            Map::<Seq<char>, Seq<char>>::empty(),
            current,
        ) == Seq::<(int, int, Seq<char>)>::empty(),
        document_after(
            lines,
            Map::<Seq<char>, Seq<char>>::empty(),
            Map::<Seq<char>, Seq<char>>::empty(),
            current,
        ) == lines,
{
    let none = Map::<Seq<char>, Seq<char>>::empty();
    lemma_plain_document(lines, none, none, current);
    assert(none.dom() =~= Set::<Seq<char>>::empty());
}

/// With nothing declared, a line that holds a directive has a problem: the
/// directive names a label that is not declared, or no label at all.
pub proof fn law_undeclared_directive_is_reported(line: Seq<char>, row: int, current: Seq<char>)
    requires
        has_directive(line),
    ensures
        line_problems(
            line,
            row,
            Map::<Seq<char>, Seq<char>>::empty(),
            Map::<Seq<char>, Seq<char>>::empty(),
            current,
        ).len() > 0,
{
    let none = Map::<Seq<char>, Seq<char>>::empty();
    if has_prefix(line, "!include"@) {
        assert(include_outcome(line, none, current).result is Err);
        assert(problems_of(include_outcome(line, none, current).result).len() == 1);
    } else {
        let spans = images_from(line, 0);
        lemma_failed_reference_is_reported(line, spans, none, current, 0);
    }
}

/// No label is reported both as used but not declared and as declared but
/// not used.
pub proof fn law_mismatch_lists_are_disjoint(
    used: Set<Seq<char>>,
    declared: Set<Seq<char>>,
    label: Seq<char>,
)
    ensures
        !(used.difference(declared).contains(label) && declared.difference(used).contains(
            label,
        )),
        used.difference(declared).contains(label) <==> used.contains(label)
            && !declared.contains(label),
        declared.difference(used).contains(label) <==> declared.contains(label) && !used.contains(
            label,
        ),
        strict_deps(used, declared, "deps"@) is None <==> used.difference(declared)
            =~= Set::<Seq<char>>::empty() && declared.difference(used) =~= Set::<
            Seq<char>,
        >::empty(),
{
    if used.difference(declared) =~= Set::<Seq<char>>::empty() && declared.difference(used)
        =~= Set::<Seq<char>>::empty() {
        assert forall|x: Seq<char>| used.contains(x) <==> declared.contains(x) by {
            if used.contains(x) && !declared.contains(x) {
                assert(used.difference(declared).contains(x));
            }
            if declared.contains(x) && !used.contains(x) {
                assert(declared.difference(used).contains(x));
            }
        }
        assert(used =~= declared);
    }
}

/// A label that an include names counts as used whether it is declared or
/// not, so that one label is never reported twice.
pub proof fn law_referenced_label_is_used(
    line: Seq<char>,
    deps: Map<Seq<char>, Seq<char>>,
    current: Seq<char>,
)
    requires
        has_prefix(line, "!include"@),
        line.len() > 8,
        line[8] == ' ',
        canonical(line.skip(after_spaces(line, 8)), current) is Ok,
    ensures
        include_outcome(line, deps, current).used == Set::<Seq<char>>::empty().insert(
            label_key(canonical(line.skip(after_spaces(line, 8)), current)->Ok_0),
        ),
        include_outcome(line, deps, current).result is Err <==> !deps.contains_key(
            label_key(canonical(line.skip(after_spaces(line, 8)), current)->Ok_0),
        ),
{
}

/// With nothing declared no line is rewritten: no directive resolves.
pub proof fn lemma_nothing_declared_keeps_line(line: Seq<char>, current: Seq<char>)
    ensures
        line_after(
            line,
            Map::<Seq<char>, Seq<char>>::empty(),
            Map::<Seq<char>, Seq<char>>::empty(),
            current,
        ) == line,
{
    let none = Map::<Seq<char>, Seq<char>>::empty();
    let spans = images_from(line, 0);
    if spans.len() > 0 {
        lemma_failed_reference_is_reported(line, spans, none, current, 0);
    }
}

/// The problems of a document are at least those of any of its lines.
pub proof fn lemma_line_problems_are_reported(
    lines: Seq<Seq<char>>,
    deps: Map<Seq<char>, Seq<char>>,
    images: Map<Seq<char>, Seq<char>>,
    current: Seq<char>,
    row: int,
)
    requires
        0 <= row < lines.len(),
    ensures
        scan_problems(lines, deps, images, current).len() >= line_problems(
            lines[row],
            row,
            deps,
            images,
            current,
        ).len(),
    decreases lines.len(),
{
    if row < lines.len() - 1 {
        assert(lines.drop_last()[row] == lines[row]);
        lemma_line_problems_are_reported(lines.drop_last(), deps, images, current, row);
    }
}

/// Preprocessing with nothing declared never changes a document, and it
/// finds no problem exactly when no directive is left in the document:
/// a directive that is left names a label that is not declared.
pub proof fn law_nothing_declared(lines: Seq<Seq<char>>, current: Seq<char>)
    ensures
        document_after(
            lines,
            Map::<Seq<char>, Seq<char>>::empty(),
            Map::<Seq<char>, Seq<char>>::empty(),
            current,
        ) == lines,
        all_problems(
            lines,
            Map::<Seq<char>, Seq<char>>::empty(),
            Map::<Seq<char>, Seq<char>>::empty(),
            current,
        ).len() == 0 <==> forall|i: int| 0 <= i < lines.len() ==> !has_directive(#[trigger] lines[i]),
{
    let none = Map::<Seq<char>, Seq<char>>::empty();
    assert forall|i: int| 0 <= i < lines.len() implies document_after(lines, none, none, current)[i]
        == lines[i] by {
        lemma_nothing_declared_keeps_line(lines[i], current);
    }
    assert(document_after(lines, none, none, current) =~= lines);
    if forall|i: int| 0 <= i < lines.len() ==> !has_directive(#[trigger] lines[i]) {
        law_plain_document_is_fixed(lines, current);
    } else {
        let i = choose|i: int| 0 <= i < lines.len() && has_directive(#[trigger] lines[i]);
        law_undeclared_directive_is_reported(lines[i], i, current);
        lemma_line_problems_are_reported(lines, none, none, current, i);
    }
}


/// An include takes the whole line: a line that starts with `!include`
/// gets no image scan. It uses no image label, its problems are those of
/// the include alone, and unless the include resolves the line stays as it
/// is, whatever images stand on it and whatever is declared for them.
pub proof fn law_include_takes_the_whole_line(
    line: Seq<char>,
    row: int,
    deps: Map<Seq<char>, Seq<char>>,
    images: Map<Seq<char>, Seq<char>>,
    current: Seq<char>,
)
    requires
        is_include(line),
    ensures
        line_images(line, images, current) == Set::<Seq<char>>::empty(),
        line_problems(line, row, deps, images, current) == with_row(
            problems_of(include_outcome(line, deps, current).result),
            row,
        ),
        include_outcome(line, deps, current).result is Err ==> line_after(
            line,
            deps,
            images,
            current,
        ) == line,
        include_outcome(line, deps, current).result matches Ok(Some(new)) ==> line_after(
            line,
            deps,
            images,
            current,
        ) == new,
        !(include_outcome(line, deps, current).result matches Ok(None)),
{
}


/// The two lists of a mismatch report are sorted and complete: each holds
/// every label of its kind once, in dictionary order, and no other.
pub proof fn law_mismatch_lists_are_sorted(used: Set<Seq<char>>, declared: Set<Seq<char>>)
    requires
        used.finite(),
        declared.finite(),
    ensures
        is_listing(sorted_labels(used.difference(declared)), used.difference(declared)),
        is_listing(sorted_labels(declared.difference(used)), declared.difference(used)),
{
    lemma_finite_set_has_listing(used.difference(declared));
    lemma_finite_set_has_listing(declared.difference(used));
}

/// The image labels that references use are finitely many.
pub proof fn lemma_images_used_is_finite(s: Seq<char>, spans: Seq<(int, int)>, current: Seq<char>)
    ensures
        images_used(s, spans, current).finite(),
    decreases spans.len(),
{
    if spans.len() > 0 {
        lemma_images_used_is_finite(s, spans.drop_last(), current);
    }
}

/// The labels that a document uses are finitely many, so that the lists
/// of its mismatch reports are sorted and complete wherever finitely many
/// labels are declared.
pub proof fn law_used_labels_are_listed(
    lines: Seq<Seq<char>>,
    deps: Map<Seq<char>, Seq<char>>,
    images: Map<Seq<char>, Seq<char>>,
    current: Seq<char>,
)
    ensures
        used_includes(lines, deps, current).finite(),
        used_images(lines, images, current).finite(),
        deps.dom().finite() ==> is_listing(
            sorted_labels(used_includes(lines, deps, current).difference(deps.dom())),
            used_includes(lines, deps, current).difference(deps.dom()),
        ) && is_listing(
            sorted_labels(deps.dom().difference(used_includes(lines, deps, current))),
            deps.dom().difference(used_includes(lines, deps, current)),
        ),
        images.dom().finite() ==> is_listing(
            sorted_labels(used_images(lines, images, current).difference(images.dom())),
            used_images(lines, images, current).difference(images.dom()),
        ) && is_listing(
            sorted_labels(images.dom().difference(used_images(lines, images, current))),
            images.dom().difference(used_images(lines, images, current)),
        ),
    decreases lines.len(),
{
    if lines.len() > 0 {
        law_used_labels_are_listed(lines.drop_last(), deps, images, current);
        lemma_images_used_is_finite(lines.last(), images_from(lines.last(), 0), current);
    }
    if deps.dom().finite() {
        law_mismatch_lists_are_sorted(used_includes(lines, deps, current), deps.dom());
    }
    if images.dom().finite() {
        law_mismatch_lists_are_sorted(used_images(lines, images, current), images.dom());
    }
}

} // verus!
