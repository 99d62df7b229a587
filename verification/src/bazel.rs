//! Build labels: the grammar `[//package][:target]`, the two character
//! allow-lists, and the canonical `(package, target)` pair of a label.

use crate::text::{chars_of, find_from, lemma_position_from, position_from, slice_of, string_of};
use vstd::prelude::*;
use vstd::string::StringExecFns;

verus! {

/// What is wrong with a package or a target.
#[derive(Clone, Copy, Debug, PartialEq, Eq)]
pub enum Fault {
    /// A character outside the allow-list of the field.
    Character(char),
    /// The text starts with `/`.
    LeadingSlash,
    /// The text ends with `/`.
    TrailingSlash,
    /// The text contains `//`.
    DoubleSlash,
    /// A path segment equal to `..`.
    UpLevel,
    /// A path segment equal to `.`.
    CurrentDir,
}

/// Why a label has no canonical form. Each variant carries the text that
/// its message shows.
pub enum LabelError {
    /// Neither a label nor a current package was given.
    Unspecified,
    /// The label does not follow the grammar.
    InvalidLabel(Seq<char>),
    /// The package breaks a rule.
    InvalidPackage(Fault, Seq<char>),
    /// The target breaks a rule.
    InvalidTarget(Fault, Seq<char>),
    /// The label names neither a package nor a target.
    Empty,
}

/// A label as written: whether it starts with `//`, and its two parts,
/// either of which may be missing (empty).
pub struct RawLabel {
    pub absolute: bool,
    pub package: Seq<char>,
    pub target: Seq<char>,
}

pub open spec fn is_alphanumeric(c: char) -> bool {
    ('a' <= c && c <= 'z') || ('A' <= c && c <= 'Z') || ('0' <= c && c <= '9')
}

/// Characters that a package may hold.
pub open spec fn package_char(c: char) -> bool {
    is_alphanumeric(c) || c == '/' || c == '-' || c == '.' || c == '@' || c == '_'
}

/// Characters that a target may hold. `)` and `=` are left out on purpose:
/// the first closes an image reference, the second separates key and value
/// in command-line arguments.
pub open spec fn target_char(c: char) -> bool {
    is_alphanumeric(c) || c == '%' || c == '-' || c == '@' || c == '^' || c == '_' || c == '"'
        || c == '#' || c == '$' || c == '&' || c == '\'' || c == '(' || c == '*' || c == '+'
        || c == ',' || c == ';' || c == '<' || c == '>' || c == '?' || c == '[' || c == ']'
        || c == '{' || c == '|' || c == '}' || c == '~' || c == '/' || c == '.'
}

/// Index of the first character of `s`, at or after `from`, that is not a
/// package character; the length of `s` when there is none.
pub open spec fn first_non_package(s: Seq<char>, from: int) -> int
    decreases s.len() - from,
{
    if from < 0 || from >= s.len() {
        s.len() as int
    } else if !package_char(s[from]) {
        from
    } else {
        first_non_package(s, from + 1)
    }
}

/// Index of the first character of `s`, at or after `from`, that is not a
/// target character; the length of `s` when there is none.
pub open spec fn first_non_target(s: Seq<char>, from: int) -> int
    decreases s.len() - from,
{
    if from < 0 || from >= s.len() {
        s.len() as int
    } else if !target_char(s[from]) {
        from
    } else {
        first_non_target(s, from + 1)
    }
}

/// Two slashes in a row stand at `i` in `s`.
pub open spec fn double_slash_at(s: Seq<char>, i: int) -> bool {
    0 <= i && i + 1 < s.len() && s[i] == '/' && s[i + 1] == '/'
}

/// `s` contains two slashes in a row.
pub open spec fn has_double_slash(s: Seq<char>) -> bool {
    exists|i: int| #[trigger] double_slash_at(s, i)
}

/// A path segment of `s` (a maximal run without `/`) starts at `i` and
/// consists of exactly `n` dots.
pub open spec fn dots_segment_at(s: Seq<char>, i: int, n: int) -> bool {
    &&& 0 <= i
    &&& i + n <= s.len()
    &&& i == 0 || s[i - 1] == '/'
    &&& i + n == s.len() || s[i + n] == '/'
    &&& forall|k: int| i <= k < i + n ==> s[k] == '.'
}

/// Some path segment of `s` consists of exactly `n` dots.
pub open spec fn has_dots_segment(s: Seq<char>, n: int) -> bool {
    exists|i: int| #[trigger] dots_segment_at(s, i, n)
}

/// The first rule that a package breaks, if any. The rules are tried in
/// this order: characters, leading slash, trailing slash, double slash.
pub open spec fn package_fault(s: Seq<char>) -> Option<Fault> {
    if first_non_package(s, 0) < s.len() {
        Some(Fault::Character(s[first_non_package(s, 0)]))
    } else if s.len() > 0 && s[0] == '/' {
        Some(Fault::LeadingSlash)
    } else if s.len() > 0 && s[s.len() - 1] == '/' {
        Some(Fault::TrailingSlash)
    } else if has_double_slash(s) {
        Some(Fault::DoubleSlash)
    } else {
        None
    }
}

/// The first rule that a target breaks, if any. The rules are tried in
/// this order: characters, leading slash, trailing slash, double slash,
/// a `..` segment, a `.` segment.
pub open spec fn target_fault(s: Seq<char>) -> Option<Fault> {
    if first_non_target(s, 0) < s.len() {
        Some(Fault::Character(s[first_non_target(s, 0)]))
    } else if s.len() > 0 && s[0] == '/' {
        Some(Fault::LeadingSlash)
    } else if s.len() > 0 && s[s.len() - 1] == '/' {
        Some(Fault::TrailingSlash)
    } else if has_double_slash(s) {
        Some(Fault::DoubleSlash)
    } else if has_dots_segment(s, 2) {
        Some(Fault::UpLevel)
    } else if has_dots_segment(s, 1) {
        Some(Fault::CurrentDir)
    } else {
        None
    }
}

/// The message for a broken rule of a package.
pub open spec fn package_message(fault: Fault, package: Seq<char>) -> Seq<char> {
    match fault {
        Fault::Character(c) => "invalid character '"@ + seq![c] + "' in package: "@ + package,
        Fault::LeadingSlash => "packages must not start with a '/': "@ + package,
        Fault::TrailingSlash => "packages must not end with a '/': "@ + package,
        Fault::DoubleSlash => "packages must not contain '//': "@ + package,
        Fault::UpLevel => "packages must not contain up-level references '..': "@ + package,
        Fault::CurrentDir => "packages must not contain current-directory references '.': "@
            + package,
    }
}

/// The message for a broken rule of a target.
pub open spec fn target_message(fault: Fault, target: Seq<char>) -> Seq<char> {
    match fault {
        Fault::Character(c) => "invalid character '"@ + seq![c] + "' in target: "@ + target,
        Fault::LeadingSlash => "targets must not start with a '/': "@ + target,
        Fault::TrailingSlash => "targets must not end with a '/': "@ + target,
        Fault::DoubleSlash => "targets must not contain '//': "@ + target,
        Fault::UpLevel => "targets must not contain up-level references '..': "@ + target,
        Fault::CurrentDir => "targets must not contain current-directory references '.': "@
            + target,
    }
}

/// The message of an error.
pub open spec fn error_message(e: LabelError) -> Seq<char> {
    match e {
        LabelError::Unspecified => "label or current package must be specified"@,
        LabelError::InvalidLabel(label) => "invalid label '"@ + label + "'"@,
        LabelError::InvalidPackage(fault, package) => package_message(fault, package),
        LabelError::InvalidTarget(fault, target) => target_message(fault, target),
        LabelError::Empty => "either package or target must be specified"@,
    }
}

/// Reads a label against the grammar `[//package][:target]`.
///
/// After `//` the package runs to the first `:` or to the end; the target
/// is what follows that `:`. Without `//` there is no package, a `:` may
/// only stand in front, and the rest is the target. A `:` anywhere else
/// makes the label malformed.
pub open spec fn parse_label(label: Seq<char>) -> Option<RawLabel> {
    if label.len() >= 2 && label[0] == '/' && label[1] == '/' {
        let colon = position_from(label, ':', 2);
        if colon == label.len() {
            Some(
                RawLabel {
                    absolute: true,
                    package: label.subrange(2, colon),
                    target: Seq::empty(),
                },
            )
        } else if position_from(label, ':', colon + 1) < label.len() {
            None
        } else {
            Some(
                RawLabel {
                    absolute: true,
                    package: label.subrange(2, colon),
                    target: label.subrange(colon + 1, label.len() as int),
                },
            )
        }
    } else {
        let start: int = if label.len() > 0 && label[0] == ':' {
            1
        } else {
            0
        };
        if position_from(label, ':', start) < label.len() {
            None
        } else {
            Some(
                RawLabel {
                    absolute: false,
                    package: Seq::empty(),
                    target: label.subrange(start, label.len() as int),
                },
            )
        }
    }
}

/// Where the path segment that ends at `end` starts: just after the last
/// `/` before `end`, or at 0.
pub open spec fn segment_start(s: Seq<char>, end: int) -> int
    decreases end,
{
    if end <= 0 || end > s.len() {
        0
    } else if s[end - 1] == '/' {
        end
    } else {
        segment_start(s, end - 1)
    }
}

/// The last path segment of `s`.
pub open spec fn last_segment(s: Seq<char>) -> Seq<char> {
    s.skip(segment_start(s, s.len() as int))
}

/// The canonical `(package, target)` pair of `label`, read where the
/// current package is `current`.
///
/// A missing target is the last path segment of the package. A missing
/// package, in a label that is not absolute, is the current package. The
/// pair is then checked, the package first.
pub open spec fn canonical(label: Seq<char>, current: Seq<char>) -> Result<
    (Seq<char>, Seq<char>),
    LabelError,
> {
    if label.len() == 0 && current.len() == 0 {
        Err(LabelError::Unspecified)
    } else {
        match parse_label(label) {
            None => Err(LabelError::InvalidLabel(label)),
            Some(raw) => {
                if raw.package.len() == 0 && raw.target.len() == 0 {
                    Err(LabelError::Empty)
                } else {
                    let package = if raw.package.len() == 0 && !raw.absolute {
                        current
                    } else {
                        raw.package
                    };
                    let target = if raw.target.len() == 0 {
                        last_segment(raw.package)
                    } else {
                        raw.target
                    };
                    match package_fault(package) {
                        Some(fault) => Err(LabelError::InvalidPackage(fault, package)),
                        None => match target_fault(target) {
                            Some(fault) => Err(LabelError::InvalidTarget(fault, target)),
                            None => Ok((package, target)),
                        },
                    }
                }
            },
        }
    }
}

/// A canonical label: a package, which may be empty, and a target.
#[derive(Debug, PartialEq)]
pub struct Label {
    package: String,
    target: String,
}

impl View for Label {
    type V = (Seq<char>, Seq<char>);

    closed spec fn view(&self) -> (Seq<char>, Seq<char>) {
        (self.package@, self.target@)
    }
}

fn is_package_char(c: char) -> (r: bool)
    ensures
        r == package_char(c),
{
    ('a' <= c && c <= 'z') || ('A' <= c && c <= 'Z') || ('0' <= c && c <= '9') || c == '/' || c
        == '-' || c == '.' || c == '@' || c == '_'
}

fn is_target_char(c: char) -> (r: bool)
    ensures
        r == target_char(c),
{
    ('a' <= c && c <= 'z') || ('A' <= c && c <= 'Z') || ('0' <= c && c <= '9') || c == '%' || c
        == '-' || c == '@' || c == '^' || c == '_' || c == '"' || c == '#' || c == '$' || c == '&'
        || c == '\'' || c == '(' || c == '*' || c == '+' || c == ',' || c == ';' || c == '<' || c
        == '>' || c == '?' || c == '[' || c == ']' || c == '{' || c == '|' || c == '}' || c == '~'
        || c == '/' || c == '.'
}

/// Whether `s` contains `//`.
fn find_double_slash(s: &[char]) -> (r: bool)
    ensures
        r == has_double_slash(s@),
{
    if s.len() < 2 {
        assert forall|k: int| !#[trigger] double_slash_at(s@, k) by {}
        return false;
    }
    let mut i: usize = 0;
    while i < s.len() - 1
        invariant
            s.len() >= 2,
            i <= s.len() - 1,
            forall|k: int| 0 <= k < i ==> !#[trigger] double_slash_at(s@, k),
        decreases s.len() - i,
    {
        if s[i] == '/' && s[i + 1] == '/' {
            assert(double_slash_at(s@, i as int));
            return true;
        }
        i += 1;
    }
    assert forall|k: int| !#[trigger] double_slash_at(s@, k) by {
        if double_slash_at(s@, k) {
            assert(k < i);
        }
    }
    false
}

/// Whether some path segment of `s` consists of exactly `n` dots.
fn find_dots_segment(s: &[char], n: usize) -> (r: bool)
    requires
        1 <= n <= 2,
    ensures
        r == has_dots_segment(s@, n as int),
{
    let mut i: usize = 0;
    while i < s.len()
        invariant
            i <= s.len(),
            1 <= n <= 2,
            forall|k: int| 0 <= k < i ==> !dots_segment_at(s@, k, n as int),
        decreases s.len() - i,
    {
        if (i == 0 || s[i - 1] == '/') && s.len() - i >= n {
            let first = s[i] == '.';
            let second = n == 1 || s[i + 1] == '.';
            let closed = i + n == s.len() || s[i + n] == '/';
            if first && second && closed {
                assert(dots_segment_at(s@, i as int, n as int));
                return true;
            }
            assert(!dots_segment_at(s@, i as int, n as int)) by {
                if dots_segment_at(s@, i as int, n as int) {
                    assert(s@[i as int] == '.');
                    if n == 2 {
                        assert(s@[i as int + 1] == '.');
                    }
                }
            }
        }
        i += 1;
    }
    assert forall|k: int| !#[trigger] dots_segment_at(s@, k, n as int) by {
        if dots_segment_at(s@, k, n as int) {
            assert(k + n <= s.len());
            assert(0 <= k < s.len());
        }
    }
    false
}

/// The first rule that the package `s` breaks, if any.
fn check_package(s: &[char]) -> (r: Option<Fault>)
    ensures
        r == package_fault(s@),
{
    let mut i: usize = 0;
    while i < s.len()
        invariant
            i <= s.len(),
            first_non_package(s@, 0) == first_non_package(s@, i as int),
        decreases s.len() - i,
    {
        if !is_package_char(s[i]) {
            return Some(Fault::Character(s[i]));
        }
        i += 1;
    }
    if s.len() > 0 && s[0] == '/' {
        return Some(Fault::LeadingSlash);
    }
    if s.len() > 0 && s[s.len() - 1] == '/' {
        return Some(Fault::TrailingSlash);
    }
    if find_double_slash(s) {
        return Some(Fault::DoubleSlash);
    }
    None
}

/// The first rule that the target `s` breaks, if any.
fn check_target(s: &[char]) -> (r: Option<Fault>)
    ensures
        r == target_fault(s@),
{
    let mut i: usize = 0;
    while i < s.len()
        invariant
            i <= s.len(),
            first_non_target(s@, 0) == first_non_target(s@, i as int),
        decreases s.len() - i,
    {
        if !is_target_char(s[i]) {
            return Some(Fault::Character(s[i]));
        }
        i += 1;
    }
    if s.len() > 0 && s[0] == '/' {
        return Some(Fault::LeadingSlash);
    }
    if s.len() > 0 && s[s.len() - 1] == '/' {
        return Some(Fault::TrailingSlash);
    }
    if find_double_slash(s) {
        return Some(Fault::DoubleSlash);
    }
    if find_dots_segment(s, 2) {
        return Some(Fault::UpLevel);
    }
    if find_dots_segment(s, 1) {
        return Some(Fault::CurrentDir);
    }
    None
}

/// Writes the message for a broken rule of a package.
fn write_package_message(fault: Fault, package: &[char]) -> (m: String)
    ensures
        m@ == package_message(fault, package@),
{
    let text = string_of(package);
    let mut m = String::new();
    match fault {
        Fault::Character(c) => {
            m.append("invalid character '");
            m.push(c);
            m.append("' in package: ");
        },
        Fault::LeadingSlash => {
            m.append("packages must not start with a '/': ");
        },
        Fault::TrailingSlash => {
            m.append("packages must not end with a '/': ");
        },
        Fault::DoubleSlash => {
            m.append("packages must not contain '//': ");
        },
        Fault::UpLevel => {
            m.append("packages must not contain up-level references '..': ");
        },
        Fault::CurrentDir => {
            m.append("packages must not contain current-directory references '.': ");
        },
    }
    m.append(text.as_str());
    assert(m@ =~= package_message(fault, package@));
    m
}

/// Writes the message for a broken rule of a target.
fn write_target_message(fault: Fault, target: &[char]) -> (m: String)
    ensures
        m@ == target_message(fault, target@),
{
    let text = string_of(target);
    let mut m = String::new();
    match fault {
        Fault::Character(c) => {
            m.append("invalid character '");
            m.push(c);
            m.append("' in target: ");
        },
        Fault::LeadingSlash => {
            m.append("targets must not start with a '/': ");
        },
        Fault::TrailingSlash => {
            m.append("targets must not end with a '/': ");
        },
        Fault::DoubleSlash => {
            m.append("targets must not contain '//': ");
        },
        Fault::UpLevel => {
            m.append("targets must not contain up-level references '..': ");
        },
        Fault::CurrentDir => {
            m.append("targets must not contain current-directory references '.': ");
        },
    }
    m.append(text.as_str());
    assert(m@ =~= target_message(fault, target@));
    m
}

/// The last path segment of `s`.
fn last_segment_of(s: &[char]) -> (v: Vec<char>)
    ensures
        v@ == last_segment(s@),
{
    let mut end: usize = s.len();
    while end > 0 && s[end - 1] != '/'
        invariant
            end <= s.len(),
            segment_start(s@, s.len() as int) == segment_start(s@, end as int),
        decreases end,
    {
        end -= 1;
    }
    slice_of(s, end, s.len())
}

impl Label {
    /// A label made of the given parts, taken as they are.
    pub fn new(package: &str, target: &str) -> (l: Label)
        ensures
            l@ == (package@, target@),
    {
        Label { package: String::from_str(package), target: String::from_str(target) }
    }

    /// The package; empty for a target at the root.
    pub fn package(&self) -> (p: &str)
        ensures
            p@ == self@.0,
    {
        self.package.as_str()
    }

    /// The target.
    pub fn target(&self) -> (t: &str)
        ensures
            t@ == self@.1,
    {
        self.target.as_str()
    }

    /// Checks a package against its rules. The error is the message of the
    /// first rule broken.
    pub fn validate_package(package: &str) -> (r: Result<(), String>)
        ensures
            r is Ok <==> package_fault(package@) is None,
            r matches Err(m) ==> m@ == package_message(package_fault(package@)->0, package@),
    {
        let chars = chars_of(package);
        match check_package(chars.as_slice()) {
            None => Ok(()),
            Some(fault) => Err(write_package_message(fault, chars.as_slice())),
        }
    }

    /// Checks a target against its rules. The error is the message of the
    /// first rule broken.
    pub fn validate_target(target: &str) -> (r: Result<(), String>)
        ensures
            r is Ok <==> target_fault(target@) is None,
            r matches Err(m) ==> m@ == target_message(target_fault(target@)->0, target@),
    {
        let chars = chars_of(target);
        match check_target(chars.as_slice()) {
            None => Ok(()),
            Some(fault) => Err(write_target_message(fault, chars.as_slice())),
        }
    }

    /// The canonical form of `label`, read where the current package is
    /// `current_package`; or the message of what is wrong with it.
    pub fn canonicalise(label: &str, current_package: &str) -> (r: Result<Label, String>)
        ensures
            match canonical(label@, current_package@) {
                Ok(pair) => r matches Ok(l) && l@ == pair,
                Err(e) => r matches Err(m) && m@ == error_message(e),
            },
    {
        let text = chars_of(label);
        let current = chars_of(current_package);
        match resolve(text.as_slice(), current.as_slice()) {
            Ok(pair) => Ok(
                Label { package: string_of(pair.0.as_slice()), target: string_of(pair.1.as_slice()) },
            ),
            Err(m) => Err(m),
        }
    }
}

/// The canonical pair of the label `text`, read where the current package
/// is `current`; or the message of what is wrong with it.
pub fn resolve(text: &[char], current: &[char]) -> (r: Result<(Vec<char>, Vec<char>), String>)
    ensures
        match canonical(text@, current@) {
            Ok(pair) => r matches Ok(l) && l.0@ == pair.0 && l.1@ == pair.1,
            Err(e) => r matches Err(m) && m@ == error_message(e),
        },
{
    let n: usize = text.len();
    if n == 0 && current.len() == 0 {
        return Err(String::from_str("label or current package must be specified"));
    }
    let absolute = n >= 2 && text[0] == '/' && text[1] == '/';
    let malformed: bool;
    let raw_package: Vec<char>;
    let raw_target: Vec<char>;
    if absolute {
        let colon: usize = find_from(text, ':', 2);
        raw_package = slice_of(text, 2, colon);
        if colon == n {
            malformed = false;
            raw_target = Vec::new();
        } else if find_from(text, ':', colon + 1) < n {
            malformed = true;
            raw_target = Vec::new();
        } else {
            malformed = false;
            raw_target = slice_of(text, colon + 1, n);
        }
    } else {
        let start: usize = if n > 0 && text[0] == ':' {
            1
        } else {
            0
        };
        raw_package = Vec::new();
        if find_from(text, ':', start) < n {
            malformed = true;
            raw_target = Vec::new();
        } else {
            malformed = false;
            raw_target = slice_of(text, start, n);
        }
    }
    if malformed {
        let shown = string_of(text);
        let mut m = String::from_str("invalid label '");
        m.append(shown.as_str());
        m.append("'");
        return Err(m);
    }
    assert(parse_label(text@) == Some(
        RawLabel { absolute, package: raw_package@, target: raw_target@ },
    ));
    if raw_package.len() == 0 && raw_target.len() == 0 {
        return Err(String::from_str("either package or target must be specified"));
    }
    let package = if raw_package.len() == 0 && !absolute {
        slice_of(current, 0, current.len())
    } else {
        slice_of(raw_package.as_slice(), 0, raw_package.len())
    };
    assert(raw_package@.subrange(0, raw_package@.len() as int) == raw_package@);
    assert(current@.subrange(0, current@.len() as int) == current@);
    let target = if raw_target.len() == 0 {
        last_segment_of(raw_package.as_slice())
    } else {
        raw_target
    };
    match check_package(package.as_slice()) {
        Some(fault) => Err(write_package_message(fault, package.as_slice())),
        None => match check_target(target.as_slice()) {
            Some(fault) => Err(write_target_message(fault, target.as_slice())),
            None => Ok((package, target)),
        },
    }
}

/// `first_non_package` finds the first character outside the allow-list.
pub proof fn lemma_first_non_package(s: Seq<char>, from: int)
    requires
        0 <= from <= s.len(),
    ensures
        from <= first_non_package(s, from) <= s.len(),
        forall|k: int| from <= k < first_non_package(s, from) ==> package_char(s[k]),
        first_non_package(s, from) < s.len() ==> !package_char(s[first_non_package(s, from)]),
    decreases s.len() - from,
{
    if from < s.len() && package_char(s[from]) {
        lemma_first_non_package(s, from + 1);
    }
}

/// `first_non_target` finds the first character outside the allow-list.
pub proof fn lemma_first_non_target(s: Seq<char>, from: int)
    requires
        0 <= from <= s.len(),
    ensures
        from <= first_non_target(s, from) <= s.len(),
        forall|k: int| from <= k < first_non_target(s, from) ==> target_char(s[k]),
        first_non_target(s, from) < s.len() ==> !target_char(s[first_non_target(s, from)]),
    decreases s.len() - from,
{
    if from < s.len() && target_char(s[from]) {
        lemma_first_non_target(s, from + 1);
    }
}

/// The first `c` at or after `from` is at `p` when no `c` stands between
/// `from` and `p` and one stands at `p`, or `p` is the end.
pub proof fn lemma_position_is(s: Seq<char>, c: char, from: int, p: int)
    requires
        0 <= from <= p <= s.len(),
        forall|k: int| from <= k < p ==> s[k] != c,
        p == s.len() || s[p] == c,
    ensures
        position_from(s, c, from) == p,
{
    lemma_position_from(s, c, from);
}

/// `segment_start` lies within the text, with no slash after it.
pub proof fn lemma_segment_start(s: Seq<char>, end: int)
    requires
        0 <= end <= s.len(),
    ensures
        0 <= segment_start(s, end) <= end,
        forall|k: int| segment_start(s, end) <= k < end ==> s[k] != '/',
        segment_start(s, end) > 0 ==> s[segment_start(s, end) - 1] == '/',
    decreases end,
{
    if end > 0 && s[end - 1] != '/' {
        lemma_segment_start(s, end - 1);
    }
}

/// A label that spells out both parts, `//package:target`, with a valid
/// package and a valid, non-empty target, is canonical as written,
/// whatever the current package is.
pub proof fn law_full_label_is_canonical(
    package: Seq<char>,
    target: Seq<char>,
    current: Seq<char>,
)
    requires
        target.len() > 0,
        package_fault(package) is None,
        target_fault(target) is None,
    ensures
        canonical("//"@ + package + ":"@ + target, current) == Ok::<
            (Seq<char>, Seq<char>),
            LabelError,
        >((package, target)),
{
    reveal_strlit("//");
    reveal_strlit(":");
    let label = "//"@ + package + ":"@ + target;
    let colon = 2 + package.len() as int;
    lemma_first_non_package(package, 0);
    lemma_first_non_target(target, 0);
    assert(label.len() == colon + 1 + target.len());
    assert(label[0] == '/' && label[1] == '/');
    assert(label[colon] == ':');
    assert forall|k: int| 2 <= k < colon implies label[k] != ':' by {
        assert(label[k] == package[k - 2]);
        assert(package_char(package[k - 2]));
    }
    lemma_position_is(label, ':', 2, colon);
    assert forall|k: int| colon + 1 <= k < label.len() implies label[k] != ':' by {
        assert(label[k] == target[k - colon - 1]);
        assert(target_char(target[k - colon - 1]));
    }
    lemma_position_is(label, ':', colon + 1, label.len() as int);
    assert(label.subrange(2, colon) =~= package);
    assert(label.subrange(colon + 1, label.len() as int) =~= target);
}

/// A bare target, valid and not empty, belongs to the current package.
pub proof fn law_bare_target_is_relative(target: Seq<char>, current: Seq<char>)
    requires
        target.len() > 0,
        target_fault(target) is None,
        package_fault(current) is None,
    ensures
        canonical(target, current) == Ok::<(Seq<char>, Seq<char>), LabelError>((current, target)),
{
    lemma_first_non_target(target, 0);
    assert(target_char(target[0]));
    assert forall|k: int| 0 <= k < target.len() implies target[k] != ':' by {
        assert(target_char(target[k]));
    }
    lemma_position_is(target, ':', 0, target.len() as int);
    assert(target.subrange(0, target.len() as int) =~= target);
}

/// An absolute label without a package, `//:target`, names a target at the
/// root: its package is empty, whatever the current package is.
pub proof fn law_root_target_has_empty_package(target: Seq<char>, current: Seq<char>)
    requires
        target.len() > 0,
        target_fault(target) is None,
    ensures
        canonical("//:"@ + target, current) == Ok::<(Seq<char>, Seq<char>), LabelError>(
            (Seq::<char>::empty(), target),
        ),
{
    reveal_strlit("//:");
    let label = "//:"@ + target;
    lemma_first_non_target(target, 0);
    assert(label[0] == '/' && label[1] == '/' && label[2] == ':');
    lemma_position_is(label, ':', 2, 2);
    assert forall|k: int| 3 <= k < label.len() implies label[k] != ':' by {
        assert(label[k] == target[k - 3]);
        assert(target_char(target[k - 3]));
    }
    lemma_position_is(label, ':', 3, label.len() as int);
    assert(label.subrange(2, 2) =~= Seq::<char>::empty());
    assert(label.subrange(3, label.len() as int) =~= target);
    lemma_first_non_package(Seq::<char>::empty(), 0);
    assert(!has_double_slash(Seq::<char>::empty())) by {
        assert forall|i: int| !#[trigger] double_slash_at(Seq::<char>::empty(), i) by {}
    }
}

/// An absolute label that gives only a package, `//package`, names the
/// target called after the last path segment of the package.
pub proof fn law_package_only_shorthand(package: Seq<char>, current: Seq<char>)
    requires
        package.len() > 0,
        package_fault(package) is None,
        target_fault(last_segment(package)) is None,
    ensures
        canonical("//"@ + package, current) == Ok::<(Seq<char>, Seq<char>), LabelError>(
            (package, last_segment(package)),
        ),
{
    reveal_strlit("//");
    let label = "//"@ + package;
    lemma_first_non_package(package, 0);
    assert(label[0] == '/' && label[1] == '/');
    assert forall|k: int| 2 <= k < label.len() implies label[k] != ':' by {
        assert(label[k] == package[k - 2]);
        assert(package_char(package[k - 2]));
    }
    lemma_position_is(label, ':', 2, label.len() as int);
    assert(label.subrange(2, label.len() as int) =~= package);
}

/// What comes out of canonicalisation is valid: the package and the target
/// keep their rules, and the target is not empty.
pub proof fn law_canonical_is_valid(label: Seq<char>, current: Seq<char>)
    requires
        canonical(label, current) is Ok,
    ensures
        package_fault(canonical(label, current)->Ok_0.0) is None,
        target_fault(canonical(label, current)->Ok_0.1) is None,
        canonical(label, current)->Ok_0.1.len() > 0,
{
    let raw = parse_label(label)->0;
    if raw.target.len() == 0 {
        let package = raw.package;
        assert(package.len() > 0);
        lemma_segment_start(package, package.len() as int);
        assert(package[package.len() - 1] != '/');
        assert(segment_start(package, package.len() as int) < package.len());
    }
}

} // verus!
