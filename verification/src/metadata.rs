//! The records that describe a document: its version, the hash of its
//! sources, the dates found in it and its identifiers.

use crate::calendar::{is_calendar_date, Day};
use crate::field_validators::{
    each_non_empty, each_required, non_empty, non_empty_if_set, optional, required,
};
use crate::labels::{sorted_labels, strictly_sorted};
use crate::publications::{PublicationView, Publications};
use crate::targets::TargetMap;
use crate::text::{
    append_decimal, append_str, borrow_text, chars_less, chars_of, clone_strings, decimal,
    lemma_lex_transitive, lex_less, owned_text, str_view, string_of, text_view, views,
};
use crate::validation::{error_text, nested, ValidationError, ValidationErrors};
use vstd::prelude::*;
use vstd::string::StringExecFns;

verus! {

/// A version of a document and the repository that it comes from.
#[derive(Clone, PartialEq, Debug)]
pub struct Version {
    pub version: String,
    pub repo: String,
}

/// What is wrong with a version.
pub open spec fn version_errors(version: Seq<char>, repo: Seq<char>) -> Seq<
    (Seq<char>, Seq<char>),
> {
    required("version"@, version) + required("repo"@, repo)
}

impl Version {
    /// A version; neither part may be empty.
    pub fn build(version: &str, repo: &str) -> (r: Result<Version, ValidationErrors>)
        ensures
            r is Ok <==> version@.len() > 0 && repo@.len() > 0,
            r matches Ok(v) ==> v.version@ == version@ && v.repo@ == repo@,
            r matches Err(e) ==> e@ == version_errors(version@, repo@),
    {
        let mut errors = ValidationErrors::new();
        errors.check("version", non_empty(version));
        errors.check("repo", non_empty(repo));
        assert(errors@ =~= version_errors(version@, repo@));
        if !errors.is_empty() {
            return Err(errors);
        }
        Ok(Version { version: String::from_str(version), repo: String::from_str(repo) })
    }
}

/// The hash of the sources of a document.
#[derive(Clone, PartialEq, Debug)]
pub struct SourceHash {
    pub source_hash: String,
}

impl SourceHash {
    /// A source hash, which may not be empty.
    pub fn build(source_hash: &str) -> (r: Result<SourceHash, ValidationErrors>)
        ensures
            r is Ok <==> source_hash@.len() > 0,
            r matches Ok(h) ==> h.source_hash@ == source_hash@,
            r matches Err(e) ==> e@ == required("source_hash"@, source_hash@),
    {
        let mut errors = ValidationErrors::new();
        errors.check("source_hash", non_empty(source_hash));
        assert(errors@ =~= required("source_hash"@, source_hash@));
        if !errors.is_empty() {
            return Err(errors);
        }
        Ok(SourceHash { source_hash: String::from_str(source_hash) })
    }
}

/// An identifier of a document within a scheme.
#[derive(Clone, PartialEq, Debug)]
pub struct Identifier {
    pub scheme: String,
    pub text: String,
}

/// What is wrong with an identifier.
pub open spec fn identifier_errors(scheme: Seq<char>, text: Seq<char>) -> Seq<
    (Seq<char>, Seq<char>),
> {
    required("scheme"@, scheme) + required("text"@, text)
}

impl Identifier {
    /// An identifier; neither part may be empty.
    pub fn build(scheme: &str, text: &str) -> (r: Result<Identifier, ValidationErrors>)
        ensures
            r is Ok <==> scheme@.len() > 0 && text@.len() > 0,
            r matches Ok(i) ==> i.scheme@ == scheme@ && i.text@ == text@,
            r matches Err(e) ==> e@ == identifier_errors(scheme@, text@),
    {
        let mut errors = ValidationErrors::new();
        errors.check("scheme", non_empty(scheme));
        errors.check("text", non_empty(text));
        assert(errors@ =~= identifier_errors(scheme@, text@));
        if !errors.is_empty() {
            return Err(errors);
        }
        Ok(Identifier { scheme: String::from_str(scheme), text: String::from_str(text) })
    }

    /// What is wrong with this identifier, as `build` would find it.
    pub fn validate(&self) -> (errors: ValidationErrors)
        ensures
            errors@ == identifier_errors(self.scheme@, self.text@),
    {
        let mut errors = ValidationErrors::new();
        errors.check("scheme", non_empty(self.scheme.as_str()));
        errors.check("text", non_empty(self.text.as_str()));
        assert(errors@ =~= identifier_errors(self.scheme@, self.text@));
        errors
    }
}

pub open spec fn is_digit(c: char) -> bool {
    '0' <= c && c <= '9'
}

/// The number that a digit stands for.
pub open spec fn digit_value(c: char) -> int {
    c as int - '0' as int
}

/// The number that the `n` digits of `s` from `i` on write.
pub open spec fn number_at(s: Seq<char>, i: int, n: nat) -> int
    decreases n,
{
    if n == 0 {
        0
    } else {
        number_at(s, i, (n - 1) as nat) * 10 + digit_value(s[i + n - 1])
    }
}

/// `s` holds `n` digits from `i` on.
pub open spec fn digits_at(s: Seq<char>, i: int, n: int) -> bool {
    0 <= i && i + n <= s.len() && forall|k: int| i <= k < i + n ==> is_digit(#[trigger] s[k])
}

/// The text has the form `YYYY`, `YYYY/MM` or `YYYY/MM/DD`.
pub open spec fn date_shape(d: Seq<char>) -> bool {
    &&& d.len() == 4 || d.len() == 7 || d.len() == 10
    &&& digits_at(d, 0, 4)
    &&& d.len() >= 7 ==> d[4] == '/' && digits_at(d, 5, 2)
    &&& d.len() == 10 ==> d[7] == '/' && digits_at(d, 8, 2)
}

/// The text is a date: it has the form of one, and the day that it names
/// exists, where a missing month or day counts as the first.
pub open spec fn is_valid_date(d: Seq<char>) -> bool {
    date_shape(d) && is_calendar_date(
        number_at(d, 0, 4),
        if d.len() >= 7 {
            number_at(d, 5, 2)
        } else {
            1
        },
        if d.len() == 10 {
            number_at(d, 8, 2)
        } else {
            1
        },
    )
}

/// The code for a date set with an entry that is no date.
pub open spec fn date_format_code() -> Seq<char> {
    "all entries must be in YYYY, YYYY/MM or YYYY/MM/DD format"@
}

/// The code for a date set that is not in strictly increasing order.
pub open spec fn date_order_code() -> Seq<char> {
    "elements must be unique and sorted"@
}

/// Every text of `dates` is a date.
pub open spec fn all_valid_dates(dates: Seq<Seq<char>>) -> bool {
    forall|i: int| 0 <= i < dates.len() ==> is_valid_date(#[trigger] dates[i])
}

/// What is wrong with a set of dates, if anything: an entry that is no
/// date, or else entries that are not in strictly increasing dictionary
/// order.
pub open spec fn date_set_error(dates: Seq<Seq<char>>) -> Option<Seq<char>> {
    if !all_valid_dates(dates) {
        Some(date_format_code())
    } else if !strictly_sorted(dates) {
        Some(date_order_code())
    } else {
        None
    }
}

/// The errors of a set of dates, under the field that holds it.
pub open spec fn date_set_errors(dates: Seq<Seq<char>>) -> Seq<(Seq<char>, Seq<char>)> {
    match date_set_error(dates) {
        Some(code) => seq![("parsed_dates"@, code)],
        None => Seq::empty(),
    }
}

/// Reads `n` digits of `s` from `i` on, if they are digits.
fn read_number(s: &[char], i: usize, n: usize) -> (r: Option<u32>)
    requires
        i + n <= s.len(),
        n <= 4,
    ensures
        r is Some <==> digits_at(s@, i as int, n as int),
        r matches Some(v) ==> v == number_at(s@, i as int, n as nat),
{
    let mut v: u32 = 0;
    let mut k: usize = 0;
    while k < n
        invariant
            k <= n <= 4,
            i + n <= s.len(),
            digits_at(s@, i as int, k as int),
            v == number_at(s@, i as int, k as nat),
            v < pow10(k as nat),
        decreases n - k,
    {
        let c = s[i + k];
        if !('0' <= c && c <= '9') {
            assert(!is_digit(s@[i + k]));
            return None;
        }
        let d: u32 = c as u32 - '0' as u32;
        assert(pow10((k + 1) as nat) == pow10(k as nat) * 10);
        assert(pow10(k as nat) <= 1000) by {
            reveal_with_fuel(pow10, 5);
        }
        v = v * 10 + d;
        k += 1;
    }
    Some(v)
}

/// Ten to the power of `n`.
pub open spec fn pow10(n: nat) -> int
    decreases n,
{
    if n == 0 {
        1
    } else {
        pow10((n - 1) as nat) * 10
    }
}

/// The dates found in a document: in strictly increasing order, each of the
/// form `YYYY`, `YYYY/MM` or `YYYY/MM/DD`.
#[derive(Clone, PartialEq, Default, Debug)]
pub struct ParsedDateSet {
    parsed_dates: Vec<String>,
}

impl View for ParsedDateSet {
    type V = Seq<Seq<char>>;

    closed spec fn view(&self) -> Seq<Seq<char>> {
        views(self.parsed_dates@)
    }
}

impl ParsedDateSet {
    /// Whether `d` is a date.
    pub fn valid_date(d: &str) -> (b: bool)
        ensures
            b == is_valid_date(d@),
    {
        let text = chars_of(d);
        let n: usize = text.len();
        if !(n == 4 || n == 7 || n == 10) {
            return false;
        }
        let year = match read_number(text.as_slice(), 0, 4) {
            Some(v) => v,
            None => {
                return false;
            },
        };
        let mut month: u32 = 1;
        let mut day: u32 = 1;
        if n >= 7 {
            if text[4] != '/' {
                return false;
            }
            month =
            match read_number(text.as_slice(), 5, 2) {
                Some(v) => v,
                None => {
                    return false;
                },
            };
        }
        if n == 10 {
            if text[7] != '/' {
                return false;
            }
            day =
            match read_number(text.as_slice(), 8, 2) {
                Some(v) => v,
                None => {
                    return false;
                },
            };
        }
        assert(year < 10000) by {
            reveal_with_fuel(number_at, 5);
        }
        Day::from_ymd_opt(year as i32, month, day).is_some()
    }

    /// Checks a set of dates.
    pub fn validate_sorted_date_set(parsed_dates: &Vec<String>) -> (r: Result<
        (),
        ValidationError,
    >)
        ensures
            match date_set_error(views(parsed_dates@)) {
                Some(code) => r matches Err(e) && e@ == code,
                None => r is Ok,
            },
    {
        let ghost dates = views(parsed_dates@);
        let mut i: usize = 0;
        while i < parsed_dates.len()
            invariant
                i <= parsed_dates.len(),
                dates == views(parsed_dates@),
                forall|k: int| 0 <= k < i ==> is_valid_date(#[trigger] dates[k]),
            decreases parsed_dates.len() - i,
        {
            if !Self::valid_date(parsed_dates[i].as_str()) {
                assert(!is_valid_date(dates[i as int]));
                return Err(
                    ValidationError::new(
                        "all entries must be in YYYY, YYYY/MM or YYYY/MM/DD format",
                    ),
                );
            }
            i += 1;
        }
        assert(all_valid_dates(dates));
        let mut j: usize = 1;
        while j < parsed_dates.len()
            invariant
                1 <= j,
                j <= parsed_dates.len() || parsed_dates.len() == 0,
                dates == views(parsed_dates@),
                all_valid_dates(dates),
                parsed_dates.len() > 0 ==> strictly_sorted(dates.take(j as int)),
            decreases parsed_dates.len() - j,
        {
            let a = chars_of(parsed_dates[j - 1].as_str());
            let b = chars_of(parsed_dates[j].as_str());
            if !chars_less(a.as_slice(), b.as_slice()) {
                assert(!lex_less(dates[j - 1], dates[j as int]));
                return Err(ValidationError::new("elements must be unique and sorted"));
            }
            proof {
                let now = dates.take(j + 1);
                assert forall|x: int, y: int| 0 <= x < y < now.len() implies lex_less(
                    #[trigger] now[x],
                    #[trigger] now[y],
                ) by {
                    if y < j {
                        assert(lex_less(dates.take(j as int)[x], dates.take(j as int)[y]));
                    } else if x < j - 1 {
                        assert(lex_less(dates.take(j as int)[x], dates.take(j as int)[j - 1]));
                        lemma_lex_transitive(now[x], dates[j - 1], now[y], 0);
                    }
                }
            }
            j += 1;
        }
        proof {
            if parsed_dates@.len() >= 1 {
                assert(dates.take(dates.len() as int) =~= dates);
            }
        }
        Ok(())
    }

    /// A set of dates, if `parsed_dates` is one.
    pub fn build(parsed_dates: Vec<String>) -> (r: Result<ParsedDateSet, ValidationErrors>)
        ensures
            r is Ok <==> date_set_error(views(parsed_dates@)) is None,
            r matches Ok(set) ==> set@ == views(parsed_dates@),
            r matches Err(e) ==> e@ == date_set_errors(views(parsed_dates@)),
    {
        let mut errors = ValidationErrors::new();
        errors.check("parsed_dates", Self::validate_sorted_date_set(&parsed_dates));
        assert(errors@ =~= date_set_errors(views(parsed_dates@)));
        if !errors.is_empty() {
            return Err(errors);
        }
        Ok(ParsedDateSet { parsed_dates })
    }

    /// What is wrong with this set, as `build` would find it.
    pub fn validate(&self) -> (errors: ValidationErrors)
        ensures
            errors@ == date_set_errors(self@),
    {
        let mut errors = ValidationErrors::new();
        errors.check("parsed_dates", Self::validate_sorted_date_set(&self.parsed_dates));
        assert(errors@ =~= date_set_errors(self@));
        errors
    }

    /// The dates, in order.
    pub fn dates(&self) -> (dates: &Vec<String>)
        ensures
            views(dates@) == self@,
    {
        &self.parsed_dates
    }

    /// The set without a date.
    pub fn empty() -> (set: ParsedDateSet)
        ensures
            set@ == Seq::<Seq<char>>::empty(),
    {
        let set = ParsedDateSet { parsed_dates: Vec::new() };
        assert(set@ =~= Seq::<Seq<char>>::empty());
        set
    }

    /// A copy of this set.
    pub fn copy(&self) -> (set: ParsedDateSet)
        ensures
            set@ == self@,
    {
        ParsedDateSet { parsed_dates: clone_strings(&self.parsed_dates) }
    }
}

/// The dates found in a document, as a record of their own.
#[derive(Clone, PartialEq, Debug)]
pub struct ParsedDates {
    parsed_dates: ParsedDateSet,
}

impl View for ParsedDates {
    type V = Seq<Seq<char>>;

    closed spec fn view(&self) -> Seq<Seq<char>> {
        self.parsed_dates@
    }
}

impl ParsedDates {
    /// The record that holds `parsed_dates`, if that is a valid set.
    pub fn build(parsed_dates: ParsedDateSet) -> (r: Result<ParsedDates, ValidationErrors>)
        ensures
            r is Ok <==> date_set_error(parsed_dates@) is None,
            r matches Ok(record) ==> record@ == parsed_dates@,
            r matches Err(e) ==> e@ == nested("parsed_dates"@, date_set_errors(parsed_dates@)),
    {
        let inner = parsed_dates.validate();
        if !inner.is_empty() {
            let mut errors = ValidationErrors::new();
            errors.add_nested("parsed_dates", &inner);
            return Err(errors);
        }
        Ok(ParsedDates { parsed_dates })
    }

    /// The dates, in order.
    pub fn dates(&self) -> (dates: &Vec<String>)
        ensures
            views(dates@) == self@,
    {
        self.parsed_dates.dates()
    }
}

/// Whether `b` is false.
pub fn is_false(b: &bool) -> (r: bool)
    ensures
        r == !*b,
{
    !*b
}

/// The two parts of each identifier in `v`, in order.
pub open spec fn identifier_views(v: Seq<Identifier>) -> Seq<(Seq<char>, Seq<char>)> {
    v.map_values(|i: Identifier| (i.scheme@, i.text@))
}

/// The field of the identifier at `i`.
pub open spec fn identifier_path(i: int) -> Seq<char> {
    "identifiers["@ + decimal(i as nat) + "]"@
}

/// What is wrong with the identifiers of a record, one after the other.
pub open spec fn identifiers_errors(ids: Seq<(Seq<char>, Seq<char>)>) -> Seq<
    (Seq<char>, Seq<char>),
>
    decreases ids.len(),
{
    if ids.len() == 0 {
        Seq::empty()
    } else {
        identifiers_errors(ids.drop_last()) + nested(
            identifier_path(ids.len() - 1),
            identifier_errors(ids.last().0, ids.last().1),
        )
    }
}

/// A copy of the identifiers of `v`.
pub fn clone_identifiers(v: &Vec<Identifier>) -> (r: Vec<Identifier>)
    ensures
        identifier_views(r@) == identifier_views(v@),
{
    let mut r: Vec<Identifier> = Vec::new();
    let mut i: usize = 0;
    while i < v.len()
        invariant
            i <= v.len(),
            identifier_views(r@) == identifier_views(v@).take(i as int),
        decreases v.len() - i,
    {
        let ghost before = r@;
        let id = Identifier { scheme: v[i].scheme.clone(), text: v[i].text.clone() };
        r.push(id);
        assert(identifier_views(r@) =~= identifier_views(before).push((id.scheme@, id.text@)));
        assert(identifier_views(r@) =~= identifier_views(v@).take(i + 1));
        i += 1;
    }
    assert(identifier_views(v@).take(v@.len() as int) =~= identifier_views(v@));
    r
}

/// Adds to `errors` what is wrong with the identifiers of a record.
fn check_identifiers(errors: &mut ValidationErrors, identifiers: &Vec<Identifier>)
    ensures
        final(errors)@ == old(errors)@ + identifiers_errors(identifier_views(identifiers@)),
{
    let ghost all = identifier_views(identifiers@);
    let mut i: usize = 0;
    assert(errors@ + identifiers_errors(all.take(0)) =~= errors@);
    while i < identifiers.len()
        invariant
            i <= identifiers.len(),
            all == identifier_views(identifiers@),
            errors@ == old(errors)@ + identifiers_errors(all.take(i as int)),
        decreases identifiers.len() - i,
    {
        let inner = identifiers[i].validate();
        let mut path: Vec<char> = Vec::new();
        append_str(&mut path, "identifiers[");
        append_decimal(&mut path, i as u128);
        append_str(&mut path, "]");
        let path = string_of(path.as_slice());
        assert(path@ =~= identifier_path(i as int));
        errors.add_nested(path.as_str(), &inner);
        proof {
            assert(all.take(i + 1).drop_last() =~= all.take(i as int));
            assert(all.take(i + 1).last() == all[i as int]);
            assert(errors@ =~= old(errors)@ + identifiers_errors(all.take(i + 1)));
        }
        i += 1;
    }
    assert(all.take(all.len() as int) =~= all);
}

/// What is wrong with the fields that both kinds of metadata have, in the
/// order of the fields.
pub open spec fn common_errors(
    title: Option<Seq<char>>,
    authors: Seq<Seq<char>>,
    date: Option<Seq<char>>,
    notes: Option<Seq<char>>,
    identifiers: Seq<(Seq<char>, Seq<char>)>,
) -> Seq<(Seq<char>, Seq<char>)> {
    optional("title"@, title) + each_required("authors"@, authors) + optional("date"@, date)
        + optional("notes"@, notes) + identifiers_errors(identifiers)
}

/// Adds to `errors` what is wrong with the fields that both kinds of
/// metadata have.
fn check_common(
    errors: &mut ValidationErrors,
    title: &Option<String>,
    authors: &Vec<String>,
    date: &Option<String>,
    notes: &Option<String>,
    identifiers: &Vec<Identifier>,
)
    ensures
        final(errors)@ == old(errors)@ + common_errors(
            text_view(*title),
            views(authors@),
            text_view(*date),
            text_view(*notes),
            identifier_views(identifiers@),
        ),
{
    errors.check("title", non_empty_if_set(title));
    errors.check("authors", each_non_empty(authors));
    errors.check("date", non_empty_if_set(date));
    errors.check("notes", non_empty_if_set(notes));
    check_identifiers(errors, identifiers);
    assert(errors@ =~= old(errors)@ + common_errors(
        text_view(*title),
        views(authors@),
        text_view(*date),
        text_view(*notes),
        identifier_views(identifiers@),
    ));
}

/// What is wrong with the texts that the build adds, in the order of the
/// fields.
pub open spec fn build_errors(
    lang: Seq<char>,
    version: Seq<char>,
    repo: Seq<char>,
    source_hash: Seq<char>,
) -> Seq<(Seq<char>, Seq<char>)> {
    required("lang"@, lang) + required("version"@, version) + required("repo"@, repo)
        + required("source_hash"@, source_hash)
}

/// Adds to `errors` what is wrong with the texts that the build adds.
fn check_build(
    errors: &mut ValidationErrors,
    lang: &str,
    version: &str,
    repo: &str,
    source_hash: &str,
)
    ensures
        final(errors)@ == old(errors)@ + build_errors(lang@, version@, repo@, source_hash@),
{
    errors.check("lang", non_empty(lang));
    errors.check("version", non_empty(version));
    errors.check("repo", non_empty(repo));
    errors.check("source_hash", non_empty(source_hash));
    assert(errors@ =~= old(errors)@ + build_errors(lang@, version@, repo@, source_hash@));
}

/// What the metadata that an author gives for a document holds.
pub struct InputMetadataView {
    pub title: Option<Seq<char>>,
    pub authors: Seq<Seq<char>>,
    pub date: Option<Seq<char>>,
    pub notes: Option<Seq<char>>,
    pub finished: bool,
    pub publications: Seq<PublicationView>,
    pub identifiers: Seq<(Seq<char>, Seq<char>)>,
}

/// What is wrong with the metadata of an author: a title, a date or notes
/// that are given but empty, an empty author, an identifier with an empty
/// part. The submissions keep their own rules by construction.
pub open spec fn input_errors(v: InputMetadataView) -> Seq<(Seq<char>, Seq<char>)> {
    common_errors(v.title, v.authors, v.date, v.notes, v.identifiers)
}

/// Metadata with nothing set.
pub open spec fn blank_input() -> InputMetadataView {
    InputMetadataView {
        title: None,
        authors: Seq::empty(),
        date: None,
        notes: None,
        finished: false,
        publications: Seq::empty(),
        identifiers: Seq::empty(),
    }
}

/// The metadata that an author gives for a document.
#[derive(Clone, Debug)]
pub struct InputMetadata {
    title: Option<String>,
    authors: Vec<String>,
    date: Option<String>,
    notes: Option<String>,
    finished: bool,
    publications: Publications,
    identifiers: Vec<Identifier>,
}

impl View for InputMetadata {
    type V = InputMetadataView;

    closed spec fn view(&self) -> InputMetadataView {
        InputMetadataView {
            title: text_view(self.title),
            authors: views(self.authors@),
            date: text_view(self.date),
            notes: text_view(self.notes),
            finished: self.finished,
            publications: self.publications@,
            identifiers: identifier_views(self.identifiers@),
        }
    }
}

impl Default for InputMetadata {
    fn default() -> (m: InputMetadata)
        ensures
            m@ == blank_input(),
    {
        let m = InputMetadata {
            title: None,
            authors: Vec::new(),
            date: None,
            notes: None,
            finished: false,
            publications: Publications::default(),
            identifiers: Vec::new(),
        };
        assert(views(m.authors@) =~= Seq::<Seq<char>>::empty());
        assert(identifier_views(m.identifiers@) =~= Seq::<(Seq<char>, Seq<char>)>::empty());
        m
    }
}

impl InputMetadata {
    /// The metadata that holds what is given, if that keeps the rules.
    pub fn build(
        title: Option<&str>,
        authors: Vec<String>,
        date: Option<&str>,
        notes: Option<&str>,
        finished: bool,
        publications: Publications,
        identifiers: Vec<Identifier>,
    ) -> (r: Result<InputMetadata, ValidationErrors>)
        ensures
            match r {
                Ok(m) => m@ == (InputMetadataView {
                    title: str_view(title),
                    authors: views(authors@),
                    date: str_view(date),
                    notes: str_view(notes),
                    finished,
                    publications: publications@,
                    identifiers: identifier_views(identifiers@),
                }) && input_errors(m@).len() == 0,
                Err(e) => e@.len() > 0 && e@ == input_errors(
                    InputMetadataView {
                        title: str_view(title),
                        authors: views(authors@),
                        date: str_view(date),
                        notes: str_view(notes),
                        finished,
                        publications: publications@,
                        identifiers: identifier_views(identifiers@),
                    },
                ),
            },
    {
        let m = InputMetadata {
            title: owned_text(title),
            authors,
            date: owned_text(date),
            notes: owned_text(notes),
            finished,
            publications,
            identifiers,
        };
        assert(text_view(m.title) == str_view(title));
        assert(text_view(m.date) == str_view(date));
        assert(text_view(m.notes) == str_view(notes));
        let errors = m.validate();
        if !errors.is_empty() {
            return Err(errors);
        }
        Ok(m)
    }

    /// What is wrong with this metadata, as `build` would find it.
    pub fn validate(&self) -> (errors: ValidationErrors)
        ensures
            errors@ == input_errors(self@),
    {
        let mut errors = ValidationErrors::new();
        check_common(
            &mut errors,
            &self.title,
            &self.authors,
            &self.date,
            &self.notes,
            &self.identifiers,
        );
        assert(errors@ =~= input_errors(self@));
        errors
    }

    pub fn title(&self) -> (title: Option<&String>)
        ensures
            title is Some <==> self@.title is Some,
            title matches Some(s) ==> s@ == self@.title->0,
    {
        self.title.as_ref()
    }

    pub fn authors(&self) -> (authors: &Vec<String>)
        ensures
            views(authors@) == self@.authors,
    {
        &self.authors
    }

    pub fn date(&self) -> (date: Option<&String>)
        ensures
            date is Some <==> self@.date is Some,
            date matches Some(s) ==> s@ == self@.date->0,
    {
        self.date.as_ref()
    }

    pub fn notes(&self) -> (notes: Option<&String>)
        ensures
            notes is Some <==> self@.notes is Some,
            notes matches Some(s) ==> s@ == self@.notes->0,
    {
        self.notes.as_ref()
    }

    pub fn finished(&self) -> (finished: bool)
        ensures
            finished == self@.finished,
    {
        self.finished
    }

    pub fn publications(&self) -> (publications: &Publications)
        ensures
            publications@ == self@.publications,
    {
        &self.publications
    }

    pub fn identifiers(&self) -> (identifiers: &Vec<Identifier>)
        ensures
            identifier_views(identifiers@) == self@.identifiers,
    {
        &self.identifiers
    }
}

/// Collects the metadata of an author, field by field, and builds it. What
/// is not set is empty, missing or false.
#[derive(Debug)]
pub struct InputMetadataBuilder {
    title: Option<String>,
    authors: Vec<String>,
    date: Option<String>,
    notes: Option<String>,
    finished: bool,
    publications: Publications,
    identifiers: Vec<Identifier>,
}

impl View for InputMetadataBuilder {
    type V = InputMetadataView;

    closed spec fn view(&self) -> InputMetadataView {
        InputMetadataView {
            title: text_view(self.title),
            authors: views(self.authors@),
            date: text_view(self.date),
            notes: text_view(self.notes),
            finished: self.finished,
            publications: self.publications@,
            identifiers: identifier_views(self.identifiers@),
        }
    }
}

impl Default for InputMetadataBuilder {
    fn default() -> (b: InputMetadataBuilder)
        ensures
            b@ == blank_input(),
    {
        let b = InputMetadataBuilder {
            title: None,
            authors: Vec::new(),
            date: None,
            notes: None,
            finished: false,
            publications: Publications::default(),
            identifiers: Vec::new(),
        };
        assert(views(b.authors@) =~= Seq::<Seq<char>>::empty());
        assert(identifier_views(b.identifiers@) =~= Seq::<(Seq<char>, Seq<char>)>::empty());
        b
    }
}

impl InputMetadataBuilder {
    pub fn title(&mut self, value: &str) -> (r: &mut InputMetadataBuilder)
        ensures
            *final(self) == *final(r),
            r@ == (InputMetadataView { title: Some(value@), ..old(self)@ }),
    {
        self.title = Some(String::from_str(value));
        self
    }

    pub fn authors(&mut self, value: Vec<String>) -> (r: &mut InputMetadataBuilder)
        ensures
            *final(self) == *final(r),
            r@ == (InputMetadataView { authors: views(value@), ..old(self)@ }),
    {
        self.authors = value;
        self
    }

    pub fn date(&mut self, value: &str) -> (r: &mut InputMetadataBuilder)
        ensures
            *final(self) == *final(r),
            r@ == (InputMetadataView { date: Some(value@), ..old(self)@ }),
    {
        self.date = Some(String::from_str(value));
        self
    }

    pub fn notes(&mut self, value: &str) -> (r: &mut InputMetadataBuilder)
        ensures
            *final(self) == *final(r),
            r@ == (InputMetadataView { notes: Some(value@), ..old(self)@ }),
    {
        self.notes = Some(String::from_str(value));
        self
    }

    pub fn finished(&mut self, value: bool) -> (r: &mut InputMetadataBuilder)
        ensures
            *final(self) == *final(r),
            r@ == (InputMetadataView { finished: value, ..old(self)@ }),
    {
        self.finished = value;
        self
    }

    pub fn publications(&mut self, value: Publications) -> (r: &mut InputMetadataBuilder)
        ensures
            *final(self) == *final(r),
            r@ == (InputMetadataView { publications: value@, ..old(self)@ }),
    {
        self.publications = value;
        self
    }

    pub fn identifiers(&mut self, value: Vec<Identifier>) -> (r: &mut InputMetadataBuilder)
        ensures
            *final(self) == *final(r),
            r@ == (InputMetadataView { identifiers: identifier_views(value@), ..old(self)@ }),
    {
        self.identifiers = value;
        self
    }

    /// The metadata that holds what was set, if that keeps the rules; else
    /// the errors as text.
    pub fn build(&self) -> (r: Result<InputMetadata, String>)
        ensures
            r is Ok <==> input_errors(self@).len() == 0,
            r matches Ok(m) ==> m@ == self@,
            r matches Err(text) ==> text@ == error_text(input_errors(self@)),
    {
        match InputMetadata::build(
            borrow_text(&self.title),
            clone_strings(&self.authors),
            borrow_text(&self.date),
            borrow_text(&self.notes),
            self.finished,
            self.publications.clone(),
            clone_identifiers(&self.identifiers),
        ) {
            Ok(m) => Ok(m),
            Err(e) => Err(e.to_string()),
        }
    }

    /// Whether what was set keeps the rules; if not, the errors as text.
    pub fn validate(&self) -> (r: Result<(), String>)
        ensures
            r is Ok <==> input_errors(self@).len() == 0,
            r matches Err(text) ==> text@ == error_text(input_errors(self@)),
    {
        match self.build() {
            Ok(_) => Ok(()),
            Err(text) => Err(text),
        }
    }
}

/// What the metadata that the build gives out for a document holds.
pub struct OutputMetadataView {
    pub title: Option<Seq<char>>,
    pub authors: Seq<Seq<char>>,
    pub date: Option<Seq<char>>,
    pub notes: Option<Seq<char>>,
    pub finished: bool,
    pub publications: Seq<PublicationView>,
    pub identifiers: Seq<(Seq<char>, Seq<char>)>,
    pub wordcount: int,
    pub poetry_lines: int,
    pub lang: Seq<char>,
    pub version: Seq<char>,
    pub repo: Seq<char>,
    pub source_hash: Seq<char>,
    pub parsed_dates: Seq<Seq<char>>,
}

/// What is wrong with the metadata of the build: what would be wrong with
/// the metadata of an author; a language, version, repository or source
/// hash that is empty; and dates that are no set of dates.
pub open spec fn output_errors(v: OutputMetadataView) -> Seq<(Seq<char>, Seq<char>)> {
    common_errors(v.title, v.authors, v.date, v.notes, v.identifiers) + build_errors(
        v.lang,
        v.version,
        v.repo,
        v.source_hash,
    ) + nested("parsed_dates"@, date_set_errors(v.parsed_dates))
}

/// Metadata with nothing set.
pub open spec fn blank_output() -> OutputMetadataView {
    OutputMetadataView {
        title: None,
        authors: Seq::empty(),
        date: None,
        notes: None,
        finished: false,
        publications: Seq::empty(),
        identifiers: Seq::empty(),
        wordcount: 0,
        poetry_lines: 0,
        lang: Seq::empty(),
        version: Seq::empty(),
        repo: Seq::empty(),
        source_hash: Seq::empty(),
        parsed_dates: Seq::empty(),
    }
}

/// The metadata that the build gives out for a document.
#[derive(Clone, Debug)]
pub struct OutputMetadata {
    title: Option<String>,
    authors: Vec<String>,
    date: Option<String>,
    notes: Option<String>,
    finished: bool,
    publications: Publications,
    identifiers: Vec<Identifier>,
    wordcount: u32,
    poetry_lines: u32,
    lang: String,
    version: String,
    repo: String,
    source_hash: String,
    parsed_dates: ParsedDateSet,
}

impl View for OutputMetadata {
    type V = OutputMetadataView;

    closed spec fn view(&self) -> OutputMetadataView {
        OutputMetadataView {
            title: text_view(self.title),
            authors: views(self.authors@),
            date: text_view(self.date),
            notes: text_view(self.notes),
            finished: self.finished,
            publications: self.publications@,
            identifiers: identifier_views(self.identifiers@),
            wordcount: self.wordcount as int,
            poetry_lines: self.poetry_lines as int,
            lang: self.lang@,
            version: self.version@,
            repo: self.repo@,
            source_hash: self.source_hash@,
            parsed_dates: self.parsed_dates@,
        }
    }
}

impl OutputMetadata {
    /// The metadata that holds what is given, if that keeps the rules.
    pub fn build(
        title: Option<&str>,
        authors: Vec<String>,
        date: Option<&str>,
        notes: Option<&str>,
        finished: bool,
        publications: Publications,
        identifiers: Vec<Identifier>,
        wordcount: u32,
        poetry_lines: u32,
        lang: &str,
        version: &str,
        repo: &str,
        source_hash: &str,
        parsed_dates: ParsedDateSet,
    ) -> (r: Result<OutputMetadata, ValidationErrors>)
        ensures
            match r {
                Ok(m) => m@ == (OutputMetadataView {
                    title: str_view(title),
                    authors: views(authors@),
                    date: str_view(date),
                    notes: str_view(notes),
                    finished,
                    publications: publications@,
                    identifiers: identifier_views(identifiers@),
                    wordcount: wordcount as int,
                    poetry_lines: poetry_lines as int,
                    lang: lang@,
                    version: version@,
                    repo: repo@,
                    source_hash: source_hash@,
                    parsed_dates: parsed_dates@,
                }) && output_errors(m@).len() == 0,
                Err(e) => e@.len() > 0 && e@ == output_errors(
                    OutputMetadataView {
                    title: str_view(title),
                    authors: views(authors@),
                    date: str_view(date),
                    notes: str_view(notes),
                    finished,
                    publications: publications@,
                    identifiers: identifier_views(identifiers@),
                    wordcount: wordcount as int,
                    poetry_lines: poetry_lines as int,
                    lang: lang@,
                    version: version@,
                    repo: repo@,
                    source_hash: source_hash@,
                    parsed_dates: parsed_dates@,
                    },
                ),
            },
    {
        let m = OutputMetadata {
            title: owned_text(title),
            authors,
            date: owned_text(date),
            notes: owned_text(notes),
            finished,
            publications,
            identifiers,
            wordcount,
            poetry_lines,
            lang: String::from_str(lang),
            version: String::from_str(version),
            repo: String::from_str(repo),
            source_hash: String::from_str(source_hash),
            parsed_dates,
        };
        assert(text_view(m.title) == str_view(title));
        assert(text_view(m.date) == str_view(date));
        assert(text_view(m.notes) == str_view(notes));
        let errors = m.validate();
        if !errors.is_empty() {
            return Err(errors);
        }
        Ok(m)
    }

    /// What is wrong with this metadata, as `build` would find it.
    pub fn validate(&self) -> (errors: ValidationErrors)
        ensures
            errors@ == output_errors(self@),
    {
        let mut errors = ValidationErrors::new();
        check_common(
            &mut errors,
            &self.title,
            &self.authors,
            &self.date,
            &self.notes,
            &self.identifiers,
        );
        check_build(
            &mut errors,
            self.lang.as_str(),
            self.version.as_str(),
            self.repo.as_str(),
            self.source_hash.as_str(),
        );
        let dates = self.parsed_dates.validate();
        errors.add_nested("parsed_dates", &dates);
        assert(errors@ =~= output_errors(self@));
        errors
    }

    pub fn title(&self) -> (title: Option<&String>)
        ensures
            title is Some <==> self@.title is Some,
            title matches Some(s) ==> s@ == self@.title->0,
    {
        self.title.as_ref()
    }

    pub fn authors(&self) -> (authors: &Vec<String>)
        ensures
            views(authors@) == self@.authors,
    {
        &self.authors
    }

    pub fn date(&self) -> (date: Option<&String>)
        ensures
            date is Some <==> self@.date is Some,
            date matches Some(s) ==> s@ == self@.date->0,
    {
        self.date.as_ref()
    }

    pub fn notes(&self) -> (notes: Option<&String>)
        ensures
            notes is Some <==> self@.notes is Some,
            notes matches Some(s) ==> s@ == self@.notes->0,
    {
        self.notes.as_ref()
    }

    pub fn finished(&self) -> (finished: bool)
        ensures
            finished == self@.finished,
    {
        self.finished
    }

    pub fn publications(&self) -> (publications: &Publications)
        ensures
            publications@ == self@.publications,
    {
        &self.publications
    }

    pub fn identifiers(&self) -> (identifiers: &Vec<Identifier>)
        ensures
            identifier_views(identifiers@) == self@.identifiers,
    {
        &self.identifiers
    }

    pub fn wordcount(&self) -> (wordcount: u32)
        ensures
            wordcount == self@.wordcount,
    {
        self.wordcount
    }

    pub fn poetry_lines(&self) -> (poetry_lines: u32)
        ensures
            poetry_lines == self@.poetry_lines,
    {
        self.poetry_lines
    }

    pub fn lang(&self) -> (lang: &str)
        ensures
            lang@ == self@.lang,
    {
        self.lang.as_str()
    }

    pub fn version(&self) -> (version: &str)
        ensures
            version@ == self@.version,
    {
        self.version.as_str()
    }

    pub fn repo(&self) -> (repo: &str)
        ensures
            repo@ == self@.repo,
    {
        self.repo.as_str()
    }

    pub fn source_hash(&self) -> (source_hash: &str)
        ensures
            source_hash@ == self@.source_hash,
    {
        self.source_hash.as_str()
    }

    pub fn parsed_dates(&self) -> (parsed_dates: &ParsedDateSet)
        ensures
            parsed_dates@ == self@.parsed_dates,
    {
        &self.parsed_dates
    }
}

/// The message for a field that must be set before `build`.
pub open spec fn unset_message(field: Seq<char>) -> Seq<char> {
    "`"@ + field + "` must be initialized"@
}

/// Collects the metadata of the build, field by field, and builds it. What
/// is not set is empty, missing, false or 0; the two counts must be set.
#[derive(Debug)]
pub struct OutputMetadataBuilder {
    title: Option<String>,
    authors: Vec<String>,
    date: Option<String>,
    notes: Option<String>,
    finished: bool,
    publications: Publications,
    identifiers: Vec<Identifier>,
    wordcount: Option<u32>,
    poetry_lines: Option<u32>,
    lang: String,
    version: String,
    repo: String,
    source_hash: String,
    parsed_dates: ParsedDateSet,
}

/// The count that was set, or 0.
pub open spec fn count_view(v: Option<u32>) -> int {
    match v {
        Some(n) => n as int,
        None => 0,
    }
}

impl View for OutputMetadataBuilder {
    type V = OutputMetadataView;

    closed spec fn view(&self) -> OutputMetadataView {
        OutputMetadataView {
            title: text_view(self.title),
            authors: views(self.authors@),
            date: text_view(self.date),
            notes: text_view(self.notes),
            finished: self.finished,
            publications: self.publications@,
            identifiers: identifier_views(self.identifiers@),
            wordcount: count_view(self.wordcount),
            poetry_lines: count_view(self.poetry_lines),
            lang: self.lang@,
            version: self.version@,
            repo: self.repo@,
            source_hash: self.source_hash@,
            parsed_dates: self.parsed_dates@,
        }
    }
}

impl Default for OutputMetadataBuilder {
    fn default() -> (b: OutputMetadataBuilder)
        ensures
            b@ == blank_output(),
            !b.has_wordcount(),
            !b.has_poetry_lines(),
    {
        let b = OutputMetadataBuilder {
            title: None,
            authors: Vec::new(),
            date: None,
            notes: None,
            finished: false,
            publications: Publications::default(),
            identifiers: Vec::new(),
            wordcount: None,
            poetry_lines: None,
            lang: String::new(),
            version: String::new(),
            repo: String::new(),
            source_hash: String::new(),
            parsed_dates: ParsedDateSet::empty(),
        };
        assert(views(b.authors@) =~= Seq::<Seq<char>>::empty());
        assert(identifier_views(b.identifiers@) =~= Seq::<(Seq<char>, Seq<char>)>::empty());
        b
    }
}

impl OutputMetadataBuilder {
    /// Whether the word count was set.
    pub closed spec fn has_wordcount(&self) -> bool {
        self.wordcount is Some
    }

    /// Whether the count of the lines of poetry was set.
    pub closed spec fn has_poetry_lines(&self) -> bool {
        self.poetry_lines is Some
    }

    pub fn title(&mut self, value: &str) -> (r: &mut OutputMetadataBuilder)
        ensures
            *final(self) == *final(r),
            r@ == (OutputMetadataView { title: Some(value@), ..old(self)@ }),
            r.has_wordcount() == old(self).has_wordcount(),
            r.has_poetry_lines() == old(self).has_poetry_lines(),
    {
        self.title = Some(String::from_str(value));
        self
    }

    pub fn authors(&mut self, value: Vec<String>) -> (r: &mut OutputMetadataBuilder)
        ensures
            *final(self) == *final(r),
            r@ == (OutputMetadataView { authors: views(value@), ..old(self)@ }),
            r.has_wordcount() == old(self).has_wordcount(),
            r.has_poetry_lines() == old(self).has_poetry_lines(),
    {
        self.authors = value;
        self
    }

    pub fn date(&mut self, value: &str) -> (r: &mut OutputMetadataBuilder)
        ensures
            *final(self) == *final(r),
            r@ == (OutputMetadataView { date: Some(value@), ..old(self)@ }),
            r.has_wordcount() == old(self).has_wordcount(),
            r.has_poetry_lines() == old(self).has_poetry_lines(),
    {
        self.date = Some(String::from_str(value));
        self
    }

    pub fn notes(&mut self, value: &str) -> (r: &mut OutputMetadataBuilder)
        ensures
            *final(self) == *final(r),
            r@ == (OutputMetadataView { notes: Some(value@), ..old(self)@ }),
            r.has_wordcount() == old(self).has_wordcount(),
            r.has_poetry_lines() == old(self).has_poetry_lines(),
    {
        self.notes = Some(String::from_str(value));
        self
    }

    pub fn finished(&mut self, value: bool) -> (r: &mut OutputMetadataBuilder)
        ensures
            *final(self) == *final(r),
            r@ == (OutputMetadataView { finished: value, ..old(self)@ }),
            r.has_wordcount() == old(self).has_wordcount(),
            r.has_poetry_lines() == old(self).has_poetry_lines(),
    {
        self.finished = value;
        self
    }

    pub fn publications(&mut self, value: Publications) -> (r: &mut OutputMetadataBuilder)
        ensures
            *final(self) == *final(r),
            r@ == (OutputMetadataView { publications: value@, ..old(self)@ }),
            r.has_wordcount() == old(self).has_wordcount(),
            r.has_poetry_lines() == old(self).has_poetry_lines(),
    {
        self.publications = value;
        self
    }

    pub fn identifiers(&mut self, value: Vec<Identifier>) -> (r: &mut OutputMetadataBuilder)
        ensures
            *final(self) == *final(r),
            r@ == (OutputMetadataView { identifiers: identifier_views(value@), ..old(self)@ }),
            r.has_wordcount() == old(self).has_wordcount(),
            r.has_poetry_lines() == old(self).has_poetry_lines(),
    {
        self.identifiers = value;
        self
    }

    pub fn wordcount(&mut self, value: u32) -> (r: &mut OutputMetadataBuilder)
        ensures
            *final(self) == *final(r),
            r@ == (OutputMetadataView { wordcount: value as int, ..old(self)@ }),
            r.has_wordcount() == true,
            r.has_poetry_lines() == old(self).has_poetry_lines(),
    {
        self.wordcount = Some(value);
        self
    }

    pub fn poetry_lines(&mut self, value: u32) -> (r: &mut OutputMetadataBuilder)
        ensures
            *final(self) == *final(r),
            r@ == (OutputMetadataView { poetry_lines: value as int, ..old(self)@ }),
            r.has_wordcount() == old(self).has_wordcount(),
            r.has_poetry_lines() == true,
    {
        self.poetry_lines = Some(value);
        self
    }

    pub fn lang(&mut self, value: &str) -> (r: &mut OutputMetadataBuilder)
        ensures
            *final(self) == *final(r),
            r@ == (OutputMetadataView { lang: value@, ..old(self)@ }),
            r.has_wordcount() == old(self).has_wordcount(),
            r.has_poetry_lines() == old(self).has_poetry_lines(),
    {
        self.lang = String::from_str(value);
        self
    }

    pub fn version(&mut self, value: &str) -> (r: &mut OutputMetadataBuilder)
        ensures
            *final(self) == *final(r),
            r@ == (OutputMetadataView { version: value@, ..old(self)@ }),
            r.has_wordcount() == old(self).has_wordcount(),
            r.has_poetry_lines() == old(self).has_poetry_lines(),
    {
        self.version = String::from_str(value);
        self
    }

    pub fn repo(&mut self, value: &str) -> (r: &mut OutputMetadataBuilder)
        ensures
            *final(self) == *final(r),
            r@ == (OutputMetadataView { repo: value@, ..old(self)@ }),
            r.has_wordcount() == old(self).has_wordcount(),
            r.has_poetry_lines() == old(self).has_poetry_lines(),
    {
        self.repo = String::from_str(value);
        self
    }

    pub fn source_hash(&mut self, value: &str) -> (r: &mut OutputMetadataBuilder)
        ensures
            *final(self) == *final(r),
            r@ == (OutputMetadataView { source_hash: value@, ..old(self)@ }),
            r.has_wordcount() == old(self).has_wordcount(),
            r.has_poetry_lines() == old(self).has_poetry_lines(),
    {
        self.source_hash = String::from_str(value);
        self
    }

    pub fn parsed_dates(&mut self, value: ParsedDateSet) -> (r: &mut OutputMetadataBuilder)
        ensures
            *final(self) == *final(r),
            r@ == (OutputMetadataView { parsed_dates: value@, ..old(self)@ }),
            r.has_wordcount() == old(self).has_wordcount(),
            r.has_poetry_lines() == old(self).has_poetry_lines(),
    {
        self.parsed_dates = value;
        self
    }

    /// The metadata that holds what was set, if that keeps the rules and
    /// both counts were set; else the errors as text, or the message for
    /// the first count that is missing.
    pub fn build(&self) -> (r: Result<OutputMetadata, String>)
        ensures
            r is Ok <==> output_errors(self@).len() == 0 && self.has_wordcount()
                && self.has_poetry_lines(),
            r matches Ok(m) ==> m@ == self@,
            r matches Err(text) ==> text@ == (if output_errors(self@).len() > 0 {
                error_text(output_errors(self@))
            } else if !self.has_wordcount() {
                unset_message("wordcount"@)
            } else {
                unset_message("poetry_lines"@)
            }),
    {
        let wordcount: u32 = match self.wordcount {
            Some(n) => n,
            None => 0,
        };
        let poetry_lines: u32 = match self.poetry_lines {
            Some(n) => n,
            None => 0,
        };
        match OutputMetadata::build(
            borrow_text(&self.title),
            clone_strings(&self.authors),
            borrow_text(&self.date),
            borrow_text(&self.notes),
            self.finished,
            self.publications.clone(),
            clone_identifiers(&self.identifiers),
            wordcount,
            poetry_lines,
            self.lang.as_str(),
            self.version.as_str(),
            self.repo.as_str(),
            self.source_hash.as_str(),
            self.parsed_dates.copy(),
        ) {
            Ok(m) => {
                if self.wordcount.is_none() {
                    let mut text = String::from_str("`");
                    text.append("wordcount");
                    text.append("` must be initialized");
                    return Err(text);
                }
                if self.poetry_lines.is_none() {
                    let mut text = String::from_str("`");
                    text.append("poetry_lines");
                    text.append("` must be initialized");
                    return Err(text);
                }
                Ok(m)
            },
            Err(e) => Err(e.to_string()),
        }
    }

    /// Whether what was set keeps the rules; if not, the errors as text.
    pub fn validate(&self) -> (r: Result<(), String>)
        ensures
            r is Ok <==> output_errors(self@).len() == 0,
            r matches Err(text) ==> text@ == error_text(output_errors(self@)),
    {
        let wordcount: u32 = match self.wordcount {
            Some(n) => n,
            None => 0,
        };
        let poetry_lines: u32 = match self.poetry_lines {
            Some(n) => n,
            None => 0,
        };
        match OutputMetadata::build(
            borrow_text(&self.title),
            clone_strings(&self.authors),
            borrow_text(&self.date),
            borrow_text(&self.notes),
            self.finished,
            self.publications.clone(),
            clone_identifiers(&self.identifiers),
            wordcount,
            poetry_lines,
            self.lang.as_str(),
            self.version.as_str(),
            self.repo.as_str(),
            self.source_hash.as_str(),
            self.parsed_dates.copy(),
        ) {
            Ok(_) => Ok(()),
            Err(e) => Err(e.to_string()),
        }
    }
}

/// The map `m` with the pairs of `pairs` put in, one after the other; a
/// later pair replaces an earlier one of the same name.
pub open spec fn put_all(
    m: Map<Seq<char>, OutputMetadata>,
    pairs: Seq<(String, OutputMetadata)>,
) -> Map<Seq<char>, OutputMetadata>
    decreases pairs.len(),
{
    if pairs.len() == 0 {
        m
    } else {
        put_all(m.insert(pairs[0].0@, pairs[0].1), pairs.drop_first())
    }
}

/// The field of the entry under `name`.
pub open spec fn entry_path(name: Seq<char>) -> Seq<char> {
    "data["@ + name + "]"@
}

/// What is wrong with the entries under `names`, one after the other.
pub open spec fn entries_errors(
    names: Seq<Seq<char>>,
    data: Map<Seq<char>, OutputMetadata>,
) -> Seq<(Seq<char>, Seq<char>)>
    decreases names.len(),
{
    if names.len() == 0 {
        Seq::empty()
    } else {
        entries_errors(names.drop_last(), data) + nested(
            entry_path(names.last()),
            output_errors(data[names.last()]@),
        )
    }
}

/// What is wrong with the entries of a map, in the dictionary order of
/// their names.
pub open spec fn map_errors(data: Map<Seq<char>, OutputMetadata>) -> Seq<(Seq<char>, Seq<char>)> {
    entries_errors(sorted_labels(data.dom()), data)
}

/// The metadata of several documents, each under the name of its target.
#[derive(Debug)]
pub struct MetadataMap {
    data: TargetMap<OutputMetadata>,
}

impl View for MetadataMap {
    type V = Map<Seq<char>, OutputMetadata>;

    closed spec fn view(&self) -> Map<Seq<char>, OutputMetadata> {
        self.data@
    }
}

impl MetadataMap {
    /// The map that holds the pairs of `data`, if the metadata of each
    /// entry keeps its rules. Of two pairs with the same name the later
    /// one counts.
    pub fn build(data: Vec<(String, OutputMetadata)>) -> (r: Result<MetadataMap, ValidationErrors>)
        ensures
            r is Ok <==> map_errors(put_all(Map::empty(), data@)).len() == 0,
            r matches Ok(m) ==> m@ == put_all(Map::empty(), data@),
            r matches Err(e) ==> e@ == map_errors(put_all(Map::empty(), data@)),
    {
        let mut rest = data;
        let mut map: TargetMap<OutputMetadata> = TargetMap::new();
        while rest.len() > 0
            invariant
                put_all(map@, rest@) == put_all(Map::empty(), data@),
            decreases rest.len(),
        {
            let ghost before = rest@;
            let pair = rest.remove(0);
            assert(rest@ =~= before.drop_first());
            map.insert(pair.0.as_str(), pair.1);
        }
        let mut errors = ValidationErrors::new();
        let n = map.len();
        let ghost names = map.names();
        let mut i: usize = 0;
        assert(errors@ =~= entries_errors(names.take(0), map@));
        while i < n
            invariant
                i <= n,
                n == map.names().len(),
                names == map.names(),
                errors@ == entries_errors(names.take(i as int), map@),
            decreases n - i,
        {
            let inner = map.value_at(i).validate();
            let name = map.name_at(i);
            let mut path = String::from_str("data[");
            path.append(name.as_str());
            path.append("]");
            assert(path@ =~= entry_path(names[i as int]));
            errors.add_nested(path.as_str(), &inner);
            proof {
                assert(names.take(i + 1).drop_last() =~= names.take(i as int));
                assert(names.take(i + 1).last() == names[i as int]);
            }
            i += 1;
        }
        assert(names.take(names.len() as int) =~= names);
        if !errors.is_empty() {
            return Err(errors);
        }
        Ok(MetadataMap { data: map })
    }

    /// The entries, listed in the dictionary order of their names.
    pub fn data(&self) -> (data: &TargetMap<OutputMetadata>)
        ensures
            data@ == self@,
    {
        &self.data
    }
}

} // verus!
