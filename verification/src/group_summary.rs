//! The summary of a group of documents: one row for each document, the
//! filters that choose rows by regular expressions, and the order in which
//! the rows are shown.

use crate::metadata::{OutputMetadata, OutputMetadataView};
use crate::publications::{highest_state, PublicationView, State};
use crate::text::{
    append_decimal, chars_less, chars_of, contains_text, decimal, has_infix, join, join_chars,
    lex_less, lowered, lower_chars, pieces_from, replace_char, replace_in, reverse_chars,
    same_text, sort_chars, sort_texts, split_chars, string_of, texts, trim_chars, trimmed, views,
};
use crate::labels::lemma_lex_asymmetric;
use crate::text::lemma_lex_transitive;
use vstd::prelude::*;
use vstd::seq_lib::to_multiset_build;
use vstd::string::StringExecFns;

verus! {

/// `regex::Regex`, a compiled regular expression; nothing is known of
/// what is inside.
#[verifier::external_type_specification]
#[verifier::external_body]
pub struct ExRegex(regex::Regex);

/// `regex::Error`, the error of a pattern that does not compile; nothing
/// is known of what is inside.
#[verifier::external_type_specification]
#[verifier::external_body]
pub struct ExRegexError(regex::Error);

/// Whether `pattern` is a regular expression that the regex crate
/// compiles.
pub uninterp spec fn regex_valid(pattern: Seq<char>) -> bool;

/// Whether the regular expression `pattern` matches somewhere in `text`.
pub uninterp spec fn regex_matches(pattern: Seq<char>, text: Seq<char>) -> bool;

/// The pattern that a regular expression was compiled from.
pub uninterp spec fn regex_source(re: regex::Regex) -> Seq<char>;

/// `regex::Regex::new` compiles a pattern, or fails. Whether it fails
/// depends on the pattern alone, which is given the name `regex_valid`;
/// the regular expression keeps the pattern that it was made from.
#[verifier::external_body]
fn compile(pattern: &str) -> (r: Result<regex::Regex, regex::Error>)
    ensures
        r is Ok <==> regex_valid(pattern@),
        r matches Ok(re) ==> regex_source(re) == pattern@,
{
    regex::Regex::new(pattern)
}

/// `regex::Regex::is_match` tells whether the regular expression matches
/// anywhere in the text. The answer depends on the pattern and the text
/// alone; it is given the name `regex_matches`.
#[verifier::external_body]
fn is_match(re: &regex::Regex, text: &str) -> (b: bool)
    ensures
        b == regex_matches(regex_source(*re), text@),
{
    re.is_match(text)
}

/// The copy of a regular expression that `Clone` makes is one of the same
/// pattern.
pub assume_specification[ <regex::Regex as Clone>::clone ](re: &regex::Regex) -> (copy:
    regex::Regex)
    ensures
        regex_source(copy) == regex_source(*re),
;

/// The message of `regex::Error`, as its `Display` writes it. Nothing is
/// claimed of the text.
#[verifier::external_body]
fn describe(e: &regex::Error) -> (text: String) {
    e.to_string()
}

/// What a row of the summary holds.
pub struct RowView {
    pub target: Seq<char>,
    pub title: Seq<char>,
    pub author: Seq<char>,
    pub raw_date: Seq<char>,
    pub date: Seq<char>,
    pub wordcount: int,
    pub poetry_lines: int,
    pub finished: Seq<char>,
    pub publication: Seq<char>,
    pub version: Seq<char>,
    pub status: Seq<char>,
}

/// A row of the summary: what is shown of one document.
#[derive(Debug)]
pub struct Row {
    target: String,
    title: String,
    author: String,
    raw_date: String,
    date: String,
    wordcount: u32,
    poetry_lines: u32,
    finished: String,
    publication: String,
    version: String,
    status: String,
}

impl View for Row {
    type V = RowView;

    closed spec fn view(&self) -> RowView {
        RowView {
            target: self.target@,
            title: self.title@,
            author: self.author@,
            raw_date: self.raw_date@,
            date: self.date@,
            wordcount: self.wordcount as int,
            poetry_lines: self.poetry_lines as int,
            finished: self.finished@,
            publication: self.publication@,
            version: self.version@,
            status: self.status@,
        }
    }
}

/// `s` with every line feed written as a backslash and an `n`.
pub open spec fn sanitized(s: Seq<char>) -> Seq<char> {
    replace_char(s, '\n', "\\n"@)
}

/// Writes every line feed of `s` as a backslash and an `n`, so that the
/// text stays on one line.
pub fn sanitize(s: &str) -> (r: String)
    ensures
        r@ == sanitized(s@),
{
    replace_in(s, '\n', "\\n")
}

/// A text that may be missing, or the empty text.
pub open spec fn or_empty(value: Option<Seq<char>>) -> Seq<char> {
    match value {
        Some(v) => v,
        None => Seq::empty(),
    }
}

/// How the submissions of a document are summed up: nothing where there
/// is none, `attempted` where none is active, else the name of the most
/// advanced state of an active one, with hyphens for underscores.
pub open spec fn publication_summary(
    submissions: Seq<PublicationView>,
    highest: Option<State>,
) -> Seq<char> {
    if submissions.len() == 0 {
        Seq::empty()
    } else {
        match highest {
            Some(state) => replace_char(state.name(), '_', "-"@),
            None => "attempted"@,
        }
    }
}

/// The row of the document `target` with the metadata `m`, where `highest`
/// is the most advanced state of its active submissions.
pub open spec fn summary_row(
    target: Seq<char>,
    m: OutputMetadataView,
    highest: Option<State>,
) -> RowView {
    RowView {
        target,
        title: sanitized(or_empty(m.title)),
        author: sanitized(join(m.authors, ", "@)),
        raw_date: sanitized(or_empty(m.date)),
        date: sanitized(join(m.parsed_dates, ", "@)),
        wordcount: m.wordcount,
        poetry_lines: m.poetry_lines,
        finished: if m.finished {
            "yes"@
        } else {
            "no"@
        },
        publication: publication_summary(m.publications, highest),
        version: m.version,
        status: if has_infix(m.version, "dirty"@) {
            "DIRTY"@
        } else {
            "ok"@
        },
    }
}

/// The texts of `v` written one after the other, with `sep` between.
fn join_strings(v: &Vec<String>, sep: &str) -> (r: String)
    ensures
        r@ == join(views(v@), sep@),
{
    let mut parts: Vec<Vec<char>> = Vec::new();
    let mut i: usize = 0;
    while i < v.len()
        invariant
            i <= v.len(),
            texts(parts@) == views(v@).take(i as int),
        decreases v.len() - i,
    {
        let ghost before = parts@;
        let part = chars_of(v[i].as_str());
        parts.push(part);
        assert(texts(parts@) =~= texts(before).push(part@));
        assert(texts(parts@) =~= views(v@).take(i + 1));
        i += 1;
    }
    assert(views(v@).take(v@.len() as int) =~= views(v@));
    let out = join_chars(&parts, sep);
    string_of(out.as_slice())
}

impl Row {
    /// A row that holds what is given.
    pub fn new(
        target: &str,
        title: &str,
        author: &str,
        raw_date: &str,
        date: &str,
        wordcount: u32,
        poetry_lines: u32,
        finished: &str,
        publication: &str,
        version: &str,
        status: &str,
    ) -> (row: Row)
        ensures
            row@ == (RowView {
                target: target@,
                title: title@,
                author: author@,
                raw_date: raw_date@,
                date: date@,
                wordcount: wordcount as int,
                poetry_lines: poetry_lines as int,
                finished: finished@,
                publication: publication@,
                version: version@,
                status: status@,
            }),
    {
        Row {
            target: String::from_str(target),
            title: String::from_str(title),
            author: String::from_str(author),
            raw_date: String::from_str(raw_date),
            date: String::from_str(date),
            wordcount,
            poetry_lines,
            finished: String::from_str(finished),
            publication: String::from_str(publication),
            version: String::from_str(version),
            status: String::from_str(status),
        }
    }

    /// The row of the document `target` with the metadata `m`.
    pub fn from_metadata(target: &str, m: &OutputMetadata) -> (row: Row)
        ensures
            row@ == summary_row(target@, m@, highest_state(m@.publications)),
    {
        let highest = m.publications().highest_active_state();
        let publication = if !m.publications().is_empty() {
            match highest {
                Some(state) => replace_in(state.to_string().as_str(), '_', "-"),
                None => String::from_str("attempted"),
            }
        } else {
            String::new()
        };
        let title = match m.title() {
            Some(t) => sanitize(t.as_str()),
            None => sanitize(""),
        };
        let raw_date = match m.date() {
            Some(d) => sanitize(d.as_str()),
            None => sanitize(""),
        };
        let row = Row {
            target: String::from_str(target),
            title,
            author: sanitize(join_strings(m.authors(), ", ").as_str()),
            raw_date,
            date: sanitize(join_strings(m.parsed_dates().dates(), ", ").as_str()),
            wordcount: m.wordcount(),
            poetry_lines: m.poetry_lines(),
            finished: if m.finished() {
                String::from_str("yes")
            } else {
                String::from_str("no")
            },
            publication,
            version: String::from_str(m.version()),
            status: if contains_text(m.version(), "dirty") {
                String::from_str("DIRTY")
            } else {
                String::from_str("ok")
            },
        };
        proof {
            assert(""@ =~= Seq::<char>::empty()) by {
                reveal_strlit("");
            }
            assert(row@ == summary_row(target@, m@, highest));
        }
        row
    }

    pub fn target(&self) -> (r: &str)
        ensures
            r@ == self@.target,
    {
        self.target.as_str()
    }

    pub fn title(&self) -> (r: &str)
        ensures
            r@ == self@.title,
    {
        self.title.as_str()
    }

    pub fn author(&self) -> (r: &str)
        ensures
            r@ == self@.author,
    {
        self.author.as_str()
    }

    pub fn raw_date(&self) -> (r: &str)
        ensures
            r@ == self@.raw_date,
    {
        self.raw_date.as_str()
    }

    pub fn date(&self) -> (r: &str)
        ensures
            r@ == self@.date,
    {
        self.date.as_str()
    }

    pub fn wordcount(&self) -> (r: u32)
        ensures
            r == self@.wordcount,
    {
        self.wordcount
    }

    pub fn poetry_lines(&self) -> (r: u32)
        ensures
            r == self@.poetry_lines,
    {
        self.poetry_lines
    }

    pub fn finished(&self) -> (r: &str)
        ensures
            r@ == self@.finished,
    {
        self.finished.as_str()
    }

    pub fn publication(&self) -> (r: &str)
        ensures
            r@ == self@.publication,
    {
        self.publication.as_str()
    }

    pub fn version(&self) -> (r: &str)
        ensures
            r@ == self@.version,
    {
        self.version.as_str()
    }

    pub fn status(&self) -> (r: &str)
        ensures
            r@ == self@.status,
    {
        self.status.as_str()
    }
}

/// The columns that hold text.
#[derive(Clone, Copy, Debug, PartialEq, Eq, Structural)]
pub enum TextColumn {
    Target,
    Title,
    Author,
    RawDate,
    Date,
    Finished,
    Publication,
    Version,
    Status,
}

/// The columns that hold a count.
#[derive(Clone, Copy, Debug, PartialEq, Eq, Structural)]
pub enum CountColumn {
    Wordcount,
    PoetryLines,
}

/// A column of the summary, by the kind of what it holds.
#[derive(Clone, Copy, Debug, PartialEq, Eq, Structural)]
pub enum Getter {
    String(TextColumn),
    Int(CountColumn),
}

/// What the row holds in a text column.
pub open spec fn text_cell(column: TextColumn, row: RowView) -> Seq<char> {
    match column {
        TextColumn::Target => row.target,
        TextColumn::Title => row.title,
        TextColumn::Author => row.author,
        TextColumn::RawDate => row.raw_date,
        TextColumn::Date => row.date,
        TextColumn::Finished => row.finished,
        TextColumn::Publication => row.publication,
        TextColumn::Version => row.version,
        TextColumn::Status => row.status,
    }
}

/// What the row holds in a count column.
pub open spec fn count_cell(column: CountColumn, row: RowView) -> int {
    match column {
        CountColumn::Wordcount => row.wordcount,
        CountColumn::PoetryLines => row.poetry_lines,
    }
}

/// What the row shows in a column: the text, or the count in decimal.
pub open spec fn cell(getter: Getter, row: RowView) -> Seq<char> {
    match getter {
        Getter::String(column) => text_cell(column, row),
        Getter::Int(column) => decimal(count_cell(column, row) as nat),
    }
}

/// The name of a column.
pub open spec fn column_name(getter: Getter) -> Seq<char> {
    match getter {
        Getter::String(TextColumn::Target) => "target"@,
        Getter::String(TextColumn::Title) => "title"@,
        Getter::String(TextColumn::Author) => "author"@,
        Getter::String(TextColumn::RawDate) => "raw date"@,
        Getter::String(TextColumn::Date) => "date"@,
        Getter::Int(CountColumn::Wordcount) => "wordcount"@,
        Getter::Int(CountColumn::PoetryLines) => "poetry lines"@,
        Getter::String(TextColumn::Finished) => "finished"@,
        Getter::String(TextColumn::Publication) => "publication"@,
        Getter::String(TextColumn::Version) => "version"@,
        Getter::String(TextColumn::Status) => "status"@,
    }
}

impl TextColumn {
    /// What the row holds in this column.
    pub fn get<'a>(&self, row: &'a Row) -> (r: &'a str)
        ensures
            r@ == text_cell(*self, row@),
    {
        match self {
            TextColumn::Target => row.target(),
            TextColumn::Title => row.title(),
            TextColumn::Author => row.author(),
            TextColumn::RawDate => row.raw_date(),
            TextColumn::Date => row.date(),
            TextColumn::Finished => row.finished(),
            TextColumn::Publication => row.publication(),
            TextColumn::Version => row.version(),
            TextColumn::Status => row.status(),
        }
    }
}

impl CountColumn {
    /// What the row holds in this column.
    pub fn get(&self, row: &Row) -> (r: u32)
        ensures
            r == count_cell(*self, row@),
    {
        match self {
            CountColumn::Wordcount => row.wordcount(),
            CountColumn::PoetryLines => row.poetry_lines(),
        }
    }
}

impl Getter {
    /// What the row shows in this column.
    pub fn to_string(&self, row: &Row) -> (s: String)
        ensures
            s@ == cell(*self, row@),
    {
        match self {
            Getter::String(column) => String::from_str(column.get(row)),
            Getter::Int(column) => {
                let mut out: Vec<char> = Vec::new();
                append_decimal(&mut out, column.get(row) as u128);
                assert(out@ =~= decimal(count_cell(*column, row@) as nat));
                string_of(out.as_slice())
            },
        }
    }

    /// The name of this column.
    pub fn name(&self) -> (s: String)
        ensures
            s@ == column_name(*self),
    {
        match self {
            Getter::String(TextColumn::Target) => String::from_str("target"),
            Getter::String(TextColumn::Title) => String::from_str("title"),
            Getter::String(TextColumn::Author) => String::from_str("author"),
            Getter::String(TextColumn::RawDate) => String::from_str("raw date"),
            Getter::String(TextColumn::Date) => String::from_str("date"),
            Getter::Int(CountColumn::Wordcount) => String::from_str("wordcount"),
            Getter::Int(CountColumn::PoetryLines) => String::from_str("poetry lines"),
            Getter::String(TextColumn::Finished) => String::from_str("finished"),
            Getter::String(TextColumn::Publication) => String::from_str("publication"),
            Getter::String(TextColumn::Version) => String::from_str("version"),
            Getter::String(TextColumn::Status) => String::from_str("status"),
        }
    }
}

/// The columns in the order in which the summary shows them.
pub open spec fn all_columns() -> Seq<Getter> {
    seq![
        Getter::String(TextColumn::Target),
        Getter::String(TextColumn::Title),
        Getter::String(TextColumn::Author),
        Getter::String(TextColumn::RawDate),
        Getter::String(TextColumn::Date),
        Getter::Int(CountColumn::Wordcount),
        Getter::Int(CountColumn::PoetryLines),
        Getter::String(TextColumn::Finished),
        Getter::String(TextColumn::Publication),
        Getter::String(TextColumn::Version),
        Getter::String(TextColumn::Status),
    ]
}

/// The columns in the order in which the summary shows them.
pub fn columns() -> (v: Vec<Getter>)
    ensures
        v@ == all_columns(),
{
    let mut v: Vec<Getter> = Vec::new();
    v.push(Getter::String(TextColumn::Target));
    v.push(Getter::String(TextColumn::Title));
    v.push(Getter::String(TextColumn::Author));
    v.push(Getter::String(TextColumn::RawDate));
    v.push(Getter::String(TextColumn::Date));
    v.push(Getter::Int(CountColumn::Wordcount));
    v.push(Getter::Int(CountColumn::PoetryLines));
    v.push(Getter::String(TextColumn::Finished));
    v.push(Getter::String(TextColumn::Publication));
    v.push(Getter::String(TextColumn::Version));
    v.push(Getter::String(TextColumn::Status));
    assert(v@ =~= all_columns());
    v
}

/// A test on one column of a row: the regular expression must match
/// somewhere in what the row shows there.
pub struct Filter {
    getter: Getter,
    regex: regex::Regex,
}

impl Clone for Filter {
    fn clone(&self) -> (copy: Filter)
        ensures
            copy.column() == self.column(),
            copy.pattern() == self.pattern(),
    {
        Filter { getter: self.getter, regex: self.regex.clone() }
    }
}

impl Filter {
    /// The column that the filter looks at.
    pub closed spec fn column(&self) -> Getter {
        self.getter
    }

    /// The pattern of the filter.
    pub closed spec fn pattern(&self) -> Seq<char> {
        regex_source(self.regex)
    }

    /// Whether the filter lets a row pass.
    pub open spec fn accepts(&self, row: RowView) -> bool {
        regex_matches(self.pattern(), cell(self.column(), row))
    }

    /// The filter on the column `getter` with the pattern `regex`, which
    /// must not be empty and must be a regular expression.
    pub fn build(getter: Getter, regex: &str) -> (r: Result<Filter, String>)
        ensures
            r is Ok <==> regex@.len() > 0 && regex_valid(regex@),
            r matches Ok(f) ==> f.column() == getter && f.pattern() == regex@,
            r matches Err(m) ==> regex@.len() == 0 ==> m@ == "regex must be non-empty"@,
    {
        if regex.is_empty() {
            return Err(String::from_str("regex must be non-empty"));
        }
        match compile(regex) {
            Ok(re) => Ok(Filter { getter, regex: re }),
            Err(e) => Err(describe(&e)),
        }
    }

    /// Whether the filter lets the row pass.
    pub fn matches(&self, r: &Row) -> (b: bool)
        ensures
            b == self.accepts(r@),
    {
        is_match(&self.regex, self.getter.to_string(r).as_str())
    }
}

/// A filter that lacks its pattern: it knows the column.
#[derive(Clone, Copy, Debug)]
pub struct PartialFilter {
    getter: Getter,
}

impl PartialFilter {
    /// The column that the filter will look at.
    pub closed spec fn column(&self) -> Getter {
        self.getter
    }

    pub fn new(getter: Getter) -> (p: PartialFilter)
        ensures
            p.column() == getter,
    {
        PartialFilter { getter }
    }

    /// The filter on this column with the pattern `value`.
    pub fn parse(&self, value: &str) -> (r: Result<Filter, String>)
        ensures
            r is Ok <==> value@.len() > 0 && regex_valid(value@),
            r matches Ok(f) ==> f.column() == self.column() && f.pattern() == value@,
            r matches Err(m) ==> value@.len() == 0 ==> m@ == "regex must be non-empty"@,
    {
        Filter::build(self.getter, value)
    }
}

/// Some filter of `filters` lets the row pass.
pub open spec fn any_accepts(filters: Seq<Filter>, row: RowView) -> bool {
    exists|i: int| 0 <= i < filters.len() && (#[trigger] filters[i]).accepts(row)
}

/// Whether some filter of `filters` lets the row pass.
fn any_matches(filters: &Vec<Filter>, row: &Row) -> (b: bool)
    ensures
        b == any_accepts(filters@, row@),
{
    let mut i: usize = 0;
    while i < filters.len()
        invariant
            i <= filters.len(),
            forall|k: int| 0 <= k < i ==> !(#[trigger] filters@[k]).accepts(row@),
        decreases filters.len() - i,
    {
        if filters[i].matches(row) {
            return true;
        }
        i += 1;
    }
    false
}

/// Whether a row is shown: no filter of `excludes` lets it pass, and some
/// filter of `includes` does, or there is none.
pub fn should_include(row: &Row, includes: &Vec<Filter>, excludes: &Vec<Filter>) -> (b: bool)
    ensures
        b == (!any_accepts(excludes@, row@) && (includes@.len() == 0 || any_accepts(
            includes@,
            row@,
        ))),
{
    if any_matches(excludes, row) {
        return false;
    }
    if includes.len() == 0 {
        return true;
    }
    any_matches(includes, row)
}

/// The views of the rows in `v`, in order.
pub open spec fn row_views(v: Seq<Row>) -> Seq<RowView> {
    v.map_values(|r: Row| r@)
}

/// Each text of `l` without the white space around it.
pub open spec fn all_trimmed(l: Seq<Seq<char>>) -> Seq<Seq<char>> {
    l.map_values(|t: Seq<char>| trimmed(t))
}

/// The key by which a text is ordered. In the column `date` the dates of
/// the list, which commas separate, are put in order themselves, the
/// latest first when the order is reversed; elsewhere the text counts
/// without regard to the case of its ASCII letters.
pub open spec fn text_key(field: Seq<char>, reverse: bool, value: Seq<char>) -> Seq<char> {
    if field == "date"@ {
        let dates = sort_texts(all_trimmed(pieces_from(value, ',', 0)));
        join(
            if reverse {
                dates.reverse()
            } else {
                dates
            },
            ", "@,
        )
    } else {
        lowered(value)
    }
}

/// How the rows are ordered: by which column, under which name, and in
/// which direction.
pub struct SorterView {
    pub field: Seq<char>,
    pub getter: Getter,
    pub reverse: bool,
}

/// The row `a` comes before the row `b`: its key is the smaller one.
pub open spec fn row_before(by: SorterView, a: RowView, b: RowView) -> bool {
    match by.getter {
        Getter::String(column) => lex_less(
            text_key(by.field, by.reverse, text_cell(column, a)),
            text_key(by.field, by.reverse, text_cell(column, b)),
        ),
        Getter::Int(column) => count_cell(column, a) < count_cell(column, b),
    }
}

/// `x` put into `sorted` before the first row that comes after it.
pub open spec fn insert_row(by: SorterView, sorted: Seq<RowView>, x: RowView) -> Seq<RowView>
    decreases sorted.len(),
{
    if sorted.len() == 0 {
        seq![x]
    } else if row_before(by, x, sorted.last()) {
        insert_row(by, sorted.drop_last(), x).push(sorted.last())
    } else {
        sorted.push(x)
    }
}

/// The rows in the order of their keys; rows with the same key keep their
/// order.
pub open spec fn sort_rows(by: SorterView, rows: Seq<RowView>) -> Seq<RowView>
    decreases rows.len(),
{
    if rows.len() == 0 {
        Seq::empty()
    } else {
        insert_row(by, sort_rows(by, rows.drop_last()), rows.last())
    }
}

/// The rows as the sorter shows them: in the order of their keys, and the
/// other way round when the order is reversed.
pub open spec fn shown_rows(by: SorterView, rows: Seq<RowView>) -> Seq<RowView> {
    if by.reverse {
        sort_rows(by, rows).reverse()
    } else {
        sort_rows(by, rows)
    }
}

/// The order in which the rows are shown.
#[derive(Clone, Debug)]
pub struct Sorter {
    field: String,
    getter: Getter,
    reverse: bool,
}

impl View for Sorter {
    type V = SorterView;

    closed spec fn view(&self) -> SorterView {
        SorterView { field: self.field@, getter: self.getter, reverse: self.reverse }
    }
}

impl Sorter {
    pub fn new(field: &str, getter: Getter, reverse: bool) -> (s: Sorter)
        ensures
            s@ == (SorterView { field: field@, getter, reverse }),
    {
        Sorter { field: String::from_str(field), getter, reverse }
    }

    /// The key by which the row is ordered in a text column.
    pub fn string_key(&self, column: TextColumn, row: &Row) -> (key: String)
        ensures
            key@ == text_key(self@.field, self@.reverse, text_cell(column, row@)),
    {
        let value = chars_of(column.get(row));
        if same_text(self.field.as_str(), "date") {
            let pieces = split_chars(value.as_slice(), ',');
            let mut dates: Vec<Vec<char>> = Vec::new();
            let mut i: usize = 0;
            while i < pieces.len()
                invariant
                    i <= pieces.len(),
                    texts(dates@) == all_trimmed(texts(pieces@).take(i as int)),
                decreases pieces.len() - i,
            {
                let ghost before = dates@;
                let date = trim_chars(pieces[i].as_slice());
                dates.push(date);
                assert(texts(dates@) =~= texts(before).push(date@));
                assert(texts(dates@) =~= all_trimmed(texts(pieces@).take(i + 1)));
                i += 1;
            }
            assert(texts(pieces@).take(pieces@.len() as int) =~= texts(pieces@));
            let mut dates = sort_chars(dates);
            if self.reverse {
                dates = reverse_chars(dates);
            }
            let out = join_chars(&dates, ", ");
            return string_of(out.as_slice());
        }
        let out = lower_chars(value.as_slice());
        string_of(out.as_slice())
    }

    /// Whether the row `a` comes before the row `b`.
    fn comes_before(&self, a: &Row, b: &Row) -> (r: bool)
        ensures
            r == row_before(self@, a@, b@),
    {
        match self.getter {
            Getter::String(column) => {
                let x = chars_of(self.string_key(column, a).as_str());
                let y = chars_of(self.string_key(column, b).as_str());
                chars_less(x.as_slice(), y.as_slice())
            },
            Getter::Int(column) => column.get(a) < column.get(b),
        }
    }

    /// Puts `x` into `sorted` before the first row that comes after it.
    fn place(&self, sorted: &mut Vec<Row>, x: Row)
        ensures
            row_views(final(sorted)@) == insert_row(self@, row_views(old(sorted)@), x@),
    {
        let ghost start = row_views(sorted@);
        let ghost by = self@;
        let mut i: usize = sorted.len();
        proof {
            assert(start.take(i as int) =~= start);
            assert(insert_row(by, start, x@) + start.skip(i as int) =~= insert_row(
                by,
                start,
                x@,
            ));
        }
        while i > 0 && self.comes_before(&x, &sorted[i - 1])
            invariant
                i <= sorted.len(),
                by == self@,
                start == row_views(sorted@),
                insert_row(by, start, x@) == insert_row(by, start.take(i as int), x@)
                    + start.skip(i as int),
            decreases i,
        {
            proof {
                let head = start.take(i as int);
                assert(head.drop_last() =~= start.take(i - 1));
                assert(head.last() == start[i - 1]);
                assert(insert_row(by, head.drop_last(), x@).push(head.last()) + start.skip(
                    i as int,
                ) =~= insert_row(by, start.take(i - 1), x@) + start.skip(i - 1));
            }
            i -= 1;
        }
        proof {
            let head = start.take(i as int);
            if i > 0 {
                assert(head.last() == start[i - 1]);
            }
            assert(insert_row(by, head, x@) == head.push(x@));
        }
        let ghost before = sorted@;
        let ghost xv = x@;
        sorted.insert(i, x);
        assert(row_views(sorted@) =~= row_views(before).take(i as int).push(xv) + row_views(
            before,
        ).skip(i as int));
    }

    /// Puts the rows in the order in which they are shown.
    pub fn sort(&self, data: &mut Vec<Row>)
        ensures
            row_views(final(data)@) == shown_rows(self@, row_views(old(data)@)),
    {
        let ghost all = row_views(data@);
        let ghost by = self@;
        let mut rest: Vec<Row> = Vec::new();
        std::mem::swap(data, &mut rest);
        let mut sorted: Vec<Row> = Vec::new();
        let ghost mut done: int = 0;
        assert(row_views(sorted@) =~= sort_rows(by, all.take(0)));
        assert(all.skip(0) =~= all);
        while rest.len() > 0
            invariant
                0 <= done,
                by == self@,
                done + rest@.len() == all.len(),
                row_views(rest@) == all.skip(done),
                row_views(sorted@) == sort_rows(by, all.take(done)),
            decreases rest.len(),
        {
            let ghost before = rest@;
            let x = rest.remove(0);
            proof {
                assert(all.take(done + 1).drop_last() =~= all.take(done));
                assert(all.take(done + 1).last() == all[done]);
                assert(x@ == row_views(before)[0]);
                assert(rest@ =~= before.drop_first());
                assert(row_views(rest@) =~= row_views(before).drop_first());
                assert(row_views(rest@) =~= all.skip(done + 1));
            }
            self.place(&mut sorted, x);
            proof {
                done = done + 1;
            }
        }
        assert(all.take(all.len() as int) =~= all);
        if self.reverse {
            let ghost ordered = row_views(sorted@);
            let mut out: Vec<Row> = Vec::new();
            while sorted.len() > 0
                invariant
                    sorted@.len() <= ordered.len(),
                    row_views(sorted@) == ordered.take(sorted@.len() as int),
                    out@.len() + sorted@.len() == ordered.len(),
                    forall|k: int|
                        0 <= k < out@.len() ==> (#[trigger] out@[k])@ == ordered[ordered.len() - 1
                            - k],
                decreases sorted.len(),
            {
                let ghost before = sorted@;
                match sorted.pop() {
                    Some(x) => {
                        assert(x@ == row_views(before)[before.len() - 1]);
                        assert(row_views(sorted@) =~= ordered.take(sorted@.len() as int));
                        out.push(x);
                    },
                    None => {},
                }
            }
            assert(row_views(out@) =~= ordered.reverse());
            *data = out;
        } else {
            *data = sorted;
        }
    }
}

/// No row comes after one that stands behind it.
pub open spec fn rows_ordered(by: SorterView, rows: Seq<RowView>) -> bool {
    forall|i: int, j: int|
        0 <= i < j < rows.len() ==> !row_before(by, #[trigger] rows[j], #[trigger] rows[i])
}

/// The row `y` comes before none of `rows`.
pub open spec fn rows_bounded(by: SorterView, rows: Seq<RowView>, y: RowView) -> bool {
    forall|k: int| 0 <= k < rows.len() ==> !row_before(by, y, #[trigger] rows[k])
}

/// Of two rows, at most one comes before the other.
pub proof fn lemma_row_before_asymmetric(by: SorterView, a: RowView, b: RowView)
    ensures
        !(row_before(by, a, b) && row_before(by, b, a)),
{
    match by.getter {
        Getter::String(column) => {
            lemma_lex_asymmetric(
                text_key(by.field, by.reverse, text_cell(column, a)),
                text_key(by.field, by.reverse, text_cell(column, b)),
            );
        },
        Getter::Int(_) => {},
    }
}

/// If `b` does not come before `a`, nor `c` before `b`, then `c` does not
/// come before `a`.
pub proof fn lemma_row_order_chains(by: SorterView, a: RowView, b: RowView, c: RowView)
    requires
        !row_before(by, b, a),
        !row_before(by, c, b),
    ensures
        !row_before(by, c, a),
{
    match by.getter {
        Getter::String(column) => {
            let ka = text_key(by.field, by.reverse, text_cell(column, a));
            let kb = text_key(by.field, by.reverse, text_cell(column, b));
            let kc = text_key(by.field, by.reverse, text_cell(column, c));
            lemma_lex_asymmetric(kb, kc);
            lemma_lex_asymmetric(ka, kb);
            if lex_less(kc, ka) {
                if lex_less(kb, kc) {
                    lemma_lex_transitive(kb, kc, ka, 0);
                }
            }
        },
        Getter::Int(_) => {},
    }
}

/// A row that comes before none of the rows, nor before the new one,
/// comes before none of them after the new one is put in.
pub proof fn lemma_insert_row_bounded(by: SorterView, sorted: Seq<RowView>, x: RowView, y: RowView)
    requires
        rows_bounded(by, sorted, y),
        !row_before(by, y, x),
    ensures
        rows_bounded(by, insert_row(by, sorted, x), y),
    decreases sorted.len(),
{
    if sorted.len() > 0 && row_before(by, x, sorted.last()) {
        let rest = sorted.drop_last();
        assert forall|k: int| 0 <= k < rest.len() implies !row_before(
            by,
            y,
            #[trigger] rest[k],
        ) by {
            assert(rest[k] == sorted[k]);
        }
        lemma_insert_row_bounded(by, rest, x, y);
        let inner = insert_row(by, rest, x);
        let out = inner.push(sorted.last());
        assert forall|k: int| 0 <= k < out.len() implies !row_before(by, y, #[trigger] out[k]) by {
            if k < inner.len() {
                assert(out[k] == inner[k]);
            } else {
                assert(out[k] == sorted[sorted.len() - 1]);
            }
        }
    } else {
        let out = sorted.push(x);
        assert forall|k: int| 0 <= k < out.len() implies !row_before(by, y, #[trigger] out[k]) by {
            if k < sorted.len() {
                assert(out[k] == sorted[k]);
            }
        }
    }
}

/// Putting a row into ordered rows leaves them ordered.
pub proof fn lemma_insert_row_ordered(by: SorterView, sorted: Seq<RowView>, x: RowView)
    requires
        rows_ordered(by, sorted),
    ensures
        rows_ordered(by, insert_row(by, sorted, x)),
    decreases sorted.len(),
{
    if sorted.len() > 0 && row_before(by, x, sorted.last()) {
        let rest = sorted.drop_last();
        let last = sorted.last();
        assert forall|i: int, j: int| 0 <= i < j < rest.len() implies !row_before(
            by,
            #[trigger] rest[j],
            #[trigger] rest[i],
        ) by {
            assert(rest[i] == sorted[i] && rest[j] == sorted[j]);
        }
        lemma_insert_row_ordered(by, rest, x);
        assert forall|k: int| 0 <= k < rest.len() implies !row_before(
            by,
            last,
            #[trigger] rest[k],
        ) by {
            assert(rest[k] == sorted[k]);
            assert(last == sorted[sorted.len() - 1]);
        }
        lemma_row_before_asymmetric(by, x, last);
        lemma_insert_row_bounded(by, rest, x, last);
        let inner = insert_row(by, rest, x);
        let out = inner.push(last);
        assert forall|i: int, j: int| 0 <= i < j < out.len() implies !row_before(
            by,
            #[trigger] out[j],
            #[trigger] out[i],
        ) by {
            assert(out[i] == inner[i]);
            if j < inner.len() {
                assert(out[j] == inner[j]);
            }
        }
    } else {
        let out = sorted.push(x);
        assert forall|i: int, j: int| 0 <= i < j < out.len() implies !row_before(
            by,
            #[trigger] out[j],
            #[trigger] out[i],
        ) by {
            assert(out[i] == sorted[i]);
            if j < sorted.len() {
                assert(out[j] == sorted[j]);
            } else {
                let last = sorted[sorted.len() - 1];
                assert(sorted.last() == last);
                if i < sorted.len() - 1 {
                    assert(!row_before(by, last, sorted[i]));
                    lemma_row_order_chains(by, sorted[i], last, x);
                }
            }
        }
    }
}

/// Sorted rows are in the order of their keys: no row comes after one
/// that stands behind it.
pub proof fn law_sorted_rows_are_ordered(by: SorterView, rows: Seq<RowView>)
    ensures
        rows_ordered(by, sort_rows(by, rows)),
    decreases rows.len(),
{
    if rows.len() > 0 {
        law_sorted_rows_are_ordered(by, rows.drop_last());
        lemma_insert_row_ordered(by, sort_rows(by, rows.drop_last()), rows.last());
    }
}

/// Putting a row in adds that row and nothing else.
pub proof fn lemma_insert_row_keeps_rows(by: SorterView, sorted: Seq<RowView>, x: RowView)
    ensures
        insert_row(by, sorted, x).to_multiset() == sorted.to_multiset().insert(x),
        insert_row(by, sorted, x).len() == sorted.len() + 1,
    decreases sorted.len(),
{
    broadcast use to_multiset_build;

    if sorted.len() > 0 && row_before(by, x, sorted.last()) {
        let rest = sorted.drop_last();
        lemma_insert_row_keeps_rows(by, rest, x);
        assert(sorted =~= rest.push(sorted.last()));
        assert(insert_row(by, rest, x).push(sorted.last()).to_multiset() =~= rest.to_multiset().insert(
            x,
        ).insert(sorted.last()));
        assert(sorted.to_multiset() =~= rest.to_multiset().insert(sorted.last()));
        assert(rest.to_multiset().insert(x).insert(sorted.last()) =~= rest.to_multiset().insert(
            sorted.last(),
        ).insert(x));
    } else if sorted.len() == 0 {
        assert(insert_row(by, sorted, x) =~= sorted.push(x));
    }
}

/// Sorting keeps every row, as often as it occurs, and adds none.
pub proof fn law_sorted_rows_keep_every_row(by: SorterView, rows: Seq<RowView>)
    ensures
        sort_rows(by, rows).to_multiset() == rows.to_multiset(),
        sort_rows(by, rows).len() == rows.len(),
        shown_rows(by, rows).to_multiset() == rows.to_multiset(),
    decreases rows.len(),
{
    broadcast use to_multiset_build;

    if rows.len() > 0 {
        law_sorted_rows_keep_every_row(by, rows.drop_last());
        lemma_insert_row_keeps_rows(by, sort_rows(by, rows.drop_last()), rows.last());
        assert(rows =~= rows.drop_last().push(rows.last()));
    } else {
        assert(sort_rows(by, rows) =~= rows);
    }
    sort_rows(by, rows).lemma_reverse_to_multiset();
}

} // verus!
