//! The report on the submissions of a group of documents: a table with a
//! row for each document and a column for each venue, and the metadata of
//! each document below it, as an HTML page.

use crate::calendar::iso_date;
use crate::labels::{sorted_labels, LabelSet};
use crate::metadata::{MetadataMap, OutputMetadata, OutputMetadataView};
use crate::publications::{
    date_views, dates_of, highest_state, Publication, PublicationView, Publications, State, publication_views,
};
use crate::targets::TargetMap;
use crate::text::{
    append_decimal, append_str, ascii_upper, chars_of, decimal, join, join_chars, replace_char, replace_in, same_text, string_of, texts, upper_char, views,
};
use vstd::prelude::*;
use vstd::string::StringExecFns;

verus! {

/// `s` with its first character made a capital letter, if it is an ASCII
/// small letter.
pub open spec fn capitalised(s: Seq<char>) -> Seq<char> {
    if s.len() == 0 {
        s
    } else {
        seq![ascii_upper(s[0])] + s.skip(1)
    }
}

/// `s` with its first character made a capital letter.
pub fn capitalise(s: &str) -> (r: String)
    ensures
        r@ == capitalised(s@),
{
    let mut chars = chars_of(s);
    if chars.len() > 0 {
        let first = upper_char(chars[0]);
        chars.set(0, first);
        assert(chars@ =~= capitalised(s@));
    }
    string_of(chars.as_slice())
}

/// How a character is written in HTML text.
pub open spec fn text_escape(c: char) -> Seq<char> {
    if c == '&' {
        "&amp;"@
    } else if c == '<' {
        "&lt;"@
    } else if c == '>' {
        "&gt;"@
    } else {
        seq![c]
    }
}

/// How a character is written in an attribute in double quotes.
pub open spec fn attribute_escape(c: char) -> Seq<char> {
    if c == '"' {
        "&quot;"@
    } else {
        text_escape(c)
    }
}

/// `s` as HTML text: `&`, `<` and `>` are escaped.
pub open spec fn encoded_text(s: Seq<char>) -> Seq<char>
    decreases s.len(),
{
    if s.len() == 0 {
        Seq::empty()
    } else {
        encoded_text(s.drop_last()) + text_escape(s.last())
    }
}

/// `s` as the value of an attribute in double quotes: `&`, `<`, `>` and
/// `"` are escaped.
pub open spec fn encoded_attribute(s: Seq<char>) -> Seq<char>
    decreases s.len(),
{
    if s.len() == 0 {
        Seq::empty()
    } else {
        encoded_attribute(s.drop_last()) + attribute_escape(s.last())
    }
}

/// `html_escape::encode_text` escapes a text for use between tags: it
/// writes `&amp;` for `&`, `&lt;` for `<` and `&gt;` for `>`, and leaves
/// every other character as it is.
#[verifier::external_body]
fn encode_text(s: &str) -> (r: String)
    ensures
        r@ == encoded_text(s@),
{
    html_escape::encode_text(s).into_owned()
}

/// `html_escape::encode_double_quoted_attribute` escapes a text for use
/// in an attribute in double quotes: it writes `&amp;` for `&`, `&lt;`
/// for `<`, `&gt;` for `>` and `&quot;` for `"`, and leaves every other
/// character as it is.
#[verifier::external_body]
fn encode_attribute(s: &str) -> (r: String)
    ensures
        r@ == encoded_attribute(s@),
{
    html_escape::encode_double_quoted_attribute(s).into_owned()
}

/// A table cell with a title: `open` is the start of the tag, up to the
/// value of the title.
pub open spec fn titled_cell(open: Seq<char>, tag: Seq<char>, value: Seq<char>) -> Seq<char> {
    open + encoded_attribute(value) + "\">"@ + encoded_text(value) + "</"@ + tag + ">"@
}

/// Writes a table cell with a title.
fn write_titled_cell(open: &str, tag: &str, value: &str) -> (r: String)
    ensures
        r@ == titled_cell(open@, tag@, value@),
{
    let mut out = String::from_str(open);
    out.append(encode_attribute(value).as_str());
    out.append("\">");
    out.append(encode_text(value).as_str());
    out.append("</");
    out.append(tag);
    out.append(">");
    assert(out@ =~= titled_cell(open@, tag@, value@));
    out
}

/// The heading of the column of a venue.
pub open spec fn venue_heading(venue: Seq<char>) -> Seq<char> {
    titled_cell("<th title=\""@, "th"@, venue)
}

/// The lines of the head of the table: the four fixed columns, then one
/// column for each venue.
pub open spec fn header_lines(venues: Seq<Seq<char>>) -> Seq<Seq<char>> {
    seq![
        "<thead>"@,
        "<tr>"@,
        "<th title=\"Target\">Target</th>"@,
        "<th title=\"Title\">Title</th>"@,
        "<th title=\"Wordcount\">Wordcount</th>"@,
        "<th style=\"border-right: 3px solid\" title=\"Notes\">Notes</th>"@,
    ] + venues.map_values(|v: Seq<char>| venue_heading(v)) + seq!["</tr>"@, "</thead>"@]
}

/// Adds the line `line` to `out`.
fn push_line(out: &mut Vec<String>, line: &str)
    ensures
        views(final(out)@) == views(old(out)@).push(line@),
{
    out.push(String::from_str(line));
    assert(views(out@) =~= views(old(out)@).push(line@));
}

/// Adds the lines of `more` to `out`.
fn push_lines(out: &mut Vec<String>, more: Vec<String>)
    ensures
        views(final(out)@) == views(old(out)@) + views(more@),
{
    let mut more = more;
    let ghost added = views(more@);
    out.append(&mut more);
    assert(views(out@) =~= views(old(out)@) + added);
}

/// The lines of the head of the table.
pub fn generate_header(venues: &LabelSet) -> (lines: Vec<String>)
    ensures
        views(lines@) == header_lines(sorted_labels(venues@)),
{
    let names = venues.to_vec();
    let ghost all = views(names@);
    let ghost fixed = seq![
        "<thead>"@,
        "<tr>"@,
        "<th title=\"Target\">Target</th>"@,
        "<th title=\"Title\">Title</th>"@,
        "<th title=\"Wordcount\">Wordcount</th>"@,
        "<th style=\"border-right: 3px solid\" title=\"Notes\">Notes</th>"@,
    ];
    let mut out: Vec<String> = Vec::new();
    assert(views(out@) =~= Seq::<Seq<char>>::empty());
    push_line(&mut out, "<thead>");
    push_line(&mut out, "<tr>");
    push_line(&mut out, "<th title=\"Target\">Target</th>");
    push_line(&mut out, "<th title=\"Title\">Title</th>");
    push_line(&mut out, "<th title=\"Wordcount\">Wordcount</th>");
    push_line(&mut out, "<th style=\"border-right: 3px solid\" title=\"Notes\">Notes</th>");
    assert(views(out@) =~= fixed + all.take(0).map_values(|v: Seq<char>| venue_heading(v)));
    let mut i: usize = 0;
    while i < names.len()
        invariant
            i <= names.len(),
            all == views(names@),
            views(out@) == fixed + all.take(i as int).map_values(|v: Seq<char>| venue_heading(v)),
        decreases names.len() - i,
    {
        let cell = write_titled_cell("<th title=\"", "th", names[i].as_str());
        let ghost before = out@;
        out.push(cell);
        proof {
            assert(views(out@) =~= views(before).push(cell@));
            assert(all.take(i + 1).map_values(|v: Seq<char>| venue_heading(v)) =~= all.take(
                i as int,
            ).map_values(|v: Seq<char>| venue_heading(v)).push(venue_heading(all[i as int])));
        }
        i += 1;
    }
    assert(all.take(all.len() as int) =~= all);
    push_line(&mut out, "</tr>");
    push_line(&mut out, "</thead>");
    assert(views(out@) =~= header_lines(all));
    out
}

/// How a date of a submission is shown: the day, and the name of the
/// state with a capital letter and hyphens for underscores.
pub open spec fn date_line(d: (State, (int, int, int))) -> Seq<char> {
    iso_date(d.1.0, d.1.1, d.1.2) + " "@ + capitalised(replace_char(d.0.name(), '_', "-"@))
}

/// The dates of a submission as they are shown in a cell, one line each.
pub open spec fn cell_content(p: PublicationView) -> Seq<char> {
    join(dates_of(p).map_values(|d: (State, (int, int, int))| encoded_text(date_line(d))), "<br>"@)
}

/// The cell of a submission in the row of the document `target`.
pub open spec fn cell_text(target: Seq<char>, p: PublicationView) -> Seq<char> {
    "<td class=\""@ + dates_of(p).last().0.name() + "\" title=\""@ + encoded_attribute(
        target + ", "@ + p.venue,
    ) + "\"><a href=\"#"@ + encoded_attribute(target) + "\">"@ + cell_content(p) + "</a></td>"@
}

/// The cell of a submission in the row of the document `target`.
pub fn generate_cell(target: &str, p: &Publication) -> (cell: String)
    ensures
        cell@ == cell_text(target@, p@),
{
    let dates = p.dates();
    let ghost all = dates_of(p@);
    let mut content: Vec<Vec<char>> = Vec::new();
    let mut i: usize = 0;
    assert(texts(content@) =~= all.take(0).map_values(
        |d: (State, (int, int, int))| encoded_text(date_line(d)),
    ));
    while i < dates.len()
        invariant
            i <= dates.len(),
            all == date_views(dates@),
            texts(content@) == all.take(i as int).map_values(
                |d: (State, (int, int, int))| encoded_text(date_line(d)),
            ),
        decreases dates.len() - i,
    {
        let d = &dates[i];
        let mut line = d.date.to_string();
        line.append(" ");
        let state = replace_in(d.state.to_string().as_str(), '_', "-");
        line.append(capitalise(state.as_str()).as_str());
        assert(line@ =~= date_line(all[i as int]));
        let shown = chars_of(encode_text(line.as_str()).as_str());
        let ghost before = content@;
        content.push(shown);
        proof {
            assert(texts(content@) =~= texts(before).push(shown@));
            assert(all.take(i + 1).map_values(
                |d: (State, (int, int, int))| encoded_text(date_line(d)),
            ) =~= all.take(i as int).map_values(
                |d: (State, (int, int, int))| encoded_text(date_line(d)),
            ).push(encoded_text(date_line(all[i as int]))));
        }
        i += 1;
    }
    assert(all.take(all.len() as int) =~= all);
    let joined = join_chars(&content, "<br>");
    let mut title = String::from_str(target);
    title.append(", ");
    title.append(p.venue());
    let mut cell = String::from_str("<td class=\"");
    cell.append(p.latest().state.to_string().as_str());
    cell.append("\" title=\"");
    cell.append(encode_attribute(title.as_str()).as_str());
    cell.append("\"><a href=\"#");
    cell.append(encode_attribute(target).as_str());
    cell.append("\">");
    cell.append(string_of(joined.as_slice()).as_str());
    cell.append("</a></td>");
    assert(cell@ =~= cell_text(target@, p@));
    cell
}

/// The last submission of `submissions` to `venue`, if there is one.
pub open spec fn last_at_venue(submissions: Seq<PublicationView>, venue: Seq<char>) -> Option<
    PublicationView,
>
    decreases submissions.len(),
{
    if submissions.len() == 0 {
        None
    } else if submissions.last().venue == venue {
        Some(submissions.last())
    } else {
        last_at_venue(submissions.drop_last(), venue)
    }
}

/// The cell of the document `target` in the column of `venue`: that of
/// its last submission there, or an empty cell.
pub open spec fn venue_cell(
    target: Seq<char>,
    venue: Seq<char>,
    submissions: Seq<PublicationView>,
) -> Seq<char> {
    match last_at_venue(submissions, venue) {
        Some(p) => cell_text(target, p),
        None => "<td></td>"@,
    }
}

/// The name of the state, or nothing where there is no state.
pub open spec fn state_class(state: Option<State>) -> Seq<char> {
    match state {
        Some(s) => s.name(),
        None => Seq::empty(),
    }
}

/// A text that may be missing, or the empty text.
pub open spec fn text_or_empty(value: Option<Seq<char>>) -> Seq<char> {
    match value {
        Some(v) => v,
        None => Seq::empty(),
    }
}

/// The cell that names the document, with the most advanced state of its
/// active submissions as its class.
pub open spec fn target_cell(target: Seq<char>, m: OutputMetadataView) -> Seq<char> {
    "<td class=\""@ + state_class(highest_state(m.publications)) + "\" title=\""@
        + encoded_attribute(target) + "\"><a href=\"#"@ + encoded_attribute(target) + "\">"@
        + encoded_text(target) + "</a></td>"@
}

/// The lines of the row of the document `target`: its name, its title,
/// its word count and its notes, then one cell for each venue.
pub open spec fn row_lines(
    target: Seq<char>,
    venues: Seq<Seq<char>>,
    m: OutputMetadataView,
) -> Seq<Seq<char>> {
    seq![
        "<tr>"@,
        target_cell(target, m),
        titled_cell("<td title=\""@, "td"@, text_or_empty(m.title)),
        titled_cell("<td title=\""@, "td"@, decimal(m.wordcount as nat)),
        titled_cell(
            "<td style=\"border-right: 3px solid\" title=\""@,
            "td"@,
            text_or_empty(m.notes),
        ),
    ] + venues.map_values(|v: Seq<char>| venue_cell(target, v, m.publications)) + seq![
        "</tr>"@,
    ]
}

/// The cell of the document in the column of `venue`.
fn write_venue_cell(target: &str, venue: &str, submissions: &Publications) -> (cell: String)
    ensures
        cell@ == venue_cell(target@, venue@, submissions@),
{
    let all = submissions.publications();
    let mut i: usize = all.len();
    assert(submissions@.take(i as int) =~= submissions@);
    while i > 0
        invariant
            i <= all.len(),
            publication_views(all@) == submissions@,
            last_at_venue(submissions@, venue@) == last_at_venue(
                submissions@.take(i as int),
                venue@,
            ),
        decreases i,
    {
        proof {
            assert(submissions@.take(i as int).drop_last() =~= submissions@.take(i - 1));
            assert(submissions@.take(i as int).last() == submissions@[i - 1]);
        }
        if same_text(all[i - 1].venue(), venue) {
            return generate_cell(target, &all[i - 1]);
        }
        i -= 1;
    }
    String::from_str("<td></td>")
}

/// The lines of the row of the document `target`.
pub fn generate_row(target: &str, venues: &LabelSet, metadata: &OutputMetadata) -> (lines: Vec<
    String,
>)
    ensures
        views(lines@) == row_lines(target@, sorted_labels(venues@), metadata@),
{
    let names = venues.to_vec();
    let ghost all = views(names@);
    let ghost m = metadata@;
    let class_attr = match metadata.publications().highest_active_state() {
        Some(state) => state.to_string(),
        None => String::new(),
    };
    let mut first = String::from_str("<td class=\"");
    first.append(class_attr.as_str());
    first.append("\" title=\"");
    first.append(encode_attribute(target).as_str());
    first.append("\"><a href=\"#");
    first.append(encode_attribute(target).as_str());
    first.append("\">");
    first.append(encode_text(target).as_str());
    first.append("</a></td>");
    assert(first@ =~= target_cell(target@, m));
    let title = match metadata.title() {
        Some(t) => write_titled_cell("<td title=\"", "td", t.as_str()),
        None => write_titled_cell("<td title=\"", "td", String::new().as_str()),
    };
    let mut count: Vec<char> = Vec::new();
    append_decimal(&mut count, metadata.wordcount() as u128);
    assert(count@ =~= decimal(m.wordcount as nat));
    let count = write_titled_cell("<td title=\"", "td", string_of(count.as_slice()).as_str());
    let notes = match metadata.notes() {
        Some(n) => write_titled_cell(
            "<td style=\"border-right: 3px solid\" title=\"",
            "td",
            n.as_str(),
        ),
        None => write_titled_cell(
            "<td style=\"border-right: 3px solid\" title=\"",
            "td",
            String::new().as_str(),
        ),
    };
    let ghost fixed = seq![
        "<tr>"@,
        target_cell(target@, m),
        titled_cell("<td title=\""@, "td"@, text_or_empty(m.title)),
        titled_cell("<td title=\""@, "td"@, decimal(m.wordcount as nat)),
        titled_cell(
            "<td style=\"border-right: 3px solid\" title=\""@,
            "td"@,
            text_or_empty(m.notes),
        ),
    ];
    let mut out: Vec<String> = Vec::new();
    assert(views(out@) =~= Seq::<Seq<char>>::empty());
    push_line(&mut out, "<tr>");
    push_line(&mut out, first.as_str());
    push_line(&mut out, title.as_str());
    push_line(&mut out, count.as_str());
    push_line(&mut out, notes.as_str());
    assert(views(out@) =~= fixed + all.take(0).map_values(
        |v: Seq<char>| venue_cell(target@, v, m.publications),
    ));
    let mut i: usize = 0;
    while i < names.len()
        invariant
            i <= names.len(),
            all == views(names@),
            m == metadata@,
            views(out@) == fixed + all.take(i as int).map_values(
                |v: Seq<char>| venue_cell(target@, v, m.publications),
            ),
        decreases names.len() - i,
    {
        let cell = write_venue_cell(target, names[i].as_str(), metadata.publications());
        let ghost before = out@;
        out.push(cell);
        proof {
            assert(views(out@) =~= views(before).push(cell@));
            assert(all.take(i + 1).map_values(
                |v: Seq<char>| venue_cell(target@, v, m.publications),
            ) =~= all.take(i as int).map_values(
                |v: Seq<char>| venue_cell(target@, v, m.publications),
            ).push(venue_cell(target@, all[i as int], m.publications)));
        }
        i += 1;
    }
    assert(all.take(all.len() as int) =~= all);
    push_line(&mut out, "</tr>");
    assert(views(out@) =~= row_lines(target@, all, m));
    out
}

/// The venues of the submissions `submissions`.
pub open spec fn venues_in(submissions: Seq<PublicationView>) -> Set<Seq<char>>
    decreases submissions.len(),
{
    if submissions.len() == 0 {
        Set::empty()
    } else {
        venues_in(submissions.drop_last()).insert(submissions.last().venue)
    }
}

/// The venues of the submissions of the documents `names`.
pub open spec fn venues_of(names: Seq<Seq<char>>, data: Map<Seq<char>, OutputMetadata>) -> Set<
    Seq<char>,
>
    decreases names.len(),
{
    if names.len() == 0 {
        Set::empty()
    } else {
        venues_of(names.drop_last(), data).union(venues_in(data[names.last()]@.publications))
    }
}

/// The lines of the rows of the documents `names`, in order.
pub open spec fn rows_of(
    names: Seq<Seq<char>>,
    venues: Seq<Seq<char>>,
    data: Map<Seq<char>, OutputMetadata>,
) -> Seq<Seq<char>>
    decreases names.len(),
{
    if names.len() == 0 {
        Seq::empty()
    } else {
        rows_of(names.drop_last(), venues, data) + row_lines(
            names.last(),
            venues,
            data[names.last()]@,
        )
    }
}

/// The lines of the table: a column for each venue that a document was
/// submitted to, in dictionary order, and a row for each document, in the
/// dictionary order of the targets.
pub open spec fn table_lines(data: Map<Seq<char>, OutputMetadata>) -> Seq<Seq<char>> {
    let names = sorted_labels(data.dom());
    let venues = sorted_labels(venues_of(names, data));
    seq!["<table>"@] + header_lines(venues) + seq!["<tbody>"@] + rows_of(names, venues, data)
        + seq!["</tbody>"@, "</table>"@]
}

/// The lines of the table.
pub fn generate_table(metadata: &MetadataMap) -> (lines: Vec<String>)
    ensures
        views(lines@) == table_lines(metadata@),
{
    let data = metadata.data();
    let n = data.len();
    let ghost names = data.names();
    let ghost map = data@;
    let mut venues = LabelSet::new();
    let mut i: usize = 0;
    while i < n
        invariant
            i <= n,
            n == data.names().len(),
            names == data.names(),
            map == data@,
            venues@ == venues_of(names.take(i as int), map),
        decreases n - i,
    {
        proof {
            assert(names.take(i + 1).drop_last() =~= names.take(i as int));
            assert(names.take(i + 1).last() == names[i as int]);
        }
        let submissions = data.value_at(i).publications();
        let all = submissions.publications();
        let ghost start = venues@;
        let mut j: usize = 0;
        assert(start.union(venues_in(submissions@.take(0))) =~= start);
        while j < all.len()
            invariant
                j <= all.len(),
                publication_views(all@) == submissions@,
                venues@ == start.union(venues_in(submissions@.take(j as int))),
            decreases all.len() - j,
        {
            proof {
                assert(submissions@.take(j + 1).drop_last() =~= submissions@.take(j as int));
                assert(submissions@.take(j + 1).last() == submissions@[j as int]);
            }
            venues.insert(all[j].venue());
            assert(venues@ =~= start.union(venues_in(submissions@.take(j + 1))));
            j += 1;
        }
        assert(submissions@.take(submissions@.len() as int) =~= submissions@);
        i += 1;
    }
    assert(names.take(names.len() as int) =~= names);
    let ghost columns = sorted_labels(venues@);
    let mut out: Vec<String> = Vec::new();
    assert(views(out@) =~= Seq::<Seq<char>>::empty());
    push_line(&mut out, "<table>");
    push_lines(&mut out, generate_header(&venues));
    push_line(&mut out, "<tbody>");
    let ghost fixed = seq!["<table>"@] + header_lines(columns) + seq!["<tbody>"@];
    assert(views(out@) =~= fixed + rows_of(names.take(0), columns, map));
    let mut k: usize = 0;
    while k < n
        invariant
            k <= n,
            n == data.names().len(),
            names == data.names(),
            map == data@,
            columns == sorted_labels(venues@),
            views(out@) == fixed + rows_of(names.take(k as int), columns, map),
        decreases n - k,
    {
        proof {
            assert(names.take(k + 1).drop_last() =~= names.take(k as int));
            assert(names.take(k + 1).last() == names[k as int]);
        }
        let target = data.name_at(k);
        let row = generate_row(target.as_str(), &venues, data.value_at(k));
        push_lines(&mut out, row);
        assert(views(out@) =~= fixed + rows_of(names.take(k + 1), columns, map));
        k += 1;
    }
    push_line(&mut out, "</tbody>");
    push_line(&mut out, "</table>");
    assert(views(out@) =~= table_lines(map));
    out
}

/// The heading over the metadata of the document `target`.
pub open spec fn details_heading(target: Seq<char>) -> Seq<char> {
    "<h3 id=\""@ + encoded_attribute(target) + "\">"@ + encoded_text(target) + "</h3>"@
}

/// The metadata of a document, written out as it is.
pub open spec fn details_block(text: Seq<char>) -> Seq<char> {
    "<code><pre>"@ + encoded_text(text) + "</pre></code>"@
}

/// The details of the documents `names`: for each that has submissions
/// and whose metadata `json` holds as text, a heading and that text.
pub open spec fn details_of(
    names: Seq<Seq<char>>,
    data: Map<Seq<char>, OutputMetadata>,
    json: Map<Seq<char>, String>,
) -> Seq<Seq<char>>
    decreases names.len(),
{
    if names.len() == 0 {
        Seq::empty()
    } else {
        let name = names.last();
        details_of(names.drop_last(), data, json) + (if data[name]@.publications.len() > 0
            && json.contains_key(name) {
            seq![details_heading(name), details_block(json[name]@)]
        } else {
            Seq::empty()
        })
    }
}

/// The lines of the details.
pub open spec fn details_lines(
    data: Map<Seq<char>, OutputMetadata>,
    json: Map<Seq<char>, String>,
) -> Seq<Seq<char>> {
    seq!["<h2>Details</h2>"@] + details_of(sorted_labels(data.dom()), data, json)
}

/// The lines of the details: under a heading of its own, the metadata of
/// each document that has submissions, as `json` holds it.
pub fn generate_details(metadata: &MetadataMap, json: &TargetMap<String>) -> (lines: Vec<String>)
    ensures
        views(lines@) == details_lines(metadata@, json@),
{
    let data = metadata.data();
    let n = data.len();
    let ghost names = data.names();
    let ghost map = data@;
    let mut out: Vec<String> = Vec::new();
    assert(views(out@) =~= Seq::<Seq<char>>::empty());
    push_line(&mut out, "<h2>Details</h2>");
    assert(views(out@) =~= seq!["<h2>Details</h2>"@] + details_of(names.take(0), map, json@));
    let mut i: usize = 0;
    while i < n
        invariant
            i <= n,
            n == data.names().len(),
            names == data.names(),
            map == data@,
            views(out@) == seq!["<h2>Details</h2>"@] + details_of(
                names.take(i as int),
                map,
                json@,
            ),
        decreases n - i,
    {
        proof {
            assert(names.take(i + 1).drop_last() =~= names.take(i as int));
            assert(names.take(i + 1).last() == names[i as int]);
        }
        let target = data.name_at(i);
        if !data.value_at(i).publications().is_empty() {
            match json.get(target.as_str()) {
                Some(text) => {
                    let mut heading = String::from_str("<h3 id=\"");
                    heading.append(encode_attribute(target.as_str()).as_str());
                    heading.append("\">");
                    heading.append(encode_text(target.as_str()).as_str());
                    heading.append("</h3>");
                    assert(heading@ =~= details_heading(target@));
                    let mut block = String::from_str("<code><pre>");
                    block.append(encode_text(text.as_str()).as_str());
                    block.append("</pre></code>");
                    assert(block@ =~= details_block(text@));
                    push_line(&mut out, heading.as_str());
                    push_line(&mut out, block.as_str());
                    assert(views(out@) =~= seq!["<h2>Details</h2>"@] + details_of(
                        names.take(i + 1),
                        map,
                        json@,
                    ));
                },
                None => {
                    assert(views(out@) =~= seq!["<h2>Details</h2>"@] + details_of(
                        names.take(i + 1),
                        map,
                        json@,
                    ));
                },
            }
        } else {
            assert(views(out@) =~= seq!["<h2>Details</h2>"@] + details_of(
                names.take(i + 1),
                map,
                json@,
            ));
        }
        i += 1;
    }
    assert(names.take(names.len() as int) =~= names);
    out
}

/// The style rule that gives the cells of a state their colour.
pub open spec fn style_rule(state: State, colour: Seq<char>) -> Seq<char> {
    "."@ + state.name() + " { background-color: "@ + colour + "; }"@
}

/// The lines of the head of the page.
pub open spec fn head_lines() -> Seq<Seq<char>> {
    seq![
        "<head>"@,
        "<meta charset=\"utf-8\">"@,
        "<title>Publications</title>"@,
        "<style>"@,
        "table { border-collapse: collapse; }"@,
        "th, td { border: 1px solid; padding: 5px; }"@,
        "a:link { color: black; }"@,
        "a:visited { color: black; }"@,
        style_rule(State::Submitted, "#ffff00"@),
        style_rule(State::Rejected, "#ff6d6d"@),
        style_rule(State::Withdrawn, "#ff972f"@),
        style_rule(State::Abandoned, "#cccccc"@),
        style_rule(State::Accepted, "#729fcf"@),
        style_rule(State::SelfPublished, "#158466"@),
        style_rule(State::Published, "#81d41a"@),
        "</style>"@,
        "</head>"@,
    ]
}

/// Writes the style rule of a state.
fn write_style_rule(state: State, colour: &str) -> (rule: String)
    ensures
        rule@ == style_rule(state, colour@),
{
    let mut rule = String::from_str(".");
    rule.append(state.to_string().as_str());
    rule.append(" { background-color: ");
    rule.append(colour);
    rule.append("; }");
    assert(rule@ =~= style_rule(state, colour@));
    rule
}

/// The lines of the head of the page.
pub fn generate_head() -> (lines: Vec<String>)
    ensures
        views(lines@) == head_lines(),
{
    let mut out: Vec<String> = Vec::new();
    assert(views(out@) =~= Seq::<Seq<char>>::empty());
    push_line(&mut out, "<head>");
    push_line(&mut out, "<meta charset=\"utf-8\">");
    push_line(&mut out, "<title>Publications</title>");
    push_line(&mut out, "<style>");
    push_line(&mut out, "table { border-collapse: collapse; }");
    push_line(&mut out, "th, td { border: 1px solid; padding: 5px; }");
    push_line(&mut out, "a:link { color: black; }");
    push_line(&mut out, "a:visited { color: black; }");
    push_line(&mut out, write_style_rule(State::Submitted, "#ffff00").as_str());
    push_line(&mut out, write_style_rule(State::Rejected, "#ff6d6d").as_str());
    push_line(&mut out, write_style_rule(State::Withdrawn, "#ff972f").as_str());
    push_line(&mut out, write_style_rule(State::Abandoned, "#cccccc").as_str());
    push_line(&mut out, write_style_rule(State::Accepted, "#729fcf").as_str());
    push_line(&mut out, write_style_rule(State::SelfPublished, "#158466").as_str());
    push_line(&mut out, write_style_rule(State::Published, "#81d41a").as_str());
    push_line(&mut out, "</style>");
    push_line(&mut out, "</head>");
    assert(views(out@) =~= head_lines());
    out
}

/// The lines of the body of the page: the table, then the details.
pub open spec fn body_lines(
    data: Map<Seq<char>, OutputMetadata>,
    json: Map<Seq<char>, String>,
) -> Seq<Seq<char>> {
    seq!["<body>"@, "<h1>Publications</h1>"@] + table_lines(data) + details_lines(data, json)
        + seq!["</body>"@]
}

/// The lines of the body of the page.
pub fn generate_body(metadata: &MetadataMap, json: &TargetMap<String>) -> (lines: Vec<String>)
    ensures
        views(lines@) == body_lines(metadata@, json@),
{
    let mut out: Vec<String> = Vec::new();
    assert(views(out@) =~= Seq::<Seq<char>>::empty());
    push_line(&mut out, "<body>");
    push_line(&mut out, "<h1>Publications</h1>");
    push_lines(&mut out, generate_table(metadata));
    push_lines(&mut out, generate_details(metadata, json));
    push_line(&mut out, "</body>");
    assert(views(out@) =~= body_lines(metadata@, json@));
    out
}

/// The page: its lines, each with a line feed after it.
pub open spec fn page_text(
    data: Map<Seq<char>, OutputMetadata>,
    json: Map<Seq<char>, String>,
) -> Seq<char> {
    join(
        seq!["<!doctype html>"@, "<html lang=\"en-GB\">"@] + head_lines() + body_lines(data, json)
            + seq!["</html>"@],
        "\n"@,
    ) + "\n"@
}

/// The page that reports on the submissions of the documents.
pub fn generate_page(metadata: &MetadataMap, json: &TargetMap<String>) -> (page: String)
    ensures
        page@ == page_text(metadata@, json@),
{
    let mut out: Vec<String> = Vec::new();
    assert(views(out@) =~= Seq::<Seq<char>>::empty());
    push_line(&mut out, "<!doctype html>");
    push_line(&mut out, "<html lang=\"en-GB\">");
    push_lines(&mut out, generate_head());
    push_lines(&mut out, generate_body(metadata, json));
    push_line(&mut out, "</html>");
    let ghost lines = seq!["<!doctype html>"@, "<html lang=\"en-GB\">"@] + head_lines()
        + body_lines(metadata@, json@) + seq!["</html>"@];
    assert(views(out@) =~= lines);
    let mut parts: Vec<Vec<char>> = Vec::new();
    let mut i: usize = 0;
    while i < out.len()
        invariant
            i <= out.len(),
            texts(parts@) == views(out@).take(i as int),
        decreases out.len() - i,
    {
        let ghost before = parts@;
        let part = chars_of(out[i].as_str());
        parts.push(part);
        assert(texts(parts@) =~= texts(before).push(part@));
        assert(texts(parts@) =~= views(out@).take(i + 1));
        i += 1;
    }
    assert(views(out@).take(out@.len() as int) =~= views(out@));
    let mut page = join_chars(&parts, "\n");
    append_str(&mut page, "\n");
    string_of(page.as_slice())
}

/// The pairs of `data`, in order, whose documents have submissions.
pub open spec fn with_submissions(data: Seq<(String, OutputMetadata)>) -> Seq<
    (String, OutputMetadata),
>
    decreases data.len(),
{
    if data.len() == 0 {
        Seq::empty()
    } else if data.last().1@.publications.len() > 0 {
        with_submissions(data.drop_last()).push(data.last())
    } else {
        with_submissions(data.drop_last())
    }
}

/// Keeps the documents that have submissions: only they are reported on.
pub fn keep_submitted(data: Vec<(String, OutputMetadata)>) -> (kept: Vec<(String, OutputMetadata)>)
    ensures
        kept@ == with_submissions(data@),
{
    let mut rest = data;
    let ghost all = rest@;
    let mut kept: Vec<(String, OutputMetadata)> = Vec::new();
    let ghost mut done: int = 0;
    assert(all.skip(0) =~= all);
    assert(kept@ =~= with_submissions(all.take(0)));
    while rest.len() > 0
        invariant
            0 <= done,
            done + rest@.len() == all.len(),
            rest@ == all.skip(done),
            kept@ == with_submissions(all.take(done)),
        decreases rest.len(),
    {
        let ghost before = rest@;
        let pair = rest.remove(0);
        proof {
            assert(all.take(done + 1).drop_last() =~= all.take(done));
            assert(all.take(done + 1).last() == all[done]);
            assert(pair == before[0]);
            assert(rest@ =~= all.skip(done + 1));
        }
        if !pair.1.publications().is_empty() {
            kept.push(pair);
        }
        proof {
            done = done + 1;
        }
    }
    assert(all.take(all.len() as int) =~= all);
    kept
}

} // verus!
