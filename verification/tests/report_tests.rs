use markdown::calendar::Day;
use markdown::collection::collection_source;
use markdown::deserializers::{
    option_string, parse_u64, str_or_seq, uint_or_str, StrOrSeq, UintOrStr,
};
use markdown::group_publications::{
    capitalise, generate_body, generate_cell, generate_details, generate_head, generate_header,
    generate_page, generate_row, generate_table, keep_submitted,
};
use markdown::labels::LabelSet;
use markdown::metadata::{MetadataMap, OutputMetadata, OutputMetadataBuilder};
use markdown::publications::{Publication, PublicationBuilder, Publications};
use markdown::shunn::{find_last_word, shunn_metadata};
use markdown::source_hash::{compute_source_hash, source_hash_input};
use markdown::targets::TargetMap;

fn day(d: u32) -> Day {
    Day::from_ymd_opt(2023, 5, d).unwrap()
}

fn accepted(venue: &str) -> Publication {
    PublicationBuilder::default()
        .venue(venue)
        .submitted(day(16))
        .accepted(day(17))
        .build()
        .unwrap()
}

fn self_published(venue: &str) -> Publication {
    PublicationBuilder::default()
        .venue(venue)
        .self_published(day(1))
        .build()
        .unwrap()
}

fn rejected(venue: &str) -> Publication {
    PublicationBuilder::default()
        .venue(venue)
        .submitted(day(2))
        .rejected(day(3))
        .build()
        .unwrap()
}

fn metadata(title: Option<&str>, hash: &str, publications: Vec<Publication>) -> OutputMetadata {
    let mut b = OutputMetadataBuilder::default();
    if let Some(t) = title {
        b.title(t);
    }
    b.publications(Publications::build(publications).unwrap())
        .wordcount(1200)
        .poetry_lines(0)
        .lang("en-GB")
        .version("1")
        .repo("r")
        .source_hash(hash)
        .build()
        .unwrap()
}

fn venues(items: &[&str]) -> LabelSet {
    LabelSet::from_vec(items.iter().map(|s| String::from(*s)).collect())
}

const TARGET_CELL_A: &str =
    "<td class=\"accepted\" title=\"//a&amp;b\"><a href=\"#//a&amp;b\">//a&amp;b</a></td>";
const BOOK_CELL: &str = "<td class=\"accepted\" title=\"//a&amp;b, Book &quot;1&quot;\">\
<a href=\"#//a&amp;b\">2023-05-16 Submitted<br>2023-05-17 Accepted</a></td>";

#[test]
fn capitalise_first_letter() {
    assert_eq!(capitalise("submitted"), "Submitted");
    assert_eq!(capitalise("self-published"), "Self-published");
    assert_eq!(capitalise(""), "");
    assert_eq!(capitalise("Already"), "Already");
    assert_eq!(capitalise("émile"), "émile");
    assert_eq!(capitalise("1a"), "1a");
    assert_eq!(capitalise("z"), "Z");
}

#[test]
fn header_has_a_column_for_each_venue() {
    assert_eq!(
        generate_header(&venues(&["Mag <2>", "Book \"1\""])),
        vec![
            "<thead>",
            "<tr>",
            "<th title=\"Target\">Target</th>",
            "<th title=\"Title\">Title</th>",
            "<th title=\"Wordcount\">Wordcount</th>",
            "<th style=\"border-right: 3px solid\" title=\"Notes\">Notes</th>",
            "<th title=\"Book &quot;1&quot;\">Book \"1\"</th>",
            "<th title=\"Mag &lt;2&gt;\">Mag &lt;2&gt;</th>",
            "</tr>",
            "</thead>",
        ]
    );
    assert_eq!(generate_header(&venues(&[])).len(), 8);
}

#[test]
fn cells_show_the_dates() {
    assert_eq!(generate_cell("//a&b", &accepted("Book \"1\"")), BOOK_CELL);
    assert_eq!(
        generate_cell("t", &self_published("v")),
        "<td class=\"self_published\" title=\"t, v\"><a href=\"#t\">\
2023-05-01 Self-published</a></td>"
    );
}

#[test]
fn rows_have_a_cell_for_each_venue() {
    let m = metadata(
        Some("T & <t>"),
        "h",
        vec![rejected("Mag"), accepted("Book \"1\""), rejected("Book \"1\"")],
    );
    let lines = generate_row("//a&b", &venues(&["Mag", "Other", "Book \"1\""]), &m);
    assert_eq!(
        lines,
        vec![
            String::from("<tr>"),
            String::from(TARGET_CELL_A),
            String::from("<td title=\"T &amp; &lt;t&gt;\">T &amp; &lt;t&gt;</td>"),
            String::from("<td title=\"1200\">1200</td>"),
            String::from("<td style=\"border-right: 3px solid\" title=\"\"></td>"),
            // The last submission to a venue is shown.
            String::from(
                "<td class=\"rejected\" title=\"//a&amp;b, Book &quot;1&quot;\">\
<a href=\"#//a&amp;b\">2023-05-02 Submitted<br>2023-05-03 Rejected</a></td>"
            ),
            String::from(
                "<td class=\"rejected\" title=\"//a&amp;b, Mag\">\
<a href=\"#//a&amp;b\">2023-05-02 Submitted<br>2023-05-03 Rejected</a></td>"
            ),
            String::from("<td></td>"),
            String::from("</tr>"),
        ]
    );
    let m = metadata(None, "h", vec![accepted("Book \"1\"")]);
    let lines = generate_row("//a&b", &venues(&["Book \"1\""]), &m);
    assert_eq!(lines[1], TARGET_CELL_A);
    assert_eq!(lines[2], "<td title=\"\"></td>");
    assert_eq!(lines[5], BOOK_CELL);
}

#[test]
fn table_details_and_page() {
    let map = MetadataMap::build(vec![
        (
            String::from("//z"),
            metadata(Some("Z"), "hz", vec![rejected("Mag")]),
        ),
        (
            String::from("//a&b"),
            metadata(None, "ha", vec![accepted("Book \"1\"")]),
        ),
        (String::from("//m"), metadata(Some("M"), "hm", vec![])),
    ])
    .unwrap();
    let table = generate_table(&map);
    assert_eq!(table[0], "<table>");
    assert_eq!(table[7], "<th title=\"Book &quot;1&quot;\">Book \"1\"</th>");
    assert_eq!(table[8], "<th title=\"Mag\">Mag</th>");
    assert_eq!(table[11], "<tbody>");
    // Three rows of eight lines each, in the order of the targets.
    assert_eq!(table.len(), 12 + 3 * 8 + 2);
    assert_eq!(table[13], TARGET_CELL_A);
    assert_eq!(table[17], BOOK_CELL);
    assert_eq!(table[18], "<td></td>");
    assert_eq!(
        table[21],
        "<td class=\"\" title=\"//m\"><a href=\"#//m\">//m</a></td>"
    );
    assert_eq!(table[25], "<td></td>");
    assert_eq!(table[26], "<td></td>");
    assert_eq!(table[36], "</tbody>");
    assert_eq!(table[37], "</table>");

    let mut json = TargetMap::new();
    json.insert("//a&b", String::from("{\n  \"x\": \"<y>\"\n}"));
    json.insert("//m", String::from("{}"));
    let details = generate_details(&map, &json);
    assert_eq!(
        details,
        vec![
            "<h2>Details</h2>",
            "<h3 id=\"//a&amp;b\">//a&amp;b</h3>",
            "<code><pre>{\n  \"x\": \"&lt;y&gt;\"\n}</pre></code>",
        ]
    );

    let head = generate_head();
    assert_eq!(head.len(), 17);
    assert_eq!(head[0], "<head>");
    assert_eq!(head[8], ".submitted { background-color: #ffff00; }");
    assert_eq!(head[9], ".rejected { background-color: #ff6d6d; }");
    assert_eq!(head[10], ".withdrawn { background-color: #ff972f; }");
    assert_eq!(head[11], ".abandoned { background-color: #cccccc; }");
    assert_eq!(head[12], ".accepted { background-color: #729fcf; }");
    assert_eq!(head[13], ".self_published { background-color: #158466; }");
    assert_eq!(head[14], ".published { background-color: #81d41a; }");
    assert_eq!(head[16], "</head>");

    let body = generate_body(&map, &json);
    assert_eq!(body.len(), 2 + table.len() + details.len() + 1);
    assert_eq!(body[1], "<h1>Publications</h1>");
    assert_eq!(body[body.len() - 1], "</body>");

    let page = generate_page(&map, &json);
    let mut lines = vec![
        String::from("<!doctype html>"),
        String::from("<html lang=\"en-GB\">"),
    ];
    lines.extend(head);
    lines.extend(body);
    lines.push(String::from("</html>"));
    assert_eq!(page, lines.join("\n") + "\n");
}

#[test]
fn only_submitted_documents_are_reported() {
    let kept = keep_submitted(vec![
        (String::from("a"), metadata(None, "h", vec![])),
        (String::from("b"), metadata(None, "h", vec![accepted("v")])),
        (String::from("c"), metadata(None, "h", vec![])),
        (String::from("d"), metadata(None, "h", vec![rejected("v")])),
    ]);
    let names: Vec<&str> = kept.iter().map(|p| p.0.as_str()).collect();
    assert_eq!(names, vec!["b", "d"]);
}

#[test]
fn source_hash_of_sources_and_dependencies() {
    let none = MetadataMap::build(vec![]).unwrap();
    assert_eq!(source_hash_input(&none, "abc\n"), "{\n}\nabc\n");
    assert_eq!(
        compute_source_hash(&none, "abc\n").unwrap().source_hash,
        "b12ac9e1bff0dc0ea03249f766ce62fe"
    );
    let deps = MetadataMap::build(vec![
        (String::from("//b"), metadata(None, "h2", vec![])),
        (String::from("//a"), metadata(None, "h1", vec![])),
    ])
    .unwrap();
    assert_eq!(source_hash_input(&deps, "src"), "{\n//a h1\n//b h2\n}\nsrc");
    assert_eq!(
        compute_source_hash(&deps, "src").unwrap().source_hash,
        "0ae5f52c478f64b31d9c4ecac02b3b93"
    );
}

#[test]
fn loose_values() {
    assert_eq!(option_string(String::new()), None);
    assert_eq!(option_string(String::from("a")), Some(String::from("a")));
    assert_eq!(str_or_seq(StrOrSeq::One(String::from("foo"))), vec!["foo"]);
    assert_eq!(
        str_or_seq(StrOrSeq::Many(vec![String::from("a"), String::from("b")])),
        vec!["a", "b"]
    );
    assert_eq!(str_or_seq(StrOrSeq::Many(vec![])), Vec::<String>::new());

    assert_eq!(uint_or_str(UintOrStr::Uint(0)), Ok(0));
    assert_eq!(uint_or_str(UintOrStr::Uint(4294967295)), Ok(4294967295));
    assert_eq!(
        uint_or_str(UintOrStr::Uint(4294967296)),
        Err(String::from("invalid unsigned int value"))
    );
    assert_eq!(uint_or_str(UintOrStr::Str(String::from("12"))), Ok(12));
    assert_eq!(uint_or_str(UintOrStr::Str(String::from("+012"))), Ok(12));
    assert_eq!(
        uint_or_str(UintOrStr::Str(String::from("4294967296"))),
        Err(String::from("invalid unsigned int value"))
    );
    for bad in ["", "+", "-1", "1 ", " 1", "1_000", "0x10", "1.0", "١٢", "18446744073709551616"] {
        assert_eq!(
            uint_or_str(UintOrStr::Str(String::from(bad))),
            Err(String::from("must contin an unsigned int"))
        );
        assert_eq!(parse_u64(bad), bad.parse::<u64>().ok());
    }
    for good in ["0", "000", "+7", "18446744073709551615", "00018446744073709551615"] {
        assert_eq!(parse_u64(good), good.parse::<u64>().ok());
        assert!(parse_u64(good).is_some());
    }
}

#[test]
fn manuscript_metadata() {
    let with = |title: Option<&str>, authors: Vec<&str>| {
        let mut b = OutputMetadataBuilder::default();
        if let Some(t) = title {
            b.title(t);
        }
        b.authors(authors.iter().map(|a| String::from(*a)).collect())
            .wordcount(1)
            .poetry_lines(0)
            .lang("l")
            .version("v")
            .repo("r")
            .source_hash("h")
            .build()
            .unwrap()
    };
    let s = shunn_metadata(&with(Some("The Title"), vec!["Ann Mary  Writer\t", "Other"])).unwrap();
    assert_eq!(s.short_title, "The Title");
    assert_eq!(s.author_lastname, "Writer");
    assert_eq!(s.contact_name, "Ann Mary  Writer\t");
    assert_eq!(s.contact_address, "`\\n`{=tex}");
    assert_eq!(s.contact_city_state_zip, "`\\n`{=tex}");
    assert_eq!(s.contact_phone, "`\\n`{=tex}");
    assert_eq!(s.contact_email, "`\\n`{=tex}");
    assert_eq!(s.title, None);
    assert!(s.author.is_empty());

    let s = shunn_metadata(&with(None, vec![])).unwrap();
    assert_eq!(s.short_title, "[Untitled]");
    assert_eq!(s.author_lastname, "[Unknown]");
    assert_eq!(s.contact_name, "[Unknown]");
    assert_eq!(s.title, Some(String::from("[Untitled]")));
    assert_eq!(s.author, vec!["[Unknown]"]);

    assert!(shunn_metadata(&with(None, vec![" \t\r\n"])).is_none());
    assert_eq!(find_last_word("a b"), Some(String::from("b")));
    assert_eq!(find_last_word("a\u{a0}b "), Some(String::from("a\u{a0}b")));
    assert_eq!(find_last_word(""), None);
    assert_eq!(find_last_word("\x0C"), None);
}

#[test]
fn collection_of_documents() {
    let with = |title: Option<&str>, authors: Vec<&str>, date: Option<&str>| {
        let mut b = OutputMetadataBuilder::default();
        if let Some(t) = title {
            b.title(t);
        }
        if let Some(d) = date {
            b.date(d);
        }
        b.authors(authors.iter().map(|a| String::from(*a)).collect())
            .wordcount(1)
            .poetry_lines(0)
            .lang("l")
            .version("v")
            .repo("r")
            .source_hash("h")
            .build()
            .unwrap()
    };
    let map = MetadataMap::build(vec![
        (
            String::from("a:one"),
            with(Some("One"), vec!["Me", "You"], None),
        ),
        (
            String::from("b:two"),
            with(Some("Two"), vec!["You"], Some("2020")),
        ),
        (String::from("c:three"), with(None, vec![], None)),
    ])
    .unwrap();
    let deps = vec![
        String::from("b:two"),
        String::from("a:one"),
        String::from("c:three"),
    ];
    let text = collection_source("\ntitle: C\nauthor:\n- Me\n\n", "Me", &map, &deps).unwrap();
    assert_eq!(
        text,
        "---\ntitle: C\nauthor:\n- Me\n---\n\n\
::: nospellcheck\n\n# Two\n\n**You, 2020**\n\n::: collectionseparator\n&nbsp;\n:::\n\n:::\n\n!include //b:two\n\n\
::: nospellcheck\n\n# One\n\n:::\n\n!include //a:one\n\n\
::: nospellcheck\n\n# \n\n:::\n\n!include //c:three\n"
    );
    assert_eq!(
        collection_source("x", "Me", &map, &vec![]).unwrap(),
        "---\nx\n---\n"
    );
    assert_eq!(
        collection_source(
            "x",
            "Me",
            &map,
            &vec![
                String::from("a:one"),
                String::from("q"),
                String::from("r")
            ]
        )
        .unwrap_err(),
        "target 'q' not found"
    );
}
