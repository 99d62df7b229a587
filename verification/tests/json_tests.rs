use chrono::{Datelike, NaiveDate};
use markdown::calendar::Day;
use markdown::deserializers::{option_string, str_or_seq, uint_or_str, StrOrSeq, UintOrStr};
use markdown::metadata::{
    Identifier, InputMetadata, MetadataMap, OutputMetadata, ParsedDateSet, SourceHash, Version,
};
use markdown::publications::{Date, Publication, Publications, State};
use serde_json::Value;

fn ymd(year: i32, month: u32, day: u32) -> Day {
    Day::from_ymd_opt(year, month, day).unwrap()
}

fn date(state: State, date: (i32, u32, u32)) -> Date {
    let (year, month, day) = date;
    Date {
        state,
        date: ymd(year, month, day),
    }
}

/// The fields of a record; a field that the record does not have is
/// refused.
fn fields(value: &Value, known: &[&str]) -> Result<serde_json::Map<String, Value>, String> {
    let object = value.as_object().ok_or("not an object")?;
    for name in object.keys() {
        if !known.contains(&name.as_str()) {
            return Err(format!("unknown field `{name}`"));
        }
    }
    Ok(object.clone())
}

fn parse(text: &str) -> Result<Value, String> {
    serde_json::from_str(text).map_err(|e| e.to_string())
}

fn text(record: &serde_json::Map<String, Value>, name: &str) -> Result<String, String> {
    let value = record.get(name).ok_or(format!("missing field `{name}`"))?;
    Ok(String::from(value.as_str().ok_or("not a string")?))
}

fn optional_text(record: &serde_json::Map<String, Value>, name: &str) -> Result<Option<String>, String> {
    match record.get(name) {
        Some(value) => Ok(option_string(String::from(
            value.as_str().ok_or("not a string")?,
        ))),
        None => Ok(None),
    }
}

fn texts(value: &Value) -> Result<Vec<String>, String> {
    let mut out = Vec::new();
    for item in value.as_array().ok_or("not a list")? {
        out.push(String::from(item.as_str().ok_or("not a string")?));
    }
    Ok(out)
}

fn list(record: &serde_json::Map<String, Value>, name: &str) -> Result<Vec<String>, String> {
    match record.get(name) {
        Some(value) => texts(value),
        None => Ok(Vec::new()),
    }
}

fn text_or_list(record: &serde_json::Map<String, Value>, name: &str) -> Result<Vec<String>, String> {
    match record.get(name) {
        Some(Value::String(s)) => Ok(str_or_seq(StrOrSeq::One(s.clone()))),
        Some(value) => Ok(str_or_seq(StrOrSeq::Many(texts(value)?))),
        None => Ok(Vec::new()),
    }
}

fn count(record: &serde_json::Map<String, Value>, name: &str) -> Result<u32, String> {
    match record.get(name).ok_or(format!("missing field `{name}`"))? {
        Value::String(s) => uint_or_str(UintOrStr::Str(s.clone())),
        value => uint_or_str(UintOrStr::Uint(value.as_u64().ok_or("not a count")?)),
    }
}

fn flag(record: &serde_json::Map<String, Value>, name: &str) -> Result<bool, String> {
    match record.get(name) {
        Some(value) => value.as_bool().ok_or(String::from("not a flag")),
        None => Ok(false),
    }
}

fn day(record: &serde_json::Map<String, Value>, name: &str) -> Result<Option<Day>, String> {
    match record.get(name) {
        Some(value) => {
            let text = value.as_str().ok_or("not a string")?;
            let read = NaiveDate::parse_from_str(text, "%Y-%m-%d").map_err(|e| e.to_string())?;
            Ok(Some(
                Day::from_ymd_opt(read.year(), read.month(), read.day()).ok_or("out of range")?,
            ))
        }
        None => Ok(None),
    }
}

fn read_version(text_: &str) -> Result<Version, String> {
    let record = fields(&parse(text_)?, &["version", "repo"])?;
    Version::build(&text(&record, "version")?, &text(&record, "repo")?).map_err(|e| e.to_string())
}

fn read_source_hash(text_: &str) -> Result<SourceHash, String> {
    let record = fields(&parse(text_)?, &["source-hash"])?;
    SourceHash::build(&text(&record, "source-hash")?).map_err(|e| e.to_string())
}

fn identifier(value: &Value) -> Result<Identifier, String> {
    let record = fields(value, &["scheme", "text"])?;
    Ok(Identifier {
        scheme: text(&record, "scheme")?,
        text: text(&record, "text")?,
    })
}

fn read_identifier(text_: &str) -> Result<Identifier, String> {
    let read = identifier(&parse(text_)?)?;
    Identifier::build(&read.scheme, &read.text).map_err(|e| e.to_string())
}

fn identifiers(record: &serde_json::Map<String, Value>) -> Result<Vec<Identifier>, String> {
    let mut out = Vec::new();
    if let Some(value) = record.get("identifier") {
        for item in value.as_array().ok_or("not a list")? {
            out.push(identifier(item)?);
        }
    }
    Ok(out)
}

fn publication(value: &Value) -> Result<Publication, String> {
    let record = fields(
        value,
        &[
            "venue",
            "urls",
            "notes",
            "paid",
            "submitted",
            "accepted",
            "abandoned",
            "withdrawn",
            "rejected",
            "self-published",
            "published",
        ],
    )?;
    Publication::build(
        &text(&record, "venue")?,
        list(&record, "urls")?,
        optional_text(&record, "notes")?.as_deref(),
        optional_text(&record, "paid")?.as_deref(),
        day(&record, "submitted")?,
        day(&record, "accepted")?,
        day(&record, "abandoned")?,
        day(&record, "withdrawn")?,
        day(&record, "rejected")?,
        day(&record, "self-published")?,
        day(&record, "published")?,
    )
    .map_err(|e| e.to_string())
}

fn read_publication(text_: &str) -> Result<Publication, String> {
    publication(&parse(text_)?)
}

fn publications(value: Option<&Value>) -> Result<Publications, String> {
    let mut out = Vec::new();
    if let Some(value) = value {
        for item in value.as_array().ok_or("not a list")? {
            out.push(publication(item)?);
        }
    }
    Publications::build(out).map_err(|e| e.to_string())
}

fn read_publications(text_: &str) -> Result<Publications, String> {
    publications(Some(&parse(text_)?))
}

const INPUT_FIELDS: [&str; 7] = [
    "title",
    "author",
    "date",
    "notes",
    "finished",
    "publications",
    "identifier",
];

fn read_input_metadata(text_: &str) -> Result<InputMetadata, String> {
    let record = fields(&parse(text_)?, &INPUT_FIELDS)?;
    InputMetadata::build(
        optional_text(&record, "title")?.as_deref(),
        text_or_list(&record, "author")?,
        optional_text(&record, "date")?.as_deref(),
        optional_text(&record, "notes")?.as_deref(),
        flag(&record, "finished")?,
        publications(record.get("publications"))?,
        identifiers(&record)?,
    )
    .map_err(|e| e.to_string())
}

fn output_metadata(value: &Value) -> Result<OutputMetadata, String> {
    let mut known = Vec::from(INPUT_FIELDS);
    known.extend([
        "wordcount",
        "poetry-lines",
        "lang",
        "version",
        "repo",
        "source-hash",
        "parsed-dates",
    ]);
    let record = fields(value, &known)?;
    OutputMetadata::build(
        optional_text(&record, "title")?.as_deref(),
        text_or_list(&record, "author")?,
        optional_text(&record, "date")?.as_deref(),
        optional_text(&record, "notes")?.as_deref(),
        flag(&record, "finished")?,
        publications(record.get("publications"))?,
        identifiers(&record)?,
        count(&record, "wordcount")?,
        count(&record, "poetry-lines")?,
        &text(&record, "lang")?,
        &text(&record, "version")?,
        &text(&record, "repo")?,
        &text(&record, "source-hash")?,
        ParsedDateSet::build(list(&record, "parsed-dates")?).map_err(|e| e.to_string())?,
    )
    .map_err(|e| e.to_string())
}

fn read_output_metadata(text_: &str) -> Result<OutputMetadata, String> {
    output_metadata(&parse(text_)?)
}

fn read_metadata_map(text_: &str) -> Result<MetadataMap, String> {
    let value = parse(text_)?;
    let mut entries = Vec::new();
    for (target, item) in value.as_object().ok_or("not an object")? {
        entries.push((target.clone(), output_metadata(item)?));
    }
    MetadataMap::build(entries).map_err(|e| e.to_string())
}

#[test]
fn metadata_test_deserialization() {
    {
    let v: Version = read_version(
        r#"{
"repo": "bar",
"version": "foo"
}"#,
    )
    .unwrap();
    assert_eq!(v.version, "foo");
    assert_eq!(v.repo, "bar");

    assert!(read_version(
        r#"{
"repo": "bar",
"version": ""
}"#
    )
    .is_err());
    assert!(read_version(
        r#"{
"repo": "",
"version": "foo"
}"#
    )
    .is_err());
    assert!(read_version(
        r#"{
"repo": "",
"version": ""
}"#
    )
    .is_err());
    }

    {
    let h: SourceHash = read_source_hash(
        r#"{
"source-hash": "foo"
}"#,
    )
    .unwrap();
    assert_eq!(h.source_hash, "foo");

    assert!(read_source_hash(
        r#"{
"source-hash": "",
}"#
    )
    .is_err());
    }

    {
    let i: Identifier = read_identifier(
        r#"{
"scheme": "foo",
"text": "bar"
}"#,
    )
    .unwrap();
    assert_eq!(i.scheme, "foo");
    assert_eq!(i.text, "bar");

    assert!(read_identifier(
        r#"{
"scheme": "",
"text": "bar"
}"#
    )
    .is_err());
    assert!(read_identifier(
        r#"{
"scheme": "foo",
"text": ""
}"#
    )
    .is_err());
    assert!(read_identifier(
        r#"{
"scheme": "",
"text": ""
}"#
    )
    .is_err());
    }

    {
    let mm = read_metadata_map(
        r#"{
"bar": {
    "lang": "quux1",
    "parsed-dates": [],
    "poetry-lines": 8,
    "repo": "quux3",
    "source-hash": "quux4",
    "version": "quux2",
    "wordcount": 20
},
"foo": {
    "lang": "blah1",
    "parsed-dates": [],
    "poetry-lines": 5,
    "repo": "blah3",
    "source-hash": "blah4",
    "version": "blah2",
    "wordcount": 10
}
}"#,
    )
    .unwrap();

    let m = mm.data().get("foo").unwrap();
    assert!(m.title().is_none());
    assert!(m.authors().is_empty());
    assert!(m.date().is_none());
    assert!(m.notes().is_none());
    assert!(!m.finished());
    assert!(m.publications().is_empty());
    assert!(m.identifiers().is_empty());
    assert_eq!(m.wordcount(), 10);
    assert_eq!(m.poetry_lines(), 5);
    assert_eq!(m.lang(), "blah1");
    assert_eq!(m.version(), "blah2");
    assert_eq!(m.repo(), "blah3");
    assert_eq!(m.source_hash(), "blah4");
    assert!(m.parsed_dates().dates().is_empty());

    let m = mm.data().get("bar").unwrap();
    assert!(m.title().is_none());
    assert!(m.authors().is_empty());
    assert!(m.date().is_none());
    assert!(m.notes().is_none());
    assert!(!m.finished());
    assert!(m.publications().is_empty());
    assert!(m.identifiers().is_empty());
    assert_eq!(m.wordcount(), 20);
    assert_eq!(m.poetry_lines(), 8);
    assert_eq!(m.lang(), "quux1");
    assert_eq!(m.version(), "quux2");
    assert_eq!(m.repo(), "quux3");
    assert_eq!(m.source_hash(), "quux4");
    assert!(m.parsed_dates().dates().is_empty());
    }
}

#[test]
fn test_deserialization_minimal() {
    let m = read_input_metadata(r#"{}"#).unwrap();
    assert!(m.title().is_none());
    assert!(m.authors().is_empty());
    assert!(m.date().is_none());
    assert!(m.notes().is_none());
    assert!(!m.finished());
    assert!(m.publications().is_empty());
    assert!(m.identifiers().is_empty());
}

#[test]
fn test_deserialization_conversions() {
    let m = read_input_metadata(
        r#"{
"title": "",
"date": "",
"notes": ""
}"#,
    )
    .unwrap();
    assert!(m.title().is_none());
    assert!(m.authors().is_empty());
    assert!(m.date().is_none());
    assert!(m.notes().is_none());
    assert!(!m.finished());
    assert!(m.publications().is_empty());
    assert!(m.identifiers().is_empty());
}

#[test]
fn metadata_test_deserialization_single_author() {
    {
    let m = read_input_metadata(r#"{"author": "foo"}"#).unwrap();
    assert!(m.title().is_none());
    assert_eq!(m.authors(), &["foo"]);
    assert!(m.date().is_none());
    assert!(m.notes().is_none());
    assert!(!m.finished());
    assert!(m.publications().is_empty());
    assert!(m.identifiers().is_empty());
    }

    {
    let m = read_output_metadata(
        r#"{
"author": "foo",
"lang": "blah1",
"parsed-dates": [],
"poetry-lines": 5,
"repo": "blah3",
"source-hash": "blah4",
"version": "blah2",
"wordcount": 10
}"#,
    )
    .unwrap();
    assert!(m.title().is_none());
    assert_eq!(m.authors(), &["foo"]);
    assert!(m.date().is_none());
    assert!(m.notes().is_none());
    assert!(!m.finished());
    assert!(m.publications().is_empty());
    assert!(m.identifiers().is_empty());
    assert_eq!(m.wordcount(), 10);
    assert_eq!(m.poetry_lines(), 5);
    assert_eq!(m.lang(), "blah1");
    assert_eq!(m.version(), "blah2");
    assert_eq!(m.repo(), "blah3");
    assert_eq!(m.source_hash(), "blah4");
    assert!(m.parsed_dates().dates().is_empty());
    }
}

#[test]
fn test_deserialization_str_numbers() {
    let m = read_output_metadata(
        r#"{
"author": "foo",
"lang": "blah1",
"parsed-dates": [],
"poetry-lines": "5",
"repo": "blah3",
"source-hash": "blah4",
"version": "blah2",
"wordcount": "10"
}"#,
    )
    .unwrap();
    assert!(m.title().is_none());
    assert_eq!(m.authors(), &["foo"]);
    assert!(m.date().is_none());
    assert!(m.notes().is_none());
    assert!(!m.finished());
    assert!(m.publications().is_empty());
    assert!(m.identifiers().is_empty());
    assert_eq!(m.wordcount(), 10);
    assert_eq!(m.poetry_lines(), 5);
    assert_eq!(m.lang(), "blah1");
    assert_eq!(m.version(), "blah2");
    assert_eq!(m.repo(), "blah3");
    assert_eq!(m.source_hash(), "blah4");
    assert!(m.parsed_dates().dates().is_empty());
}

#[test]
fn metadata_test_deserialization_full() {
    {
    let m = read_input_metadata(
        r#"{
        "author": [
            "bar",
            "baz"
        ],
        "date": "quux",
        "finished": true,
        "identifier": [
            {
                "scheme": "a",
                "text": "b"
            },
            {
                "scheme": "c",
                "text": "d"
            }
        ],
        "notes": "blah",
        "publications": [
            {
                "accepted": "2023-05-17",
                "notes": "baz",
                "paid": "quux",
                "published": "2023-05-18",
                "submitted": "2023-05-16",
                "urls": [
                    "foo",
                    "bar"
                ],
                "venue": "Book"
            },
            {
                "accepted": "2023-05-20",
                "notes": "baz2",
                "paid": "quux2",
                "submitted": "2023-05-19",
                "urls": [
                    "foo2",
                    "bar2"
                ],
                "venue": "Book2"
            }
        ],
        "title": "foo"
    }"#,
    )
    .unwrap();

    assert_eq!(m.title().unwrap(), "foo");
    assert_eq!(m.authors(), &["bar", "baz"]);
    assert_eq!(m.date().unwrap(), "quux");
    assert_eq!(m.notes().unwrap(), "blah");
    assert!(m.finished());

    let ps = m.publications();
    assert_eq!(ps.publications().len(), 2);
    assert!(ps.active());
    assert_eq!(ps.highest_active_state(), Some(State::Published));

    let p = &ps.publications()[0];
    assert_eq!(p.venue(), "Book");
    assert_eq!(p.submitted().copied().unwrap(), ymd(2023, 5, 16));
    assert_eq!(p.accepted().copied().unwrap(), ymd(2023, 5, 17));
    assert!(p.rejected().is_none());
    assert!(p.withdrawn().is_none());
    assert!(p.abandoned().is_none());
    assert!(p.self_published().is_none());
    assert_eq!(p.published().copied().unwrap(), ymd(2023, 5, 18));
    assert_eq!(p.urls(), &["foo", "bar"]);
    assert_eq!(p.notes().unwrap(), "baz");
    assert_eq!(p.paid().unwrap(), "quux");

    let p = &ps.publications()[1];
    assert_eq!(p.venue(), "Book2");
    assert_eq!(p.submitted().copied().unwrap(), ymd(2023, 5, 19));
    assert_eq!(p.accepted().copied().unwrap(), ymd(2023, 5, 20));
    assert!(p.rejected().is_none());
    assert!(p.withdrawn().is_none());
    assert!(p.abandoned().is_none());
    assert!(p.self_published().is_none());
    assert!(p.published().is_none());
    assert_eq!(p.urls(), &["foo2", "bar2"]);
    assert_eq!(p.notes().unwrap(), "baz2");
    assert_eq!(p.paid().unwrap(), "quux2");

    assert_eq!(
        m.identifiers(),
        &[
            Identifier::build("a", "b").unwrap(),
            Identifier::build("c", "d").unwrap()
        ]
    );
    }

    {
    let m = read_output_metadata(
        r#"{
            "author": [
                "bar",
                "baz"
            ],
            "date": "quux",
            "finished": true,
            "identifier": [
                {
                    "scheme": "a",
                    "text": "b"
                },
                {
                    "scheme": "c",
                    "text": "d"
                }
            ],
            "lang": "blah1",
            "notes": "blah",
            "parsed-dates": [
                "2020",
                "2020/01"
            ],
            "poetry-lines": 5,
            "publications": [
                {
                    "accepted": "2023-05-17",
                    "notes": "baz",
                    "paid": "quux",
                    "published": "2023-05-18",
                    "submitted": "2023-05-16",
                    "urls": [
                        "foo",
                        "bar"
                    ],
                    "venue": "Book"
                },
                {
                    "accepted": "2023-05-20",
                    "notes": "baz2",
                    "paid": "quux2",
                    "submitted": "2023-05-19",
                    "urls": [
                        "foo2",
                        "bar2"
                    ],
                    "venue": "Book2"
                }
            ],
            "repo": "blah3",
            "source-hash": "blah4",
            "title": "foo",
            "version": "blah2",
            "wordcount": 10
        }"#,
    )
    .unwrap();

    assert_eq!(m.title().unwrap(), "foo");
    assert_eq!(m.authors(), &["bar", "baz"]);
    assert_eq!(m.date().unwrap(), "quux");
    assert_eq!(m.notes().unwrap(), "blah");
    assert!(m.finished());

    let ps = m.publications();
    assert_eq!(ps.publications().len(), 2);
    assert!(ps.active());
    assert_eq!(ps.highest_active_state(), Some(State::Published));

    let p = &ps.publications()[0];
    assert_eq!(p.venue(), "Book");
    assert_eq!(p.submitted().copied().unwrap(), ymd(2023, 5, 16));
    assert_eq!(p.accepted().copied().unwrap(), ymd(2023, 5, 17));
    assert!(p.rejected().is_none());
    assert!(p.withdrawn().is_none());
    assert!(p.abandoned().is_none());
    assert!(p.self_published().is_none());
    assert_eq!(p.published().copied().unwrap(), ymd(2023, 5, 18));
    assert_eq!(p.urls(), &["foo", "bar"]);
    assert_eq!(p.notes().unwrap(), "baz");
    assert_eq!(p.paid().unwrap(), "quux");

    let p = &ps.publications()[1];
    assert_eq!(p.venue(), "Book2");
    assert_eq!(p.submitted().copied().unwrap(), ymd(2023, 5, 19));
    assert_eq!(p.accepted().copied().unwrap(), ymd(2023, 5, 20));
    assert!(p.rejected().is_none());
    assert!(p.withdrawn().is_none());
    assert!(p.abandoned().is_none());
    assert!(p.self_published().is_none());
    assert!(p.published().is_none());
    assert_eq!(p.urls(), &["foo2", "bar2"]);
    assert_eq!(p.notes().unwrap(), "baz2");
    assert_eq!(p.paid().unwrap(), "quux2");

    assert_eq!(
        m.identifiers(),
        &[
            Identifier::build("a", "b").unwrap(),
            Identifier::build("c", "d").unwrap()
        ]
    );

    assert_eq!(m.wordcount(), 10);
    assert_eq!(m.poetry_lines(), 5);
    assert_eq!(m.lang(), "blah1");
    assert_eq!(m.version(), "blah2");
    assert_eq!(m.repo(), "blah3");
    assert_eq!(m.source_hash(), "blah4");

    assert_eq!(m.parsed_dates().dates(), &["2020", "2020/01"]);
    }
}

#[test]
fn test_deserialization_good_minimal() {
    let p: Publication = read_publication(
        r#"{
"notes": "",
"submitted": "2023-05-16",
"venue": "foo"
}"#,
    )
    .unwrap();
    assert_eq!(p.venue(), "foo");
    assert!(p.urls().is_empty());
    assert!(p.notes().is_none());
    assert!(p.paid().is_none());
    assert_eq!(p.submitted().copied().unwrap(), ymd(2023, 5, 16));
    assert!(p.accepted().is_none());
    assert!(p.rejected().is_none());
    assert!(p.withdrawn().is_none());
    assert!(p.abandoned().is_none());
    assert!(p.self_published().is_none());
    assert!(p.published().is_none());
    assert_eq!(p.dates(), [date(State::Submitted, (2023, 5, 16))]);
    assert_eq!(p.latest(), date(State::Submitted, (2023, 5, 16)));
    assert!(p.active());
}

#[test]
fn test_deserialization_good_complex() {
    let p: Publication = read_publication(
        r#"{
"accepted": "2023-05-17",
"notes": "baz",
"paid": "quux",
"published": "2023-05-18",
"submitted": "2023-05-16",
"urls": [
    "foo",
    "bar"
],
"venue": "foo"
}"#,
    )
    .unwrap();
    assert_eq!(p.venue(), "foo");
    assert_eq!(p.urls(), &["foo", "bar"]);
    assert_eq!(p.notes().unwrap(), "baz");
    assert_eq!(p.paid().unwrap(), "quux");
    assert_eq!(p.submitted().copied().unwrap(), ymd(2023, 5, 16));
    assert_eq!(p.accepted().copied().unwrap(), ymd(2023, 5, 17));
    assert!(p.rejected().is_none());
    assert!(p.withdrawn().is_none());
    assert!(p.abandoned().is_none());
    assert!(p.self_published().is_none());
    assert_eq!(p.published().copied().unwrap(), ymd(2023, 5, 18));
    assert_eq!(
        p.dates(),
        [
            date(State::Submitted, (2023, 5, 16)),
            date(State::Accepted, (2023, 5, 17)),
            date(State::Published, (2023, 5, 18))
        ]
    );
    assert_eq!(p.latest(), date(State::Published, (2023, 5, 18)));
    assert!(p.active());
}

#[test]
fn test_deserialization_bad_no_venue() {
    assert!(read_publication(r#"{"submitted": "2023-05-16"}"#).is_err());
}

#[test]
fn test_deserialization_bad_too_many_end_dates() {
    assert!(read_publication(
        r#"{
"published": "2023-05-16",
"rejected": "2023-05-16",
"venue": "foo"
}"#,
    )
    .is_err());
}

#[test]
fn publications_test_deserialization_good() {
    let ps: Publications = read_publications(
        r#"[
{
    "accepted": "2023-05-17",
    "notes": "baz",
    "paid": "quux",
    "published": "2023-05-18",
    "submitted": "2023-05-16",
    "urls": [
        "foo",
        "bar"
    ],
    "venue": "Book"
},
{
    "accepted": "2023-05-20",
    "notes": "baz2",
    "paid": "quux2",
    "submitted": "2023-05-19",
    "urls": [
        "foo2",
        "bar2"
    ],
    "venue": "Book2"
}
]"#,
    )
    .unwrap();

    assert_eq!(ps.publications().len(), 2);
    assert!(ps.active());
    assert_eq!(ps.highest_active_state(), Some(State::Published));

    let p = &ps.publications()[0];
    assert_eq!(p.venue(), "Book");
    assert_eq!(p.submitted().copied().unwrap(), ymd(2023, 5, 16));
    assert_eq!(p.accepted().copied().unwrap(), ymd(2023, 5, 17));
    assert!(p.rejected().is_none());
    assert!(p.withdrawn().is_none());
    assert!(p.abandoned().is_none());
    assert!(p.self_published().is_none());
    assert_eq!(p.published().copied().unwrap(), ymd(2023, 5, 18));
    assert_eq!(p.urls(), &["foo", "bar"]);
    assert_eq!(p.notes().unwrap(), "baz");
    assert_eq!(p.paid().unwrap(), "quux");

    let p = &ps.publications()[1];
    assert_eq!(p.venue(), "Book2");
    assert_eq!(p.submitted().copied().unwrap(), ymd(2023, 5, 19));
    assert_eq!(p.accepted().copied().unwrap(), ymd(2023, 5, 20));
    assert!(p.rejected().is_none());
    assert!(p.withdrawn().is_none());
    assert!(p.abandoned().is_none());
    assert!(p.self_published().is_none());
    assert!(p.published().is_none());
    assert_eq!(p.urls(), &["foo2", "bar2"]);
    assert_eq!(p.notes().unwrap(), "baz2");
    assert_eq!(p.paid().unwrap(), "quux2");
}

#[test]
fn test_deserialization_bad_nested() {
    assert!(read_publications(r#"[{"venue": "foo"}]"#).is_err());
}
