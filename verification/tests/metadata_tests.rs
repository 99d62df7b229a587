use markdown::calendar::Day;
use markdown::metadata::{
    is_false, Identifier, InputMetadata, InputMetadataBuilder, MetadataMap,
    OutputMetadataBuilder, ParsedDateSet, ParsedDates, SourceHash, Version,
};
use markdown::publications::{PublicationBuilder, Publications, State};

fn strings(items: &[&str]) -> Vec<String> {
    items.iter().map(|s| String::from(*s)).collect()
}

/// Reads the record `{"parsed-dates": [..]}`; no other field is accepted.
fn parsed_dates_from_json(text: &str) -> Result<ParsedDates, String> {
    let value: serde_json::Value = serde_json::from_str(text).map_err(|e| e.to_string())?;
    let object = value.as_object().ok_or("not an object")?;
    if object.keys().any(|k| k != "parsed-dates") {
        return Err(String::from("unknown field"));
    }
    let array = object
        .get("parsed-dates")
        .ok_or("missing field")?
        .as_array()
        .ok_or("not an array")?;
    let mut dates = Vec::new();
    for item in array {
        dates.push(String::from(item.as_str().ok_or("not a string")?));
    }
    let set = ParsedDateSet::build(dates).map_err(|e| e.to_string())?;
    ParsedDates::build(set).map_err(|e| e.to_string())
}

#[test]
fn metadata_test_build() {
    assert!(Version::build("", "bar").is_err());
    assert!(Version::build("foo", "").is_err());
    assert!(Version::build("", "").is_err());

    assert!(SourceHash::build("").is_err());

    assert!(Identifier::build("", "bar").is_err());
    assert!(Identifier::build("foo", "").is_err());
    assert!(Identifier::build("", "").is_err());
}

#[test]
fn test_bad() {
    assert!(ParsedDateSet::build(vec![String::from("foo")]).is_err());
    assert!(ParsedDateSet::build(vec![String::new()]).is_err());
}

#[test]
fn metadata_test_deserialization_good() {
    let pd = parsed_dates_from_json(
        r#"{
    "parsed-dates": [
        "2020/01/01",
        "2021",
        "2021/03",
        "2024/06/23"
    ]
}"#,
    )
    .unwrap();
    assert_eq!(pd.dates(), &["2020/01/01", "2021", "2021/03", "2024/06/23"]);
}

#[test]
fn test_deserialization_bad_invalid() {
    assert!(parsed_dates_from_json(
        r#"{
    "parsed-dates": [
        "2020/01/01 10:30:00"
    ]
}"#
    )
    .is_err());

    assert!(parsed_dates_from_json(
        r#"{
    "parsed-dates": [
        ""
    ]
}"#
    )
    .is_err());
}

#[test]
fn test_deserialization_bad_duplicates() {
    assert!(parsed_dates_from_json(
        r#"{
    "parsed-dates": [
        "2020/01/01",
        "2020/01/01"
    ]
}"#,
    )
    .is_err());
}

#[test]
fn test_deserialization_bad_unordered() {
    assert!(parsed_dates_from_json(
        r#"{
    "parsed-dates": [
        "2024/06/23",
        "2020/01/01"
    ]
}"#,
    )
    .is_err());
}

#[test]
fn records_keep_their_fields() {
    let v = Version::build("foo", "bar").unwrap();
    assert_eq!(v.version, "foo");
    assert_eq!(v.repo, "bar");
    let h = SourceHash::build("foo").unwrap();
    assert_eq!(h.source_hash, "foo");
    let i = Identifier::build("foo", "bar").unwrap();
    assert_eq!(i.scheme, "foo");
    assert_eq!(i.text, "bar");
}

#[test]
fn record_errors_name_their_fields() {
    assert_eq!(
        Version::build("", "").unwrap_err().to_string(),
        "version: must be non-empty\nrepo: must be non-empty"
    );
    assert_eq!(
        Version::build("1", "").unwrap_err().to_string(),
        "repo: must be non-empty"
    );
    assert_eq!(
        SourceHash::build("").unwrap_err().to_string(),
        "source_hash: must be non-empty"
    );
    assert_eq!(
        Identifier::build("", "x").unwrap_err().to_string(),
        "scheme: must be non-empty"
    );
    assert_eq!(
        ParsedDateSet::build(strings(&["2020", "20"])).unwrap_err().to_string(),
        "parsed_dates: all entries must be in YYYY, YYYY/MM or YYYY/MM/DD format"
    );
    assert_eq!(
        ParsedDateSet::build(strings(&["2021", "2020"])).unwrap_err().to_string(),
        "parsed_dates: elements must be unique and sorted"
    );
}

#[test]
fn dates_must_exist() {
    assert!(ParsedDateSet::valid_date("2020"));
    assert!(ParsedDateSet::valid_date("0000"));
    assert!(ParsedDateSet::valid_date("9999/12/31"));
    assert!(ParsedDateSet::valid_date("2020/02"));
    assert!(ParsedDateSet::valid_date("2020/02/29"));
    assert!(ParsedDateSet::valid_date("2000/02/29"));
    assert!(!ParsedDateSet::valid_date("1900/02/29"));
    assert!(!ParsedDateSet::valid_date("2021/02/29"));
    assert!(!ParsedDateSet::valid_date("2021/04/31"));
    assert!(!ParsedDateSet::valid_date("2021/13"));
    assert!(!ParsedDateSet::valid_date("2021/00"));
    assert!(!ParsedDateSet::valid_date("2021/01/00"));
    assert!(!ParsedDateSet::valid_date("2021/01/32"));
    assert!(!ParsedDateSet::valid_date("2021/1/1"));
    assert!(!ParsedDateSet::valid_date("2021-01-01"));
    assert!(!ParsedDateSet::valid_date("2021/01/"));
    assert!(!ParsedDateSet::valid_date("2021/"));
    assert!(!ParsedDateSet::valid_date("202"));
    assert!(!ParsedDateSet::valid_date("20211"));
    assert!(!ParsedDateSet::valid_date("２０２１"));
    assert!(!ParsedDateSet::valid_date(" 2021"));
    assert!(!ParsedDateSet::valid_date("2021\n"));
}

#[test]
fn date_sets_are_strictly_increasing() {
    assert!(ParsedDateSet::build(strings(&[])).is_ok());
    assert!(ParsedDateSet::build(strings(&["2020"])).is_ok());
    let set = ParsedDateSet::build(strings(&["2020", "2020/01", "2020/01/01", "2021"])).unwrap();
    assert_eq!(set.dates(), &["2020", "2020/01", "2020/01/01", "2021"]);
    assert!(ParsedDateSet::build(strings(&["2020/01", "2020"])).is_err());
    assert!(ParsedDateSet::build(strings(&["2020", "2021", "2021"])).is_err());
    assert!(ParsedDates::build(ParsedDateSet::default()).is_ok());
}

#[test]
fn input_metadata_builder() {
    let m = InputMetadata::default();
    assert!(m.title().is_none());
    assert!(m.authors().is_empty());
    assert!(m.date().is_none());
    assert!(m.notes().is_none());
    assert!(!m.finished());
    assert!(m.publications().is_empty());
    assert!(m.identifiers().is_empty());

    let m = InputMetadataBuilder::default()
        .title("foo")
        .authors(vec![String::from("bar"), String::from("baz")])
        .date("quux")
        .notes("blah")
        .finished(true)
        .publications(
            Publications::build(vec![PublicationBuilder::default()
                .venue("Book")
                .submitted(Day::from_ymd_opt(2023, 5, 16).unwrap())
                .build()
                .unwrap()])
            .unwrap(),
        )
        .identifiers(vec![
            Identifier::build("a", "b").unwrap(),
            Identifier::build("c", "d").unwrap(),
        ])
        .build()
        .unwrap();
    assert_eq!(m.title().unwrap(), "foo");
    assert_eq!(m.authors(), &["bar", "baz"]);
    assert_eq!(m.date().unwrap(), "quux");
    assert_eq!(m.notes().unwrap(), "blah");
    assert!(m.finished());
    assert_eq!(
        m.publications().highest_active_state(),
        Some(State::Submitted)
    );
    assert_eq!(m.identifiers().len(), 2);
    assert_eq!(m.identifiers()[1].scheme, "c");

    assert_eq!(
        InputMetadataBuilder::default()
            .title("")
            .authors(vec![String::new()])
            .date("")
            .notes("")
            .identifiers(vec![
                Identifier::build("a", "b").unwrap(),
                Identifier {
                    scheme: String::new(),
                    text: String::new(),
                },
            ])
            .build()
            .unwrap_err(),
        "title: must be non-empty\nauthors: each element must be non-empty\n\
date: must be non-empty\nnotes: must be non-empty\n\
identifiers[1].scheme: must be non-empty\nidentifiers[1].text: must be non-empty"
    );
    assert!(InputMetadataBuilder::default().validate().is_ok());
    assert!(InputMetadataBuilder::default().title("").validate().is_err());
}

#[test]
fn output_metadata_builder() {
    let full = |b: &mut OutputMetadataBuilder| {
        b.wordcount(10)
            .poetry_lines(2)
            .lang("en-GB")
            .version("1")
            .repo("r")
            .source_hash("h")
            .build()
    };
    let m = full(OutputMetadataBuilder::default()
        .title("t")
        .parsed_dates(ParsedDateSet::build(strings(&["2020", "2021/02"])).unwrap()))
    .unwrap();
    assert_eq!(m.title().unwrap(), "t");
    assert_eq!(m.wordcount(), 10);
    assert_eq!(m.poetry_lines(), 2);
    assert_eq!(m.lang(), "en-GB");
    assert_eq!(m.version(), "1");
    assert_eq!(m.repo(), "r");
    assert_eq!(m.source_hash(), "h");
    assert_eq!(m.parsed_dates().dates(), &["2020", "2021/02"]);
    assert!(m.authors().is_empty());
    assert!(!m.finished());

    assert_eq!(
        OutputMetadataBuilder::default().build().unwrap_err(),
        "lang: must be non-empty\nversion: must be non-empty\n\
repo: must be non-empty\nsource_hash: must be non-empty"
    );
    assert_eq!(
        OutputMetadataBuilder::default()
            .lang("l")
            .version("v")
            .repo("r")
            .source_hash("h")
            .build()
            .unwrap_err(),
        "`wordcount` must be initialized"
    );
    assert_eq!(
        OutputMetadataBuilder::default()
            .lang("l")
            .version("v")
            .repo("r")
            .source_hash("h")
            .wordcount(1)
            .build()
            .unwrap_err(),
        "`poetry_lines` must be initialized"
    );
    assert!(OutputMetadataBuilder::default()
        .lang("l")
        .version("v")
        .repo("r")
        .source_hash("h")
        .validate()
        .is_ok());

    let a = full(OutputMetadataBuilder::default().title("a")).unwrap();
    let b = full(OutputMetadataBuilder::default().title("b")).unwrap();
    let c = full(OutputMetadataBuilder::default().title("c")).unwrap();
    let map = MetadataMap::build(vec![
        (String::from("//z"), a),
        (String::from("//m"), b),
        (String::from("//z"), c),
    ])
    .unwrap();
    assert_eq!(map.data().len(), 2);
    assert_eq!(map.data().name_at(0), "//m");
    assert_eq!(map.data().name_at(1), "//z");
    assert_eq!(map.data().value_at(1).title().unwrap(), "c");
    assert_eq!(map.data().get("//m").unwrap().title().unwrap(), "b");
    assert!(map.data().get("//q").is_none());
    assert!(MetadataMap::build(vec![]).is_ok());
}

#[test]
fn false_is_left_out() {
    assert!(is_false(&false));
    assert!(!is_false(&true));
}
