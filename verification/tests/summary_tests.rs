use markdown::calendar::Day;
use markdown::group_summary::{
    columns, sanitize, should_include, CountColumn, Filter, Getter, PartialFilter, Row, Sorter,
    TextColumn,
};
use markdown::metadata::{OutputMetadata, OutputMetadataBuilder, ParsedDateSet};
use markdown::publications::{PublicationBuilder, Publications};

fn row(target: &str, title: &str, date: &str, wordcount: u32) -> Row {
    Row::new(
        target, title, "An Author", "May", date, wordcount, 3, "yes", "submitted", "v1", "ok",
    )
}

fn targets(rows: &Vec<Row>) -> Vec<String> {
    rows.iter().map(|r| String::from(r.target())).collect()
}

fn metadata(version: &str, publications: Publications) -> OutputMetadata {
    OutputMetadataBuilder::default()
        .title("A\nTitle")
        .authors(vec![String::from("A. Writer"), String::from("B. Writer")])
        .date("May\n2020")
        .publications(publications)
        .wordcount(1234)
        .poetry_lines(5)
        .lang("en-GB")
        .version(version)
        .repo("r")
        .source_hash("h")
        .parsed_dates(
            ParsedDateSet::build(vec![String::from("2020"), String::from("2020/05")]).unwrap(),
        )
        .build()
        .unwrap()
}

#[test]
fn row_accessors_and_getters() {
    let r = Row::new("t", "ti", "au", "rd", "d", 12, 3, "yes", "p", "v", "s");
    assert_eq!(r.target(), "t");
    assert_eq!(r.title(), "ti");
    assert_eq!(r.author(), "au");
    assert_eq!(r.raw_date(), "rd");
    assert_eq!(r.date(), "d");
    assert_eq!(r.wordcount(), 12);
    assert_eq!(r.poetry_lines(), 3);
    assert_eq!(r.finished(), "yes");
    assert_eq!(r.publication(), "p");
    assert_eq!(r.version(), "v");
    assert_eq!(r.status(), "s");
    let shown: Vec<String> = columns().iter().map(|g| g.to_string(&r)).collect();
    assert_eq!(
        shown,
        vec!["t", "ti", "au", "rd", "d", "12", "3", "yes", "p", "v", "s"]
    );
    let names: Vec<String> = columns().iter().map(|g| g.name()).collect();
    assert_eq!(
        names,
        vec![
            "target",
            "title",
            "author",
            "raw date",
            "date",
            "wordcount",
            "poetry lines",
            "finished",
            "publication",
            "version",
            "status"
        ]
    );
    assert_eq!(Getter::Int(CountColumn::Wordcount).to_string(&r), "12");
    assert_eq!(
        Getter::Int(CountColumn::PoetryLines).to_string(&row("t", "", "", 0)),
        "3"
    );
    assert_eq!(Getter::Int(CountColumn::Wordcount).to_string(&row("t", "", "", 0)), "0");
    assert_eq!(
        Getter::Int(CountColumn::Wordcount).to_string(&row("t", "", "", u32::MAX)),
        "4294967295"
    );
}

#[test]
fn sanitize_keeps_text_on_one_line() {
    assert_eq!(sanitize("a\nb\n"), "a\\nb\\n");
    assert_eq!(sanitize(""), "");
    assert_eq!(sanitize("no feed \\n"), "no feed \\n");
}

#[test]
fn row_from_metadata() {
    let r = Row::from_metadata("//a:b", &metadata("v1", Publications::default()));
    assert_eq!(r.target(), "//a:b");
    assert_eq!(r.title(), "A\\nTitle");
    assert_eq!(r.author(), "A. Writer, B. Writer");
    assert_eq!(r.raw_date(), "May\\n2020");
    assert_eq!(r.date(), "2020, 2020/05");
    assert_eq!(r.wordcount(), 1234);
    assert_eq!(r.poetry_lines(), 5);
    assert_eq!(r.finished(), "no");
    assert_eq!(r.publication(), "");
    assert_eq!(r.version(), "v1");
    assert_eq!(r.status(), "ok");

    let day = |d: u32| Day::from_ymd_opt(2023, 5, d).unwrap();
    let active = Publications::build(vec![
        PublicationBuilder::default()
            .venue("a")
            .self_published(day(1))
            .build()
            .unwrap(),
        PublicationBuilder::default()
            .venue("b")
            .submitted(day(1))
            .build()
            .unwrap(),
    ])
    .unwrap();
    let r = Row::from_metadata("t", &metadata("1-dirty", active));
    assert_eq!(r.publication(), "self-published");
    assert_eq!(r.status(), "DIRTY");

    let inactive = Publications::build(vec![PublicationBuilder::default()
        .venue("a")
        .submitted(day(1))
        .rejected(day(2))
        .build()
        .unwrap()])
    .unwrap();
    let r = Row::from_metadata("t", &metadata("1", inactive));
    assert_eq!(r.publication(), "attempted");
}

#[test]
fn filters_match_with_regular_expressions() {
    let title = Getter::String(TextColumn::Title);
    let f = Filter::build(title, "^Foo.*r$").unwrap();
    assert!(f.matches(&row("t", "Foo bar", "", 1)));
    assert!(!f.matches(&row("t", "A Foo bar", "", 1)));
    assert!(!f.matches(&row("Foo bar", "x", "", 1)));
    let count = Filter::build(Getter::Int(CountColumn::Wordcount), "^1[0-9]$").unwrap();
    assert!(count.matches(&row("t", "", "", 12)));
    assert!(!count.matches(&row("t", "", "", 120)));

    let copy = f.clone();
    assert!(copy.matches(&row("t", "Foo bar", "", 1)));
    assert!(!copy.matches(&row("t", "A Foo bar", "", 1)));

    assert_eq!(Filter::build(title, "").err().unwrap(), "regex must be non-empty");
    assert!(Filter::build(title, "foo(bar").is_err());
    assert!(!Filter::build(title, "foo(bar").err().unwrap().is_empty());
    assert!(PartialFilter::new(title).parse("o+").unwrap().matches(&row("t", "foo", "", 1)));
    assert!(PartialFilter::new(title).parse("").is_err());
    assert!(PartialFilter::new(title).parse("[").is_err());
}

#[test]
fn rows_are_included_and_excluded() {
    let title = Getter::String(TextColumn::Title);
    let target = Getter::String(TextColumn::Target);
    let foo = || vec![Filter::build(title, "foo").unwrap()];
    let foo_or_bar = vec![
        Filter::build(title, "foo").unwrap(),
        Filter::build(target, "bar").unwrap(),
    ];
    let none: Vec<Filter> = Vec::new();
    let r = row("t", "a foo", "", 1);
    assert!(should_include(&r, &none, &none));
    assert!(should_include(&r, &foo(), &none));
    assert!(!should_include(&r, &none, &foo()));
    assert!(!should_include(&r, &foo(), &foo()));
    assert!(should_include(&row("bar", "x", "", 1), &foo_or_bar, &none));
    assert!(!should_include(&row("baz", "x", "", 1), &foo_or_bar, &none));
    assert!(!should_include(&row("bar", "x", "", 1), &foo(), &none));
    assert!(should_include(&row("baz", "x", "", 1), &none, &foo_or_bar));
}

#[test]
fn sorter_orders_rows() {
    let make = || {
        vec![
            row("b", "Zeta", "2021, 2019", 30),
            row("a", "alpha", "2020", 10),
            row("d", "Alpha", "2018, 2022", 20),
            row("c", "beta", "", 10),
        ]
    };
    let title = Getter::String(TextColumn::Title);

    let mut data = make();
    Sorter::new("title", title, false).sort(&mut data);
    assert_eq!(targets(&data), vec!["a", "d", "c", "b"]);

    let mut data = make();
    Sorter::new("title", title, true).sort(&mut data);
    assert_eq!(targets(&data), vec!["b", "c", "d", "a"]);

    let mut data = make();
    Sorter::new("wordcount", Getter::Int(CountColumn::Wordcount), false).sort(&mut data);
    assert_eq!(targets(&data), vec!["a", "c", "d", "b"]);

    let mut data = make();
    Sorter::new("wordcount", Getter::Int(CountColumn::Wordcount), true).sort(&mut data);
    assert_eq!(targets(&data), vec!["b", "d", "c", "a"]);

    let date = Getter::String(TextColumn::Date);
    let mut data = make();
    Sorter::new("date", date, false).sort(&mut data);
    assert_eq!(targets(&data), vec!["c", "d", "b", "a"]);

    let mut data = make();
    Sorter::new("date", date, true).sort(&mut data);
    // The keys are "2021, 2019", "2020", "2022, 2018" and "".
    assert_eq!(targets(&data), vec!["d", "b", "a", "c"]);

    let mut data: Vec<Row> = Vec::new();
    Sorter::new("target", Getter::String(TextColumn::Target), true).sort(&mut data);
    assert!(data.is_empty());
}

#[test]
fn sorter_keys() {
    let r = row("t", "MiXed Ünï", " 2021 ,2019,  2020/05", 1);
    let by_title = Sorter::new("title", Getter::String(TextColumn::Title), false);
    assert_eq!(by_title.string_key(TextColumn::Title, &r), "mixed Ünï");
    assert_eq!(
        by_title.string_key(TextColumn::Date, &r),
        " 2021 ,2019,  2020/05"
    );
    let by_date = Sorter::new("date", Getter::String(TextColumn::Date), false);
    assert_eq!(
        by_date.string_key(TextColumn::Date, &r),
        "2019, 2020/05, 2021"
    );
    let latest_first = Sorter::new("date", Getter::String(TextColumn::Date), true);
    assert_eq!(
        latest_first.string_key(TextColumn::Date, &r),
        "2021, 2020/05, 2019"
    );
    assert_eq!(by_date.string_key(TextColumn::Date, &row("t", "", "", 1)), "");
    assert_eq!(by_date.string_key(TextColumn::Date, &row("t", "", "b,,a", 1)), ", a, b");
}
