use chrono::NaiveDate;
use markdown::bazel::Label;
use markdown::labels::Dependencies;
use markdown::metadata::ParsedDateSet;
use markdown::preprocess::process_images;
use regex::Regex;

const LABELS: [&str; 40] = [
    "",
    "/",
    "//",
    "//:",
    ":",
    "::",
    "a",
    "a:",
    "a:b",
    ":a",
    ":a:",
    "::a",
    "a/b",
    "/a",
    "a/",
    "//a",
    "//a:",
    "//a:b",
    "//a:b:c",
    "//a::b",
    "//a/b",
    "//a/b:c/d",
    "//:a",
    "//:a/b",
    "///a",
    "///:a",
    "//a//b:c",
    "//a:b//c",
    "/:a",
    "/a:b",
    "//a b:c",
    "//a:b c",
    "//a:b)",
    "//a:b=c",
    "//a-.@_/B9:t%-@^_\"#$&'(*+,;<>?[]{|}~/.x",
    "//a:..",
    "//a:b/./c",
    "//é:b",
    "//a:é",
    "a\nb",
];

/// Reads a label with the pattern of the grammar and applies the rules to
/// what it finds: the checks first, then the defaults.
fn by_pattern(label: &str, current: &str) -> Option<(String, String)> {
    if label.is_empty() && current.is_empty() {
        return None;
    }
    let re = Regex::new(r"^((?P<absolute>//)(?P<package>[^:]*))?:?(?P<target>[^:]+)?$").unwrap();
    let captures = re.captures(label)?;
    let absolute = captures.name("absolute").is_some();
    let mut package = captures.name("package").map_or("", |m| m.as_str());
    let mut target = captures.name("target").map_or("", |m| m.as_str());
    Label::validate_package(current).ok()?;
    Label::validate_package(package).ok()?;
    Label::validate_target(target).ok()?;
    if package.is_empty() && target.is_empty() {
        return None;
    }
    if !package.is_empty() && target.is_empty() {
        target = package.split("/").last()?;
    }
    if !target.is_empty() && package.is_empty() && !absolute {
        package = current;
    }
    Some((String::from(package), String::from(target)))
}

#[test]
fn labels_are_read_as_the_pattern_reads_them() {
    let re = Regex::new(r"^((?P<absolute>//)(?P<package>[^:]*))?:?(?P<target>[^:]+)?$").unwrap();
    for label in LABELS {
        let read = Label::canonicalise(label, "cur/rent");
        // A label is malformed exactly when the pattern does not match it.
        let malformed = matches!(&read, Err(m) if m.starts_with("invalid label"));
        assert_eq!(malformed, !re.is_match(label), "{label:?}");
        for current in ["cur/rent", ""] {
            let found = Label::canonicalise(label, current)
                .ok()
                .map(|l| (String::from(l.package()), String::from(l.target())));
            assert_eq!(found, by_pattern(label, current), "{label:?} {current:?}");
        }
    }
}

const LINES: [&str; 24] = [
    "",
    "no image",
    "![a](b)",
    "![](b)",
    "![a]()",
    "![a] (b)",
    "! [a](b)",
    "![a](b",
    "![a]b)",
    "![a](b)![c](d)",
    "![a](b) text ![c](d e) more ![f](g \"h\"){.i}",
    "![a![b](c)",
    "![a](![b](c))",
    "![a]([b](c))",
    "!![a](b)",
    "![a]](b)",
    "![a\\](b)",
    "[![a](b)](c)",
    "![a](b(c)d)",
    "![ünï](çödé) ![é](ü)",
    "![a](b)) ![c]((d)",
    "![a](\u{1F600}) x ![b](c)",
    "![a]\n(b) ![c](d\ne)",
    "!include ![a](b)",
];

#[test]
fn images_are_found_as_the_pattern_finds_them() {
    let re = Regex::new(r"!\[[^\]]*\]\(([^\)]+)\)").unwrap();
    let none = Dependencies::new();
    for line in LINES {
        let starts: Vec<usize> = line.char_indices().map(|(i, _)| i).collect();
        let expected: Vec<usize> = re
            .captures_iter(line)
            .map(|c| c.get(1).unwrap())
            .map(|m| starts.iter().position(|&i| i == m.start()).unwrap())
            .collect();
        // With nothing declared every reference is a problem at its column.
        let found: Vec<usize> = match process_images(line, &none, "p").result {
            Ok(None) => Vec::new(),
            Ok(Some(rewritten)) => panic!("{line:?} became {rewritten:?}"),
            Err(problems) => problems.iter().map(|p| p.col).collect(),
        };
        assert_eq!(found, expected, "{line:?}");
    }
}

#[test]
fn references_are_replaced_where_the_pattern_finds_them() {
    let re = Regex::new(r"!\[([^\]]*)\]\(([^\)]+)\)").unwrap();
    let images = Dependencies::from_pairs(vec![
        (String::from("p:b"), String::from("B")),
        (String::from("p:d"), String::from("D")),
        (String::from("p:g"), String::from("G")),
        (String::from("p:c"), String::from("C")),
    ]);
    for line in [
        "![a](b)",
        "![a](b)![c](d)",
        "![a](b) text ![c](d e) more ![f](g \"h\"){.i}",
        "![a![b](c)",
        "[![a](b)](c)",
        "x![](b )y",
    ] {
        let expected = re.replace_all(line, |c: &regex::Captures| {
            let reference = &c[2];
            let (label, title) = match reference.split_once(' ') {
                Some((label, title)) if !title.is_empty() => (label, Some(title)),
                Some((label, _)) => (label, None),
                None => (reference, None),
            };
            let path = images.get(&format!("p:{label}")).unwrap();
            match title {
                Some(title) => format!("![{}]({path} {title})", &c[1]),
                None => format!("![{}]({path})", &c[1]),
            }
        });
        assert_eq!(
            process_images(line, &images, "p").result.unwrap().unwrap(),
            expected,
            "{line:?}"
        );
    }
}

const DATES: [&str; 30] = [
    "",
    "2020",
    "0000",
    "9999",
    "202",
    "20200",
    "2020/",
    "2020/1",
    "2020/01",
    "2020/00",
    "2020/12",
    "2020/13",
    "2020/01/",
    "2020/01/1",
    "2020/01/01",
    "2020/01/00",
    "2020/01/31",
    "2020/01/32",
    "2020/02/29",
    "2021/02/29",
    "1900/02/29",
    "2000/02/29",
    "2020/04/31",
    "2020/06/30",
    "2020-01-01",
    "2020/01/01 10:30:00",
    " 2020",
    "2020\n",
    "٢٠٢٠",
    "+2020",
];

#[test]
fn dates_are_read_as_the_pattern_and_the_calendar_read_them() {
    let re = Regex::new(r"^(?<year>[0-9]{4})(/(?<month>[0-9]{2})(/(?<day>[0-9]{2}))?)?$").unwrap();
    for d in DATES {
        let expected = match re.captures(d) {
            Some(caps) => {
                let year = caps.name("year").unwrap().as_str();
                let month = caps.name("month").map_or("01", |m| m.as_str());
                let day = caps.name("day").map_or("01", |m| m.as_str());
                NaiveDate::parse_from_str(&format!("{year}/{month}/{day}"), "%Y/%m/%d").is_ok()
            }
            None => false,
        };
        assert_eq!(ParsedDateSet::valid_date(d), expected, "{d:?}");
    }
}
