use markdown::calendar::Day;
use markdown::publications::{Date, Publication, PublicationBuilder, Publications, State};

fn ymd(year: i32, month: u32, day: u32) -> Day {
    Day::from_ymd_opt(year, month, day).unwrap()
}

fn date(state: State, date: (i32, u32, u32)) -> Date {
    let (year, month, day) = date;
    Date {
        state,
        date: ymd(year, month, day),
    }
}

#[test]
fn test_good_minimal() {
    let p = PublicationBuilder::default()
        .venue("foo")
        .submitted(ymd(2023, 5, 16))
        .build()
        .unwrap();
    assert_eq!(p.venue(), "foo");
    assert!(p.urls().is_empty());
    assert!(p.notes().is_none());
    assert!(p.paid().is_none());
    assert_eq!(p.submitted().copied().unwrap(), ymd(2023, 5, 16));
    assert!(p.accepted().is_none());
    assert!(p.rejected().is_none());
    assert!(p.withdrawn().is_none());
    assert!(p.abandoned().is_none());
    assert!(p.self_published().is_none());
    assert!(p.published().is_none());
    assert_eq!(p.dates(), [date(State::Submitted, (2023, 5, 16))]);
    assert_eq!(p.latest(), date(State::Submitted, (2023, 5, 16)));
    assert!(p.active());
}

#[test]
fn test_good_submitted() {
    let p = PublicationBuilder::default()
        .venue("foo")
        .urls(vec![String::from("foo"), String::from("bar")])
        .notes("baz")
        .paid("quux")
        .submitted(ymd(2023, 5, 16))
        .build()
        .unwrap();
    assert_eq!(p.venue(), "foo");
    assert_eq!(p.urls(), &["foo", "bar"]);
    assert_eq!(p.notes().unwrap(), "baz");
    assert_eq!(p.paid().unwrap(), "quux");
    assert_eq!(p.submitted().copied().unwrap(), ymd(2023, 5, 16));
    assert!(p.accepted().is_none());
    assert!(p.rejected().is_none());
    assert!(p.withdrawn().is_none());
    assert!(p.abandoned().is_none());
    assert!(p.self_published().is_none());
    assert!(p.published().is_none());
    assert_eq!(p.dates(), [date(State::Submitted, (2023, 5, 16))]);
    assert_eq!(p.latest(), date(State::Submitted, (2023, 5, 16)));
    assert!(p.active());
}

#[test]
fn test_good_accepted() {
    let p = PublicationBuilder::default()
        .venue("foo")
        .urls(vec![String::from("foo"), String::from("bar")])
        .notes("baz")
        .paid("quux")
        .submitted(ymd(2023, 5, 16))
        .accepted(ymd(2023, 5, 17))
        .build()
        .unwrap();
    assert_eq!(p.venue(), "foo");
    assert_eq!(p.urls(), &["foo", "bar"]);
    assert_eq!(p.notes().unwrap(), "baz");
    assert_eq!(p.paid().unwrap(), "quux");
    assert_eq!(p.submitted().copied().unwrap(), ymd(2023, 5, 16));
    assert_eq!(p.accepted().copied().unwrap(), ymd(2023, 5, 17));
    assert!(p.rejected().is_none());
    assert!(p.withdrawn().is_none());
    assert!(p.abandoned().is_none());
    assert!(p.self_published().is_none());
    assert!(p.published().is_none());
    assert_eq!(
        p.dates(),
        [
            date(State::Submitted, (2023, 5, 16)),
            date(State::Accepted, (2023, 5, 17))
        ]
    );
    assert_eq!(p.latest(), date(State::Accepted, (2023, 5, 17)));
    assert!(p.active());
}

#[test]
fn test_good_rejected() {
    let p = PublicationBuilder::default()
        .venue("foo")
        .urls(vec![String::from("foo"), String::from("bar")])
        .notes("baz")
        .paid("quux")
        .submitted(ymd(2023, 5, 16))
        .rejected(ymd(2023, 5, 17))
        .build()
        .unwrap();
    assert_eq!(p.venue(), "foo");
    assert_eq!(p.urls(), &["foo", "bar"]);
    assert_eq!(p.notes().unwrap(), "baz");
    assert_eq!(p.paid().unwrap(), "quux");
    assert_eq!(p.submitted().copied().unwrap(), ymd(2023, 5, 16));
    assert!(p.accepted().is_none());
    assert_eq!(p.rejected().copied().unwrap(), ymd(2023, 5, 17));
    assert!(p.withdrawn().is_none());
    assert!(p.abandoned().is_none());
    assert!(p.self_published().is_none());
    assert!(p.published().is_none());
    assert_eq!(
        p.dates(),
        [
            date(State::Submitted, (2023, 5, 16)),
            date(State::Rejected, (2023, 5, 17))
        ]
    );
    assert_eq!(p.latest(), date(State::Rejected, (2023, 5, 17)));
    assert!(!p.active());
}

#[test]
fn test_good_withdrawn() {
    let p = PublicationBuilder::default()
        .venue("foo")
        .urls(vec![String::from("foo"), String::from("bar")])
        .notes("baz")
        .paid("quux")
        .submitted(ymd(2023, 5, 16))
        .withdrawn(ymd(2023, 5, 17))
        .build()
        .unwrap();
    assert_eq!(p.venue(), "foo");
    assert_eq!(p.urls(), &["foo", "bar"]);
    assert_eq!(p.notes().unwrap(), "baz");
    assert_eq!(p.paid().unwrap(), "quux");
    assert_eq!(p.submitted().copied().unwrap(), ymd(2023, 5, 16));
    assert!(p.accepted().is_none());
    assert!(p.rejected().is_none());
    assert_eq!(p.withdrawn().copied().unwrap(), ymd(2023, 5, 17));
    assert!(p.abandoned().is_none());
    assert!(p.self_published().is_none());
    assert!(p.published().is_none());
    assert_eq!(
        p.dates(),
        [
            date(State::Submitted, (2023, 5, 16)),
            date(State::Withdrawn, (2023, 5, 17))
        ]
    );
    assert_eq!(p.latest(), date(State::Withdrawn, (2023, 5, 17)));
    assert!(!p.active());
}

#[test]
fn test_good_abandoned() {
    let p = PublicationBuilder::default()
        .venue("foo")
        .urls(vec![String::from("foo"), String::from("bar")])
        .notes("baz")
        .paid("quux")
        .submitted(ymd(2023, 5, 16))
        .abandoned(ymd(2023, 5, 17))
        .build()
        .unwrap();
    assert_eq!(p.venue(), "foo");
    assert_eq!(p.urls(), &["foo", "bar"]);
    assert_eq!(p.notes().unwrap(), "baz");
    assert_eq!(p.paid().unwrap(), "quux");
    assert_eq!(p.submitted().copied().unwrap(), ymd(2023, 5, 16));
    assert!(p.accepted().is_none());
    assert!(p.rejected().is_none());
    assert!(p.withdrawn().is_none());
    assert_eq!(p.abandoned().copied().unwrap(), ymd(2023, 5, 17));
    assert!(p.self_published().is_none());
    assert!(p.published().is_none());
    assert_eq!(
        p.dates(),
        [
            date(State::Submitted, (2023, 5, 16)),
            date(State::Abandoned, (2023, 5, 17))
        ]
    );
    assert_eq!(p.latest(), date(State::Abandoned, (2023, 5, 17)));
    assert!(!p.active());
}

#[test]
fn test_good_self_published() {
    let p = PublicationBuilder::default()
        .venue("foo")
        .urls(vec![String::from("foo"), String::from("bar")])
        .notes("baz")
        .paid("quux")
        .self_published(ymd(2023, 5, 16))
        .build()
        .unwrap();
    assert_eq!(p.venue(), "foo");
    assert_eq!(p.urls(), &["foo", "bar"]);
    assert_eq!(p.notes().unwrap(), "baz");
    assert_eq!(p.paid().unwrap(), "quux");
    assert!(p.submitted().is_none());
    assert!(p.accepted().is_none());
    assert!(p.rejected().is_none());
    assert!(p.withdrawn().is_none());
    assert!(p.abandoned().is_none());
    assert_eq!(p.self_published().copied().unwrap(), ymd(2023, 5, 16));
    assert!(p.published().is_none());
    assert_eq!(p.dates(), [date(State::SelfPublished, (2023, 5, 16)),]);
    assert_eq!(p.latest(), date(State::SelfPublished, (2023, 5, 16)));
    assert!(p.active());
}

#[test]
fn test_good_published() {
    let p = PublicationBuilder::default()
        .venue("foo")
        .urls(vec![String::from("foo"), String::from("bar")])
        .notes("baz")
        .paid("quux")
        .submitted(ymd(2023, 5, 16))
        .accepted(ymd(2023, 5, 17))
        .published(ymd(2023, 5, 18))
        .build()
        .unwrap();
    assert_eq!(p.venue(), "foo");
    assert_eq!(p.urls(), &["foo", "bar"]);
    assert_eq!(p.notes().unwrap(), "baz");
    assert_eq!(p.paid().unwrap(), "quux");
    assert_eq!(p.submitted().copied().unwrap(), ymd(2023, 5, 16));
    assert_eq!(p.accepted().copied().unwrap(), ymd(2023, 5, 17));
    assert!(p.rejected().is_none());
    assert!(p.withdrawn().is_none());
    assert!(p.abandoned().is_none());
    assert!(p.self_published().is_none());
    assert_eq!(p.published().copied().unwrap(), ymd(2023, 5, 18));
    assert_eq!(
        p.dates(),
        [
            date(State::Submitted, (2023, 5, 16)),
            date(State::Accepted, (2023, 5, 17)),
            date(State::Published, (2023, 5, 18))
        ]
    );
    assert_eq!(p.latest(), date(State::Published, (2023, 5, 18)));
    assert!(p.active());
}

#[test]
fn test_bad_no_venue() {
    assert!(PublicationBuilder::default()
        .submitted(ymd(2023, 5, 16))
        .build()
        .is_err());
}

#[test]
fn test_bad_no_dates() {
    assert!(PublicationBuilder::default()
        .venue("foo")
        .urls(vec![String::from("foo"), String::from("bar")])
        .notes("baz")
        .paid("quux")
        .build()
        .is_err());
}

#[test]
fn test_bad_too_many_end_dates() {
    assert!(PublicationBuilder::default()
        .venue("foo")
        .urls(vec![String::from("foo"), String::from("bar")])
        .notes("baz")
        .paid("quux")
        .rejected(ymd(2023, 5, 16))
        .published(ymd(2023, 5, 16))
        .build()
        .is_err());
}

#[test]
fn test_bad_self_published_intermediate() {
    assert!(PublicationBuilder::default()
        .venue("foo")
        .urls(vec![String::from("foo"), String::from("bar")])
        .notes("baz")
        .paid("quux")
        .submitted(ymd(2023, 5, 16))
        .self_published(ymd(2023, 5, 17))
        .build()
        .is_err());
}

#[test]
fn test_bad_accepted_bad_end_dates() {
    assert!(PublicationBuilder::default()
        .venue("foo")
        .urls(vec![String::from("foo"), String::from("bar")])
        .notes("baz")
        .paid("quux")
        .accepted(ymd(2023, 5, 16))
        .rejected(ymd(2023, 5, 16))
        .build()
        .is_err());
}

#[test]
fn test_bad_published_missing_intermediate() {
    assert!(PublicationBuilder::default()
        .venue("foo")
        .urls(vec![String::from("foo"), String::from("bar")])
        .notes("baz")
        .paid("quux")
        .submitted(ymd(2023, 5, 16))
        .published(ymd(2023, 5, 16))
        .build()
        .is_err());
}

#[test]
fn test_bad_bad_missing_submitted() {
    assert!(PublicationBuilder::default()
        .venue("foo")
        .urls(vec![String::from("foo"), String::from("bar")])
        .notes("baz")
        .paid("quux")
        .rejected(ymd(2023, 5, 16))
        .build()
        .is_err());
}

#[test]
fn test_bad_wrong_order() {
    assert!(PublicationBuilder::default()
        .venue("foo")
        .urls(vec![String::from("foo"), String::from("bar")])
        .notes("baz")
        .paid("quux")
        .submitted(ymd(2023, 5, 16))
        .accepted(ymd(2023, 5, 16))
        .published(ymd(2023, 5, 15))
        .build()
        .is_err());
}

#[test]
fn test_good_active() {
    let ps = Publications::build(vec![
        PublicationBuilder::default()
            .venue("Book")
            .urls(vec![String::from("foo"), String::from("bar")])
            .notes("baz")
            .paid("quux")
            .submitted(ymd(2023, 5, 16))
            .accepted(ymd(2023, 5, 17))
            .published(ymd(2023, 5, 18))
            .build()
            .unwrap(),
        PublicationBuilder::default()
            .venue("Book2")
            .urls(vec![String::from("foo2"), String::from("bar2")])
            .notes("baz2")
            .paid("quux2")
            .submitted(ymd(2023, 5, 19))
            .accepted(ymd(2023, 5, 20))
            .build()
            .unwrap(),
    ])
    .unwrap();

    assert_eq!(ps.publications().len(), 2);
    assert!(ps.active());
    assert_eq!(ps.highest_active_state(), Some(State::Published));

    let p = &ps.publications()[0];
    assert_eq!(p.venue(), "Book");
    assert_eq!(p.submitted().copied().unwrap(), ymd(2023, 5, 16));
    assert_eq!(p.accepted().copied().unwrap(), ymd(2023, 5, 17));
    assert!(p.rejected().is_none());
    assert!(p.withdrawn().is_none());
    assert!(p.abandoned().is_none());
    assert!(p.self_published().is_none());
    assert_eq!(p.published().copied().unwrap(), ymd(2023, 5, 18));
    assert_eq!(p.urls(), &["foo", "bar"]);
    assert_eq!(p.notes().unwrap(), "baz");
    assert_eq!(p.paid().unwrap(), "quux");

    let p = &ps.publications()[1];
    assert_eq!(p.venue(), "Book2");
    assert_eq!(p.submitted().copied().unwrap(), ymd(2023, 5, 19));
    assert_eq!(p.accepted().copied().unwrap(), ymd(2023, 5, 20));
    assert!(p.rejected().is_none());
    assert!(p.withdrawn().is_none());
    assert!(p.abandoned().is_none());
    assert!(p.self_published().is_none());
    assert!(p.published().is_none());
    assert_eq!(p.urls(), &["foo2", "bar2"]);
    assert_eq!(p.notes().unwrap(), "baz2");
    assert_eq!(p.paid().unwrap(), "quux2");
}

#[test]
fn test_good_inactive() {
    let ps = Publications::build(vec![
        PublicationBuilder::default()
            .venue("Book")
            .urls(vec![String::from("foo"), String::from("bar")])
            .notes("baz")
            .paid("quux")
            .submitted(ymd(2023, 5, 16))
            .rejected(ymd(2023, 5, 17))
            .build()
            .unwrap(),
        PublicationBuilder::default()
            .venue("Book2")
            .urls(vec![String::from("foo2"), String::from("bar2")])
            .notes("baz2")
            .paid("quux2")
            .submitted(ymd(2023, 5, 19))
            .withdrawn(ymd(2023, 5, 20))
            .build()
            .unwrap(),
    ])
    .unwrap();

    assert_eq!(ps.publications().len(), 2);
    assert!(!ps.active());
    assert_eq!(ps.highest_active_state(), None);

    let p = &ps.publications()[0];
    assert_eq!(p.venue(), "Book");
    assert_eq!(p.submitted().copied().unwrap(), ymd(2023, 5, 16));
    assert!(p.accepted().is_none());
    assert_eq!(p.rejected().copied().unwrap(), ymd(2023, 5, 17));
    assert!(p.withdrawn().is_none());
    assert!(p.abandoned().is_none());
    assert!(p.self_published().is_none());
    assert!(p.published().is_none());
    assert_eq!(p.urls(), &["foo", "bar"]);
    assert_eq!(p.notes().unwrap(), "baz");
    assert_eq!(p.paid().unwrap(), "quux");

    let p = &ps.publications()[1];
    assert_eq!(p.venue(), "Book2");
    assert_eq!(p.submitted().copied().unwrap(), ymd(2023, 5, 19));
    assert!(p.accepted().is_none());
    assert!(p.rejected().is_none());
    assert_eq!(p.withdrawn().copied().unwrap(), ymd(2023, 5, 20));
    assert!(p.abandoned().is_none());
    assert!(p.self_published().is_none());
    assert!(p.published().is_none());
    assert_eq!(*p.urls(), &["foo2", "bar2"]);
    assert_eq!(p.notes().unwrap(), "baz2");
    assert_eq!(p.paid().unwrap(), "quux2");
}

#[test]
fn test_empty() {
    let ps = Publications::default();
    assert!(ps.publications().is_empty());
    assert!(!ps.active());
    assert!(ps.highest_active_state().is_none());
}

#[test]
fn publication_error_texts() {
    let err = |b: &mut PublicationBuilder| b.build().unwrap_err();
    assert_eq!(
        err(PublicationBuilder::default().submitted(ymd(2023, 5, 16))),
        "venue: must be non-empty"
    );
    assert_eq!(
        err(PublicationBuilder::default()
            .urls(vec![String::from("a"), String::new()])
            .notes("")
            .paid("")),
        "venue: must be non-empty\nurls: each element must be non-empty\n\
notes: must be non-empty\npaid: must be non-empty"
    );
    assert_eq!(
        err(PublicationBuilder::default().venue("foo")),
        "__all__: at least one date must be set"
    );
    assert_eq!(
        err(PublicationBuilder::default()
            .venue("foo")
            .rejected(ymd(2023, 5, 16))
            .published(ymd(2023, 5, 16))),
        "__all__: at most one end date can be set"
    );
    assert_eq!(
        err(PublicationBuilder::default()
            .venue("foo")
            .submitted(ymd(2023, 5, 16))
            .self_published(ymd(2023, 5, 17))),
        "__all__: intermediate dates cannot be used with self_published"
    );
    assert_eq!(
        err(PublicationBuilder::default()
            .venue("foo")
            .accepted(ymd(2023, 5, 16))
            .rejected(ymd(2023, 5, 16))),
        "__all__: bad end dates cannot be used with accepted"
    );
    assert_eq!(
        err(PublicationBuilder::default()
            .venue("foo")
            .submitted(ymd(2023, 5, 16))
            .published(ymd(2023, 5, 16))),
        "__all__: all intermediate dates must be set when published is set"
    );
    assert_eq!(
        err(PublicationBuilder::default()
            .venue("foo")
            .rejected(ymd(2023, 5, 16))),
        "__all__: submitted must be set if any bad end dates are set"
    );
    assert_eq!(
        err(PublicationBuilder::default()
            .venue("foo")
            .submitted(ymd(2023, 5, 16))
            .accepted(ymd(2023, 5, 16))
            .published(ymd(2023, 5, 15))),
        "__all__: dates must be in increasing order"
    );
    assert!(PublicationBuilder::default()
        .venue("foo")
        .submitted(ymd(2023, 5, 16))
        .validate()
        .is_ok());
    assert_eq!(
        PublicationBuilder::default().validate().unwrap_err(),
        "venue: must be non-empty"
    );
}

#[test]
fn equal_dates_are_in_order() {
    let p = PublicationBuilder::default()
        .venue("foo")
        .submitted(ymd(2023, 5, 16))
        .accepted(ymd(2023, 5, 16))
        .published(ymd(2023, 5, 16))
        .build()
        .unwrap();
    assert_eq!(p.latest(), date(State::Published, (2023, 5, 16)));
    assert!(PublicationBuilder::default()
        .venue("foo")
        .submitted(ymd(2024, 1, 1))
        .accepted(ymd(2023, 12, 31))
        .build()
        .is_err());
    assert!(PublicationBuilder::default()
        .venue("foo")
        .submitted(ymd(2023, 1, 31))
        .accepted(ymd(2023, 2, 1))
        .build()
        .is_ok());
}

#[test]
fn publication_build_takes_plain_values() {
    let p = Publication::build(
        "foo",
        vec![String::from("u")],
        Some("n"),
        None,
        Some(ymd(2023, 5, 16)),
        None,
        None,
        Some(ymd(2023, 6, 1)),
        None,
        None,
        None,
    )
    .unwrap();
    assert_eq!(p.venue(), "foo");
    assert_eq!(p.notes().unwrap(), "n");
    assert!(p.paid().is_none());
    assert!(!p.active());
    assert_eq!(p.latest(), date(State::Withdrawn, (2023, 6, 1)));
    let q = p.clone();
    assert_eq!(q.dates(), p.dates());
    assert_eq!(
        Publication::build("", vec![], None, None, None, None, None, None, None, None, None)
            .unwrap_err()
            .to_string(),
        "venue: must be non-empty"
    );
}

#[test]
fn highest_active_state_skips_inactive_submissions() {
    let ps = Publications::build(vec![
        PublicationBuilder::default()
            .venue("a")
            .submitted(ymd(2023, 5, 16))
            .accepted(ymd(2023, 5, 17))
            .build()
            .unwrap(),
        PublicationBuilder::default()
            .venue("b")
            .submitted(ymd(2023, 5, 16))
            .rejected(ymd(2023, 5, 17))
            .build()
            .unwrap(),
        PublicationBuilder::default()
            .venue("c")
            .submitted(ymd(2023, 5, 16))
            .build()
            .unwrap(),
    ])
    .unwrap();
    assert!(ps.active());
    assert_eq!(ps.highest_active_state(), Some(State::Accepted));
    let ps = Publications::build(vec![
        PublicationBuilder::default()
            .venue("a")
            .self_published(ymd(2023, 5, 16))
            .build()
            .unwrap(),
        PublicationBuilder::default()
            .venue("c")
            .submitted(ymd(2023, 5, 16))
            .build()
            .unwrap(),
    ])
    .unwrap();
    assert_eq!(ps.highest_active_state(), Some(State::SelfPublished));
    assert_eq!(ps.clone().publications().len(), 2);
}

#[test]
fn states_are_ordered_and_named() {
    let all = [
        State::Submitted,
        State::Accepted,
        State::Abandoned,
        State::Withdrawn,
        State::Rejected,
        State::SelfPublished,
        State::Published,
    ];
    let names = [
        "submitted",
        "accepted",
        "abandoned",
        "withdrawn",
        "rejected",
        "self_published",
        "published",
    ];
    for i in 0..all.len() {
        assert_eq!(all[i].order() as usize, i);
        assert_eq!(all[i].to_string(), names[i]);
        for j in 0..all.len() {
            assert_eq!(all[i] < all[j], i < j);
        }
    }
}

#[test]
fn days_exist_on_the_calendar() {
    assert!(Day::from_ymd_opt(2024, 2, 29).is_some());
    assert!(Day::from_ymd_opt(2023, 2, 29).is_none());
    assert!(Day::from_ymd_opt(1900, 2, 29).is_none());
    assert!(Day::from_ymd_opt(2000, 2, 29).is_some());
    assert!(Day::from_ymd_opt(-4, 2, 29).is_some());
    assert!(Day::from_ymd_opt(2023, 4, 31).is_none());
    assert!(Day::from_ymd_opt(2023, 0, 1).is_none());
    assert!(Day::from_ymd_opt(2023, 13, 1).is_none());
    assert!(Day::from_ymd_opt(2023, 1, 0).is_none());
    assert!(Day::from_ymd_opt(2023, 12, 31).is_some());
    assert!(Day::from_ymd_opt(262142, 12, 31).is_some());
    assert!(Day::from_ymd_opt(262143, 1, 1).is_none());
    assert!(Day::from_ymd_opt(-262143, 1, 1).is_some());
    assert!(Day::from_ymd_opt(-262144, 12, 31).is_none());
    let d = ymd(2023, 5, 16);
    assert_eq!((d.year(), d.month(), d.day()), (2023, 5, 16));
    assert!(d.before(&ymd(2023, 5, 17)));
    assert!(d.before(&ymd(2023, 6, 1)));
    assert!(d.before(&ymd(2024, 1, 1)));
    assert!(!d.before(&d));
    assert!(!d.before(&ymd(2022, 12, 31)));
}

#[test]
fn days_are_written_with_padded_numbers() {
    let cases = [
        ((-262143, 1, 1), "-262143-01-01"),
        ((-10000, 12, 31), "-10000-12-31"),
        ((-9999, 6, 15), "-9999-06-15"),
        ((-100, 10, 9), "-0100-10-09"),
        ((-1, 2, 3), "-0001-02-03"),
        ((0, 1, 1), "0000-01-01"),
        ((1, 1, 1), "0001-01-01"),
        ((99, 9, 30), "0099-09-30"),
        ((999, 10, 9), "0999-10-09"),
        ((1000, 11, 10), "1000-11-10"),
        ((2024, 2, 29), "2024-02-29"),
        ((9999, 12, 31), "9999-12-31"),
        ((10000, 1, 1), "+10000-01-01"),
        ((262142, 12, 31), "+262142-12-31"),
    ];
    for ((year, month, day), expected) in cases {
        assert_eq!(ymd(year, month, day).to_string(), expected);
    }
}
