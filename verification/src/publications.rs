//! The submissions of a document to venues: the states that a submission
//! goes through, the rules that its dates keep, and the standing of a
//! document over all its submissions.

use crate::calendar::{day_before, Day};
use crate::field_validators::{
    each_non_empty, each_required, non_empty, non_empty_if_set, optional, required,
};
use crate::text::{
    borrow_text, clone_strings, clone_text, owned_text, str_view, text_view, views,
};
use crate::validation::{error_text, ValidationError, ValidationErrors};
use vstd::prelude::*;
use vstd::string::StringExecFns;

verus! {

/// The states of a submission, from the least to the most advanced.
#[derive(Clone, Copy, PartialEq, Eq, PartialOrd, Ord, Debug, Structural)]
pub enum State {
    // Intermediate
    Submitted,
    Accepted,
    // Bad end states
    Abandoned,
    Withdrawn,
    Rejected,
    // Good end states
    SelfPublished,
    Published,
}

impl State {
    /// The place of the state in the order of the states.
    pub open spec fn rank(self) -> int {
        match self {
            State::Submitted => 0,
            State::Accepted => 1,
            State::Abandoned => 2,
            State::Withdrawn => 3,
            State::Rejected => 4,
            State::SelfPublished => 5,
            State::Published => 6,
        }
    }

    /// The name of the state.
    pub open spec fn name(self) -> Seq<char> {
        match self {
            State::Submitted => "submitted"@,
            State::Accepted => "accepted"@,
            State::Abandoned => "abandoned"@,
            State::Withdrawn => "withdrawn"@,
            State::Rejected => "rejected"@,
            State::SelfPublished => "self_published"@,
            State::Published => "published"@,
        }
    }

    /// The place of the state in the order of the states.
    pub fn order(&self) -> (r: u8)
        ensures
            r == self.rank(),
    {
        match self {
            State::Submitted => 0,
            State::Accepted => 1,
            State::Abandoned => 2,
            State::Withdrawn => 3,
            State::Rejected => 4,
            State::SelfPublished => 5,
            State::Published => 6,
        }
    }

    /// The name of the state.
    pub fn to_string(&self) -> (s: String)
        ensures
            s@ == self.name(),
    {
        match self {
            State::Submitted => String::from_str("submitted"),
            State::Accepted => String::from_str("accepted"),
            State::Abandoned => String::from_str("abandoned"),
            State::Withdrawn => String::from_str("withdrawn"),
            State::Rejected => String::from_str("rejected"),
            State::SelfPublished => String::from_str("self_published"),
            State::Published => String::from_str("published"),
        }
    }
}

/// A state and the day on which it was reached.
#[derive(Clone, Copy, PartialEq, Debug)]
pub struct Date {
    pub state: State,
    pub date: Day,
}

impl View for Date {
    type V = (State, (int, int, int));

    open spec fn view(&self) -> (State, (int, int, int)) {
        (self.state, self.date@)
    }
}

/// The views of the dates in `v`, in order.
pub open spec fn date_views(v: Seq<Date>) -> Seq<(State, (int, int, int))> {
    v.map_values(|d: Date| d@)
}

/// What a submission holds.
pub struct PublicationView {
    pub venue: Seq<char>,
    pub urls: Seq<Seq<char>>,
    pub notes: Option<Seq<char>>,
    pub paid: Option<Seq<char>>,
    pub submitted: Option<(int, int, int)>,
    pub accepted: Option<(int, int, int)>,
    pub abandoned: Option<(int, int, int)>,
    pub withdrawn: Option<(int, int, int)>,
    pub rejected: Option<(int, int, int)>,
    pub self_published: Option<(int, int, int)>,
    pub published: Option<(int, int, int)>,
}

/// The view of a day that may be missing.
pub open spec fn day_view(d: Option<Day>) -> Option<(int, int, int)> {
    match d {
        Some(x) => Some(x@),
        None => None,
    }
}

/// The date of a state, where its day is set.
pub open spec fn tagged(state: State, day: Option<(int, int, int)>) -> Seq<
    (State, (int, int, int)),
> {
    match day {
        Some(d) => seq![(state, d)],
        None => Seq::empty(),
    }
}

/// The dates that are set, in the order of their states.
pub open spec fn dates_of(v: PublicationView) -> Seq<(State, (int, int, int))> {
    tagged(State::Submitted, v.submitted) + tagged(State::Accepted, v.accepted) + tagged(
        State::Abandoned,
        v.abandoned,
    ) + tagged(State::Withdrawn, v.withdrawn) + tagged(State::Rejected, v.rejected) + tagged(
        State::SelfPublished,
        v.self_published,
    ) + tagged(State::Published, v.published)
}

/// 1 where the day is set, else 0.
pub open spec fn count(day: Option<(int, int, int)>) -> int {
    if day is Some {
        1
    } else {
        0
    }
}

/// How many of the intermediate dates are set.
pub open spec fn intermediates(v: PublicationView) -> int {
    count(v.submitted) + count(v.accepted)
}

/// How many of the dates of a bad end are set.
pub open spec fn bad_ends(v: PublicationView) -> int {
    count(v.abandoned) + count(v.withdrawn) + count(v.rejected)
}

/// How many of the dates of a good end are set.
pub open spec fn good_ends(v: PublicationView) -> int {
    count(v.self_published) + count(v.published)
}

/// No date is earlier than one that stands before it.
pub open spec fn in_order(dates: Seq<(State, (int, int, int))>) -> bool {
    forall|i: int, j: int|
        0 <= i < j < dates.len() ==> !day_before((#[trigger] dates[j]).1, (#[trigger] dates[i]).1)
}

/// There are as many dates as days are set.
pub proof fn lemma_dates_count(v: PublicationView)
    ensures
        dates_of(v).len() == intermediates(v) + bad_ends(v) + good_ends(v),
{
}

/// The first rule on the dates that a submission breaks, if any.
pub open spec fn contents_error(v: PublicationView) -> Option<Seq<char>> {
    if intermediates(v) + bad_ends(v) + good_ends(v) == 0 {
        Some("at least one date must be set"@)
    } else if bad_ends(v) + good_ends(v) > 1 {
        Some("at most one end date can be set"@)
    } else if v.self_published is Some && intermediates(v) > 0 {
        Some("intermediate dates cannot be used with self_published"@)
    } else if v.accepted is Some && bad_ends(v) > 0 {
        Some("bad end dates cannot be used with accepted"@)
    } else if v.published is Some && intermediates(v) < 2 {
        Some("all intermediate dates must be set when published is set"@)
    } else if bad_ends(v) > 0 && v.submitted is None {
        Some("submitted must be set if any bad end dates are set"@)
    } else if !in_order(dates_of(v)) {
        Some("dates must be in increasing order"@)
    } else {
        None
    }
}

/// What is wrong with the fields of a submission, each taken alone.
pub open spec fn publication_field_errors(v: PublicationView) -> Seq<(Seq<char>, Seq<char>)> {
    required("venue"@, v.venue) + each_required("urls"@, v.urls) + optional("notes"@, v.notes)
        + optional("paid"@, v.paid)
}

/// What is wrong with a submission: the errors of its fields, or, where
/// the fields are in order, the first rule on the dates that it breaks.
pub open spec fn publication_errors(v: PublicationView) -> Seq<(Seq<char>, Seq<char>)> {
    if publication_field_errors(v).len() > 0 {
        publication_field_errors(v)
    } else {
        match contents_error(v) {
            Some(code) => seq![("__all__"@, code)],
            None => Seq::empty(),
        }
    }
}





/// A submission of a document to a venue.
#[derive(Debug)]
pub struct Publication {
    venue: String,
    urls: Vec<String>,
    notes: Option<String>,
    paid: Option<String>,
    submitted: Option<Day>,
    accepted: Option<Day>,
    abandoned: Option<Day>,
    withdrawn: Option<Day>,
    rejected: Option<Day>,
    self_published: Option<Day>,
    published: Option<Day>,
}

impl View for Publication {
    type V = PublicationView;

    closed spec fn view(&self) -> PublicationView {
        PublicationView {
            venue: self.venue@,
            urls: views(self.urls@),
            notes: text_view(self.notes),
            paid: text_view(self.paid),
            submitted: day_view(self.submitted),
            accepted: day_view(self.accepted),
            abandoned: day_view(self.abandoned),
            withdrawn: day_view(self.withdrawn),
            rejected: day_view(self.rejected),
            self_published: day_view(self.self_published),
            published: day_view(self.published),
        }
    }
}

/// Adds the date of `state` to `out`, where its day is set.
fn push_date(out: &mut Vec<Date>, state: State, day: &Option<Day>)
    ensures
        date_views(final(out)@) == date_views(old(out)@) + tagged(state, day_view(*day)),
{
    match day {
        Some(d) => {
            out.push(Date { state, date: *d });
            assert(date_views(out@) =~= date_views(old(out)@) + seq![(state, d@)]);
        },
        None => {
            assert(date_views(out@) =~= date_views(old(out)@) + Seq::<
                (State, (int, int, int)),
            >::empty());
        },
    }
}

/// Whether no date of `dates` is earlier than one before it.
fn dates_in_order(dates: &Vec<Date>) -> (b: bool)
    ensures
        b == in_order(date_views(dates@)),
{
    let ghost all = date_views(dates@);
    let mut j: usize = 1;
    while j < dates.len()
        invariant
            1 <= j,
            j <= dates.len() || dates.len() == 0,
            all == date_views(dates@),
            dates.len() > 0 ==> in_order(all.take(j as int)),
        decreases dates.len() - j,
    {
        if dates[j].date.before(&dates[j - 1].date) {
            assert(day_before(all[j as int].1, all[j - 1].1));
            return false;
        }
        proof {
            let now = all.take(j + 1);
            assert forall|x: int, y: int| 0 <= x < y < now.len() implies !day_before(
                (#[trigger] now[y]).1,
                (#[trigger] now[x]).1,
            ) by {
                if y < j {
                    assert(!day_before(all.take(j as int)[y].1, all.take(j as int)[x].1));
                } else if x < j - 1 {
                    assert(!day_before(all.take(j as int)[j - 1].1, all.take(j as int)[x].1));
                }
            }
        }
        j += 1;
    }
    proof {
        if dates@.len() > 0 {
            assert(all.take(all.len() as int) =~= all);
        }
    }
    true
}

impl Publication {
    #[verifier::type_invariant]
    spec fn valid(self) -> bool {
        publication_errors(self@).len() == 0
    }

    /// The dates that are set, in the order of their states.
    fn collect_dates(
        submitted: &Option<Day>,
        accepted: &Option<Day>,
        abandoned: &Option<Day>,
        withdrawn: &Option<Day>,
        rejected: &Option<Day>,
        self_published: &Option<Day>,
        published: &Option<Day>,
    ) -> (out: Vec<Date>)
        ensures
            date_views(out@) == tagged(State::Submitted, day_view(*submitted)) + tagged(
                State::Accepted,
                day_view(*accepted),
            ) + tagged(State::Abandoned, day_view(*abandoned)) + tagged(
                State::Withdrawn,
                day_view(*withdrawn),
            ) + tagged(State::Rejected, day_view(*rejected)) + tagged(
                State::SelfPublished,
                day_view(*self_published),
            ) + tagged(State::Published, day_view(*published)),
    {
        let mut out: Vec<Date> = Vec::new();
        assert(date_views(out@) =~= Seq::<(State, (int, int, int))>::empty());
        push_date(&mut out, State::Submitted, submitted);
        push_date(&mut out, State::Accepted, accepted);
        push_date(&mut out, State::Abandoned, abandoned);
        push_date(&mut out, State::Withdrawn, withdrawn);
        push_date(&mut out, State::Rejected, rejected);
        push_date(&mut out, State::SelfPublished, self_published);
        push_date(&mut out, State::Published, published);
        assert(date_views(out@) =~= tagged(State::Submitted, day_view(*submitted)) + tagged(
            State::Accepted,
            day_view(*accepted),
        ) + tagged(State::Abandoned, day_view(*abandoned)) + tagged(
            State::Withdrawn,
            day_view(*withdrawn),
        ) + tagged(State::Rejected, day_view(*rejected)) + tagged(
            State::SelfPublished,
            day_view(*self_published),
        ) + tagged(State::Published, day_view(*published)));
        out
    }

    /// The first rule on the dates that they break, if any.
    fn validate_contents(
        submitted: &Option<Day>,
        accepted: &Option<Day>,
        abandoned: &Option<Day>,
        withdrawn: &Option<Day>,
        rejected: &Option<Day>,
        self_published: &Option<Day>,
        published: &Option<Day>,
        Ghost(v): Ghost<PublicationView>,
    ) -> (r: Result<(), ValidationError>)
        requires
            v.submitted == day_view(*submitted),
            v.accepted == day_view(*accepted),
            v.abandoned == day_view(*abandoned),
            v.withdrawn == day_view(*withdrawn),
            v.rejected == day_view(*rejected),
            v.self_published == day_view(*self_published),
            v.published == day_view(*published),
        ensures
            match contents_error(v) {
                Some(code) => r matches Err(e) && e@ == code,
                None => r is Ok,
            },
    {
        let intermediate: u8 = (if submitted.is_some() {
            1u8
        } else {
            0u8
        }) + (if accepted.is_some() {
            1u8
        } else {
            0u8
        });
        let bad: u8 = (if abandoned.is_some() {
            1u8
        } else {
            0u8
        }) + (if withdrawn.is_some() {
            1u8
        } else {
            0u8
        }) + (if rejected.is_some() {
            1u8
        } else {
            0u8
        });
        let good: u8 = (if self_published.is_some() {
            1u8
        } else {
            0u8
        }) + (if published.is_some() {
            1u8
        } else {
            0u8
        });
        if intermediate + bad + good == 0 {
            return Err(ValidationError::new("at least one date must be set"));
        }
        if bad + good > 1 {
            return Err(ValidationError::new("at most one end date can be set"));
        }
        if self_published.is_some() && intermediate > 0 {
            return Err(
                ValidationError::new("intermediate dates cannot be used with self_published"),
            );
        }
        if accepted.is_some() && bad > 0 {
            return Err(ValidationError::new("bad end dates cannot be used with accepted"));
        }
        if published.is_some() && intermediate < 2 {
            return Err(
                ValidationError::new("all intermediate dates must be set when published is set"),
            );
        }
        if bad > 0 && submitted.is_none() {
            return Err(ValidationError::new("submitted must be set if any bad end dates are set"));
        }
        let dates = Self::collect_dates(
            submitted,
            accepted,
            abandoned,
            withdrawn,
            rejected,
            self_published,
            published,
        );
        if !dates_in_order(&dates) {
            return Err(ValidationError::new("dates must be in increasing order"));
        }
        Ok(())
    }

    /// A submission, if what is given keeps the rules: the venue is not
    /// empty, nor any of the URLs, nor the notes or the payment where they
    /// are given; and the dates fit together.
    pub fn build(
        venue: &str,
        urls: Vec<String>,
        notes: Option<&str>,
        paid: Option<&str>,
        submitted: Option<Day>,
        accepted: Option<Day>,
        abandoned: Option<Day>,
        withdrawn: Option<Day>,
        rejected: Option<Day>,
        self_published: Option<Day>,
        published: Option<Day>,
    ) -> (r: Result<Publication, ValidationErrors>)
        ensures
            match r {
                Ok(p) => p@ == (PublicationView {
                    venue: venue@,
                    urls: views(urls@),
                    notes: str_view(notes),
                    paid: str_view(paid),
                    submitted: day_view(submitted),
                    accepted: day_view(accepted),
                    abandoned: day_view(abandoned),
                    withdrawn: day_view(withdrawn),
                    rejected: day_view(rejected),
                    self_published: day_view(self_published),
                    published: day_view(published),
                }) && publication_errors(p@).len() == 0,
                Err(e) => e@.len() > 0 && e@ == publication_errors(
                    PublicationView {
                        venue: venue@,
                        urls: views(urls@),
                        notes: str_view(notes),
                        paid: str_view(paid),
                        submitted: day_view(submitted),
                        accepted: day_view(accepted),
                        abandoned: day_view(abandoned),
                        withdrawn: day_view(withdrawn),
                        rejected: day_view(rejected),
                        self_published: day_view(self_published),
                        published: day_view(published),
                    },
                ),
            },
    {
        let ghost v = PublicationView {
            venue: venue@,
            urls: views(urls@),
            notes: str_view(notes),
            paid: str_view(paid),
            submitted: day_view(submitted),
            accepted: day_view(accepted),
            abandoned: day_view(abandoned),
            withdrawn: day_view(withdrawn),
            rejected: day_view(rejected),
            self_published: day_view(self_published),
            published: day_view(published),
        };
        let notes = owned_text(notes);
        let paid = owned_text(paid);
        assert(text_view(notes) == v.notes);
        assert(text_view(paid) == v.paid);
        let mut errors = ValidationErrors::new();
        errors.check("venue", non_empty(venue));
        errors.check("urls", each_non_empty(&urls));
        errors.check("notes", non_empty_if_set(&notes));
        errors.check("paid", non_empty_if_set(&paid));
        assert(errors@ =~= publication_field_errors(v));
        if !errors.is_empty() {
            return Err(errors);
        }
        errors.check(
            "__all__",
            Self::validate_contents(
                &submitted,
                &accepted,
                &abandoned,
                &withdrawn,
                &rejected,
                &self_published,
                &published,
                Ghost(v),
            ),
        );
        assert(errors@ =~= publication_errors(v));
        if !errors.is_empty() {
            return Err(errors);
        }
        Ok(
            Publication {
                venue: String::from_str(venue),
                urls,
                notes,
                paid,
                submitted,
                accepted,
                abandoned,
                withdrawn,
                rejected,
                self_published,
                published,
            },
        )
    }

    pub fn venue(&self) -> (venue: &str)
        ensures
            venue@ == self@.venue,
    {
        self.venue.as_str()
    }

    pub fn urls(&self) -> (urls: &Vec<String>)
        ensures
            views(urls@) == self@.urls,
    {
        &self.urls
    }

    pub fn notes(&self) -> (notes: Option<&String>)
        ensures
            notes is Some <==> self@.notes is Some,
            notes matches Some(s) ==> s@ == self@.notes->0,
    {
        self.notes.as_ref()
    }

    pub fn paid(&self) -> (paid: Option<&String>)
        ensures
            paid is Some <==> self@.paid is Some,
            paid matches Some(s) ==> s@ == self@.paid->0,
    {
        self.paid.as_ref()
    }

    pub fn submitted(&self) -> (day: Option<&Day>)
        ensures
            day is Some <==> self@.submitted is Some,
            day matches Some(d) ==> d@ == self@.submitted->0,
    {
        self.submitted.as_ref()
    }

    pub fn accepted(&self) -> (day: Option<&Day>)
        ensures
            day is Some <==> self@.accepted is Some,
            day matches Some(d) ==> d@ == self@.accepted->0,
    {
        self.accepted.as_ref()
    }

    pub fn abandoned(&self) -> (day: Option<&Day>)
        ensures
            day is Some <==> self@.abandoned is Some,
            day matches Some(d) ==> d@ == self@.abandoned->0,
    {
        self.abandoned.as_ref()
    }

    pub fn withdrawn(&self) -> (day: Option<&Day>)
        ensures
            day is Some <==> self@.withdrawn is Some,
            day matches Some(d) ==> d@ == self@.withdrawn->0,
    {
        self.withdrawn.as_ref()
    }

    pub fn rejected(&self) -> (day: Option<&Day>)
        ensures
            day is Some <==> self@.rejected is Some,
            day matches Some(d) ==> d@ == self@.rejected->0,
    {
        self.rejected.as_ref()
    }

    pub fn self_published(&self) -> (day: Option<&Day>)
        ensures
            day is Some <==> self@.self_published is Some,
            day matches Some(d) ==> d@ == self@.self_published->0,
    {
        self.self_published.as_ref()
    }

    pub fn published(&self) -> (day: Option<&Day>)
        ensures
            day is Some <==> self@.published is Some,
            day matches Some(d) ==> d@ == self@.published->0,
    {
        self.published.as_ref()
    }

    /// The dates that are set, in the order of their states.
    pub fn dates(&self) -> (dates: Vec<Date>)
        ensures
            date_views(dates@) == dates_of(self@),
            dates@.len() > 0,
            publication_errors(self@).len() == 0,
    {
        proof {
            use_type_invariant(self);
            lemma_dates_count(self@);
        }
        Self::collect_dates(
            &self.submitted,
            &self.accepted,
            &self.abandoned,
            &self.withdrawn,
            &self.rejected,
            &self.self_published,
            &self.published,
        )
    }

    /// The date of the most advanced state that was reached.
    pub fn latest(&self) -> (date: Date)
        ensures
            date@ == dates_of(self@).last(),
    {
        let dates = self.dates();
        dates[dates.len() - 1]
    }

    /// Whether the submission is still under way or has ended well: no
    /// date of a bad end is set.
    pub fn active(&self) -> (b: bool)
        ensures
            b == (bad_ends(self@) == 0),
    {
        self.abandoned.is_none() && self.withdrawn.is_none() && self.rejected.is_none()
    }
}

impl Clone for Publication {
    fn clone(&self) -> (r: Publication)
        ensures
            r@ == self@,
    {
        proof {
            use_type_invariant(self);
        }
        Publication {
            venue: self.venue.clone(),
            urls: clone_strings(&self.urls),
            notes: clone_text(&self.notes),
            paid: clone_text(&self.paid),
            submitted: self.submitted,
            accepted: self.accepted,
            abandoned: self.abandoned,
            withdrawn: self.withdrawn,
            rejected: self.rejected,
            self_published: self.self_published,
            published: self.published,
        }
    }
}



/// Collects what a submission holds, field by field, and builds it.
/// What is not set is empty or missing.
#[derive(Debug)]
pub struct PublicationBuilder {
    venue: String,
    urls: Vec<String>,
    notes: Option<String>,
    paid: Option<String>,
    submitted: Option<Day>,
    accepted: Option<Day>,
    abandoned: Option<Day>,
    withdrawn: Option<Day>,
    rejected: Option<Day>,
    self_published: Option<Day>,
    published: Option<Day>,
}

impl View for PublicationBuilder {
    type V = PublicationView;

    closed spec fn view(&self) -> PublicationView {
        PublicationView {
            venue: self.venue@,
            urls: views(self.urls@),
            notes: text_view(self.notes),
            paid: text_view(self.paid),
            submitted: day_view(self.submitted),
            accepted: day_view(self.accepted),
            abandoned: day_view(self.abandoned),
            withdrawn: day_view(self.withdrawn),
            rejected: day_view(self.rejected),
            self_published: day_view(self.self_published),
            published: day_view(self.published),
        }
    }
}

/// A submission with nothing set.
pub open spec fn blank_publication() -> PublicationView {
    PublicationView {
        venue: Seq::empty(),
        urls: Seq::empty(),
        notes: None,
        paid: None,
        submitted: None,
        accepted: None,
        abandoned: None,
        withdrawn: None,
        rejected: None,
        self_published: None,
        published: None,
    }
}

impl Default for PublicationBuilder {
    fn default() -> (b: PublicationBuilder)
        ensures
            b@ == blank_publication(),
    {
        let b = PublicationBuilder {
            venue: String::new(),
            urls: Vec::new(),
            notes: None,
            paid: None,
            submitted: None,
            accepted: None,
            abandoned: None,
            withdrawn: None,
            rejected: None,
            self_published: None,
            published: None,
        };
        assert(views(b.urls@) =~= Seq::<Seq<char>>::empty());
        b
    }
}

impl PublicationBuilder {
    pub fn venue(&mut self, value: &str) -> (r: &mut PublicationBuilder)
        ensures
            *final(self) == *final(r),
            r@ == (PublicationView { venue: value@, ..old(self)@ }),
    {
        self.venue = String::from_str(value);
        self
    }

    pub fn urls(&mut self, value: Vec<String>) -> (r: &mut PublicationBuilder)
        ensures
            *final(self) == *final(r),
            r@ == (PublicationView { urls: views(value@), ..old(self)@ }),
    {
        self.urls = value;
        self
    }

    pub fn notes(&mut self, value: &str) -> (r: &mut PublicationBuilder)
        ensures
            *final(self) == *final(r),
            r@ == (PublicationView { notes: Some(value@), ..old(self)@ }),
    {
        self.notes = Some(String::from_str(value));
        self
    }

    pub fn paid(&mut self, value: &str) -> (r: &mut PublicationBuilder)
        ensures
            *final(self) == *final(r),
            r@ == (PublicationView { paid: Some(value@), ..old(self)@ }),
    {
        self.paid = Some(String::from_str(value));
        self
    }

    pub fn submitted(&mut self, value: Day) -> (r: &mut PublicationBuilder)
        ensures
            *final(self) == *final(r),
            r@ == (PublicationView { submitted: Some(value@), ..old(self)@ }),
    {
        self.submitted = Some(value);
        self
    }

    pub fn accepted(&mut self, value: Day) -> (r: &mut PublicationBuilder)
        ensures
            *final(self) == *final(r),
            r@ == (PublicationView { accepted: Some(value@), ..old(self)@ }),
    {
        self.accepted = Some(value);
        self
    }

    pub fn abandoned(&mut self, value: Day) -> (r: &mut PublicationBuilder)
        ensures
            *final(self) == *final(r),
            r@ == (PublicationView { abandoned: Some(value@), ..old(self)@ }),
    {
        self.abandoned = Some(value);
        self
    }

    pub fn withdrawn(&mut self, value: Day) -> (r: &mut PublicationBuilder)
        ensures
            *final(self) == *final(r),
            r@ == (PublicationView { withdrawn: Some(value@), ..old(self)@ }),
    {
        self.withdrawn = Some(value);
        self
    }

    pub fn rejected(&mut self, value: Day) -> (r: &mut PublicationBuilder)
        ensures
            *final(self) == *final(r),
            r@ == (PublicationView { rejected: Some(value@), ..old(self)@ }),
    {
        self.rejected = Some(value);
        self
    }

    pub fn self_published(&mut self, value: Day) -> (r: &mut PublicationBuilder)
        ensures
            *final(self) == *final(r),
            r@ == (PublicationView { self_published: Some(value@), ..old(self)@ }),
    {
        self.self_published = Some(value);
        self
    }

    pub fn published(&mut self, value: Day) -> (r: &mut PublicationBuilder)
        ensures
            *final(self) == *final(r),
            r@ == (PublicationView { published: Some(value@), ..old(self)@ }),
    {
        self.published = Some(value);
        self
    }

    /// The submission that holds what was set, if that keeps the rules;
    /// else the errors as text.
    pub fn build(&self) -> (r: Result<Publication, String>)
        ensures
            r is Ok <==> publication_errors(self@).len() == 0,
            r matches Ok(p) ==> p@ == self@,
            r matches Err(m) ==> m@ == error_text(publication_errors(self@)),
    {
        match Publication::build(
            self.venue.as_str(),
            clone_strings(&self.urls),
            borrow_text(&self.notes),
            borrow_text(&self.paid),
            self.submitted,
            self.accepted,
            self.abandoned,
            self.withdrawn,
            self.rejected,
            self.self_published,
            self.published,
        ) {
            Ok(p) => Ok(p),
            Err(e) => Err(e.to_string()),
        }
    }

    /// Whether what was set keeps the rules; if not, the errors as text.
    pub fn validate(&self) -> (r: Result<(), String>)
        ensures
            r is Ok <==> publication_errors(self@).len() == 0,
            r matches Err(m) ==> m@ == error_text(publication_errors(self@)),
    {
        match self.build() {
            Ok(_) => Ok(()),
            Err(m) => Err(m),
        }
    }
}

/// The views of the submissions in `v`, in order.
pub open spec fn publication_views(v: Seq<Publication>) -> Seq<PublicationView> {
    v.map_values(|p: Publication| p@)
}

/// `state` is the most advanced state that an active submission of
/// `submissions` has reached.
pub open spec fn is_highest_active(submissions: Seq<PublicationView>, state: State) -> bool {
    &&& exists|i: int|
        0 <= i < submissions.len() && bad_ends(#[trigger] submissions[i]) == 0 && dates_of(
            submissions[i],
        ).last().0 == state
    &&& forall|i: int|
        0 <= i < submissions.len() && bad_ends(#[trigger] submissions[i]) == 0 ==> dates_of(
            submissions[i],
        ).last().0.rank() <= state.rank()
}

/// The most advanced state that an active submission of `submissions` has
/// reached, if any of them is active.
pub open spec fn highest_state(submissions: Seq<PublicationView>) -> Option<State> {
    if any_active(submissions) {
        Some(choose|state: State| is_highest_active(submissions, state))
    } else {
        None
    }
}

/// There is one most advanced state at most.
pub proof fn lemma_highest_is_unique(submissions: Seq<PublicationView>, a: State, b: State)
    requires
        is_highest_active(submissions, a),
        is_highest_active(submissions, b),
    ensures
        a == b,
{
}

/// Some submission of `submissions` is active.
pub open spec fn any_active(submissions: Seq<PublicationView>) -> bool {
    exists|i: int| 0 <= i < submissions.len() && bad_ends(#[trigger] submissions[i]) == 0
}

/// The submissions of a document.
#[derive(Debug)]
pub struct Publications {
    publications: Vec<Publication>,
}

impl View for Publications {
    type V = Seq<PublicationView>;

    closed spec fn view(&self) -> Seq<PublicationView> {
        publication_views(self.publications@)
    }
}

impl Default for Publications {
    fn default() -> (ps: Publications)
        ensures
            ps@ == Seq::<PublicationView>::empty(),
    {
        let ps = Publications { publications: Vec::new() };
        assert(ps@ =~= Seq::<PublicationView>::empty());
        ps
    }
}

impl Clone for Publications {
    fn clone(&self) -> (r: Publications)
        ensures
            r@ == self@,
    {
        let mut out: Vec<Publication> = Vec::new();
        let mut i: usize = 0;
        while i < self.publications.len()
            invariant
                i <= self.publications.len(),
                publication_views(out@) == self@.take(i as int),
            decreases self.publications.len() - i,
        {
            let ghost before = out@;
            let p = self.publications[i].clone();
            out.push(p);
            assert(publication_views(out@) =~= publication_views(before).push(p@));
            assert(publication_views(out@) =~= self@.take(i + 1));
            i += 1;
        }
        assert(self@.take(self@.len() as int) =~= self@);
        Publications { publications: out }
    }
}

impl Publications {
    /// The submissions of a document. Each of them keeps its rules, so
    /// there is nothing left to refuse.
    pub fn build(publications: Vec<Publication>) -> (r: Result<Publications, ValidationErrors>)
        ensures
            r matches Ok(ps) && ps@ == publication_views(publications@),
    {
        Ok(Publications { publications })
    }

    pub fn publications(&self) -> (publications: &Vec<Publication>)
        ensures
            publication_views(publications@) == self@,
    {
        &self.publications
    }

    pub fn is_empty(&self) -> (b: bool)
        ensures
            b == (self@.len() == 0),
    {
        self.publications.len() == 0
    }

    /// Whether some submission is active.
    pub fn active(&self) -> (b: bool)
        ensures
            b == any_active(self@),
    {
        let mut i: usize = 0;
        while i < self.publications.len()
            invariant
                i <= self.publications.len(),
                forall|k: int| 0 <= k < i ==> bad_ends(#[trigger] self@[k]) != 0,
            decreases self.publications.len() - i,
        {
            if self.publications[i].active() {
                assert(bad_ends(self@[i as int]) == 0);
                return true;
            }
            i += 1;
        }
        false
    }

    /// The most advanced state that an active submission has reached, if
    /// any submission is active.
    pub fn highest_active_state(&self) -> (r: Option<State>)
        ensures
            r == highest_state(self@),
            r is Some <==> any_active(self@),
            r matches Some(state) ==> is_highest_active(self@, state),
    {
        let mut best: Option<State> = None;
        let mut i: usize = 0;
        while i < self.publications.len()
            invariant
                i <= self.publications.len(),
                best is Some <==> any_active(self@.take(i as int)),
                best matches Some(state) ==> is_highest_active(self@.take(i as int), state),
            decreases self.publications.len() - i,
        {
            let ghost done = self@.take(i as int);
            let ghost now = self@.take(i + 1);
            proof {
                assert(now =~= done.push(self@[i as int]));
                assert forall|k: int| 0 <= k < done.len() implies done[k] == now[k] by {}
            }
            let p = &self.publications[i];
            if p.active() {
                let state = p.latest().state;
                let better = match best {
                    Some(b) => b.order() < state.order(),
                    None => true,
                };
                if better {
                    best = Some(state);
                }
                proof {
                    assert(bad_ends(now[i as int]) == 0);
                    let chosen = best->0;
                    if !better {
                        let w = choose|w: int|
                            0 <= w < done.len() && bad_ends(#[trigger] done[w]) == 0 && dates_of(
                                done[w],
                            ).last().0 == chosen;
                        assert(now[w] == done[w]);
                    }
                    assert forall|k: int|
                        0 <= k < now.len() && bad_ends(
                            #[trigger] now[k],
                        ) == 0 implies dates_of(now[k]).last().0.rank() <= chosen.rank() by {
                        if k < i {
                            assert(done[k] == now[k]);
                            assert(any_active(done));
                        }
                    }
                    assert(is_highest_active(now, chosen));
                }
            } else {
                proof {
                    assert(bad_ends(now[i as int]) != 0);
                    if best is Some {
                        let chosen = best->0;
                        let w = choose|w: int|
                            0 <= w < done.len() && bad_ends(#[trigger] done[w]) == 0 && dates_of(
                                done[w],
                            ).last().0 == chosen;
                        assert(now[w] == done[w]);
                        assert forall|k: int|
                            0 <= k < now.len() && bad_ends(
                                #[trigger] now[k],
                            ) == 0 implies dates_of(now[k]).last().0.rank() <= chosen.rank() by {
                            assert(k < i);
                            assert(done[k] == now[k]);
                        }
                        assert(any_active(now));
                    } else {
                        assert forall|k: int| 0 <= k < now.len() implies bad_ends(
                            #[trigger] now[k],
                        ) != 0 by {
                            if k < i {
                                assert(done[k] == now[k]);
                            }
                        }
                    }
                }
            }
            i += 1;
        }
        proof {
            assert(self@.take(self@.len() as int) =~= self@);
            if best is Some {
                lemma_highest_is_unique(self@, best->0, highest_state(self@)->0);
            }
        }
        best
    }
}

} // verus!
