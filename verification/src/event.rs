//! Events of the schedule: their data, content equality (as used to detect
//! schedule changes), the canonical order, and the position of an event
//! relative to a point in time.

use vstd::prelude::*;

use crate::strings::{lex_le, str_le};
use crate::timestamp::Timestamp;

verus! {

/// Extra data carried by workshop events.
#[derive(Debug)]
pub struct Workshop {
    pub cost: String,
    pub equiptment: Option<String>,
    pub age_range: String,
    pub attendees: Option<String>,
}

/// What kind of event an entry of the schedule is.
#[derive(Debug)]
pub enum Kind {
    Talk,
    Workshop(Workshop),
    YouthWorkshop,
    Performance,
}

/// One entry of the schedule.
#[derive(Debug)]
pub struct Event {
    pub id: u32,
    pub slug: String,
    pub start: Timestamp,
    pub end: Timestamp,
    pub venue: String,
    pub map_link: Option<String>,
    pub title: String,
    pub speaker: String,
    pub pronouns: Option<String>,
    pub description: String,
    pub kind: Kind,
    pub may_record: Option<bool>,
    pub is_family_friendly: Option<bool>,
    pub link: String,
}

/// Where an event lies relative to a queried instant.
#[derive(Debug, PartialEq, Eq, Structural)]
pub enum RelativeTime {
    Past,
    Now,
    Future,
}

/// Content equality of optional strings.
pub open spec fn opt_string_eq(a: Option<String>, b: Option<String>) -> bool {
    match (a, b) {
        (Option::None, Option::None) => true,
        (Option::Some(x), Option::Some(y)) => x@ == y@,
        _ => false,
    }
}

/// Content equality of event kinds.
pub open spec fn kind_eq(a: Kind, b: Kind) -> bool {
    match (a, b) {
        (Kind::Talk, Kind::Talk) => true,
        (Kind::Workshop(x), Kind::Workshop(y)) => {
            &&& x.cost@ == y.cost@
            &&& opt_string_eq(x.equiptment, y.equiptment)
            &&& x.age_range@ == y.age_range@
            &&& opt_string_eq(x.attendees, y.attendees)
        },
        (Kind::YouthWorkshop, Kind::YouthWorkshop) => true,
        (Kind::Performance, Kind::Performance) => true,
        _ => false,
    }
}

/// Content equality of events: every field, strings by their characters,
/// timestamps by their instant.
pub open spec fn event_eq(a: Event, b: Event) -> bool {
    &&& a.id == b.id
    &&& a.slug@ == b.slug@
    &&& a.start.secs == b.start.secs
    &&& a.end.secs == b.end.secs
    &&& a.venue@ == b.venue@
    &&& opt_string_eq(a.map_link, b.map_link)
    &&& a.title@ == b.title@
    &&& a.speaker@ == b.speaker@
    &&& opt_string_eq(a.pronouns, b.pronouns)
    &&& a.description@ == b.description@
    &&& kind_eq(a.kind, b.kind)
    &&& a.may_record == b.may_record
    &&& a.is_family_friendly == b.is_family_friendly
    &&& a.link@ == b.link@
}

/// The canonical order over events: ascending start instant, ties broken by
/// venue name.
pub open spec fn canonical_le(a: Event, b: Event) -> bool {
    ||| a.start.secs < b.start.secs
    ||| (a.start.secs == b.start.secs && lex_le(a.venue@, b.venue@))
}

/// Any two events are comparable in the canonical order.
pub proof fn lemma_canonical_le_total(a: Event, b: Event)
    ensures
        canonical_le(a, b) || canonical_le(b, a),
{
    crate::strings::lemma_lex_le_total(a.venue@, b.venue@);
}

/// The canonical order is transitive.
pub proof fn lemma_canonical_le_trans(a: Event, b: Event, c: Event)
    requires
        canonical_le(a, b),
        canonical_le(b, c),
    ensures
        canonical_le(a, c),
{
    if a.start.secs == b.start.secs && b.start.secs == c.start.secs {
        crate::strings::lemma_lex_le_trans(a.venue@, b.venue@, c.venue@);
    }
}

/// Compares two optional strings by content.
fn eq_opt_string(a: &Option<String>, b: &Option<String>) -> (r: bool)
    ensures
        r == opt_string_eq(*a, *b),
{
    match (a, b) {
        (Option::None, Option::None) => true,
        (Option::Some(x), Option::Some(y)) => x.eq(y),
        _ => false,
    }
}

/// Clones an optional string.
fn clone_opt_string(a: &Option<String>) -> (r: Option<String>)
    ensures
        r == *a,
{
    match a {
        Option::None => Option::None,
        Option::Some(s) => Option::Some(s.clone()),
    }
}

impl Workshop {
    /// Decides content equality of workshop data.
    pub fn content_eq(&self, other: &Workshop) -> (r: bool)
        ensures
            r == (kind_eq(Kind::Workshop(*self), Kind::Workshop(*other))),
    {
        self.cost == other.cost && eq_opt_string(&self.equiptment, &other.equiptment)
            && self.age_range == other.age_range && eq_opt_string(
            &self.attendees,
            &other.attendees,
        )
    }
}

impl Clone for Workshop {
    fn clone(&self) -> (r: Self)
        ensures
            r == *self,
    {
        Workshop {
            cost: self.cost.clone(),
            equiptment: clone_opt_string(&self.equiptment),
            age_range: self.age_range.clone(),
            attendees: clone_opt_string(&self.attendees),
        }
    }
}

impl Kind {
    /// Decides content equality of kinds.
    pub fn content_eq(&self, other: &Kind) -> (r: bool)
        ensures
            r == kind_eq(*self, *other),
    {
        match (self, other) {
            (Kind::Talk, Kind::Talk) => true,
            (Kind::Workshop(x), Kind::Workshop(y)) => x.content_eq(y),
            (Kind::YouthWorkshop, Kind::YouthWorkshop) => true,
            (Kind::Performance, Kind::Performance) => true,
            _ => false,
        }
    }
}

impl Clone for Kind {
    fn clone(&self) -> (r: Self)
        ensures
            r == *self,
    {
        match self {
            Kind::Talk => Kind::Talk,
            Kind::Workshop(w) => Kind::Workshop(w.clone()),
            Kind::YouthWorkshop => Kind::YouthWorkshop,
            Kind::Performance => Kind::Performance,
        }
    }
}

impl Clone for Event {
    fn clone(&self) -> (r: Self)
        ensures
            r == *self,
    {
        Event {
            id: self.id,
            slug: self.slug.clone(),
            start: self.start,
            end: self.end,
            venue: self.venue.clone(),
            map_link: clone_opt_string(&self.map_link),
            title: self.title.clone(),
            speaker: self.speaker.clone(),
            pronouns: clone_opt_string(&self.pronouns),
            description: self.description.clone(),
            kind: self.kind.clone(),
            may_record: self.may_record,
            is_family_friendly: self.is_family_friendly,
            link: self.link.clone(),
        }
    }
}

/// Events compare equal exactly when their contents do, so that comparing
/// two snapshots of the schedule detects any edit.
impl PartialEq for Event {
    fn eq(&self, other: &Event) -> (r: bool) {
        self.id == other.id && self.slug == other.slug && self.start.secs == other.start.secs
            && self.end.secs == other.end.secs && self.venue == other.venue && eq_opt_string(
            &self.map_link,
            &other.map_link,
        ) && self.title == other.title && self.speaker == other.speaker && eq_opt_string(
            &self.pronouns,
            &other.pronouns,
        ) && self.description == other.description && self.kind.content_eq(&other.kind)
            && self.may_record == other.may_record && self.is_family_friendly
            == other.is_family_friendly && self.link == other.link
    }
}

impl vstd::std_specs::cmp::PartialEqSpecImpl for Event {
    open spec fn obeys_eq_spec() -> bool {
        true
    }

    open spec fn eq_spec(&self, other: &Event) -> bool {
        event_eq(*self, *other)
    }
}

impl Event {
    /// Decides the canonical order.
    pub fn le(&self, other: &Event) -> (r: bool)
        ensures
            r == canonical_le(*self, *other),
    {
        if self.start.secs < other.start.secs {
            true
        } else if self.start.secs == other.start.secs {
            str_le(self.venue.as_str(), other.venue.as_str())
        } else {
            false
        }
    }

    /// A placeholder event: one hour long, starting at the given instant,
    /// with every descriptive field empty.
    pub fn dummy(id: u32, start: Timestamp) -> (r: Event)
        requires
            start.secs + 3600 <= i64::MAX,
        ensures
            r.id == id,
            r.start == start,
            r.end.secs == start.secs + 3600,
            r.end.tz_secs == start.tz_secs,
            r.slug@ == Seq::<char>::empty(),
            r.venue@ == Seq::<char>::empty(),
            r.title@ == Seq::<char>::empty(),
            r.speaker@ == Seq::<char>::empty(),
            r.description@ == Seq::<char>::empty(),
            r.map_link is None,
            r.pronouns is None,
            r.may_record is None,
            r.is_family_friendly is None,
            r.kind is Talk,
            r.link@ == "http://example.com"@,
    {
        Event {
            id,
            slug: String::new(),
            start,
            end: Timestamp { secs: start.secs + 3600, tz_secs: start.tz_secs },
            venue: String::new(),
            map_link: Option::None,
            title: String::new(),
            speaker: String::new(),
            pronouns: Option::None,
            description: String::new(),
            kind: Kind::Talk,
            may_record: Option::None,
            is_family_friendly: Option::None,
            link: "http://example.com".to_owned(),
        }
    }

    /// Where the event lies relative to `timestamp`: over, ongoing (the
    /// instant falls between start and end, inclusive), or yet to come.
    pub fn relative_to(&self, timestamp: Timestamp) -> (r: RelativeTime)
        ensures
            r == spec_relative_to(*self, timestamp.secs as int),
    {
        if self.end.secs < timestamp.secs {
            RelativeTime::Past
        } else if self.start.secs <= timestamp.secs && self.end.secs >= timestamp.secs {
            RelativeTime::Now
        } else {
            RelativeTime::Future
        }
    }
}

/// Position of an event relative to an instant: past once its end has gone
/// by, current between start and end inclusive, future before its start.
pub open spec fn spec_relative_to(e: Event, t: int) -> RelativeTime {
    if e.end.secs < t {
        RelativeTime::Past
    } else if e.start.secs <= t {
        RelativeTime::Now
    } else {
        RelativeTime::Future
    }
}

} // verus!
