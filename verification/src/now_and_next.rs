//! The "now and next" guide: for every venue of a schedule, the event
//! running at a queried instant and the first event yet to come.

use vstd::prelude::*;

use crate::event::{Event, RelativeTime};
use crate::schedule::{events_have_venue, get_unique_venues_from_events};
use crate::timestamp::Timestamp;

verus! {

/// The guide entry of one venue.
#[derive(Debug)]
pub struct VenueNowAndNext {
    /// An event is "now" if the query time is between its start and end
    /// timestamps; at most one is listed, the first in schedule order.
    pub now: Vec<Event>,
    /// An event is "next" if it is the first event in schedule order with a
    /// start timestamp later than the query timestamp.
    pub next: Vec<Event>,
}

/// The guide for a whole schedule: the query instant and one entry per
/// venue.
#[derive(Debug)]
pub struct NowAndNext {
    pub now: Timestamp,
    pub guide: Vec<(String, VenueNowAndNext)>,
}

/// The first event of the collection, in order, at the venue and ongoing at
/// `t`.
pub open spec fn spec_venue_now(events: Seq<Event>, venue: Seq<char>, t: int) -> Option<Event>
    decreases events.len(),
{
    if events.len() == 0 {
        Option::None
    } else if events[0].venue@ == venue && crate::event::spec_relative_to(events[0], t)
        == RelativeTime::Now {
        Option::Some(events[0])
    } else {
        spec_venue_now(events.drop_first(), venue, t)
    }
}

/// The first event of the collection, in order, at the venue and still to
/// come at `t`.
pub open spec fn spec_venue_next(events: Seq<Event>, venue: Seq<char>, t: int) -> Option<Event>
    decreases events.len(),
{
    if events.len() == 0 {
        Option::None
    } else if events[0].venue@ == venue && crate::event::spec_relative_to(events[0], t)
        == RelativeTime::Future {
        Option::Some(events[0])
    } else {
        spec_venue_next(events.drop_first(), venue, t)
    }
}

/// A found event as a one-element list, nothing as an empty one.
pub open spec fn singleton_or_empty(o: Option<Event>) -> Seq<Event> {
    match o {
        Option::Some(e) => seq![e],
        Option::None => Seq::empty(),
    }
}

/// What a correct guide for `events` at instant `now` looks like: one entry
/// per venue of the events, no venue twice, and each entry carrying that
/// venue's current and upcoming event.
/// The guide has an entry for venue `v`.
pub open spec fn guide_has_venue(g: Seq<(String, VenueNowAndNext)>, v: Seq<char>) -> bool {
    exists|k: int| 0 <= k < g.len() && g[k].0@ == v
}

pub open spec fn now_and_next_ok(r: NowAndNext, events: Seq<Event>, now: Timestamp) -> bool {
    &&& r.now == now
    &&& forall|i: int|
        0 <= i < events.len() ==> guide_has_venue(r.guide@, #[trigger] events[i].venue@)
    &&& forall|k: int|
        0 <= k < r.guide@.len() ==> events_have_venue(events, #[trigger] r.guide@[k].0@)
    &&& forall|k1: int, k2: int| 0 <= k1 < k2 < r.guide@.len() ==> r.guide@[k1].0@ != r.guide@[k2].0@
    &&& forall|k: int|
        0 <= k < r.guide@.len() ==> (#[trigger] r.guide@[k].1.now@) == singleton_or_empty(
            spec_venue_now(events, r.guide@[k].0@, now.secs as int),
        )
    &&& forall|k: int|
        0 <= k < r.guide@.len() ==> (#[trigger] r.guide@[k].1.next@) == singleton_or_empty(
            spec_venue_next(events, r.guide@[k].0@, now.secs as int),
        )
}

/// Searching from position `i` onwards is the whole search when nothing
/// before `i` matches.
proof fn lemma_venue_now_skip(events: Seq<Event>, venue: Seq<char>, t: int, i: int)
    requires
        0 <= i <= events.len(),
        forall|j: int|
            0 <= j < i ==> !((#[trigger] events[j].venue@) == venue && crate::event::spec_relative_to(
                events[j],
                t,
            ) == RelativeTime::Now),
    ensures
        spec_venue_now(events, venue, t) == spec_venue_now(events.skip(i), venue, t),
    decreases i,
{
    if i > 0 {
        assert(events.drop_first().skip(i - 1) =~= events.skip(i));
        lemma_venue_now_skip(events.drop_first(), venue, t, i - 1);
    } else {
        assert(events.skip(0) =~= events);
    }
}

proof fn lemma_venue_next_skip(events: Seq<Event>, venue: Seq<char>, t: int, i: int)
    requires
        0 <= i <= events.len(),
        forall|j: int|
            0 <= j < i ==> !((#[trigger] events[j].venue@) == venue && crate::event::spec_relative_to(
                events[j],
                t,
            ) == RelativeTime::Future),
    ensures
        spec_venue_next(events, venue, t) == spec_venue_next(events.skip(i), venue, t),
    decreases i,
{
    if i > 0 {
        assert(events.drop_first().skip(i - 1) =~= events.skip(i));
        lemma_venue_next_skip(events.drop_first(), venue, t, i - 1);
    } else {
        assert(events.skip(0) =~= events);
    }
}

/// Finds the venue's ongoing event, if any.
fn find_venue_now(events: &Vec<Event>, venue: &String, now: Timestamp) -> (r: Vec<Event>)
    ensures
        r@ == singleton_or_empty(spec_venue_now(events@, venue@, now.secs as int)),
{
    let mut i: usize = 0;
    while i < events.len()
        invariant
            i <= events.len(),
            forall|j: int|
                0 <= j < i ==> !((#[trigger] events@[j].venue@) == venue@
                    && crate::event::spec_relative_to(events@[j], now.secs as int)
                    == RelativeTime::Now),
        decreases events.len() - i,
    {
        if events[i].venue.eq(venue) && events[i].relative_to(now) == RelativeTime::Now {
            proof {
                lemma_venue_now_skip(events@, venue@, now.secs as int, i as int);
                assert(events@.skip(i as int)[0] == events@[i as int]);
            }
            let mut out: Vec<Event> = Vec::new();
            out.push(events[i].clone());
            return out;
        }
        i = i + 1;
    }
    proof {
        lemma_venue_now_skip(events@, venue@, now.secs as int, events@.len() as int);
        assert(events@.skip(events@.len() as int) =~= Seq::<Event>::empty());
    }
    Vec::new()
}

/// Finds the venue's first upcoming event, if any.
fn find_venue_next(events: &Vec<Event>, venue: &String, now: Timestamp) -> (r: Vec<Event>)
    ensures
        r@ == singleton_or_empty(spec_venue_next(events@, venue@, now.secs as int)),
{
    let mut i: usize = 0;
    while i < events.len()
        invariant
            i <= events.len(),
            forall|j: int|
                0 <= j < i ==> !((#[trigger] events@[j].venue@) == venue@
                    && crate::event::spec_relative_to(events@[j], now.secs as int)
                    == RelativeTime::Future),
        decreases events.len() - i,
    {
        if events[i].venue.eq(venue) && events[i].relative_to(now) == RelativeTime::Future {
            proof {
                lemma_venue_next_skip(events@, venue@, now.secs as int, i as int);
                assert(events@.skip(i as int)[0] == events@[i as int]);
            }
            let mut out: Vec<Event> = Vec::new();
            out.push(events[i].clone());
            return out;
        }
        i = i + 1;
    }
    proof {
        lemma_venue_next_skip(events@, venue@, now.secs as int, events@.len() as int);
        assert(events@.skip(events@.len() as int) =~= Seq::<Event>::empty());
    }
    Vec::new()
}

impl NowAndNext {
    /// Builds the guide: one entry for each venue of the events, carrying
    /// the venue's ongoing event and its first upcoming event at `now`.
    pub fn new(events: &Vec<Event>, now: Timestamp) -> (r: NowAndNext)
        ensures
            now_and_next_ok(r, events@, now),
    {
        let venues = get_unique_venues_from_events(events);
        let mut guide: Vec<(String, VenueNowAndNext)> = Vec::new();
        let mut k: usize = 0;
        while k < venues.len()
            invariant
                k <= venues.len(),
                guide@.len() == k,
                forall|m: int| 0 <= m < k ==> (#[trigger] guide@[m].0)@ == venues@[m]@,
                forall|m: int|
                    0 <= m < k ==> (#[trigger] guide@[m].1.now@) == singleton_or_empty(
                        spec_venue_now(events@, guide@[m].0@, now.secs as int),
                    ),
                forall|m: int|
                    0 <= m < k ==> (#[trigger] guide@[m].1.next@) == singleton_or_empty(
                        spec_venue_next(events@, guide@[m].0@, now.secs as int),
                    ),
                forall|i: int|
                    0 <= i < events@.len() ==> crate::mutation::venue_list_contains(
                        venues@,
                        #[trigger] events@[i].venue@,
                    ),
                forall|m: int|
                    0 <= m < venues@.len() ==> events_have_venue(
                        events@,
                        #[trigger] venues@[m]@,
                    ),
                forall|m1: int, m2: int|
                    0 <= m1 < m2 < venues@.len() ==> venues@[m1]@ != venues@[m2]@,
            decreases venues.len() - k,
        {
            let venue = &venues[k];
            let entry = VenueNowAndNext {
                now: find_venue_now(events, venue, now),
                next: find_venue_next(events, venue, now),
            };
            let ghost gprev: Seq<(String, VenueNowAndNext)> = guide@;
            let ghost eview: VenueNowAndNext = entry;
            guide.push((venue.clone(), entry));
            proof {
                assert(guide@[k as int].0@ == venues@[k as int]@);
                assert(guide@[k as int].1 == eview);
                assert(guide@[k as int].1.now@ == singleton_or_empty(
                    spec_venue_now(events@, venues@[k as int]@, now.secs as int),
                ));
                assert(guide@[k as int].1.next@ == singleton_or_empty(
                    spec_venue_next(events@, venues@[k as int]@, now.secs as int),
                ));
                assert(forall|m: int| 0 <= m < k ==> guide@[m] == gprev[m]);
                assert forall|m: int| 0 <= m < k + 1 implies (#[trigger] guide@[m].1.now@)
                    == singleton_or_empty(
                    spec_venue_now(events@, guide@[m].0@, now.secs as int),
                ) by {
                    if m < k {
                        assert(guide@[m] == gprev[m]);
                        assert(gprev[m].1.now@ == singleton_or_empty(
                            spec_venue_now(events@, gprev[m].0@, now.secs as int),
                        ));
                    }
                }
                assert forall|m: int| 0 <= m < k + 1 implies (#[trigger] guide@[m].1.next@)
                    == singleton_or_empty(
                    spec_venue_next(events@, guide@[m].0@, now.secs as int),
                ) by {
                    if m < k {
                        assert(guide@[m] == gprev[m]);
                        assert(gprev[m].1.next@ == singleton_or_empty(
                            spec_venue_next(events@, gprev[m].0@, now.secs as int),
                        ));
                    }
                }
            }
            k = k + 1;
        }
        let ghost gview: Seq<(String, VenueNowAndNext)> = guide@;
        let r = NowAndNext { now, guide };
        proof {
            assert(r.guide@ == gview);
            assert forall|i: int| 0 <= i < events@.len() implies guide_has_venue(
                r.guide@,
                #[trigger] events@[i].venue@,
            ) by {
                assert(crate::mutation::venue_list_contains(venues@, events@[i].venue@));
                let m = choose|m: int| 0 <= m < venues@.len() && venues@[m]@ == events@[i].venue@;
                assert(0 <= m < r.guide@.len() && r.guide@[m].0@ == events@[i].venue@);
            }
            assert forall|k: int| 0 <= k < r.guide@.len() implies events_have_venue(
                events@,
                #[trigger] r.guide@[k].0@,
            ) by {
                assert(gview[k].0@ == venues@[k]@);
                assert(events_have_venue(events@, venues@[k]@));
            }
            assert forall|k1: int, k2: int| 0 <= k1 < k2 < r.guide@.len() implies r.guide@[k1].0@
                != r.guide@[k2].0@ by {
                assert(gview[k1].0@ == venues@[k1]@);
                assert(gview[k2].0@ == venues@[k2]@);
            }
            assert forall|k: int| 0 <= k < r.guide@.len() implies (#[trigger] r.guide@[k].1.now@)
                == singleton_or_empty(
                spec_venue_now(events@, r.guide@[k].0@, now.secs as int),
            ) by {
                assert(gview[k].1.now@ == singleton_or_empty(
                    spec_venue_now(events@, gview[k].0@, now.secs as int),
                ));
            }
            assert forall|k: int| 0 <= k < r.guide@.len() implies (#[trigger] r.guide@[k].1.next@)
                == singleton_or_empty(
                spec_venue_next(events@, r.guide@[k].0@, now.secs as int),
            ) by {
                assert(gview[k].1.next@ == singleton_or_empty(
                    spec_venue_next(events@, gview[k].0@, now.secs as int),
                ));
            }
        }
        r
    }

    /// Looks a venue up in the guide.
    pub fn venue_guide(&self, venue: &str) -> (r: Option<&VenueNowAndNext>)
        ensures
            match r {
                Option::Some(g) => exists|k: int|
                    0 <= k < self.guide@.len() && (#[trigger] self.guide@[k].0@) == venue@
                        && self.guide@[k].1 == *g,
                Option::None => forall|k: int|
                    0 <= k < self.guide@.len() ==> (#[trigger] self.guide@[k].0@) != venue@,
            },
    {
        let mut k: usize = 0;
        while k < self.guide.len()
            invariant
                k <= self.guide.len(),
                forall|m: int| 0 <= m < k ==> (#[trigger] self.guide@[m].0@) != venue@,
            decreases self.guide.len() - k,
        {
            if crate::strings::str_eq(self.guide[k].0.as_str(), venue) {
                return Option::Some(&self.guide[k].1);
            }
            k = k + 1;
        }
        Option::None
    }
}

} // verus!
