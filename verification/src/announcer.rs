//! The announcer: a state machine that picks, one at a time, the next event
//! to announce from the current schedule snapshot, refreshes the snapshot on
//! an interval without duplicating or skipping notifications, and computes
//! how long to wait before either obligation is due. The waiting itself — a
//! race between the refresh timer and the per-event timer, won by whichever
//! fires first with the loser cancelled without effect — is the caller's:
//! this module supplies every decision of that loop.

use vstd::prelude::*;

use crate::event::{canonical_le, event_eq, Event};
use crate::mutation::{sort_events, sorted_events, SortedByStartTime};
use crate::schedule::{events_eq, Schedule};
use crate::timestamp::{Timestamp, MAX_INSTANT_SECS};

verus! {

use vstd::seq_lib::to_multiset_contains;
use vstd::seq_lib::to_multiset_len;

/// How the announcer is configured: the schedule refresh interval, and the
/// signed offset applied to each event's start before comparing with "now"
/// (positive delays announcements, negative gives lead time).
#[derive(Clone, Copy, Debug)]
pub struct AnnouncerSettings {
    pub schedule_refresh_secs: u64,
    pub event_start_offset_secs: i64,
}

impl AnnouncerSettings {
    /// The interval and offset are small enough for deadline arithmetic.
    pub open spec fn wf(&self) -> bool {
        &&& self.schedule_refresh_secs <= 0x1_0000_0000
        &&& -MAX_INSTANT_SECS <= self.event_start_offset_secs <= MAX_INSTANT_SECS
    }

    /// Checks `wf` at run time.
    pub fn is_valid(&self) -> (r: bool)
        ensures
            r == self.wf(),
    {
        self.schedule_refresh_secs <= 0x1_0000_0000 && -MAX_INSTANT_SECS
            <= self.event_start_offset_secs && self.event_start_offset_secs <= MAX_INSTANT_SECS
    }
}

impl Default for AnnouncerSettings {
    /// Sixty seconds between refreshes, no offset.
    fn default() -> (r: AnnouncerSettings)
        ensures
            r.schedule_refresh_secs == 60,
            r.event_start_offset_secs == 0,
    {
        AnnouncerSettings { schedule_refresh_secs: 60, event_start_offset_secs: 0 }
    }
}

/// Whether a refresh found the schedule changed.
#[derive(Debug, PartialEq, Eq, Structural)]
pub enum AnnouncerScheduleChanges {
    Changes,
    NoChanges,
}

/// What one poll of the announcer yields: an event due for announcement, or
/// word that the schedule was refreshed.
#[derive(Debug)]
pub enum AnnouncerPollResult {
    Event(Event),
    ScheduleRefreshed(AnnouncerScheduleChanges),
}

/// Content equality of poll results.
pub open spec fn poll_result_eq(a: AnnouncerPollResult, b: AnnouncerPollResult) -> bool {
    match (a, b) {
        (AnnouncerPollResult::Event(x), AnnouncerPollResult::Event(y)) => event_eq(x, y),
        (
            AnnouncerPollResult::ScheduleRefreshed(x),
            AnnouncerPollResult::ScheduleRefreshed(y),
        ) => x == y,
        _ => false,
    }
}

impl PartialEq for AnnouncerPollResult {
    fn eq(&self, other: &AnnouncerPollResult) -> (r: bool) {
        match (self, other) {
            (AnnouncerPollResult::Event(x), AnnouncerPollResult::Event(y)) => x == y,
            (
                AnnouncerPollResult::ScheduleRefreshed(x),
                AnnouncerPollResult::ScheduleRefreshed(y),
            ) => x == y,
            _ => false,
        }
    }
}

impl vstd::std_specs::cmp::PartialEqSpecImpl for AnnouncerPollResult {
    open spec fn obeys_eq_spec() -> bool {
        true
    }

    open spec fn eq_spec(&self, other: &AnnouncerPollResult) -> bool {
        poll_result_eq(*self, *other)
    }
}

/// A subset of fields from the last event that was notified: its start
/// instant and id. Used to select the next event to be notified.
#[derive(Clone, Copy, Debug)]
pub struct LastNotifiedEventMarker {
    pub start: Timestamp,
    pub id: u32,
}

/// The marker an event leaves behind once announced.
pub open spec fn marker_of(e: Event) -> LastNotifiedEventMarker {
    LastNotifiedEventMarker { start: e.start, id: e.id }
}

impl LastNotifiedEventMarker {
    /// The marker denotes this event: same start instant, same id. A changed
    /// start with an unchanged id does not match — deliberately, so an event
    /// moved in time is treated as new.
    pub open spec fn spec_matches(self, event: Event) -> bool {
        self.start.secs == event.start.secs && self.id == event.id
    }

    pub fn matches(&self, event: &Event) -> (r: bool)
        ensures
            r == self.spec_matches(*event),
    {
        self.start.secs == event.start.secs && self.id == event.id
    }

    pub fn from_event(event: &Event) -> (r: LastNotifiedEventMarker)
        ensures
            r == marker_of(*event),
    {
        LastNotifiedEventMarker { start: event.start, id: event.id }
    }
}

/// The first event, in order, whose offset-adjusted start has not passed.
pub open spec fn spec_first_due(events: Seq<Event>, offset: int, now: int) -> Option<Event>
    decreases events.len(),
{
    if events.len() == 0 {
        Option::None
    } else if events[0].start.secs + offset >= now {
        Option::Some(events[0])
    } else {
        spec_first_due(events.drop_first(), offset, now)
    }
}

/// The event right after the first one the marker matches, if any.
pub open spec fn spec_successor_of_match(
    events: Seq<Event>,
    marker: LastNotifiedEventMarker,
) -> Option<Event>
    decreases events.len(),
{
    if events.len() == 0 {
        Option::None
    } else if marker.spec_matches(events[0]) {
        if events.len() >= 2 {
            Option::Some(events[1])
        } else {
            Option::None
        }
    } else {
        spec_successor_of_match(events.drop_first(), marker)
    }
}

/// The first event, in order, starting strictly after instant `t`.
pub open spec fn spec_first_starting_after(events: Seq<Event>, t: int) -> Option<Event>
    decreases events.len(),
{
    if events.len() == 0 {
        Option::None
    } else if events[0].start.secs > t {
        Option::Some(events[0])
    } else {
        spec_first_starting_after(events.drop_first(), t)
    }
}

/// Some event of the collection matches the marker.
pub open spec fn spec_has_match(events: Seq<Event>, marker: LastNotifiedEventMarker) -> bool {
    exists|i: int| 0 <= i < events.len() && marker.spec_matches(#[trigger] events[i])
}

/// The next event to announce. With no marker, the first event whose
/// offset-adjusted start is not yet past — so an event whose nominal start
/// has gone by is still chosen while its notification point has not. With a
/// marker that matches, the strict successor of the first match. With a
/// marker that matches nothing (the event vanished or moved), the first
/// event starting strictly after the marker's start.
pub open spec fn spec_next_event(
    events: Seq<Event>,
    offset: int,
    marker: Option<LastNotifiedEventMarker>,
    now: int,
) -> Option<Event> {
    match marker {
        Option::None => spec_first_due(events, offset, now),
        Option::Some(m) => if spec_has_match(events, m) {
            spec_successor_of_match(events, m)
        } else {
            spec_first_starting_after(events, m.start.secs as int)
        },
    }
}

proof fn lemma_first_due_skip(events: Seq<Event>, offset: int, now: int, i: int)
    requires
        0 <= i <= events.len(),
        forall|j: int| 0 <= j < i ==> (#[trigger] events[j].start.secs) + offset < now,
    ensures
        spec_first_due(events, offset, now) == spec_first_due(events.skip(i), offset, now),
    decreases i,
{
    if i > 0 {
        assert(events.drop_first().skip(i - 1) =~= events.skip(i));
        lemma_first_due_skip(events.drop_first(), offset, now, i - 1);
    } else {
        assert(events.skip(0) =~= events);
    }
}

proof fn lemma_successor_skip(events: Seq<Event>, marker: LastNotifiedEventMarker, i: int)
    requires
        0 <= i <= events.len(),
        forall|j: int| 0 <= j < i ==> !marker.spec_matches(#[trigger] events[j]),
    ensures
        spec_successor_of_match(events, marker) == spec_successor_of_match(
            events.skip(i),
            marker,
        ),
    decreases i,
{
    if i > 0 {
        assert(events.drop_first().skip(i - 1) =~= events.skip(i));
        lemma_successor_skip(events.drop_first(), marker, i - 1);
    } else {
        assert(events.skip(0) =~= events);
    }
}

proof fn lemma_first_after_skip(events: Seq<Event>, t: int, i: int)
    requires
        0 <= i <= events.len(),
        forall|j: int| 0 <= j < i ==> (#[trigger] events[j].start.secs) <= t,
    ensures
        spec_first_starting_after(events, t) == spec_first_starting_after(events.skip(i), t),
    decreases i,
{
    if i > 0 {
        assert(events.drop_first().skip(i - 1) =~= events.skip(i));
        lemma_first_after_skip(events.drop_first(), t, i - 1);
    } else {
        assert(events.skip(0) =~= events);
    }
}

/// Selects the next event to announce from `events`, per `spec_next_event`.
pub fn get_next_event_to_announce(
    events: &Vec<Event>,
    event_offset_secs: i64,
    last_notified_event_marker: &Option<LastNotifiedEventMarker>,
    now: Timestamp,
) -> (r: Option<Event>)
    ensures
        r == spec_next_event(
            events@,
            event_offset_secs as int,
            *last_notified_event_marker,
            now.secs as int,
        ),
{
    match last_notified_event_marker {
        Option::Some(marker) => {
            // Look for the event the marker denotes.
            let mut i: usize = 0;
            while i < events.len()
                invariant
                    i <= events.len(),
                    *last_notified_event_marker == Option::Some(*marker),
                    forall|j: int| 0 <= j < i ==> !marker.spec_matches(#[trigger] events@[j]),
                decreases events.len() - i,
            {
                if marker.matches(&events[i]) {
                    proof {
                        assert(spec_has_match(events@, *marker));
                        lemma_successor_skip(events@, *marker, i as int);
                        assert(events@.skip(i as int)[0] == events@[i as int]);
                        if i + 1 < events@.len() {
                            assert(events@.skip(i as int)[1] == events@[i + 1]);
                        }
                    }
                    if i + 1 < events.len() {
                        return Option::Some(events[i + 1].clone());
                    } else {
                        return Option::None;
                    }
                }
                i = i + 1;
            }
            proof {
                assert(!spec_has_match(events@, *marker));
            }
            // The marked event vanished or moved: resynchronize on the first
            // event past the marker's recorded start.
            let mut i: usize = 0;
            while i < events.len()
                invariant
                    i <= events.len(),
                    *last_notified_event_marker == Option::Some(*marker),
                    !spec_has_match(events@, *marker),
                    forall|j: int|
                        0 <= j < i ==> (#[trigger] events@[j].start.secs) <= marker.start.secs,
                decreases events.len() - i,
            {
                if events[i].start.secs > marker.start.secs {
                    proof {
                        lemma_first_after_skip(events@, marker.start.secs as int, i as int);
                        assert(events@.skip(i as int)[0] == events@[i as int]);
                    }
                    return Option::Some(events[i].clone());
                }
                i = i + 1;
            }
            proof {
                lemma_first_after_skip(events@, marker.start.secs as int, events@.len() as int);
                assert(events@.skip(events@.len() as int) =~= Seq::<Event>::empty());
            }
            Option::None
        },
        Option::None => {
            // Cold start: the first event whose notification point has not
            // passed yet.
            let mut i: usize = 0;
            while i < events.len()
                invariant
                    i <= events.len(),
                    *last_notified_event_marker is None,
                    forall|j: int|
                        0 <= j < i ==> (#[trigger] events@[j].start.secs) + event_offset_secs
                            < now.secs,
                decreases events.len() - i,
            {
                let adjusted: i128 = events[i].start.secs as i128 + event_offset_secs as i128;
                if adjusted >= now.secs as i128 {
                    proof {
                        lemma_first_due_skip(
                            events@,
                            event_offset_secs as int,
                            now.secs as int,
                            i as int,
                        );
                        assert(events@.skip(i as int)[0] == events@[i as int]);
                    }
                    return Option::Some(events[i].clone());
                }
                i = i + 1;
            }
            proof {
                lemma_first_due_skip(
                    events@,
                    event_offset_secs as int,
                    now.secs as int,
                    events@.len() as int,
                );
                assert(events@.skip(events@.len() as int) =~= Seq::<Event>::empty());
            }
            Option::None
        },
    }
}

/// The non-negative wait before an event's notification point: zero once the
/// offset-adjusted start is due or past, the remaining seconds otherwise.
pub open spec fn spec_wait_secs(now: int, offset: int, start: int) -> int {
    if start + offset >= now {
        start + offset - now
    } else {
        0
    }
}

/// How long to wait, from `timepoint`, before the event must be announced:
/// max(0, (start + offset) − timepoint). A negative raw value collapses to
/// zero, firing immediately.
pub fn get_duration_before_event_notification(
    timepoint: Timestamp,
    start_offset_secs: i64,
    event: &Event,
) -> (r: u64)
    requires
        timepoint.bounded(),
        event.start.bounded(),
        -MAX_INSTANT_SECS <= start_offset_secs <= MAX_INSTANT_SECS,
    ensures
        r as int == spec_wait_secs(
            timepoint.secs as int,
            start_offset_secs as int,
            event.start.secs as int,
        ),
{
    let adjusted: i128 = event.start.secs as i128 + start_offset_secs as i128;
    let delta: i128 = adjusted - timepoint.secs as i128;
    if delta >= 0 {
        delta as u64
    } else {
        0
    }
}

/// What the announcer will wait for next: the refresh timer, an event's
/// notification point, or — with no event to wait for — a fixed re-evaluation
/// pause, so it never waits indefinitely.
#[derive(Debug)]
pub enum PollPlan {
    /// The refresh timer fires first, at this instant.
    Refresh { at: i64 },
    /// The event's notification point comes first, at this instant.
    Announce { at: i64, event: Event },
    /// Nothing to announce: re-evaluate at this instant unless the refresh
    /// timer fires earlier.
    Reevaluate { at: i64 },
}

/// The instant the event-side wait fires: the candidate's offset-adjusted
/// start (never earlier than `now`), or `now` plus a fixed sixty seconds
/// when there is no candidate.
pub open spec fn spec_event_due(cand: Option<Event>, offset: int, now: int) -> int {
    match cand {
        Option::Some(e) => if e.start.secs + offset >= now {
            e.start.secs + offset
        } else {
            now
        },
        Option::None => now + 60,
    }
}

/// Every start instant in the collection is bounded.
pub open spec fn events_start_bounded(s: Seq<Event>) -> bool {
    forall|i: int| 0 <= i < s.len() ==> (#[trigger] s[i].start).bounded()
}

/// Checks `events_start_bounded` at run time.
pub fn check_events_start_bounded(events: &Vec<Event>) -> (r: bool)
    ensures
        r == events_start_bounded(events@),
{
    let mut i: usize = 0;
    while i < events.len()
        invariant
            i <= events.len(),
            forall|j: int| 0 <= j < i ==> (#[trigger] events@[j].start).bounded(),
        decreases events.len() - i,
    {
        if !events[i].start.is_bounded() {
            return false;
        }
        i = i + 1;
    }
    true
}

/// A chosen candidate is one of the events.
proof fn lemma_first_due_membership(events: Seq<Event>, offset: int, now: int)
    ensures
        match spec_first_due(events, offset, now) {
            Option::Some(e) => exists|i: int| 0 <= i < events.len() && events[i] == e,
            Option::None => true,
        },
    decreases events.len(),
{
    if events.len() > 0 && !(events[0].start.secs + offset >= now) {
        lemma_first_due_membership(events.drop_first(), offset, now);
        if spec_first_due(events, offset, now) is Some {
            let e = spec_first_due(events, offset, now)->Some_0;
            let i = choose|i: int|
                0 <= i < events.drop_first().len() && events.drop_first()[i] == e;
            assert(events[i + 1] == e);
        }
    }
}

proof fn lemma_successor_membership(events: Seq<Event>, marker: LastNotifiedEventMarker)
    ensures
        match spec_successor_of_match(events, marker) {
            Option::Some(e) => exists|i: int| 0 <= i < events.len() && events[i] == e,
            Option::None => true,
        },
    decreases events.len(),
{
    if events.len() > 0 && !marker.spec_matches(events[0]) {
        lemma_successor_membership(events.drop_first(), marker);
        if spec_successor_of_match(events, marker) is Some {
            let e = spec_successor_of_match(events, marker)->Some_0;
            let i = choose|i: int|
                0 <= i < events.drop_first().len() && events.drop_first()[i] == e;
            assert(events[i + 1] == e);
        }
    }
}

proof fn lemma_first_after_membership(events: Seq<Event>, t: int)
    ensures
        match spec_first_starting_after(events, t) {
            Option::Some(e) => exists|i: int| 0 <= i < events.len() && events[i] == e,
            Option::None => true,
        },
    decreases events.len(),
{
    if events.len() > 0 && !(events[0].start.secs > t) {
        lemma_first_after_membership(events.drop_first(), t);
        if spec_first_starting_after(events, t) is Some {
            let e = spec_first_starting_after(events, t)->Some_0;
            let i = choose|i: int|
                0 <= i < events.drop_first().len() && events.drop_first()[i] == e;
            assert(events[i + 1] == e);
        }
    }
}

/// Whatever `spec_next_event` selects is one of the events.
pub proof fn lemma_next_event_membership(
    events: Seq<Event>,
    offset: int,
    marker: Option<LastNotifiedEventMarker>,
    now: int,
)
    ensures
        match spec_next_event(events, offset, marker, now) {
            Option::Some(e) => exists|i: int| 0 <= i < events.len() && events[i] == e,
            Option::None => true,
        },
{
    match marker {
        Option::None => lemma_first_due_membership(events, offset, now),
        Option::Some(m) => {
            lemma_successor_membership(events, m);
            lemma_first_after_membership(events, m.start.secs as int);
        },
    }
}

/// The sorted copy of a collection keeps every start bounded.
pub proof fn lemma_sort_keeps_starts_bounded(s: Seq<Event>)
    requires
        events_start_bounded(s),
    ensures
        events_start_bounded(sort_events(s)),
{
    broadcast use to_multiset_contains;
    broadcast use to_multiset_len;

    crate::mutation::lemma_sort_events_ensures(s);
    let sorted = sort_events(s);
    assert forall|i: int| 0 <= i < sorted.len() implies (#[trigger] sorted[i].start).bounded() by {
        assert(sorted.contains(sorted[i]));
        assert(sorted.to_multiset().count(sorted[i]) > 0);
        assert(s.to_multiset().count(sorted[i]) > 0);
        assert(s.contains(sorted[i]));
        let j = choose|j: int| 0 <= j < s.len() && s[j] == sorted[i];
        assert(s[j].start.bounded());
    }
}

/// No two events of the collection share an identity (start instant, id).
pub open spec fn distinct_identities(s: Seq<Event>) -> bool {
    forall|a: int, b: int|
        0 <= a < b < s.len() ==> !((#[trigger] s[a].start.secs) == (#[trigger] s[b].start.secs)
            && s[a].id == s[b].id)
}

/// After announcing the event at index `i` of a snapshot with pairwise
/// distinct identities, the selection picks exactly its strict successor in
/// the snapshot — forward progress, one event at a time.
pub proof fn lemma_successor_selection(events: Seq<Event>, i: int, offset: int, now: int)
    requires
        distinct_identities(events),
        0 <= i < events.len(),
    ensures
        spec_next_event(events, offset, Option::Some(marker_of(events[i])), now) == (if i + 1
            < events.len() {
            Option::Some(events[i + 1])
        } else {
            Option::<Event>::None
        }),
{
    let m = marker_of(events[i]);
    assert(m.spec_matches(events[i]));
    assert(spec_has_match(events, m));
    assert forall|j: int| 0 <= j < i implies !m.spec_matches(#[trigger] events[j]) by {
        assert(!(events[j].start.secs == events[i].start.secs && events[j].id == events[i].id));
    }
    lemma_successor_skip(events, m, i);
    assert(events.skip(i)[0] == events[i]);
    if i + 1 < events.len() {
        assert(events.skip(i)[1] == events[i + 1]);
    }
}

/// Given events with distinct strictly increasing starts and zero offset,
/// sequential polls deliver them in order: from the event at index `i` the
/// selection moves to index `i + 1`, a cold start at or before the first
/// event picks the first event, and each wait fires exactly at the chosen
/// event's nominal start when polled at or before it.
pub proof fn lemma_sequential_delivery(events: Seq<Event>, i: int, now: int)
    requires
        forall|a: int, b: int|
            0 <= a < b < events.len() ==> (#[trigger] events[a].start.secs) < (
            #[trigger] events[b].start.secs),
        0 <= i < events.len(),
    ensures
        spec_next_event(events, 0, Option::Some(marker_of(events[i])), now) == (if i + 1
            < events.len() {
            Option::Some(events[i + 1])
        } else {
            Option::<Event>::None
        }),
        events.len() > 0 && now <= events[0].start.secs ==> spec_next_event(
            events,
            0,
            Option::None,
            now,
        ) == Option::Some(events[0]),
        i + 1 < events.len() && now <= events[i + 1].start.secs ==> spec_event_due(
            Option::Some(events[i + 1]),
            0,
            now,
        ) == events[i + 1].start.secs,
{
    lemma_successor_selection(events, i, 0, now);
}

/// Given events sharing one start in a sorted snapshot with distinct
/// identities, polls deliver them one after another in canonical order, and
/// every event with a later start sits further along the snapshot — so the
/// whole run is delivered before any of them.
pub proof fn lemma_same_start_in_canonical_order(
    events: Seq<Event>,
    i: int,
    offset: int,
    now: int,
)
    requires
        sorted_events(events),
        distinct_identities(events),
        0 <= i,
        i + 1 < events.len(),
    ensures
        spec_next_event(events, offset, Option::Some(marker_of(events[i])), now)
            == Option::Some(events[i + 1]),
        canonical_le(events[i], events[i + 1]),
        forall|k: int|
            0 <= k < events.len() && (#[trigger] events[k].start.secs) > events[i + 1].start.secs
                ==> k > i + 1,
{
    lemma_successor_selection(events, i, offset, now);
    assert forall|k: int|
        0 <= k < events.len() && (#[trigger] events[k].start.secs) > events[i + 1].start.secs
        implies k > i + 1 by {
        if k < i + 1 {
            assert(canonical_le(events[k], events[i + 1]));
        }
    }
}

proof fn lemma_first_after_found(events: Seq<Event>, t: int)
    ensures
        match spec_first_starting_after(events, t) {
            Option::Some(c) => c.start.secs > t && exists|i: int|
                #![auto]
                0 <= i < events.len() && events[i] == c && (forall|j: int|
                    0 <= j < i ==> events[j].start.secs <= t),
            Option::None => forall|j: int|
                0 <= j < events.len() ==> (#[trigger] events[j].start.secs) <= t,
        },
    decreases events.len(),
{
    if events.len() > 0 && !(events[0].start.secs > t) {
        lemma_first_after_found(events.drop_first(), t);
        match spec_first_starting_after(events, t) {
            Option::Some(c) => {
                let i = choose|i: int|
                    #![auto]
                    0 <= i < events.drop_first().len() && events.drop_first()[i] == c && (
                    forall|j: int| 0 <= j < i ==> events.drop_first()[j].start.secs <= t);
                assert(events[i + 1] == c);
                assert(forall|j: int|
                    1 <= j < i + 1 ==> (#[trigger] events[j].start.secs) == events.drop_first()[j
                        - 1].start.secs);
                assert(forall|j: int| 0 <= j < i + 1 ==> (#[trigger] events[j].start.secs) <= t);
            },
            Option::None => {
                assert forall|j: int| 0 <= j < events.len() implies (
                #[trigger] events[j].start.secs) <= t by {
                    if j > 0 {
                        assert(events.drop_first()[j - 1] == events[j]);
                    }
                }
            },
        }
    }
}

/// If the marker matches no event in a fresh snapshot, resumption lands on
/// the first event with start strictly greater than the marker's recorded
/// start: no event at or before that start is redelivered, and when nothing
/// qualifies the announcer still re-evaluates after its fixed pause instead
/// of stalling.
pub proof fn lemma_resync_after_edit(
    events: Seq<Event>,
    m: LastNotifiedEventMarker,
    offset: int,
    now: int,
)
    requires
        !spec_has_match(events, m),
    ensures
        spec_next_event(events, offset, Option::Some(m), now) == spec_first_starting_after(
            events,
            m.start.secs as int,
        ),
        match spec_next_event(events, offset, Option::Some(m), now) {
            Option::Some(c) => c.start.secs > m.start.secs && exists|i: int|
                #![auto]
                0 <= i < events.len() && events[i] == c && (forall|j: int|
                    0 <= j < i ==> events[j].start.secs <= m.start.secs),
            Option::None => (forall|j: int|
                0 <= j < events.len() ==> (#[trigger] events[j].start.secs) <= m.start.secs)
                && spec_event_due(Option::<Event>::None, offset, now) == now + 60,
        },
{
    lemma_first_after_found(events, m.start.secs as int);
}

proof fn lemma_successor_found(events: Seq<Event>, m: LastNotifiedEventMarker)
    ensures
        match spec_successor_of_match(events, m) {
            Option::Some(c) => exists|f: int|
                #![auto]
                0 <= f && f + 1 < events.len() && m.spec_matches(events[f]) && c == events[f
                    + 1],
            Option::None => true,
        },
    decreases events.len(),
{
    if events.len() > 0 && !m.spec_matches(events[0]) {
        lemma_successor_found(events.drop_first(), m);
        match spec_successor_of_match(events, m) {
            Option::Some(c) => {
                let f = choose|f: int|
                    #![auto]
                    0 <= f && f + 1 < events.drop_first().len() && m.spec_matches(
                        events.drop_first()[f],
                    ) && c == events.drop_first()[f + 1];
                assert(events[f + 1] == events.drop_first()[f]);
                assert(events[f + 2] == events.drop_first()[f + 1]);
            },
            Option::None => {},
        }
    }
}

/// If an event's start moves, its old identity is never announced again: in
/// a snapshot with distinct identities, whatever the selection picks after a
/// delivery differs from the marker in start or in id. Together with the
/// matching rule — a changed start with an unchanged id matches nothing —
/// a moved event is only ever delivered under its new time.
pub proof fn lemma_no_redelivery_of_old_identity(
    events: Seq<Event>,
    m: LastNotifiedEventMarker,
    offset: int,
    now: int,
)
    requires
        distinct_identities(events),
    ensures
        match spec_next_event(events, offset, Option::Some(m), now) {
            Option::Some(c) => !m.spec_matches(c),
            Option::None => true,
        },
{
    if spec_has_match(events, m) {
        lemma_successor_found(events, m);
        match spec_successor_of_match(events, m) {
            Option::Some(c) => {
                let f = choose|f: int|
                    #![auto]
                    0 <= f && f + 1 < events.len() && m.spec_matches(events[f]) && c == events[f
                        + 1];
                assert(!(events[f].start.secs == events[f + 1].start.secs && events[f].id
                    == events[f + 1].id));
            },
            Option::None => {},
        }
    } else {
        lemma_first_after_found(events, m.start.secs as int);
    }
}

/// The announcer's state: its settings, the current snapshot (kept in
/// canonical order), the marker of the last notified event, and the virtual
/// instant at which the recurring refresh is next due.
#[derive(Debug)]
pub struct Announcer {
    pub settings: AnnouncerSettings,
    pub schedule: Schedule,
    pub last_notified_event_marker: Option<LastNotifiedEventMarker>,
    pub refresh_due_secs: i64,
}

impl Announcer {
    /// The state the methods keep up: valid settings, a sorted snapshot,
    /// bounded starts.
    pub open spec fn wf(&self) -> bool {
        &&& self.settings.wf()
        &&& events_start_bounded(self.schedule.events@)
        &&& sorted_events(self.schedule.events@)
    }

    /// Builds an announcer from a fetched schedule: sorts it into the first
    /// snapshot, starts with no marker, and defers the first refresh a full
    /// interval — construction itself never refreshes.
    pub fn new(settings: AnnouncerSettings, fetched: Schedule, now: Timestamp) -> (r: Announcer)
        requires
            settings.wf(),
            events_start_bounded(fetched.events@),
            now.bounded(),
        ensures
            r.wf(),
            r.settings == settings,
            r.schedule.events@ == sort_events(fetched.events@),
            r.last_notified_event_marker is None,
            r.refresh_due_secs == now.secs + settings.schedule_refresh_secs,
    {
        proof {
            lemma_sort_keeps_starts_bounded(fetched.events@);
            crate::mutation::lemma_sort_events_ensures(fetched.events@);
        }
        let mut schedule = fetched;
        let sorter = SortedByStartTime {  };
        sorter.mutate(&mut schedule.events);
        Announcer {
            settings,
            schedule,
            last_notified_event_marker: Option::None,
            refresh_due_secs: now.secs + settings.schedule_refresh_secs as i64,
        }
    }

    /// The next event to announce, per the selection rules, at instant
    /// `now`.
    pub fn next_event_to_announce(&self, now: Timestamp) -> (r: Option<Event>)
        ensures
            r == spec_next_event(
                self.schedule.events@,
                self.settings.event_start_offset_secs as int,
                self.last_notified_event_marker,
                now.secs as int,
            ),
    {
        get_next_event_to_announce(
            &self.schedule.events,
            self.settings.event_start_offset_secs,
            &self.last_notified_event_marker,
            now,
        )
    }

    /// Records that `event` was delivered to the caller: the marker is set
    /// to its (start, id). Nothing else changes.
    pub fn record_announcement(&mut self, event: &Event)
        ensures
            final (self).last_notified_event_marker == Option::Some(marker_of(*event)),
            final (self).schedule == old(self).schedule,
            final (self).settings == old(self).settings,
            final (self).refresh_due_secs == old(self).refresh_due_secs,
            old(self).wf() ==> final (self).wf(),
    {
        self.last_notified_event_marker = Option::Some(LastNotifiedEventMarker::from_event(event));
    }

    /// Takes the outcome of a refresh fetch: sorts the fresh snapshot,
    /// compares it by value with the current one, replaces the current one
    /// wholesale, re-arms the refresh timer, and says whether anything
    /// changed. The marker is never touched by a refresh.
    pub fn apply_refresh(&mut self, fetched: Schedule) -> (r: AnnouncerScheduleChanges)
        requires
            old(self).settings.wf(),
            events_start_bounded(fetched.events@),
        ensures
            final (self).schedule.events@ == sort_events(fetched.events@),
            r == (if events_eq(sort_events(fetched.events@), old(self).schedule.events@) {
                AnnouncerScheduleChanges::NoChanges
            } else {
                AnnouncerScheduleChanges::Changes
            }),
            final (self).last_notified_event_marker == old(self).last_notified_event_marker,
            final (self).settings == old(self).settings,
            final (self).refresh_due_secs as int == crate::mutation::clamp_secs(
                old(self).refresh_due_secs + old(self).settings.schedule_refresh_secs,
            ),
            old(self).wf() ==> final (self).wf(),
    {
        proof {
            lemma_sort_keeps_starts_bounded(fetched.events@);
            crate::mutation::lemma_sort_events_ensures(fetched.events@);
        }
        let mut schedule = fetched;
        let sorter = SortedByStartTime {  };
        sorter.mutate(&mut schedule.events);
        let changes = if schedule == self.schedule {
            AnnouncerScheduleChanges::NoChanges
        } else {
            AnnouncerScheduleChanges::Changes
        };
        self.schedule = schedule;
        self.rearm_refresh();
        changes
    }

    /// A refresh fetch failed: the snapshot stays as it is, the timer is
    /// re-armed, and the failure surfaces nowhere else — it is retried at
    /// the next tick.
    pub fn refresh_fetch_failed(&mut self)
        requires
            old(self).settings.wf(),
        ensures
            final (self).schedule == old(self).schedule,
            final (self).last_notified_event_marker == old(self).last_notified_event_marker,
            final (self).settings == old(self).settings,
            final (self).refresh_due_secs as int == crate::mutation::clamp_secs(
                old(self).refresh_due_secs + old(self).settings.schedule_refresh_secs,
            ),
            old(self).wf() ==> final (self).wf(),
    {
        self.rearm_refresh();
    }

    fn rearm_refresh(&mut self)
        requires
            old(self).settings.wf(),
        ensures
            final (self).refresh_due_secs as int == crate::mutation::clamp_secs(
                old(self).refresh_due_secs + old(self).settings.schedule_refresh_secs,
            ),
            final (self).schedule == old(self).schedule,
            final (self).last_notified_event_marker == old(self).last_notified_event_marker,
            final (self).settings == old(self).settings,
    {
        self.refresh_due_secs = match self.refresh_due_secs.checked_add(
            self.settings.schedule_refresh_secs as i64,
        ) {
            Option::Some(v) => v,
            Option::None => i64::MAX,
        };
    }

    /// Decides, at instant `now`, what the poll should wait for: the refresh
    /// timer wins whenever it is due no later than the event side; otherwise
    /// the candidate event is announced at its notification point, or, with
    /// no candidate, the announcer re-evaluates after a fixed sixty seconds
    /// rather than waiting indefinitely.
    pub fn plan_poll(&self, now: Timestamp) -> (r: PollPlan)
        requires
            self.wf(),
            now.bounded(),
        ensures
            ({
                let cand = spec_next_event(
                    self.schedule.events@,
                    self.settings.event_start_offset_secs as int,
                    self.last_notified_event_marker,
                    now.secs as int,
                );
                let due = spec_event_due(
                    cand,
                    self.settings.event_start_offset_secs as int,
                    now.secs as int,
                );
                match r {
                    PollPlan::Refresh { at } => at == self.refresh_due_secs
                        && self.refresh_due_secs <= due,
                    PollPlan::Announce { at, event } => Option::Some(event) == cand && at == due
                        && due < self.refresh_due_secs,
                    PollPlan::Reevaluate { at } => cand is None && at == due && due
                        < self.refresh_due_secs,
                }
            }),
    {
        let cand = self.next_event_to_announce(now);
        proof {
            lemma_next_event_membership(
                self.schedule.events@,
                self.settings.event_start_offset_secs as int,
                self.last_notified_event_marker,
                now.secs as int,
            );
        }
        let due: i64 = match &cand {
            Option::Some(e) => {
                let adjusted: i128 = e.start.secs as i128
                    + self.settings.event_start_offset_secs as i128;
                if adjusted >= now.secs as i128 {
                    adjusted as i64
                } else {
                    now.secs
                }
            },
            Option::None => now.secs + 60,
        };
        if self.refresh_due_secs <= due {
            PollPlan::Refresh { at: self.refresh_due_secs }
        } else {
            match cand {
                Option::Some(event) => PollPlan::Announce { at: due, event },
                Option::None => PollPlan::Reevaluate { at: due },
            }
        }
    }
}

} // verus!
