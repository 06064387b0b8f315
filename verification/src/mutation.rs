//! Pure transformations over an event collection: venue and time-window
//! filters, the development-only epoch shift, and the canonical sort. A
//! `Mutators` value applies an ordered list of them in sequence.

use vstd::prelude::*;

use crate::event::{canonical_le, Event};
use crate::timestamp::Timestamp;

verus! {

use vstd::seq_lib::to_multiset_build;
use vstd::seq_lib::to_multiset_insert;

/// Events in positions `i < j` are canonically ordered.
pub open spec fn sorted_events(s: Seq<Event>) -> bool {
    forall|i: int, j: int| 0 <= i < j < s.len() ==> canonical_le(s[i], s[j])
}

/// Inserts `e` after every element at or before it in the canonical order:
/// the insertion step of a stable insertion sort.
pub open spec fn insert_event(s: Seq<Event>, e: Event) -> Seq<Event>
    decreases s.len(),
{
    if s.len() == 0 {
        seq![e]
    } else if canonical_le(s[0], e) {
        seq![s[0]] + insert_event(s.drop_first(), e)
    } else {
        seq![e] + s
    }
}

/// The canonical sort: a stable insertion sort over the canonical order.
pub open spec fn sort_events(s: Seq<Event>) -> Seq<Event>
    decreases s.len(),
{
    if s.len() == 0 {
        s
    } else {
        insert_event(sort_events(s.drop_last()), s.last())
    }
}

proof fn lemma_insert_event_shape(s: Seq<Event>, e: Event)
    ensures
        insert_event(s, e).len() == s.len() + 1,
        insert_event(s, e).to_multiset() == s.to_multiset().insert(e),
        forall|x: Event| #[trigger] insert_event(s, e).contains(x) ==> x == e || s.contains(x),
    decreases s.len(),
{
    broadcast use to_multiset_build;
    broadcast use to_multiset_insert;
    broadcast use vstd::multiset::group_multiset_axioms;

    if s.len() == 0 {
        assert(insert_event(s, e) =~= s.push(e));
        assert(s.push(e).to_multiset() == s.to_multiset().insert(e));
    } else if canonical_le(s[0], e) {
        lemma_insert_event_shape(s.drop_first(), e);
        let rest = insert_event(s.drop_first(), e);
        assert(insert_event(s, e) =~= (seq![s[0]] + rest));
        assert(seq![s[0]] + rest =~= rest.insert(0, s[0]));
        assert(rest.insert(0, s[0]).to_multiset() == rest.to_multiset().insert(s[0]));
        assert(s =~= s.drop_first().insert(0, s[0]));
        assert(s.to_multiset() == s.drop_first().to_multiset().insert(s[0]));
        assert(s.to_multiset().insert(e) =~= insert_event(s, e).to_multiset());
        assert forall|x: Event| #[trigger] insert_event(s, e).contains(x) implies x == e
            || s.contains(x) by {
            let k = choose|k: int| 0 <= k < insert_event(s, e).len() && insert_event(s, e)[k] == x;
            if k == 0 {
                assert(s[0] == x);
            } else {
                assert(rest[k - 1] == x);
                assert(rest.contains(x));
                if !(x == e) {
                    let m = choose|m: int| 0 <= m < s.drop_first().len() && s.drop_first()[m] == x;
                    assert(s[m + 1] == x);
                }
            }
        }
    } else {
        assert(insert_event(s, e) =~= s.insert(0, e));
        assert(s.insert(0, e).to_multiset() == s.to_multiset().insert(e));
        assert forall|x: Event| #[trigger] insert_event(s, e).contains(x) implies x == e
            || s.contains(x) by {
            let k = choose|k: int| 0 <= k < insert_event(s, e).len() && insert_event(s, e)[k] == x;
            if k > 0 {
                assert(s[k - 1] == x);
            }
        }
    }
}

proof fn lemma_insert_event_sorted(s: Seq<Event>, e: Event)
    requires
        sorted_events(s),
    ensures
        sorted_events(insert_event(s, e)),
    decreases s.len(),
{
    if s.len() == 0 {
    } else if canonical_le(s[0], e) {
        assert(sorted_events(s.drop_first())) by {
            assert forall|i: int, j: int|
                0 <= i < j < s.drop_first().len() implies canonical_le(
                s.drop_first()[i],
                s.drop_first()[j],
            ) by {
                assert(s.drop_first()[i] == s[i + 1]);
                assert(s.drop_first()[j] == s[j + 1]);
            }
        }
        lemma_insert_event_sorted(s.drop_first(), e);
        lemma_insert_event_shape(s.drop_first(), e);
        let rest = insert_event(s.drop_first(), e);
        let out = insert_event(s, e);
        assert(out =~= seq![s[0]] + rest);
        assert forall|i: int, j: int| 0 <= i < j < out.len() implies canonical_le(
            out[i],
            out[j],
        ) by {
            if i == 0 && j > 0 {
                assert(out[j] == rest[j - 1]);
                assert(rest.contains(rest[j - 1]));
                if rest[j - 1] == e {
                } else {
                    let m = choose|m: int|
                        0 <= m < s.drop_first().len() && s.drop_first()[m] == rest[j - 1];
                    assert(s[m + 1] == rest[j - 1]);
                    assert(canonical_le(s[0], s[m + 1]));
                }
            } else if i > 0 {
                assert(out[i] == rest[i - 1]);
                assert(out[j] == rest[j - 1]);
            }
        }
    } else {
        crate::event::lemma_canonical_le_total(s[0], e);
        let out = insert_event(s, e);
        assert(out =~= seq![e] + s);
        assert forall|i: int, j: int| 0 <= i < j < out.len() implies canonical_le(
            out[i],
            out[j],
        ) by {
            if i == 0 && j > 1 {
                assert(out[j] == s[j - 1]);
                assert(canonical_le(s[0], s[j - 1]));
                crate::event::lemma_canonical_le_trans(e, s[0], s[j - 1]);
            } else if i > 0 {
                assert(out[i] == s[i - 1]);
                assert(out[j] == s[j - 1]);
            }
        }
    }
}

/// When everything in `s` is at or before `e`, inserting `e` appends it.
proof fn lemma_insert_event_all_le(s: Seq<Event>, e: Event)
    requires
        forall|k: int| 0 <= k < s.len() ==> canonical_le(#[trigger] s[k], e),
    ensures
        insert_event(s, e) == s.push(e),
    decreases s.len(),
{
    if s.len() == 0 {
        assert(insert_event(s, e) =~= s.push(e));
    } else {
        lemma_insert_event_all_le(s.drop_first(), e);
        assert(seq![s[0]] + s.drop_first().push(e) =~= s.push(e));
    }
}

/// Inserting `e` at the first position whose element is not at or before it
/// is what `insert_event` does.
proof fn lemma_insert_event_at(s: Seq<Event>, e: Event, j: int)
    requires
        0 <= j <= s.len(),
        forall|k: int| 0 <= k < j ==> canonical_le(#[trigger] s[k], e),
        j < s.len() ==> !canonical_le(s[j], e),
    ensures
        insert_event(s, e) == s.insert(j, e),
    decreases s.len(),
{
    if j == s.len() {
        lemma_insert_event_all_le(s, e);
        assert(s.push(e) =~= s.insert(j, e));
    } else if j == 0 {
        assert(insert_event(s, e) =~= s.insert(0, e));
    } else {
        lemma_insert_event_at(s.drop_first(), e, j - 1);
        assert(seq![s[0]] + s.drop_first().insert(j - 1, e) =~= s.insert(j, e));
    }
}

/// The canonical sort returns a sorted permutation of its input.
pub proof fn lemma_sort_events_ensures(s: Seq<Event>)
    ensures
        sorted_events(sort_events(s)),
        sort_events(s).to_multiset() == s.to_multiset(),
        sort_events(s).len() == s.len(),
    decreases s.len(),
{
    broadcast use to_multiset_build;

    if s.len() > 0 {
        lemma_sort_events_ensures(s.drop_last());
        lemma_insert_event_sorted(sort_events(s.drop_last()), s.last());
        lemma_insert_event_shape(sort_events(s.drop_last()), s.last());
        assert(s =~= s.drop_last().push(s.last()));
        assert(s.drop_last().push(s.last()).to_multiset() == s.drop_last().to_multiset().insert(
            s.last(),
        ));
    }
}

/// Sorting a sorted sequence leaves it untouched.
pub proof fn lemma_sort_events_of_sorted(s: Seq<Event>)
    requires
        sorted_events(s),
    ensures
        sort_events(s) == s,
    decreases s.len(),
{
    if s.len() > 0 {
        assert(sorted_events(s.drop_last()));
        lemma_sort_events_of_sorted(s.drop_last());
        lemma_insert_event_all_le(s.drop_last(), s.last());
        assert(s.drop_last().push(s.last()) =~= s);
    }
}

/// The canonical sort is idempotent: sorting a second time changes nothing.
pub proof fn lemma_sort_events_idempotent(s: Seq<Event>)
    ensures
        sort_events(sort_events(s)) == sort_events(s),
{
    lemma_sort_events_ensures(s);
    lemma_sort_events_of_sorted(sort_events(s));
}

/// Keeps events taking place at one of the given venues.
pub struct AtVenues {
    pub venues: Vec<String>,
}

/// Keeps events that end strictly after a point in time.
pub struct EndsAfter {
    pub timestamp: Timestamp,
}

/// Keeps events that start strictly after a point in time.
pub struct StartsAfter {
    pub timestamp: Timestamp,
}

/// Keeps events that start strictly before a point in time.
pub struct StartsBefore {
    pub timestamp: Timestamp,
}

/// Offsets every event timestamp by the difference between the first event's
/// start and a given epoch, making the schedule begin at a time of your
/// choosing. Useful for development only. The events must already be sorted
/// by start time.
pub struct FakeStartEpoch {
    pub epoch: Timestamp,
}

/// Sorts the events canonically.
#[derive(Default)]
pub struct SortedByStartTime {}

/// `v` is the name of one of the venues in the list.
pub open spec fn venue_list_contains(venues: Seq<String>, v: Seq<char>) -> bool {
    exists|i: int| 0 <= i < venues.len() && venues[i]@ == v
}

/// The events taking place at one of the listed venues.
pub open spec fn filter_at_venues(s: Seq<Event>, venues: Seq<String>) -> Seq<Event> {
    s.filter(|e: Event| venue_list_contains(venues, e.venue@))
}

/// The events ending strictly after `t`.
pub open spec fn filter_ends_after(s: Seq<Event>, t: int) -> Seq<Event> {
    s.filter(|e: Event| e.end.secs > t)
}

/// The events starting strictly after `t`.
pub open spec fn filter_starts_after(s: Seq<Event>, t: int) -> Seq<Event> {
    s.filter(|e: Event| e.start.secs > t)
}

/// The events starting strictly before `t`.
pub open spec fn filter_starts_before(s: Seq<Event>, t: int) -> Seq<Event> {
    s.filter(|e: Event| e.start.secs < t)
}

/// `x` brought back into the range of `i64`.
pub open spec fn clamp_secs(x: int) -> int {
    if x < i64::MIN {
        i64::MIN as int
    } else if x > i64::MAX {
        i64::MAX as int
    } else {
        x
    }
}

/// `e` with its start and end shifted so that an event starting at `base`
/// starts at `epoch`; shifted timestamps carry the epoch's offset.
pub open spec fn shift_event(e: Event, epoch: Timestamp, base: int) -> Event {
    Event {
        start: Timestamp {
            secs: clamp_secs(epoch.secs + e.start.secs - base) as i64,
            tz_secs: epoch.tz_secs,
        },
        end: Timestamp {
            secs: clamp_secs(epoch.secs + e.end.secs - base) as i64,
            tz_secs: epoch.tz_secs,
        },
        ..e
    }
}

/// Every event shifted by the difference between the first event's start and
/// the epoch; an empty schedule stays empty.
pub open spec fn shift_to_epoch(s: Seq<Event>, epoch: Timestamp) -> Seq<Event> {
    if s.len() == 0 {
        s
    } else {
        Seq::new(s.len(), |i: int| shift_event(s[i], epoch, s[0].start.secs as int))
    }
}

fn clamp_to_secs(x: i128) -> (r: i64)
    ensures
        r as int == clamp_secs(x as int),
{
    if x < i64::MIN as i128 {
        i64::MIN
    } else if x > i64::MAX as i128 {
        i64::MAX
    } else {
        x as i64
    }
}

impl AtVenues {
    pub fn new(venues: Vec<String>) -> (r: AtVenues)
        ensures
            r.venues == venues,
    {
        AtVenues { venues }
    }

    fn contains_venue(&self, v: &String) -> (r: bool)
        ensures
            r == venue_list_contains(self.venues@, v@),
    {
        let mut i: usize = 0;
        while i < self.venues.len()
            invariant
                i <= self.venues.len(),
                forall|k: int| 0 <= k < i ==> self.venues@[k]@ != v@,
            decreases self.venues.len() - i,
        {
            if self.venues[i].eq(v) {
                return true;
            }
            i = i + 1;
        }
        false
    }

    /// Keeps exactly the events at one of the venues.
    pub fn mutate(&self, events: &mut Vec<Event>)
        ensures
            final (events)@ == filter_at_venues(old(events)@, self.venues@),
    {
        let ghost orig: Seq<Event> = events@;
        let mut out: Vec<Event> = Vec::new();
        let mut i: usize = 0;
        while i < events.len()
            invariant
                i <= events.len(),
                events@ == orig,
                out@ == filter_at_venues(orig.take(i as int), self.venues@),
            decreases events.len() - i,
        {
            if self.contains_venue(&events[i].venue) {
                out.push(events[i].clone());
            }
            proof {
                reveal(Seq::filter);
                assert(orig.take(i + 1).drop_last() =~= orig.take(i as int));
                assert(orig.take(i + 1).last() == orig[i as int]);
            }
            i = i + 1;
        }
        proof {
            assert(orig.take(events@.len() as int) =~= orig);
        }
        *events = out;
    }
}

impl EndsAfter {
    pub fn new(timestamp: Timestamp) -> (r: EndsAfter)
        ensures
            r.timestamp == timestamp,
    {
        EndsAfter { timestamp }
    }

    /// Keeps exactly the events that end after the cutoff.
    pub fn mutate(&self, events: &mut Vec<Event>)
        ensures
            final (events)@ == filter_ends_after(old(events)@, self.timestamp.secs as int),
    {
        let ghost orig: Seq<Event> = events@;
        let mut out: Vec<Event> = Vec::new();
        let mut i: usize = 0;
        while i < events.len()
            invariant
                i <= events.len(),
                events@ == orig,
                out@ == filter_ends_after(orig.take(i as int), self.timestamp.secs as int),
            decreases events.len() - i,
        {
            if events[i].end.secs > self.timestamp.secs {
                out.push(events[i].clone());
            }
            proof {
                reveal(Seq::filter);
                assert(orig.take(i + 1).drop_last() =~= orig.take(i as int));
                assert(orig.take(i + 1).last() == orig[i as int]);
            }
            i = i + 1;
        }
        proof {
            assert(orig.take(events@.len() as int) =~= orig);
        }
        *events = out;
    }
}

impl StartsAfter {
    pub fn new(timestamp: Timestamp) -> (r: StartsAfter)
        ensures
            r.timestamp == timestamp,
    {
        StartsAfter { timestamp }
    }

    /// Keeps exactly the events that start after the cutoff.
    pub fn mutate(&self, events: &mut Vec<Event>)
        ensures
            final (events)@ == filter_starts_after(old(events)@, self.timestamp.secs as int),
    {
        let ghost orig: Seq<Event> = events@;
        let mut out: Vec<Event> = Vec::new();
        let mut i: usize = 0;
        while i < events.len()
            invariant
                i <= events.len(),
                events@ == orig,
                out@ == filter_starts_after(orig.take(i as int), self.timestamp.secs as int),
            decreases events.len() - i,
        {
            if events[i].start.secs > self.timestamp.secs {
                out.push(events[i].clone());
            }
            proof {
                reveal(Seq::filter);
                assert(orig.take(i + 1).drop_last() =~= orig.take(i as int));
                assert(orig.take(i + 1).last() == orig[i as int]);
            }
            i = i + 1;
        }
        proof {
            assert(orig.take(events@.len() as int) =~= orig);
        }
        *events = out;
    }
}

impl StartsBefore {
    pub fn new(timestamp: Timestamp) -> (r: StartsBefore)
        ensures
            r.timestamp == timestamp,
    {
        StartsBefore { timestamp }
    }

    /// Keeps exactly the events that start before the cutoff.
    pub fn mutate(&self, events: &mut Vec<Event>)
        ensures
            final (events)@ == filter_starts_before(old(events)@, self.timestamp.secs as int),
    {
        let ghost orig: Seq<Event> = events@;
        let mut out: Vec<Event> = Vec::new();
        let mut i: usize = 0;
        while i < events.len()
            invariant
                i <= events.len(),
                events@ == orig,
                out@ == filter_starts_before(orig.take(i as int), self.timestamp.secs as int),
            decreases events.len() - i,
        {
            if events[i].start.secs < self.timestamp.secs {
                out.push(events[i].clone());
            }
            proof {
                reveal(Seq::filter);
                assert(orig.take(i + 1).drop_last() =~= orig.take(i as int));
                assert(orig.take(i + 1).last() == orig[i as int]);
            }
            i = i + 1;
        }
        proof {
            assert(orig.take(events@.len() as int) =~= orig);
        }
        *events = out;
    }
}

impl FakeStartEpoch {
    pub fn new(epoch: Timestamp) -> (r: FakeStartEpoch)
        ensures
            r.epoch == epoch,
    {
        FakeStartEpoch { epoch }
    }

    /// Shifts every event so the first one starts at the epoch.
    pub fn mutate(&self, events: &mut Vec<Event>)
        ensures
            final (events)@ == shift_to_epoch(old(events)@, self.epoch),
    {
        let ghost orig: Seq<Event> = events@;
        if events.len() == 0 {
            return ;
        }
        let base: i64 = events[0].start.secs;
        let mut i: usize = 0;
        while i < events.len()
            invariant
                i <= events.len(),
                events@.len() == orig.len(),
                orig.len() > 0,
                base == orig[0].start.secs,
                forall|j: int|
                    0 <= j < i ==> events@[j] == shift_event(orig[j], self.epoch, base as int),
                forall|j: int| i <= j < orig.len() ==> events@[j] == orig[j],
            decreases events.len() - i,
        {
            let mut e = events[i].clone();
            let start128: i128 = self.epoch.secs as i128 + (e.start.secs as i128 - base as i128);
            let end128: i128 = self.epoch.secs as i128 + (e.end.secs as i128 - base as i128);
            e.start = Timestamp { secs: clamp_to_secs(start128), tz_secs: self.epoch.tz_secs };
            e.end = Timestamp { secs: clamp_to_secs(end128), tz_secs: self.epoch.tz_secs };
            events[i] = e;
            i = i + 1;
        }
        proof {
            assert(events@ =~= shift_to_epoch(orig, self.epoch));
        }
    }
}

impl SortedByStartTime {
    /// Sorts the events canonically: by start instant, ties broken by venue.
    pub fn mutate(&self, events: &mut Vec<Event>)
        ensures
            final (events)@ == sort_events(old(events)@),
    {
        let ghost orig: Seq<Event> = events@;
        let mut out: Vec<Event> = Vec::new();
        let mut i: usize = 0;
        while i < events.len()
            invariant
                i <= events.len(),
                events@ == orig,
                out@ == sort_events(orig.take(i as int)),
                sorted_events(out@),
            decreases events.len() - i,
        {
            let e = events[i].clone();
            let mut j: usize = 0;
            while j < out.len() && out[j].le(&e)
                invariant
                    j <= out.len(),
                    forall|k: int| 0 <= k < j ==> canonical_le(#[trigger] out@[k], e),
                decreases out.len() - j,
            {
                j = j + 1;
            }
            proof {
                lemma_insert_event_at(out@, e, j as int);
                lemma_insert_event_sorted(out@, e);
                assert(orig.take(i + 1).drop_last() =~= orig.take(i as int));
                assert(orig.take(i + 1).last() == orig[i as int]);
            }
            out.insert(j, e);
            i = i + 1;
        }
        proof {
            assert(orig.take(events@.len() as int) =~= orig);
        }
        *events = out;
    }
}

/// One schedule transformation.
pub enum Mutation {
    AtVenues(AtVenues),
    EndsAfter(EndsAfter),
    StartsAfter(StartsAfter),
    StartsBefore(StartsBefore),
    FakeStartEpoch(FakeStartEpoch),
    SortedByStartTime(SortedByStartTime),
}

/// What one transformation does to an event collection.
pub open spec fn apply_mutation(m: Mutation, s: Seq<Event>) -> Seq<Event> {
    match m {
        Mutation::AtVenues(f) => filter_at_venues(s, f.venues@),
        Mutation::EndsAfter(f) => filter_ends_after(s, f.timestamp.secs as int),
        Mutation::StartsAfter(f) => filter_starts_after(s, f.timestamp.secs as int),
        Mutation::StartsBefore(f) => filter_starts_before(s, f.timestamp.secs as int),
        Mutation::FakeStartEpoch(f) => shift_to_epoch(s, f.epoch),
        Mutation::SortedByStartTime(_) => sort_events(s),
    }
}

/// The transformations applied left to right.
pub open spec fn apply_mutations(ms: Seq<Mutation>, s: Seq<Event>) -> Seq<Event>
    decreases ms.len(),
{
    if ms.len() == 0 {
        s
    } else {
        apply_mutation(ms.last(), apply_mutations(ms.drop_last(), s))
    }
}

/// An ordered list of schedule transformations.
pub struct Mutators {
    pub mutators: Vec<Mutation>,
}

impl Default for Mutators {
    /// An empty list, which transforms nothing.
    fn default() -> (r: Mutators)
        ensures
            r.mutators@ == Seq::<Mutation>::empty(),
    {
        Mutators { mutators: Vec::new() }
    }
}

impl Mutators {
    pub fn new(mutators: Vec<Mutation>) -> (r: Mutators)
        ensures
            r.mutators == mutators,
    {
        Mutators { mutators }
    }

    pub fn new_single(mutator: Mutation) -> (r: Mutators)
        ensures
            r.mutators@ =~= seq![mutator],
    {
        let mut mutators: Vec<Mutation> = Vec::new();
        mutators.push(mutator);
        Mutators { mutators }
    }

    pub fn push(&mut self, mutator: Mutation)
        ensures
            final (self).mutators@ == old(self).mutators@.push(mutator),
    {
        self.mutators.push(mutator);
    }

    /// Applies the transformations to the events, in order.
    pub fn mutate(&self, events: &mut Vec<Event>)
        ensures
            final (events)@ == apply_mutations(self.mutators@, old(events)@),
    {
        let ghost orig: Seq<Event> = events@;
        let mut i: usize = 0;
        while i < self.mutators.len()
            invariant
                i <= self.mutators.len(),
                events@ == apply_mutations(self.mutators@.take(i as int), orig),
            decreases self.mutators.len() - i,
        {
            match &self.mutators[i] {
                Mutation::AtVenues(f) => f.mutate(events),
                Mutation::EndsAfter(f) => f.mutate(events),
                Mutation::StartsAfter(f) => f.mutate(events),
                Mutation::StartsBefore(f) => f.mutate(events),
                Mutation::FakeStartEpoch(f) => f.mutate(events),
                Mutation::SortedByStartTime(f) => f.mutate(events),
            }
            proof {
                assert(self.mutators@.take(i + 1).drop_last() =~= self.mutators@.take(i as int));
                assert(self.mutators@.take(i + 1).last() == self.mutators@[i as int]);
            }
            i = i + 1;
        }
        proof {
            assert(self.mutators@.take(self.mutators@.len() as int) =~= self.mutators@);
        }
    }
}

} // verus!
