//! A schedule: the ordered event collection obtained from one fetch of the
//! upstream source, with its venue listing and filter application.

use vstd::prelude::*;

use crate::event::{event_eq, Event};
use crate::mutation::{apply_mutations, venue_list_contains, Mutators};
use crate::now_and_next::NowAndNext;
use crate::strings::{
    lemma_lex_le_antisymmetric, lemma_lex_le_refl, lemma_lex_le_total, lemma_lex_le_trans, lex_le,
    str_le,
};
use crate::timestamp::Timestamp;

verus! {

use vstd::std_specs::cmp::PartialEqSpec;

/// The events of one fetched snapshot.
#[derive(Debug)]
pub struct Schedule {
    pub events: Vec<Event>,
}

/// Pointwise content equality of event collections.
pub open spec fn events_eq(a: Seq<Event>, b: Seq<Event>) -> bool {
    &&& a.len() == b.len()
    &&& forall|i: int| 0 <= i < a.len() ==> event_eq(#[trigger] a[i], b[i])
}

/// Snapshots are equal exactly when their event lists are, element by
/// element; this is the announcer's change detection.
impl PartialEq for Schedule {
    fn eq(&self, other: &Schedule) -> (r: bool) {
        let r = self.events == other.events;
        proof {
            assert(forall|i: int|
                0 <= i < self.events@.len() ==> (self.events@[i].eq_spec(&other.events@[i])
                    == event_eq(self.events@[i], other.events@[i])));
        }
        r
    }
}

impl vstd::std_specs::cmp::PartialEqSpecImpl for Schedule {
    open spec fn obeys_eq_spec() -> bool {
        true
    }

    open spec fn eq_spec(&self, other: &Schedule) -> bool {
        events_eq(self.events@, other.events@)
    }
}

/// Some event in the collection takes place at venue `v`.
pub open spec fn events_have_venue(events: Seq<Event>, v: Seq<char>) -> bool {
    exists|i: int| 0 <= i < events.len() && events[i].venue@ == v
}

/// A strictly ascending venue listing: sorted with no repeats.
pub open spec fn sorted_venue_list(s: Seq<String>) -> bool {
    forall|i: int, j: int|
        0 <= i < j < s.len() ==> lex_le(#[trigger] s[i]@, #[trigger] s[j]@) && s[i]@ != s[j]@
}

/// The venue names appearing in the events, first appearance first, each
/// once.
pub fn get_unique_venues_from_events(events: &Vec<Event>) -> (r: Vec<String>)
    ensures
        forall|i: int|
            0 <= i < events@.len() ==> venue_list_contains(r@, #[trigger] events@[i].venue@),
        forall|k: int| 0 <= k < r@.len() ==> events_have_venue(events@, #[trigger] r@[k]@),
        forall|k1: int, k2: int| 0 <= k1 < k2 < r@.len() ==> r@[k1]@ != r@[k2]@,
{
    let mut out: Vec<String> = Vec::new();
    let mut i: usize = 0;
    while i < events.len()
        invariant
            i <= events.len(),
            forall|j: int|
                0 <= j < i ==> venue_list_contains(out@, #[trigger] events@[j].venue@),
            forall|k: int| 0 <= k < out@.len() ==> events_have_venue(events@, #[trigger] out@[k]@),
            forall|k1: int, k2: int| 0 <= k1 < k2 < out@.len() ==> out@[k1]@ != out@[k2]@,
        decreases events.len() - i,
    {
        let ghost before: Seq<String> = out@;
        if !string_list_contains(&out, &events[i].venue) {
            out.push(events[i].venue.clone());
            proof {
                assert(out@[before.len() as int]@ == events@[i as int].venue@);
                assert(events_have_venue(events@, out@[before.len() as int]@));
            }
        }
        proof {
            assert forall|j: int| 0 <= j < i + 1 implies venue_list_contains(
                out@,
                #[trigger] events@[j].venue@,
            ) by {
                if j < i {
                    let m = choose|m: int|
                        0 <= m < before.len() && before[m]@ == events@[j].venue@;
                    assert(out@[m]@ == events@[j].venue@);
                } else {
                    if venue_list_contains(before, events@[j].venue@) {
                        let m = choose|m: int|
                            0 <= m < before.len() && before[m]@ == events@[j].venue@;
                        assert(out@[m]@ == events@[j].venue@);
                    } else {
                        assert(out@[before.len() as int]@ == events@[j].venue@);
                    }
                }
            }
        }
        i = i + 1;
    }
    out
}

/// Whether a name already stands in the list.
fn string_list_contains(list: &Vec<String>, v: &String) -> (r: bool)
    ensures
        r == venue_list_contains(list@, v@),
{
    let mut i: usize = 0;
    while i < list.len()
        invariant
            i <= list.len(),
            forall|k: int| 0 <= k < i ==> list@[k]@ != v@,
        decreases list.len() - i,
    {
        if list[i].eq(v) {
            return true;
        }
        i = i + 1;
    }
    false
}

/// Inserts a venue name into a strictly ascending listing, keeping it
/// strictly ascending; a name already present is left alone.
fn insert_venue_sorted(list: &mut Vec<String>, v: &String)
    requires
        sorted_venue_list(old(list)@),
    ensures
        sorted_venue_list(final (list)@),
        venue_list_contains(final (list)@, v@),
        forall|k: int|
            0 <= k < final (list)@.len() ==> (#[trigger] final (list)@[k])@ == v@
                || venue_list_contains(old(list)@, final (list)@[k]@),
        forall|k: int|
            0 <= k < old(list)@.len() ==> venue_list_contains(
                final (list)@,
                (#[trigger] old(list)@[k])@,
            ),
{
    let ghost orig: Seq<String> = list@;
    let mut j: usize = 0;
    while j < list.len()
        invariant
            j <= list.len(),
            list@ == orig,
            orig == old(list)@,
            sorted_venue_list(orig),
            forall|k: int| 0 <= k < j ==> lex_le(#[trigger] orig[k]@, v@) && orig[k]@ != v@,
        decreases list.len() - j,
    {
        if list[j].eq(v) {
            proof {
                assert(list@[j as int]@ == v@);
                assert(venue_list_contains(list@, v@));
                assert forall|k: int| 0 <= k < orig.len() implies venue_list_contains(
                    list@,
                    (#[trigger] orig[k])@,
                ) by {
                    assert(list@[k]@ == orig[k]@);
                }
                assert forall|k: int|
                    0 <= k < list@.len() implies (#[trigger] list@[k])@ == v@
                    || venue_list_contains(orig, list@[k]@) by {
                    assert(orig[k]@ == list@[k]@);
                }
            }
            return ;
        }
        if !str_le(list[j].as_str(), v.as_str()) {
            proof {
                lemma_venue_insert_keeps_sorted(orig, *v, j as int);
            }
            list.insert(j, v.clone());
            proof {
                assert(list@ == orig.insert(j as int, *v));
                assert(list@[j as int]@ == v@);
                assert(venue_list_contains(list@, v@));
                assert forall|k: int|
                    0 <= k < list@.len() implies (#[trigger] list@[k])@ == v@
                    || venue_list_contains(orig, list@[k]@) by {
                    if k < j {
                        assert(list@[k]@ == orig[k]@);
                    } else if k > j {
                        assert(list@[k]@ == orig[k - 1]@);
                    }
                }
                assert forall|k: int| 0 <= k < orig.len() implies venue_list_contains(
                    list@,
                    (#[trigger] orig[k])@,
                ) by {
                    if k < j {
                        assert(list@[k]@ == orig[k]@);
                    } else {
                        assert(list@[k + 1]@ == orig[k]@);
                    }
                }
            }
            return ;
        }
        proof {
            lemma_lex_le_total(orig[j as int]@, v@);
        }
        j = j + 1;
    }
    proof {
        lemma_venue_insert_keeps_sorted(orig, *v, orig.len() as int);
    }
    list.push(v.clone());
    proof {
        assert(list@ =~= orig.insert(orig.len() as int, *v));
        assert(list@[orig.len() as int]@ == v@);
        assert(venue_list_contains(list@, v@));
        assert forall|k: int|
            0 <= k < list@.len() implies (#[trigger] list@[k])@ == v@ || venue_list_contains(
            orig,
            list@[k]@,
        ) by {
            if k < orig.len() {
                assert(list@[k]@ == orig[k]@);
            }
        }
        assert forall|k: int| 0 <= k < orig.len() implies venue_list_contains(
            list@,
            (#[trigger] orig[k])@,
        ) by {
            assert(list@[k]@ == orig[k]@);
        }
    }
}

/// Inserting `v` at the first position whose entry is not before it keeps a
/// strictly ascending listing strictly ascending, provided `v` is not
/// already present among the earlier entries.
#[verifier::rlimit(50)]
proof fn lemma_venue_insert_keeps_sorted(s: Seq<String>, v: String, j: int)
    requires
        sorted_venue_list(s),
        0 <= j <= s.len(),
        forall|k: int| 0 <= k < j ==> lex_le(#[trigger] s[k]@, v@) && s[k]@ != v@,
        j < s.len() ==> !lex_le(s[j]@, v@),
    ensures
        sorted_venue_list(s.insert(j, v)),
{
    let out = s.insert(j, v);
    s.insert_ensures(j, v);
    if j < s.len() {
        lemma_lex_le_total(s[j]@, v@);
        if s[j]@ == v@ {
            lemma_lex_le_refl(v@);
        }
    }
    assert forall|i: int, k: int| 0 <= i < k < out.len() implies lex_le(
        #[trigger] out[i]@,
        #[trigger] out[k]@,
    ) && out[i]@ != out[k]@ by {
        if i < j && k < j {
        } else if i < j && k == j {
        } else if i < j && k > j {
            assert(out[i]@ == s[i]@);
            assert(out[k]@ == s[k - 1]@);
        } else if i == j && k > j {
            assert(out[k]@ == s[k - 1]@);
            assert(lex_le(v@, s[j]@));
            if j < k - 1 {
                lemma_lex_le_trans(v@, s[j]@, s[k - 1]@);
            }
            if v@ == s[k - 1]@ {
                if j < k - 1 {
                    lemma_lex_le_antisymmetric(v@, s[j]@);
                }
            }
        } else {
            assert(out[i]@ == s[i - 1]@);
            assert(out[k]@ == s[k - 1]@);
        }
    }
}

impl Schedule {
    /// Applies an ordered list of transformations to the events.
    pub fn mutate(&mut self, mutators: &Mutators)
        ensures
            final (self).events@ == apply_mutations(mutators.mutators@, old(self).events@),
    {
        mutators.mutate(&mut self.events);
    }

    /// The venues of the schedule, each once, in ascending name order.
    pub fn venues(&self) -> (r: Vec<String>)
        ensures
            sorted_venue_list(r@),
            forall|i: int|
                0 <= i < self.events@.len() ==> venue_list_contains(
                    r@,
                    #[trigger] self.events@[i].venue@,
                ),
            forall|k: int|
                0 <= k < r@.len() ==> events_have_venue(self.events@, #[trigger] r@[k]@),
    {
        let mut out: Vec<String> = Vec::new();
        let mut i: usize = 0;
        while i < self.events.len()
            invariant
                i <= self.events.len(),
                sorted_venue_list(out@),
                forall|j: int|
                    0 <= j < i ==> venue_list_contains(out@, #[trigger] self.events@[j].venue@),
                forall|k: int|
                    0 <= k < out@.len() ==> events_have_venue(
                        self.events@,
                        #[trigger] out@[k]@,
                    ),
            decreases self.events.len() - i,
        {
            let ghost before: Seq<String> = out@;
            insert_venue_sorted(&mut out, &self.events[i].venue);
            proof {
                assert forall|k: int|
                    0 <= k < out@.len() implies events_have_venue(
                    self.events@,
                    #[trigger] out@[k]@,
                ) by {
                    if out@[k]@ == self.events@[i as int].venue@ {
                        assert(self.events@[i as int].venue@ == out@[k]@);
                    } else {
                        assert(venue_list_contains(before, out@[k]@));
                        let m = choose|m: int| 0 <= m < before.len() && before[m]@ == out@[k]@;
                        assert(events_have_venue(self.events@, before[m]@));
                    }
                }
                assert forall|j: int| 0 <= j < i + 1 implies venue_list_contains(
                    out@,
                    #[trigger] self.events@[j].venue@,
                ) by {
                    if j < i {
                        let m = choose|m: int|
                            0 <= m < before.len() && before[m]@ == self.events@[j].venue@;
                        assert(venue_list_contains(out@, before[m]@));
                    }
                }
            }
            i = i + 1;
        }
        out
    }

    /// The per-venue "now and next" guide at the given instant.
    pub fn now_and_next(&self, now: Timestamp) -> (r: NowAndNext)
        ensures
            crate::now_and_next::now_and_next_ok(r, self.events@, now),
    {
        NowAndNext::new(&self.events, now)
    }
}

} // verus!
