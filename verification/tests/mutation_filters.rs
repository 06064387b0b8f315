use emfcamp_schedule_api::event::Event;
use emfcamp_schedule_api::mutation::{
    AtVenues, EndsAfter, FakeStartEpoch, SortedByStartTime, StartsAfter, StartsBefore,
};
use emfcamp_schedule_api::timestamp::{parse_timestamp_string, Timestamp};

fn ts(s: &str) -> Timestamp {
    parse_timestamp_string(s).unwrap()
}

#[test]
fn at_venues_basic() {
    let events = vec![
        {
            let mut e = Event::dummy(0, ts("2024-03-12T20:00:00+00:00"));
            e.venue = "venue 1".to_owned();
            e
        },
        {
            let mut e = Event::dummy(0, ts("2024-03-12T20:00:00+00:00"));
            e.venue = "venue 2".to_owned();
            e
        },
        {
            let mut e = Event::dummy(0, ts("2024-03-12T21:00:00+00:00"));
            e.venue = "venue 1".to_owned();
            e
        },
    ];

    let mutator = AtVenues::new(vec!["venue 1".to_owned()]);

    let mut mutated = events.clone();
    mutator.mutate(&mut mutated);

    assert_eq!(mutated.len(), 2);

    assert_eq!(mutated[0], events[0]);
    assert_eq!(mutated[1], events[2]);
}

#[test]
fn ends_after_basic() {
    let events = vec![
        Event::dummy(0, ts("2024-03-12T20:00:00+00:00")),
        Event::dummy(1, ts("2024-03-12T21:00:00+00:00")),
        Event::dummy(2, ts("2024-03-12T22:00:00+00:00")),
    ];

    let mutator = EndsAfter::new(ts("2024-03-12T21:00:00+00:00"));

    let mut mutated = events.clone();
    mutator.mutate(&mut mutated);

    assert_eq!(mutated.len(), 2);

    assert_eq!(mutated[0], events[1]);
    assert_eq!(mutated[1], events[2]);
}

#[test]
fn fake_start_epoch_basic() {
    let events = vec![
        Event::dummy(0, ts("2024-03-12T20:00:00+00:00")),
        Event::dummy(0, ts("2024-03-12T21:00:00+00:00")),
        Event::dummy(0, ts("2024-03-12T22:00:00+00:00")),
    ];

    let mutator = FakeStartEpoch::new(ts("2024-02-01T12:00:00+00:00"));

    let mut mutated = events.clone();
    mutator.mutate(&mut mutated);

    assert_eq!(mutated.len(), 3);

    assert_eq!(mutated[0].start, ts("2024-02-01T12:00:00+00:00"));
    assert_eq!(mutated[0].end, ts("2024-02-01T13:00:00+00:00"));
    assert_eq!(mutated[1].start, ts("2024-02-01T13:00:00+00:00"));
    assert_eq!(mutated[1].end, ts("2024-02-01T14:00:00+00:00"));
    assert_eq!(mutated[2].start, ts("2024-02-01T14:00:00+00:00"));
    assert_eq!(mutated[2].end, ts("2024-02-01T15:00:00+00:00"));
}

#[test]
fn sorted_by_start_time_basic() {
    let events = vec![
        Event::dummy(0, ts("2024-03-12T20:30:00+00:00")),
        Event::dummy(0, ts("2024-03-12T21:00:00+00:00")),
        Event::dummy(0, ts("2024-03-12T20:00:00+00:00")),
    ];

    let mutator = SortedByStartTime::default();

    let mut mutated = events.clone();
    mutator.mutate(&mut mutated);

    assert_eq!(mutated.len(), 3);

    assert_eq!(mutated[0], events[2]);
    assert_eq!(mutated[1], events[0]);
    assert_eq!(mutated[2], events[1]);
}

#[test]
fn starts_after_basic() {
    let events = vec![
        Event::dummy(0, ts("2024-03-12T20:00:00+00:00")),
        Event::dummy(0, ts("2024-03-12T21:00:00+00:00")),
        Event::dummy(0, ts("2024-03-12T22:00:00+00:00")),
    ];

    let mutator = StartsAfter::new(ts("2024-03-12T20:59:59+00:00"));

    let mut mutated = events.clone();
    mutator.mutate(&mut mutated);

    assert_eq!(mutated.len(), 2);

    assert_eq!(mutated[0], events[1]);
    assert_eq!(mutated[1], events[2]);
}

#[test]
fn starts_before_basic() {
    let events = vec![
        Event::dummy(0, ts("2024-03-12T20:00:00+00:00")),
        Event::dummy(1, ts("2024-03-12T21:00:00+00:00")),
        Event::dummy(2, ts("2024-03-12T22:00:00+00:00")),
    ];

    let mutator = StartsBefore::new(ts("2024-03-12T21:59:59+00:00"));

    let mut mutated = events.clone();
    mutator.mutate(&mut mutated);

    assert_eq!(mutated.len(), 2);

    assert_eq!(mutated[0], events[0]);
    assert_eq!(mutated[1], events[1]);
}

#[test]
fn sorting_twice_changes_nothing() {
    let events = vec![
        Event::dummy(4, ts("2024-03-12T20:30:00+00:00")),
        Event::dummy(2, ts("2024-03-12T21:00:00+00:00")),
        Event::dummy(7, ts("2024-03-12T20:00:00+00:00")),
        {
            let mut e = Event::dummy(5, ts("2024-03-12T20:30:00+00:00"));
            e.venue = "a venue".to_owned();
            e
        },
    ];

    let mutator = SortedByStartTime::default();

    let mut once = events.clone();
    mutator.mutate(&mut once);
    let mut twice = once.clone();
    mutator.mutate(&mut twice);

    assert_eq!(once, twice);
    assert_eq!(once.len(), events.len());
    // Ascending starts, ties broken by venue name (the empty name first).
    assert_eq!(once[0].id, 7);
    assert_eq!(once[1].id, 4);
    assert_eq!(once[2].id, 5);
    assert_eq!(once[3].id, 2);
}
