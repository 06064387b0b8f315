use emfcamp_schedule_api::event::Event;
use emfcamp_schedule_api::now_and_next::NowAndNext;
use emfcamp_schedule_api::timestamp::{parse_timestamp_string, Timestamp};

fn ts(s: &str) -> Timestamp {
    parse_timestamp_string(s).unwrap()
}

#[test]
fn basic_1() {
    let events = vec![
        {
            let mut e = Event::dummy(0, ts("2024-03-12T20:00:00+00:00"));
            e.venue = "venue 1".to_owned();
            e
        },
        {
            let mut e = Event::dummy(0, ts("2024-03-12T20:00:00+00:00"));
            e.venue = "venue 2".to_owned();
            e
        },
        {
            let mut e = Event::dummy(0, ts("2024-03-12T21:00:00+00:00"));
            e.venue = "venue 1".to_owned();
            e
        },
    ];

    let t = ts("2024-03-12T20:30:00+00:00");
    let now_and_next = NowAndNext::new(&events, t);

    assert_eq!(now_and_next.now, t);

    assert_eq!(now_and_next.guide.len(), 2);

    let venue1 = now_and_next.venue_guide("venue 1").unwrap();
    assert_eq!(venue1.now, vec![events[0].clone()]);
    assert_eq!(venue1.next, vec![events[2].clone()]);

    let venue2 = now_and_next.venue_guide("venue 2").unwrap();
    assert_eq!(venue2.now, vec![events[1].clone()]);
    assert_eq!(venue2.next, Vec::default());
}

#[test]
fn basic_2() {
    let events = vec![
        {
            let mut e = Event::dummy(0, ts("2024-03-12T20:00:00+00:00"));
            e.venue = "venue 1".to_owned();
            e
        },
        {
            let mut e = Event::dummy(0, ts("2024-03-12T20:00:00+00:00"));
            e.venue = "venue 2".to_owned();
            e
        },
        {
            let mut e = Event::dummy(0, ts("2024-03-12T21:00:00+00:00"));
            e.venue = "venue 1".to_owned();
            e
        },
    ];

    let t = ts("2024-03-12T19:59:59+00:00");
    let now_and_next = NowAndNext::new(&events, t);

    assert_eq!(now_and_next.now, t);

    assert_eq!(now_and_next.guide.len(), 2);

    let venue1 = now_and_next.venue_guide("venue 1").unwrap();
    assert_eq!(venue1.now, Vec::default());
    assert_eq!(venue1.next, vec![events[0].clone()]);

    let venue2 = now_and_next.venue_guide("venue 2").unwrap();
    assert_eq!(venue2.now, Vec::default());
    assert_eq!(venue2.next, vec![events[1].clone()]);
}

#[test]
fn venues_are_listed_sorted_and_unique() {
    let schedule = emfcamp_schedule_api::schedule::Schedule {
        events: vec![
            {
                let mut e = Event::dummy(0, ts("2024-03-12T20:00:00+00:00"));
                e.venue = "stage b".to_owned();
                e
            },
            {
                let mut e = Event::dummy(1, ts("2024-03-12T20:30:00+00:00"));
                e.venue = "stage a".to_owned();
                e
            },
            {
                let mut e = Event::dummy(2, ts("2024-03-12T21:00:00+00:00"));
                e.venue = "stage b".to_owned();
                e
            },
        ],
    };

    let venues = schedule.venues();
    assert_eq!(venues, vec!["stage a".to_owned(), "stage b".to_owned()]);
}
