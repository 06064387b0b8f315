use emfcamp_schedule_api::event::{Event, RelativeTime};
use emfcamp_schedule_api::timestamp::{parse_timestamp_string, Timestamp};

fn ts(s: &str) -> Timestamp {
    parse_timestamp_string(s).unwrap()
}

#[test]
fn relative_time_past() {
    let event = Event::dummy(0, ts("2024-03-12T20:00:00+00:00"));
    let t = Timestamp::from_epoch_secs(event.end.secs + 1);
    assert_eq!(event.relative_to(t), RelativeTime::Past);
}

#[test]
fn relative_time_future() {
    let event = Event::dummy(0, ts("2024-03-12T20:00:00+00:00"));
    let t = Timestamp::from_epoch_secs(event.start.secs - 1);
    assert_eq!(event.relative_to(t), RelativeTime::Future);
}

#[test]
fn relative_time_now_1() {
    let event = Event::dummy(0, ts("2024-03-12T20:00:00+00:00"));
    assert_eq!(event.relative_to(event.start), RelativeTime::Now);
}

#[test]
fn relative_time_now_2() {
    let event = Event::dummy(0, ts("2024-03-12T20:00:00+00:00"));
    assert_eq!(event.relative_to(event.end), RelativeTime::Now);
}

#[test]
#[should_panic]
fn relative_time_now_panic() {
    let mut event = Event::dummy(0, ts("2024-03-12T20:00:00+00:00"));
    event.end = Timestamp::from_epoch_secs(event.start.secs - 300);
    assert_eq!(event.relative_to(event.start), RelativeTime::Now);
}
