use emfcamp_schedule_api::announcer::{
    get_duration_before_event_notification, get_next_event_to_announce,
};
use emfcamp_schedule_api::event::Event;
use emfcamp_schedule_api::timestamp::Timestamp;

const EPOCH: i64 = 1710273600;

fn at(delta: i64) -> Timestamp {
    Timestamp::from_epoch_secs(EPOCH + delta)
}

#[test]
fn get_next_to_announce_initial_zero_offset() {
    let events = vec![
        Event::dummy(0, at(-10)),
        Event::dummy(1, at(0)),
        Event::dummy(2, at(10)),
        Event::dummy(3, at(20)),
        Event::dummy(4, at(30)),
    ];

    let offset: i64 = 0;

    let t = at(5);
    let next = get_next_event_to_announce(&events, offset, &None, t);
    assert_eq!(next, Some(events[2].clone()));
}

#[test]
fn get_next_to_announce_initial_with_offset() {
    let events = vec![
        Event::dummy(0, at(-10)),
        Event::dummy(1, at(0)),
        Event::dummy(2, at(10)),
        Event::dummy(3, at(20)),
        Event::dummy(4, at(30)),
    ];

    let offset: i64 = -10;

    let t = at(5);
    let next = get_next_event_to_announce(&events, offset, &None, t);
    assert_eq!(next, Some(events[3].clone()));
}

#[test]
fn duration_before_event_notification_zero_offset() {
    let now = at(0);
    let time_until_event: i64 = 2 * 60 * 60;

    let event = Event::dummy(0, at(time_until_event));
    let time_until_notification = get_duration_before_event_notification(now, 0, &event);

    assert_eq!(time_until_notification, time_until_event as u64);
}

#[test]
fn duration_before_event_notification_negative_offset() {
    let now = at(0);
    let time_until_event: i64 = 2 * 60 * 60;

    let event = Event::dummy(0, at(time_until_event));
    let offset: i64 = -2 * 60;
    let time_until_notification = get_duration_before_event_notification(now, offset, &event);

    let expected = time_until_event as u64 - 60 * 2;
    assert_eq!(time_until_notification, expected);
}

#[test]
fn duration_before_event_notification_positive_offset() {
    let now = at(0);
    let time_until_event: i64 = 2 * 60 * 60;

    let event = Event::dummy(0, at(time_until_event));
    let offset: i64 = 2 * 60;
    let time_until_notification = get_duration_before_event_notification(now, offset, &event);

    let expected = time_until_event as u64 + 60 * 2;
    assert_eq!(time_until_notification, expected);
}

#[test]
fn duration_before_event_notification_zero_offset_long_duration() {
    let now = at(0);
    let time_until_event: i64 = 30 * 24 * 60 * 60;

    let event = Event::dummy(0, at(time_until_event));
    let time_until_notification = get_duration_before_event_notification(now, 0, &event);

    assert_eq!(time_until_notification, time_until_event as u64);
}

#[test]
fn duration_before_event_notification_zero_duration() {
    let now = at(0);
    let time_until_event: i64 = 60;

    let event = Event::dummy(0, at(time_until_event));
    let offset: i64 = -2 * 60;
    let time_until_notification = get_duration_before_event_notification(now, offset, &event);

    assert_eq!(time_until_notification, 0);
}
