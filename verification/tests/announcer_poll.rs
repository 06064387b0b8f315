//! Scenario tests for the announcer's poll loop, run in virtual time: the
//! harness below plays the caller's role, waiting on whichever of the two
//! timers (schedule refresh, next event) fires first and performing only the
//! winner's effect, exactly as a real timer race would.

use emfcamp_schedule_api::announcer::{
    Announcer, AnnouncerPollResult, AnnouncerScheduleChanges, AnnouncerSettings, PollPlan,
};
use emfcamp_schedule_api::event::Event;
use emfcamp_schedule_api::schedule::Schedule;
use emfcamp_schedule_api::timestamp::Timestamp;

const EPOCH: i64 = 1710000000;

fn at(delta: i64) -> Timestamp {
    Timestamp::from_epoch_secs(EPOCH + delta)
}

fn settings(refresh_secs: u64, offset_secs: i64) -> AnnouncerSettings {
    AnnouncerSettings {
        schedule_refresh_secs: refresh_secs,
        event_start_offset_secs: offset_secs,
    }
}

struct Harness {
    announcer: Announcer,
    now: i64,
    upstream: Vec<Event>,
}

impl Harness {
    /// Fetches the initial snapshot and constructs the announcer at the
    /// harness epoch.
    fn new(s: AnnouncerSettings, events: Vec<Event>) -> Harness {
        let announcer = Announcer::new(s, Schedule { events: events.clone() }, at(0));
        Harness { announcer, now: EPOCH, upstream: events }
    }

    /// Replaces what the upstream source will serve on the next refresh.
    fn set_events(&mut self, events: Vec<Event>) {
        self.upstream = events;
    }

    /// Lets virtual time pass without polling.
    fn advance(&mut self, secs: i64) {
        self.now += secs;
    }

    /// One poll: suspends until a timer fires, performs the winner's side
    /// effect only, and returns the result with the virtual instant
    /// (seconds after the harness epoch) at which it fired.
    fn poll(&mut self) -> (AnnouncerPollResult, i64) {
        loop {
            match self.announcer.plan_poll(Timestamp::from_epoch_secs(self.now)) {
                PollPlan::Refresh { at } => {
                    self.now = at;
                    let fetched = Schedule { events: self.upstream.clone() };
                    let changes = self.announcer.apply_refresh(fetched);
                    return (AnnouncerPollResult::ScheduleRefreshed(changes), at - EPOCH);
                }
                PollPlan::Announce { at, event } => {
                    self.now = at;
                    self.announcer.record_announcement(&event);
                    return (AnnouncerPollResult::Event(event), at - EPOCH);
                }
                PollPlan::Reevaluate { at } => {
                    self.now = at;
                }
            }
        }
    }

    fn assert_poll(&mut self, expected_at: i64, expected: AnnouncerPollResult) {
        let (result, t) = self.poll();
        assert_eq!(result, expected);
        assert_eq!(t, expected_at);
    }
}

#[test]
fn t02_schedule_is_refreshed_on_requested_schedule() {
    let events = vec![Event::dummy(0, at(60))];
    let mut h = Harness::new(settings(3, 0), events);

    h.assert_poll(
        3,
        AnnouncerPollResult::ScheduleRefreshed(AnnouncerScheduleChanges::NoChanges),
    );
}

#[test]
fn t03_changes_to_the_schedule_are_noticed() {
    let events = vec![Event::dummy(0, at(60))];
    let mut h = Harness::new(settings(3, 0), events);

    h.set_events(vec![Event::dummy(1, at(60))]);

    h.assert_poll(
        3,
        AnnouncerPollResult::ScheduleRefreshed(AnnouncerScheduleChanges::Changes),
    );
}

#[test]
fn t4_basic_event_notification() {
    let events = vec![
        Event::dummy(0, at(1)),
        Event::dummy(1, at(2)),
        Event::dummy(2, at(3)),
    ];
    let mut h = Harness::new(settings(600, 0), events.clone());

    h.assert_poll(1, AnnouncerPollResult::Event(events[0].clone()));
    h.assert_poll(2, AnnouncerPollResult::Event(events[1].clone()));
    h.assert_poll(3, AnnouncerPollResult::Event(events[2].clone()));
}

#[test]
fn t05_event_notification_with_multiple_identical_start_times() {
    let events = vec![
        Event::dummy(0, at(1)),
        Event::dummy(1, at(2)),
        Event::dummy(2, at(2)),
        Event::dummy(3, at(3)),
    ];
    let mut h = Harness::new(settings(600, 0), events.clone());

    h.assert_poll(1, AnnouncerPollResult::Event(events[0].clone()));
    h.assert_poll(2, AnnouncerPollResult::Event(events[1].clone()));
    h.assert_poll(2, AnnouncerPollResult::Event(events[2].clone()));
    h.assert_poll(3, AnnouncerPollResult::Event(events[3].clone()));
}

#[test]
fn t06_basic_event_notification_unsorted() {
    let events = vec![
        Event::dummy(0, at(1)),
        Event::dummy(1, at(2)),
        Event::dummy(2, at(3)),
    ];
    let mut h = Harness::new(
        settings(600, 0),
        vec![events[1].clone(), events[0].clone(), events[2].clone()],
    );

    h.assert_poll(1, AnnouncerPollResult::Event(events[0].clone()));
    h.assert_poll(2, AnnouncerPollResult::Event(events[1].clone()));
    h.assert_poll(3, AnnouncerPollResult::Event(events[2].clone()));
}

#[test]
fn t07_event_notification_with_schedule_update() {
    let events = vec![
        Event::dummy(0, at(1)),
        Event::dummy(1, at(3)),
        Event::dummy(2, at(7)),
    ];
    let mut h = Harness::new(settings(2, 0), events.clone());

    h.assert_poll(1, AnnouncerPollResult::Event(events[0].clone()));
    h.assert_poll(
        2,
        AnnouncerPollResult::ScheduleRefreshed(AnnouncerScheduleChanges::NoChanges),
    );
    h.assert_poll(3, AnnouncerPollResult::Event(events[1].clone()));
    h.assert_poll(
        4,
        AnnouncerPollResult::ScheduleRefreshed(AnnouncerScheduleChanges::NoChanges),
    );
    h.assert_poll(
        6,
        AnnouncerPollResult::ScheduleRefreshed(AnnouncerScheduleChanges::NoChanges),
    );
    h.assert_poll(7, AnnouncerPollResult::Event(events[2].clone()));
    h.assert_poll(
        8,
        AnnouncerPollResult::ScheduleRefreshed(AnnouncerScheduleChanges::NoChanges),
    );
}

#[test]
fn t08_future_changes_take_effect() {
    let events = vec![
        Event::dummy(0, at(1)),
        Event::dummy(1, at(3)),
        Event::dummy(2, at(7)),
    ];
    let mut h = Harness::new(settings(2, 0), events.clone());

    h.assert_poll(1, AnnouncerPollResult::Event(events[0].clone()));
    h.assert_poll(
        2,
        AnnouncerPollResult::ScheduleRefreshed(AnnouncerScheduleChanges::NoChanges),
    );
    h.assert_poll(3, AnnouncerPollResult::Event(events[1].clone()));
    h.assert_poll(
        4,
        AnnouncerPollResult::ScheduleRefreshed(AnnouncerScheduleChanges::NoChanges),
    );

    let events = vec![
        Event::dummy(0, at(1)),
        Event::dummy(1, at(3)),
        Event::dummy(2, at(9)),
    ];
    h.set_events(events.clone());

    h.assert_poll(
        6,
        AnnouncerPollResult::ScheduleRefreshed(AnnouncerScheduleChanges::Changes),
    );
    h.assert_poll(
        8,
        AnnouncerPollResult::ScheduleRefreshed(AnnouncerScheduleChanges::NoChanges),
    );
    h.assert_poll(9, AnnouncerPollResult::Event(events[2].clone()));
    h.assert_poll(
        10,
        AnnouncerPollResult::ScheduleRefreshed(AnnouncerScheduleChanges::NoChanges),
    );
}

#[test]
fn t09_changes_in_past_have_no_effect() {
    let events = vec![
        Event::dummy(0, at(1)),
        Event::dummy(1, at(3)),
        Event::dummy(2, at(7)),
    ];
    let mut h = Harness::new(settings(2, 0), events.clone());

    h.assert_poll(1, AnnouncerPollResult::Event(events[0].clone()));
    h.assert_poll(
        2,
        AnnouncerPollResult::ScheduleRefreshed(AnnouncerScheduleChanges::NoChanges),
    );
    h.assert_poll(3, AnnouncerPollResult::Event(events[1].clone()));
    h.assert_poll(
        4,
        AnnouncerPollResult::ScheduleRefreshed(AnnouncerScheduleChanges::NoChanges),
    );

    let events = vec![
        Event::dummy(0, at(2)),
        Event::dummy(1, at(3)),
        Event::dummy(2, at(7)),
    ];
    h.set_events(events.clone());

    h.assert_poll(
        6,
        AnnouncerPollResult::ScheduleRefreshed(AnnouncerScheduleChanges::Changes),
    );
    h.assert_poll(7, AnnouncerPollResult::Event(events[2].clone()));
    h.assert_poll(
        8,
        AnnouncerPollResult::ScheduleRefreshed(AnnouncerScheduleChanges::NoChanges),
    );
}

#[test]
fn t13_basic_event_notification_with_offset() {
    let events = vec![
        Event::dummy(0, at(1)),
        Event::dummy(1, at(2)),
        Event::dummy(2, at(3)),
    ];
    let mut h = Harness::new(settings(600, -1), events.clone());

    h.assert_poll(0, AnnouncerPollResult::Event(events[0].clone()));
    h.assert_poll(1, AnnouncerPollResult::Event(events[1].clone()));
    h.assert_poll(2, AnnouncerPollResult::Event(events[2].clone()));
}

#[test]
fn t14_notifications_start_at_correct_point_in_time_on_fresh_start() {
    let events = vec![
        Event::dummy(0, at(-2)),
        Event::dummy(1, at(0)),
        Event::dummy(2, at(2)),
        Event::dummy(3, at(4)),
    ];
    let mut h = Harness::new(settings(600, 0), events.clone());

    // By the first poll a moment has passed since the events were laid out,
    // so the event starting exactly at the epoch is already over the line.
    h.advance(1);

    h.assert_poll(2, AnnouncerPollResult::Event(events[2].clone()));
    h.assert_poll(4, AnnouncerPollResult::Event(events[3].clone()));
}

#[test]
fn t15_notifications_start_at_correct_point_in_time_on_fresh_start_with_offset() {
    let events = vec![
        Event::dummy(0, at(-2)),
        Event::dummy(1, at(0)),
        Event::dummy(2, at(2)),
        Event::dummy(3, at(4)),
    ];
    let mut h = Harness::new(settings(600, -1), events.clone());

    h.advance(1);

    h.assert_poll(1, AnnouncerPollResult::Event(events[2].clone()));
    h.assert_poll(3, AnnouncerPollResult::Event(events[3].clone()));
}

#[test]
fn failed_refresh_keeps_snapshot_and_retries() {
    let events = vec![Event::dummy(0, at(60))];
    let mut h = Harness::new(settings(3, 0), events.clone());

    // The refresh timer fires, but the fetch fails: the snapshot stays, the
    // timer is re-armed, and the next poll still selects the same event.
    match h.announcer.plan_poll(at(0)) {
        PollPlan::Refresh { at: due } => assert_eq!(due - EPOCH, 3),
        _ => panic!("expected the refresh timer to win"),
    }
    h.announcer.refresh_fetch_failed();
    match h.announcer.plan_poll(at(3)) {
        PollPlan::Refresh { at: due } => assert_eq!(due - EPOCH, 6),
        _ => panic!("expected the refresh timer to be re-armed"),
    }
    let next = h.announcer.next_event_to_announce(at(3));
    assert_eq!(next, Some(events[0].clone()));
}

#[test]
fn empty_schedule_never_waits_indefinitely() {
    let mut h = Harness::new(settings(90, 0), Vec::new());

    // With nothing to announce, the announcer re-evaluates on its fixed
    // sixty-second cadence until the refresh timer fires.
    assert_eq!(h.announcer.next_event_to_announce(at(0)), None);
    match h.announcer.plan_poll(at(0)) {
        PollPlan::Reevaluate { at: due } => assert_eq!(due - EPOCH, 60),
        _ => panic!("expected a re-evaluation pause"),
    }
    h.assert_poll(
        90,
        AnnouncerPollResult::ScheduleRefreshed(AnnouncerScheduleChanges::NoChanges),
    );
}

#[test]
fn vanished_marker_resumes_past_recorded_start() {
    let events = vec![
        Event::dummy(0, at(1)),
        Event::dummy(1, at(2)),
        Event::dummy(2, at(3)),
    ];
    let mut h = Harness::new(settings(2, 0), events.clone());

    h.assert_poll(1, AnnouncerPollResult::Event(events[0].clone()));

    // The announced event vanishes from the upstream schedule and another
    // event appears in its place at the same start: the marker matches
    // nothing, and resumption lands on the first event starting strictly
    // after the recorded start — nothing is redelivered.
    let events = vec![
        Event::dummy(7, at(1)),
        Event::dummy(1, at(2)),
        Event::dummy(2, at(3)),
    ];
    h.set_events(events.clone());

    h.assert_poll(
        2,
        AnnouncerPollResult::ScheduleRefreshed(AnnouncerScheduleChanges::Changes),
    );
    h.assert_poll(2, AnnouncerPollResult::Event(events[1].clone()));
    h.assert_poll(3, AnnouncerPollResult::Event(events[2].clone()));
}
