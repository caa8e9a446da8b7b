use ravyn::events::{Event, EventLog};
use ravyn::models::{JobStatus, ProgressSnapshot};

#[test]
fn replays_events_after_the_last_seen_sequence() {
    let mut bus = EventLog::new(4);
    bus.publish(Event::QueueChanged);
    bus.publish(Event::QueueChanged);
    let replay = bus.subscribe_from(Some(1));
    assert_eq!(replay.len(), 1);
    assert_eq!(replay[0].sequence, 2);
}

#[test]
fn requests_resync_when_the_cursor_is_older_than_the_buffer() {
    let mut bus = EventLog::new(2);
    for _ in 0..4 {
        bus.publish(Event::QueueChanged);
    }
    let replay = bus.subscribe_from(Some(1));
    assert!(matches!(
        replay.first().map(|event| &event.event),
        Some(Event::ResyncRequired { .. })
    ));
}

#[test]
fn resync_names_the_available_window() {
    let mut bus = EventLog::new(2);
    for _ in 0..4 {
        bus.publish(Event::QueueChanged);
    }
    let replay = bus.subscribe_from(Some(0));
    assert_eq!(replay.len(), 1);
    assert_eq!(replay[0].sequence, 4);
    assert!(matches!(
        replay[0].event,
        Event::ResyncRequired { oldest_available: 3, newest_available: 4 }
    ));
    let stats = bus.stats(0);
    assert_eq!(stats.resync_required_total, 1);
    assert_eq!(stats.replayed_events_total, 1);
    assert_eq!(stats.replay_buffer_events, 2);
    assert_eq!(stats.sequence_span, 2);
}

#[test]
fn a_subscriber_without_a_cursor_gets_no_replay() {
    let mut bus = EventLog::new(4);
    bus.publish(Event::QueueChanged);
    assert!(bus.subscribe_from(None).is_empty());
    assert_eq!(bus.stats(3).receiver_count, 3);
}

#[test]
fn publish_numbers_events_consecutively_and_keeps_payloads() {
    let mut bus = EventLog::new(8);
    let first = bus.publish(Event::JobStatus { job_id: 7, status: JobStatus::Paused, error: None });
    let second = bus.publish(Event::Progress(ProgressSnapshot {
        job_id: 7,
        downloaded_bytes: 10,
        total_bytes: Some(20),
        bytes_per_second: 5,
    }));
    assert_eq!(first.sequence, 1);
    assert_eq!(second.sequence, 2);
    let replay = bus.subscribe_from(Some(0));
    assert_eq!(replay.len(), 2);
    assert!(matches!(replay[0].event, Event::JobStatus { job_id: 7, status: JobStatus::Paused, error: None }));
    assert!(matches!(replay[1].event, Event::Progress(p) if p.downloaded_bytes == 10));
}

#[test]
fn reconnecting_after_one_publish_replays_exactly_that_event() {
    let mut bus = EventLog::new(1);
    bus.publish(Event::QueueChanged);
    bus.publish(Event::QueueChanged);
    let newest = 2;
    bus.publish(Event::JobStatus { job_id: 1, status: JobStatus::Failed, error: Some("boom".to_string()) });
    let replay = bus.subscribe_from(Some(newest));
    assert_eq!(replay.len(), 1);
    assert_eq!(replay[0].sequence, 3);
    assert!(matches!(&replay[0].event, Event::JobStatus { error: Some(e), .. } if e == "boom"));
}

#[test]
fn zero_capacity_is_raised_to_one() {
    let mut bus = EventLog::new(0);
    bus.publish(Event::QueueChanged);
    bus.publish(Event::QueueChanged);
    assert_eq!(bus.stats(0).replay_buffer_events, 1);
}

#[test]
fn stats_count_the_last_published_events() {
    let mut bus = EventLog::new(3);
    for published in 1..=5u64 {
        bus.publish(Event::QueueChanged);
        let stats = bus.stats(0);
        let expected = published.min(3);
        assert_eq!(stats.replay_buffer_events as u64, expected);
        assert_eq!(stats.sequence_span, expected);
    }
}
