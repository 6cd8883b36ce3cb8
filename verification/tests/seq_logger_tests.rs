// CLEF events, WAP dropout detection and batching.

use foxwatch::seq_logger::{seq_ingest_url, ClefEvent, DropoutTracker, EventBatch};

const SECOND: u64 = 1_000_000_000;

#[test]
fn information_and_error_events() {
    let e = ClefEvent::information("foxwatch started — pipeline initializing");
    assert_eq!(e.level, "Information");
    assert_eq!(e.message_template, "foxwatch started — pipeline initializing");
    assert_eq!(e.application, "foxwatch");
    assert!(e.topic.is_none() && e.device_id.is_none() && e.dropout_count.is_none());
    let e = ClefEvent::error("Validation failed");
    assert_eq!(e.level, "Error");
}

#[test]
fn telemetry_and_kafka_events_carry_their_properties() {
    let e = ClefEvent::telemetry_received("ha/lights/x/state", "x", "abc");
    assert_eq!(e.message_template, "Telemetry received from {device_id} on {topic}");
    assert_eq!(e.topic.as_deref(), Some("ha/lights/x/state"));
    assert_eq!(e.device_id.as_deref(), Some("x"));
    assert_eq!(e.message_id.as_deref(), Some("abc"));
    let k = ClefEvent::kafka_delivered("x", 3, 42);
    assert_eq!(k.kafka_partition, Some(3));
    assert_eq!(k.kafka_offset, Some(42));
    assert_eq!(k.device_id.as_deref(), Some("x"));
}

#[test]
fn each_unavailable_device_gets_a_warning() {
    let mut t = DropoutTracker::new();
    let events = t.device_unavailable("rear", "ha/floodcam/rear/state", 0);
    assert_eq!(events.len(), 1);
    assert_eq!(events[0].level, "Warning");
    assert_eq!(events[0].message_template, "Device unavailable: {device_id} on {topic}");
    assert_eq!(events[0].device_id.as_deref(), Some("rear"));
    assert_eq!(events[0].topic.as_deref(), Some("ha/floodcam/rear/state"));
}

#[test]
fn two_greyhound_devices_raise_a_dropout_alert() {
    let mut t = DropoutTracker::new();
    assert_eq!(t.device_unavailable("family_room_froggy", "ha/lights/family_room_froggy/state", 0).len(), 1);
    let events = t.device_unavailable("family_room_giraffe", "ha/lights/family_room_giraffe/state", 2 * SECOND);
    assert_eq!(events.len(), 2);
    let alert = &events[1];
    assert_eq!(alert.level, "Error");
    assert_eq!(alert.dropout_count, Some(2));
    assert_eq!(alert.dropout_devices.as_deref(), Some("family_room_froggy, family_room_giraffe"));
    assert_eq!(alert.wap_suspect.as_deref(), Some("greyhound_down"));
    // the alert clears the window
    assert_eq!(t.device_unavailable("family_room_greenie", "ha/lights/family_room_greenie/state", 3 * SECOND).len(), 1);
}

#[test]
fn one_device_dropping_twice_counts_once() {
    let mut t = DropoutTracker::new();
    t.device_unavailable("family_room_froggy", "a", 0);
    assert_eq!(t.device_unavailable("family_room_froggy", "a", SECOND).len(), 1);
    let events = t.device_unavailable("family_room_greenie", "b", 2 * SECOND);
    assert_eq!(events.len(), 2);
    assert_eq!(events[1].dropout_count, Some(2));
    assert_eq!(events[1].dropout_devices.as_deref(), Some("family_room_froggy, family_room_greenie"));
}

#[test]
fn drops_outside_the_window_do_not_correlate() {
    let mut t = DropoutTracker::new();
    t.device_unavailable("family_room_froggy", "a", 0);
    assert_eq!(t.device_unavailable("family_room_giraffe", "b", 30 * SECOND).len(), 1);
    let mut u = DropoutTracker::new();
    u.device_unavailable("family_room_froggy", "a", 0);
    assert_eq!(u.device_unavailable("family_room_giraffe", "b", 30 * SECOND - 1).len(), 2);
}

#[test]
fn other_devices_never_count_towards_a_dropout() {
    let mut t = DropoutTracker::new();
    t.device_unavailable("rear", "a", 0);
    t.device_unavailable("perry_air", "b", 1);
    assert_eq!(t.device_unavailable("family_room_froggy", "c", 2).len(), 1);
}

#[test]
fn batch_joins_lines_and_empties() {
    let mut b = EventBatch::new();
    assert!(b.is_empty());
    assert_eq!(b.take_body(), None);
    b.push("{\"a\":1}".to_string());
    b.push("{\"b\":2}".to_string());
    assert!(!b.is_empty());
    assert_eq!(b.take_body(), Some("{\"a\":1}\n{\"b\":2}".to_string()));
    assert!(b.is_empty());
    assert_eq!(b.take_body(), None);
}

#[test]
fn ingest_url_drops_trailing_slashes() {
    assert_eq!(seq_ingest_url("http://seq:5341"), "http://seq:5341/api/events/raw?clef");
    assert_eq!(seq_ingest_url("http://seq:5341//"), "http://seq:5341/api/events/raw?clef");
    assert_eq!(seq_ingest_url(""), "/api/events/raw?clef");
}

#[test]
fn shipping_posts_each_event_once_in_order() {
    let mut b = EventBatch::new();
    let mut posted: Vec<String> = Vec::new();
    b.push("1".to_string());
    if let Some(body) = b.take_body() {
        posted.push(body);
    }
    b.push("2".to_string());
    b.push("3".to_string());
    if let Some(body) = b.take_body() {
        posted.push(body);
    }
    assert_eq!(b.take_body(), None);
    b.push("4".to_string());
    assert_eq!(posted, vec!["1".to_string(), "2\n3".to_string()]);
    assert_eq!(b.take_body(), Some("4".to_string()));
}

#[test]
fn events_carry_a_clock_reading() {
    let e = ClefEvent::device_unavailable("x", "t");
    assert!(e.timestamp.secs >= 0);
    assert!(e.timestamp.nanos < 1_000_000_000);
}
