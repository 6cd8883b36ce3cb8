// TelemetryMessage, HaPayload, HaColor and DeviceState.

use foxwatch::telemetry::{
    DeviceState, HaColor, HaPayload, TelemetryMessage, Timestamp, ValidationError,
};

fn bulb_payload() -> HaPayload {
    HaPayload {
        state: Some("on".to_string()),
        brightness: Some(255.0f64.to_bits()),
        color: Some(HaColor {
            r: 255,
            g: 107,
            b: 91,
        }),
        color_temp: Some(0.0f64.to_bits()),
        ..Default::default()
    }
}

fn make_bulb_message() -> TelemetryMessage {
    TelemetryMessage::new(
        "ha/lights/family_room_giraffe/state".to_string(),
        "family_room_giraffe".to_string(),
        DeviceState::On,
        Some(bulb_payload()),
        r#"{"state":"on","brightness":255,"color":[255,107,91],"color_temp":0}"#.to_string(),
    )
}

// ── validation ───────────────────────────────────────────────────────────────

#[test]
fn valid_bulb_message_passes_validation() {
    assert!(make_bulb_message().validate().is_ok());
}

#[test]
fn empty_topic_fails_validation() {
    let mut msg = make_bulb_message();
    msg.topic = String::new();
    assert!(msg.validate().is_err());
}

#[test]
fn empty_device_id_fails_validation() {
    let mut msg = make_bulb_message();
    msg.device_id = String::new();
    assert!(msg.validate().is_err());
}

#[test]
fn valid_message_passes() {
    assert!(make_bulb_message().validate().is_ok());
}

#[test]
fn empty_topic_fails() {
    let mut msg = make_bulb_message();
    msg.topic = String::new();
    assert!(msg.validate().is_err());
}

#[test]
fn validation_reports_which_check_failed() {
    let mut msg = make_bulb_message();
    msg.topic = String::new();
    msg.device_id = String::new();
    assert_eq!(msg.validate(), Err(ValidationError::EmptyTopic));
    msg.topic = "ha/lights/x/state".to_string();
    assert_eq!(msg.validate(), Err(ValidationError::EmptyDeviceId));
}

#[test]
fn future_timestamp_is_refused() {
    let msg = make_bulb_message();
    let earlier = Timestamp { secs: msg.timestamp.secs - 1, nanos: msg.timestamp.nanos };
    assert_eq!(msg.validate_at(earlier), Err(ValidationError::FutureTimestamp));
    assert_eq!(msg.validate_at(msg.timestamp), Ok(()));
    let later = Timestamp { secs: msg.timestamp.secs + 60, nanos: 0 };
    assert_eq!(msg.validate_at(later), Ok(()));
}

#[test]
fn timestamps_order_by_seconds_then_nanos() {
    let a = Timestamp { secs: 10, nanos: 5 };
    let b = Timestamp { secs: 10, nanos: 4 };
    let c = Timestamp { secs: 9, nanos: 999_999_999 };
    assert!(a.is_after(&b));
    assert!(!b.is_after(&a));
    assert!(b.is_after(&c));
    assert!(!a.is_after(&a));
}

#[test]
fn validation_error_messages() {
    assert_eq!(ValidationError::EmptyTopic.message(), "topic is empty");
    assert_eq!(ValidationError::EmptyDeviceId.message(), "device_id is empty");
    assert_eq!(ValidationError::FutureTimestamp.message(), "timestamp is in the future");
}

// ── construction ─────────────────────────────────────────────────────────────

#[test]
fn new_message_keeps_its_fields_and_gets_a_v4_id() {
    let msg = make_bulb_message();
    assert_eq!(msg.topic, "ha/lights/family_room_giraffe/state");
    assert_eq!(msg.device_id, "family_room_giraffe");
    assert!(matches!(msg.state, DeviceState::On));
    assert_eq!(
        msg.raw_payload,
        r#"{"state":"on","brightness":255,"color":[255,107,91],"color_temp":0}"#
    );
    let payload = msg.payload.as_ref().unwrap();
    assert_eq!(payload.brightness.map(f64::from_bits), Some(255.0));
    assert_eq!(payload.color, Some(HaColor { r: 255, g: 107, b: 91 }));
    assert_eq!((msg.id >> 76) & 0xf, 4);
    assert_eq!((msg.id >> 62) & 0x3, 2);
    let other = make_bulb_message();
    assert_ne!(msg.id, other.id);
}

#[test]
fn default_payload_is_blank() {
    let p = HaPayload::default();
    assert!(p.state.is_none());
    assert!(p.brightness.is_none());
    assert!(p.color.is_none());
    assert!(p.color_temp.is_none());
    assert!(p.floodlight.is_none());
    assert!(p.recording.is_none());
    assert!(p.flip.is_none());
    assert!(p.watermark.is_none());
    assert!(p.night_vision.is_none());
    assert!(p.mode.is_none());
    assert!(p.speed.is_none());
    assert!(p.filter.is_none());
}

#[test]
fn color_from_full_channels() {
    let c = HaColor::from_channels(&vec![Some(255), Some(107), Some(91)]);
    assert_eq!(c, HaColor { r: 255, g: 107, b: 91 });
}

#[test]
fn color_defaults_missing_channels_to_zero() {
    assert_eq!(HaColor::from_channels(&vec![None, None, None]), HaColor { r: 0, g: 0, b: 0 });
    assert_eq!(HaColor::from_channels(&vec![Some(9)]), HaColor { r: 9, g: 0, b: 0 });
    assert_eq!(HaColor::from_channels(&vec![]), HaColor { r: 0, g: 0, b: 0 });
    assert_eq!(
        HaColor::from_channels(&vec![Some(1), None, Some(3), Some(4)]),
        HaColor { r: 1, g: 0, b: 3 }
    );
}

#[test]
fn messages_are_keyed_by_device_id() {
    let msg = make_bulb_message();
    assert_eq!(msg.record_key(), "family_room_giraffe");
    assert!(msg.timestamp.secs >= 0);
    assert!(msg.timestamp.nanos < 1_000_000_000);
}

#[test]
fn message_id_text_is_hyphenated_lowercase_hex() {
    let mut msg = make_bulb_message();
    msg.id = 0x025030d1_a244_464b_81fb_5aa633fcaa5d;
    assert_eq!(msg.id_text(), "025030d1-a244-464b-81fb-5aa633fcaa5d");
    msg.id = 0;
    assert_eq!(msg.id_text(), "00000000-0000-0000-0000-000000000000");
}
