// Payload classification details, decoding and the routing of one message.

use foxwatch::ingestion::{
    classify_state, decode_payload, extract_device_id, fallback_state, ingest, keyword_state,
    message_state, parse_ha_state, prepare_message, route_message, IngestOutcome, PayloadError,
    SeqNotice,
};
use foxwatch::json::{state_member, strings_all_unavailable, JsonDoc, JsonField};
use foxwatch::telemetry::{DeviceState, HaPayload, Timestamp, ValidationError};

fn field(key: &str, text: Option<&str>) -> JsonField {
    JsonField { key: key.to_string(), text: text.map(|t| t.to_string()) }
}

fn unknown_text(s: DeviceState) -> String {
    match s {
        DeviceState::Unknown(t) => t,
        other => panic!("expected Unknown, got {:?}", other),
    }
}

#[test]
fn empty_segments_are_skipped() {
    assert_eq!(extract_device_id("//ha//lights///lamp/"), Some("lamp".to_string()));
    assert_eq!(extract_device_id("a/b/c"), Some("c".to_string()));
    assert_eq!(extract_device_id("a/b/"), None);
    assert_eq!(extract_device_id("///"), None);
}

#[test]
fn keywords_are_trimmed_and_case_folded() {
    assert!(matches!(parse_ha_state("  On \n"), DeviceState::On));
    assert!(matches!(parse_ha_state("\tUNAVAILABLE"), DeviceState::Unavailable));
    assert!(matches!(parse_ha_state("oFf"), DeviceState::Off));
}

#[test]
fn json_state_that_is_no_keyword_is_kept_lowercased() {
    assert_eq!(unknown_text(parse_ha_state(r#"{"state":"Sleep"}"#)), "sleep");
}

#[test]
fn object_of_unavailable_strings_is_unavailable() {
    let raw = r#"{"floodlight":"unavailable","recording":"Unavailable","brightness":null}"#;
    assert!(matches!(parse_ha_state(raw), DeviceState::Unavailable));
    let mixed = r#"{"floodlight":"unavailable","recording":"on"}"#;
    assert_eq!(unknown_text(parse_ha_state(mixed)), "complex_payload");
}

#[test]
fn non_string_state_falls_through() {
    let raw = r#"{"state":1,"a":"UNAVAILABLE"}"#;
    assert!(matches!(parse_ha_state(raw), DeviceState::Unavailable));
    assert_eq!(unknown_text(parse_ha_state(r#"{"brightness":255}"#)), r#"{"brightness":255}"#);
}

#[test]
fn plain_text_is_kept_up_to_twenty_bytes() {
    assert_eq!(unknown_text(parse_ha_state(" 76 ")), "76");
    assert_eq!(unknown_text(parse_ha_state("abcdefghijklmnopqrst")), "abcdefghijklmnopqrst");
    assert_eq!(unknown_text(parse_ha_state("abcdefghijklmnopqrstu")), "complex_payload");
    // eleven two-byte characters: 22 bytes
    assert_eq!(unknown_text(fallback_state("ééééééééééé")), "complex_payload");
    assert_eq!(unknown_text(fallback_state("éééééééééé")), "éééééééééé");
}

#[test]
fn keyword_state_names_three_words() {
    assert!(matches!(keyword_state("on"), Some(DeviceState::On)));
    assert!(matches!(keyword_state("off"), Some(DeviceState::Off)));
    assert!(matches!(keyword_state("unavailable"), Some(DeviceState::Unavailable)));
    assert!(keyword_state("ON").is_none());
    assert!(keyword_state("").is_none());
}

#[test]
fn classify_uses_the_given_readings() {
    let doc = JsonDoc::Object(vec![JsonField { key: "state".to_string(), text: Some("X".to_string()) }]);
    assert!(matches!(classify_state("t", "x", &doc, "off"), DeviceState::Off));
    assert_eq!(unknown_text(classify_state("t", "x", &doc, "dim")), "dim");
    assert!(matches!(classify_state("t", "on", &doc, "off"), DeviceState::On));
    assert_eq!(unknown_text(classify_state("t", "x", &JsonDoc::NotJson, "")), "t");
    assert_eq!(unknown_text(classify_state("t", "x", &JsonDoc::OtherValue, "")), "t");
}

#[test]
fn json_documents_as_parsed() {
    assert!(matches!(parse_ha_state("[1,2]"), DeviceState::Unknown(_)));
    let doc = JsonDoc::Object(vec![field("brightness", None), field("state", Some("ON"))]);
    assert_eq!(state_member(&doc), Some("ON"));
    assert!(!strings_all_unavailable(&doc));
    let doc = JsonDoc::Object(vec![field("a", Some("Unavailable")), field("b", Some("unavailable")), field("c", None)]);
    assert_eq!(state_member(&doc), None);
    assert!(strings_all_unavailable(&doc));
    let doc = JsonDoc::Object(vec![field("state", None)]);
    assert_eq!(state_member(&doc), None);
    assert!(!strings_all_unavailable(&doc));
    assert!(!strings_all_unavailable(&JsonDoc::Object(vec![])));
    assert!(!strings_all_unavailable(&JsonDoc::NotJson));
    assert_eq!(state_member(&JsonDoc::OtherValue), None);
}

#[test]
fn routing_follows_validation_at_the_given_time() {
    let m = prepare_message("ha/lights/x/state".to_string(), "on".to_string(), None);
    let before = Timestamp { secs: m.timestamp.secs - 5, nanos: 0 };
    assert!(matches!(
        route_message(m.clone(), before),
        IngestOutcome::Rejected { error: ValidationError::FutureTimestamp }
    ));
    let at = m.timestamp;
    assert!(matches!(
        route_message(m, at),
        IngestOutcome::Accepted { notice: SeqNotice::TelemetryReceived, .. }
    ));
}

#[test]
fn decoding_payload_bytes() {
    assert_eq!(decode_payload(b"on").unwrap(), "on");
    assert_eq!(decode_payload("é".as_bytes()).unwrap(), "é");
    assert!(matches!(decode_payload(&[0x6f, 0xff]), Err(PayloadError::NotUtf8(_))));
    assert!(matches!(decode_payload(&[0xed, 0xa0, 0x80]), Err(PayloadError::NotUtf8(_))));
}

#[test]
fn structured_state_field_wins_over_raw_text() {
    let payload = Some(HaPayload { state: Some("OFF".to_string()), ..Default::default() });
    assert!(matches!(message_state("on", &payload), DeviceState::Off));
    let blank = Some(HaPayload::default());
    assert!(matches!(message_state("on", &blank), DeviceState::On));
    assert!(matches!(message_state("unavailable", &None), DeviceState::Unavailable));
}

#[test]
fn ingest_accepts_a_bulb_reading() {
    let raw = r#"{"state":"ON","brightness":255}"#.to_string();
    let payload = Some(HaPayload { state: Some("ON".to_string()), ..Default::default() });
    match ingest("ha/lights/family_room_giraffe/state".to_string(), raw.clone(), payload) {
        IngestOutcome::Accepted { message, notice } => {
            assert_eq!(notice, SeqNotice::TelemetryReceived);
            assert_eq!(message.device_id, "family_room_giraffe");
            assert_eq!(message.topic, "ha/lights/family_room_giraffe/state");
            assert!(matches!(message.state, DeviceState::On));
            assert_eq!(message.raw_payload, raw);
            assert!(message.payload.is_some());
        }
        other => panic!("unexpected {:?}", other),
    }
}

#[test]
fn ingest_flags_unavailable_devices() {
    match ingest("ha/lights/front_porch_south/state".to_string(), "unavailable".to_string(), None) {
        IngestOutcome::Accepted { message, notice } => {
            assert_eq!(notice, SeqNotice::DeviceUnavailable);
            assert!(matches!(message.state, DeviceState::Unavailable));
        }
        other => panic!("unexpected {:?}", other),
    }
}

#[test]
fn ingest_names_unknown_devices() {
    match ingest("ha/lights".to_string(), "on".to_string(), None) {
        IngestOutcome::Accepted { message, .. } => assert_eq!(message.device_id, "unknown"),
        other => panic!("unexpected {:?}", other),
    }
}

#[test]
fn ingest_rejects_an_empty_topic() {
    assert!(matches!(
        ingest(String::new(), "on".to_string(), None),
        IngestOutcome::Rejected { error: ValidationError::EmptyTopic }
    ));
}
