# foxwatch

The decision logic of an IoT telemetry pipeline that ingests Home Assistant
MQTT payloads, publishes them to Kafka keyed by device id, and ships
structured CLEF events to Seq — written in Verus, with its behaviour stated
in contracts and proved.

- `src/` — the verified library:
  - `ingestion` — device ids from topics, device states from payloads,
    payload decoding, and the routing of one message;
  - `telemetry` — the data model (`DeviceState`, `HaPayload`, `HaColor`,
    `TelemetryMessage`) and message validation;
  - `seq_logger` — CLEF event construction, WAP dropout detection, event
    batching and the Seq ingestion URL;
  - `config` — configuration from variable values, port parsing;
  - `json`, `text` — the JSON top-level reading and text helpers they use.
- `app/` — the service around it: MQTT event loop, Kafka producer, the Seq
  shipping task, environment and JSON (serde) forms of the library's types.
- `tests/` — tests run against the compiled library.
