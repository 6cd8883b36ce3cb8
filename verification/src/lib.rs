//! foxwatch: the decision logic of an IoT telemetry ingestion pipeline.
//!
//! MQTT payloads from Home Assistant devices are decoded, classified into a
//! device state, wrapped into a telemetry message and validated; the outcome
//! says what is published to Kafka and which structured events go to Seq.

pub mod config;
pub mod ingestion;
pub mod json;
pub mod seq_logger;
pub mod telemetry;
pub mod text;
