//! The telemetry data model: device states, Home Assistant payloads and the
//! pipeline envelope `TelemetryMessage`, with its validation rules.

use vstd::prelude::*;

verus! {

/// The state a device reports, as the pipeline understands it.
#[derive(Debug, Clone)]
pub enum DeviceState {
    On,
    Off,
    Unavailable,
    Unknown(String),
}

/// The mathematical model of a `DeviceState`.
pub enum SpecDeviceState {
    On,
    Off,
    Unavailable,
    Unknown(Seq<char>),
}

impl View for DeviceState {
    type V = SpecDeviceState;

    open spec fn view(&self) -> SpecDeviceState {
        match self {
            DeviceState::On => SpecDeviceState::On,
            DeviceState::Off => SpecDeviceState::Off,
            DeviceState::Unavailable => SpecDeviceState::Unavailable,
            DeviceState::Unknown(s) => SpecDeviceState::Unknown(s@),
        }
    }
}

/// An RGB colour as Home Assistant bulbs report it (`[r, g, b]`).
#[derive(Debug, Clone, Copy, PartialEq, Eq, Structural)]
pub struct HaColor {
    pub r: u8,
    pub g: u8,
    pub b: u8,
}

impl HaColor {
    /// Builds a colour from the channels of a `[r, g, b]` array, each already
    /// read as a byte where it was a number: a channel that is missing, or
    /// was not a number, is 0.
    pub fn from_channels(channels: &Vec<Option<u8>>) -> (color: HaColor)
        ensures
            color.r == channel_or_zero(channels@, 0),
            color.g == channel_or_zero(channels@, 1),
            color.b == channel_or_zero(channels@, 2),
    {
        let r = if channels.len() > 0 { channels[0].unwrap_or(0) } else { 0 };
        let g = if channels.len() > 1 { channels[1].unwrap_or(0) } else { 0 };
        let b = if channels.len() > 2 { channels[2].unwrap_or(0) } else { 0 };
        HaColor { r, g, b }
    }
}

/// The channel at `index`, or 0 where it is missing or absent.
pub open spec fn channel_or_zero(channels: Seq<Option<u8>>, index: int) -> u8 {
    if index < channels.len() {
        match channels[index] {
            Some(v) => v,
            None => 0,
        }
    } else {
        0
    }
}

/// The JSON payload a Home Assistant device publishes. Every field is
/// optional: each device class sends its own subset. Numeric readings are
/// held as the bit pattern of the IEEE-754 double they were read as.
#[derive(Debug, Clone)]
pub struct HaPayload {
    pub state: Option<String>,
    pub brightness: Option<u64>,
    pub color: Option<HaColor>,
    pub color_temp: Option<u64>,
    pub floodlight: Option<String>,
    pub recording: Option<String>,
    pub flip: Option<String>,
    pub watermark: Option<String>,
    pub night_vision: Option<String>,
    pub mode: Option<String>,
    pub speed: Option<u64>,
    pub filter: Option<u64>,
}

impl HaPayload {
    /// True when no field is present.
    pub open spec fn is_blank(self) -> bool {
        &&& self.state is None
        &&& self.brightness is None
        &&& self.color is None
        &&& self.color_temp is None
        &&& self.floodlight is None
        &&& self.recording is None
        &&& self.flip is None
        &&& self.watermark is None
        &&& self.night_vision is None
        &&& self.mode is None
        &&& self.speed is None
        &&& self.filter is None
    }
}

impl Default for HaPayload {
    fn default() -> (p: HaPayload)
        ensures
            p.is_blank(),
    {
        HaPayload {
            state: None,
            brightness: None,
            color: None,
            color_temp: None,
            floodlight: None,
            recording: None,
            flip: None,
            watermark: None,
            night_vision: None,
            mode: None,
            speed: None,
            filter: None,
        }
    }
}

/// Why a telemetry message is refused.
#[derive(Debug, Clone, Copy, PartialEq, Eq, Structural)]
pub enum ValidationError {
    EmptyTopic,
    EmptyDeviceId,
    FutureTimestamp,
}

impl ValidationError {
    /// The human-readable description of the error.
    pub fn message(&self) -> (text: String)
        ensures
            text@ == validation_error_text(*self),
    {
        match self {
            ValidationError::EmptyTopic => "topic is empty".to_owned(),
            ValidationError::EmptyDeviceId => "device_id is empty".to_owned(),
            ValidationError::FutureTimestamp => "timestamp is in the future".to_owned(),
        }
    }
}

pub open spec fn validation_error_text(e: ValidationError) -> Seq<char> {
    match e {
        ValidationError::EmptyTopic => "topic is empty"@,
        ValidationError::EmptyDeviceId => "device_id is empty"@,
        ValidationError::FutureTimestamp => "timestamp is in the future"@,
    }
}

/// A UTC instant: whole seconds since the Unix epoch and the nanoseconds
/// past that second.
#[derive(Debug, Clone, Copy, PartialEq, Eq, Structural)]
pub struct Timestamp {
    pub secs: i64,
    pub nanos: u32,
}

/// `a` lies strictly after `b`.
pub open spec fn is_after(a: Timestamp, b: Timestamp) -> bool {
    a.secs > b.secs || (a.secs == b.secs && a.nanos > b.nanos)
}

impl Timestamp {
    /// Whether this instant lies strictly after `other`.
    pub fn is_after(&self, other: &Timestamp) -> (later: bool)
        ensures
            later == is_after(*self, *other),
    {
        self.secs > other.secs || (self.secs == other.secs && self.nanos > other.nanos)
    }
}

/// A reading of the system clock: not before the Unix epoch, with the
/// nanoseconds below one second.
pub open spec fn is_clock_reading(t: Timestamp) -> bool {
    t.secs >= 0 && t.nanos < 1_000_000_000
}

/// Reads the system clock.
/// Calls `chrono::Utc::now()` and takes the result apart into seconds and
/// sub-second nanoseconds. `Utc::now()` builds its result from the time
/// since the Unix epoch (a `Duration`), so the seconds are not negative and
/// the nanoseconds are below one second; the time itself is not stated.
/// `Utc::now()` panics when the system clock reads before the Unix epoch;
/// no precondition can exclude that.
#[verifier::external_body]
pub(crate) fn utc_now() -> (now: Timestamp)
    ensures
        now.secs >= 0,
        now.nanos < 1_000_000_000,
{
    let now = chrono::Utc::now();
    Timestamp { secs: now.timestamp(), nanos: now.timestamp_subsec_nanos() }
}

/// The 128-bit value (big-endian) of a version-4, RFC 4122 variant UUID:
/// version nibble 4, variant bits `10`.
pub open spec fn is_uuid_v4(id: u128) -> bool {
    &&& (id >> 76u128) & 0xfu128 == 4u128
    &&& (id >> 62u128) & 0x3u128 == 2u128
}

/// A fresh random message id.
/// Calls `uuid::Uuid::new_v4()`, which masks random bits so that the
/// version nibble is 4 and the variant bits are `10`; the value is read back
/// with `as_u128` (big-endian). The random bits themselves are not stated.
/// `new_v4` panics when the operating system's random source fails; no
/// precondition can exclude that.
#[verifier::external_body]
fn new_message_id() -> (id: u128)
    ensures
        is_uuid_v4(id),
{
    uuid::Uuid::new_v4().as_u128()
}

/// The lowercase hexadecimal digit for `v` in `0..16`.
pub open spec fn hex_digit(v: int) -> char {
    if v < 10 {
        (('0' as int) + v) as char
    } else {
        (('a' as int) + v - 10) as char
    }
}

/// Nibble `j` of a 128-bit value, counting from the most significant (0) to
/// the least significant (31).
pub open spec fn nibble(id: u128, j: int) -> int {
    ((id >> ((4 * (31 - j)) as u128)) & 0xfu128) as int
}

/// The hyphenated lowercase form of a UUID: its 32 hex digits, most
/// significant first, grouped 8-4-4-4-12 with `-` between the groups.
pub open spec fn uuid_text_of(id: u128) -> Seq<char> {
    Seq::new(
        36,
        |k: int|
            if k == 8 || k == 13 || k == 18 || k == 23 {
                '-'
            } else {
                let j = if k < 8 {
                    k
                } else if k < 13 {
                    k - 1
                } else if k < 18 {
                    k - 2
                } else if k < 23 {
                    k - 3
                } else {
                    k - 4
                };
                hex_digit(nibble(id, j))
            },
    )
}

/// The text of a message id.
/// Calls `uuid::Uuid::from_u128` (big-endian) and its `Display`, which
/// writes the hyphenated lowercase form.
#[verifier::external_body]
fn uuid_text(id: u128) -> (text: String)
    ensures
        text@ == uuid_text_of(id),
{
    uuid::Uuid::from_u128(id).to_string()
}

/// The pipeline envelope around one MQTT message.
#[derive(Debug, Clone)]
pub struct TelemetryMessage {
    pub id: u128,
    pub topic: String,
    pub device_id: String,
    pub state: DeviceState,
    pub timestamp: Timestamp,
    /// The structured payload: `Some` for JSON devices, `None` for plain strings.
    pub payload: Option<HaPayload>,
    /// The payload as received, kept for audit and replay.
    pub raw_payload: String,
}

/// What `validate` decides for a message checked at instant `now`.
pub open spec fn validation_at(m: TelemetryMessage, now: Timestamp) -> Result<(), ValidationError> {
    if m.topic@.len() == 0 {
        Err(ValidationError::EmptyTopic)
    } else if m.device_id@.len() == 0 {
        Err(ValidationError::EmptyDeviceId)
    } else if is_after(m.timestamp, now) {
        Err(ValidationError::FutureTimestamp)
    } else {
        Ok(())
    }
}

impl TelemetryMessage {
    /// Wraps a payload with a fresh version-4 id and the current time.
    pub fn new(
        topic: String,
        device_id: String,
        state: DeviceState,
        payload: Option<HaPayload>,
        raw_payload: String,
    ) -> (m: TelemetryMessage)
        ensures
            is_uuid_v4(m.id),
            is_clock_reading(m.timestamp),
            m.topic@ == topic@,
            m.device_id@ == device_id@,
            m.state@ == state@,
            m.payload == payload,
            m.raw_payload@ == raw_payload@,
    {
        let id = new_message_id();
        let timestamp = utc_now();
        TelemetryMessage { id, topic, device_id, state, timestamp, payload, raw_payload }
    }

    /// The message id in its hyphenated lowercase form.
    pub fn id_text(&self) -> (text: String)
        ensures
            text@ == uuid_text_of(self.id),
    {
        uuid_text(self.id)
    }

    /// The key the message is published under: its device id, so that all
    /// messages of one device go to one partition, in order.
    pub fn record_key(&self) -> (key: &str)
        ensures
            key@ == self.device_id@,
    {
        self.device_id.as_str()
    }

    /// Checks the message against the clock reading `now`.
    pub fn validate_at(&self, now: Timestamp) -> (r: Result<(), ValidationError>)
        ensures
            r == validation_at(*self, now),
    {
        if self.topic.as_str().is_empty() {
            return Err(ValidationError::EmptyTopic);
        }
        if self.device_id.as_str().is_empty() {
            return Err(ValidationError::EmptyDeviceId);
        }
        if self.timestamp.is_after(&now) {
            return Err(ValidationError::FutureTimestamp);
        }
        Ok(())
    }

    /// Checks the message against the current time: an empty topic, then an
    /// empty device id, then a timestamp in the future is refused.
    pub fn validate(&self) -> (r: Result<(), ValidationError>)
        ensures
            self.topic@.len() == 0 ==> r == Err::<(), ValidationError>(ValidationError::EmptyTopic),
            self.topic@.len() > 0 && self.device_id@.len() == 0 ==> r == Err::<(), ValidationError>(
                ValidationError::EmptyDeviceId,
            ),
            self.topic@.len() > 0 && self.device_id@.len() > 0 ==> (r is Ok || r == Err::<
                (),
                ValidationError,
            >(ValidationError::FutureTimestamp)),
            r is Ok ==> self.topic@.len() > 0 && self.device_id@.len() > 0,
            exists|now: Timestamp| is_clock_reading(now) && r == validation_at(*self, now),
    {
        let now = utc_now();
        let r = self.validate_at(now);
        assert(is_clock_reading(now) && r == validation_at(*self, now));
        r
    }
}

/// A message that passes validation at one instant passes at every later one.
pub proof fn lemma_validation_stays_valid(m: TelemetryMessage, now: Timestamp, later: Timestamp)
    requires
        validation_at(m, now) is Ok,
        !is_after(now, later),
    ensures
        validation_at(m, later) is Ok,
{
}

} // verus!
