//! Topic and payload interpretation, and the routing of one MQTT message.

use vstd::prelude::*;
use vstd::utf8::{decode_utf8, encode_utf8, valid_utf8};
use crate::json::{
    all_strings_unavailable, json_doc_of, read_json, state_member, state_text,
    strings_all_unavailable, JsonDoc, SpecJsonDoc,
};
use crate::telemetry::{
    is_clock_reading, is_uuid_v4, utc_now, validation_at, DeviceState, HaPayload, SpecDeviceState, TelemetryMessage,
    ValidationError,
};
use crate::text::{lowercase_of, str_eq, to_lowercase, trim_spec, trim_white_space};

verus! {

/// The pieces of `s` between `/` separators, empty pieces included
/// (what `str::split('/')` yields).
pub open spec fn slash_pieces(s: Seq<char>) -> Seq<Seq<char>>
    decreases s.len(),
{
    if s.len() == 0 {
        seq![Seq::<char>::empty()]
    } else {
        let init = slash_pieces(s.drop_last());
        if s.last() == '/' {
            init.push(Seq::<char>::empty())
        } else {
            init.update(init.len() - 1, init.last().push(s.last()))
        }
    }
}

/// Non-empty pieces are the segments of a topic.
pub open spec fn nonempty_piece() -> spec_fn(Seq<char>) -> bool {
    |p: Seq<char>| p.len() > 0
}

/// The non-empty `/`-separated segments of a topic.
pub open spec fn topic_segments(topic: Seq<char>) -> Seq<Seq<char>> {
    slash_pieces(topic).filter(nonempty_piece())
}

/// The device id of a topic `<prefix>/<type>/<id>/...`: its third non-empty segment.
pub open spec fn device_id_of(topic: Seq<char>) -> Option<Seq<char>> {
    let segs = topic_segments(topic);
    if segs.len() >= 3 {
        Some(segs[2])
    } else {
        None
    }
}

proof fn lemma_slash_pieces_nonempty(s: Seq<char>)
    ensures
        slash_pieces(s).len() >= 1,
    decreases s.len(),
{
    if s.len() > 0 {
        lemma_slash_pieces_nonempty(s.drop_last());
    }
}

/// Splitting at a separator: the pieces of `s` are those before the `/` at
/// index `i` followed by those after it.
proof fn lemma_slash_pieces_split(s: Seq<char>, i: int)
    requires
        0 <= i < s.len(),
        s[i] == '/',
    ensures
        slash_pieces(s) =~= slash_pieces(s.take(i)) + slash_pieces(s.skip(i + 1)),
    decreases s.len(),
{
    if s.len() == i + 1 {
        assert(s.drop_last() =~= s.take(i));
        assert(s.skip(i + 1) =~= Seq::<char>::empty());
    } else {
        let d = s.drop_last();
        lemma_slash_pieces_split(d, i);
        assert(d.take(i) =~= s.take(i));
        let r = s.skip(i + 1);
        assert(r.drop_last() =~= d.skip(i + 1));
        assert(r.last() == s.last());
        lemma_slash_pieces_nonempty(r.drop_last());
        lemma_slash_pieces_nonempty(s.take(i));
    }
}

proof fn lemma_filter_nonempty_step(p: Seq<Seq<char>>)
    requires
        p.len() >= 1,
    ensures
        p.filter(nonempty_piece()) == (if p.last().len() > 0 {
            p.drop_last().filter(nonempty_piece()).push(p.last())
        } else {
            p.drop_last().filter(nonempty_piece())
        }),
{
    reveal_with_fuel(Seq::filter, 1);
    assert(nonempty_piece()(p.last()) == (p.last().len() > 0));
}

/// A segment: non-empty and free of `/`.
pub open spec fn is_segment(x: Seq<char>) -> bool {
    x.len() > 0 && !x.contains('/')
}

proof fn lemma_slash_pieces_no_slash(x: Seq<char>)
    requires
        !x.contains('/'),
    ensures
        slash_pieces(x) =~= seq![x],
    decreases x.len(),
{
    if x.len() > 0 {
        let d = x.drop_last();
        assert(!d.contains('/')) by {
            if d.contains('/') {
                let i = choose|i: int| 0 <= i < d.len() && d[i] == '/';
                assert(x[i] == '/');
            }
        }
        lemma_slash_pieces_no_slash(d);
        assert(x[x.len() - 1] != '/');
        assert(d.push(x.last()) =~= x);
        let init = slash_pieces(d);
        assert(init.update(init.len() - 1, init.last().push(x.last())) =~= seq![x]);
    } else {
        assert(x =~= Seq::<char>::empty());
    }
}

/// Pieces of `x / rest` where `x` holds no separator.
proof fn lemma_slash_pieces_cons(x: Seq<char>, rest: Seq<char>)
    requires
        !x.contains('/'),
    ensures
        slash_pieces(x + seq!['/'] + rest) =~= seq![x] + slash_pieces(rest),
{
    let t = x + seq!['/'] + rest;
    let i = x.len() as int;
    assert(t[i] == '/');
    lemma_slash_pieces_split(t, i);
    assert(t.take(i) =~= x);
    assert(t.skip(i + 1) =~= rest);
    lemma_slash_pieces_no_slash(x);
}

/// Topics laid out as `<prefix>/<type>/<id>` or `<prefix>/<type>/<id>/...`
/// name the device `<id>`, whatever follows it.
pub proof fn lemma_device_id_of_layout(prefix: Seq<char>, kind: Seq<char>, id: Seq<char>, rest: Seq<char>)
    requires
        is_segment(prefix),
        is_segment(kind),
        is_segment(id),
    ensures
        device_id_of(prefix + seq!['/'] + kind + seq!['/'] + id) == Some(id),
        device_id_of(prefix + seq!['/'] + kind + seq!['/'] + id + seq!['/'] + rest) == Some(id),
{
    lemma_slash_pieces_no_slash(id);
    lemma_slash_pieces_cons(kind, id);
    assert(prefix + seq!['/'] + kind + seq!['/'] + id =~= prefix + seq!['/'] + (kind + seq!['/'] + id));
    lemma_slash_pieces_cons(prefix, kind + seq!['/'] + id);
    let short = seq![prefix] + (seq![kind] + seq![id]);
    assert(short =~= seq![prefix, kind, id]);
    lemma_three_segments(prefix, kind, id, Seq::empty());
    assert(short =~= seq![prefix, kind, id] + Seq::<Seq<char>>::empty());

    lemma_slash_pieces_cons(id, rest);
    lemma_slash_pieces_cons(kind, id + seq!['/'] + rest);
    assert(kind + seq!['/'] + id + seq!['/'] + rest =~= kind + seq!['/'] + (id + seq!['/'] + rest));
    lemma_slash_pieces_cons(prefix, kind + seq!['/'] + id + seq!['/'] + rest);
    assert(prefix + seq!['/'] + kind + seq!['/'] + id + seq!['/'] + rest
        =~= prefix + seq!['/'] + (kind + seq!['/'] + id + seq!['/'] + rest));
    let long = seq![prefix] + (seq![kind] + (seq![id] + slash_pieces(rest)));
    assert(long =~= seq![prefix, kind, id] + slash_pieces(rest));
    lemma_three_segments(prefix, kind, id, slash_pieces(rest));
}

proof fn lemma_three_segments(a: Seq<char>, b: Seq<char>, c: Seq<char>, more: Seq<Seq<char>>)
    requires
        a.len() > 0,
        b.len() > 0,
        c.len() > 0,
    ensures
        (seq![a, b, c] + more).filter(nonempty_piece()).len() >= 3,
        (seq![a, b, c] + more).filter(nonempty_piece())[2] == c,
{
    let p = nonempty_piece();
    Seq::filter_distributes_over_add(seq![a, b, c], more, p);
    let abc = seq![a, b, c];
    reveal_with_fuel(Seq::filter, 4);
    assert(abc.drop_last() =~= seq![a, b]);
    assert(seq![a, b].drop_last() =~= seq![a]);
    assert(seq![a].drop_last() =~= Seq::<Seq<char>>::empty());
    assert(abc.filter(p) =~= seq![a, b, c]);
}

/// The device id of an MQTT topic: the third non-empty `/`-separated segment,
/// or `None` when the topic has fewer than three.
pub fn extract_device_id(topic: &str) -> (id: Option<String>)
    ensures
        id.deep_view() == device_id_of(topic@),
{
    let n = topic.unicode_len();
    let mut i: usize = 0;
    let mut start: usize = 0;
    let mut count: usize = 0;
    while i < n
        invariant
            n == topic@.len(),
            start <= i <= n,
            count <= 2,
            slash_pieces(topic@.take(i as int)).len() >= 1,
            slash_pieces(topic@.take(i as int)).last() =~= topic@.subrange(start as int, i as int),
            slash_pieces(topic@.take(i as int)).drop_last().filter(nonempty_piece()).len() == count,
        decreases n - i,
    {
        let c = topic.get_char(i);
        let ghost p = slash_pieces(topic@.take(i as int));
        assert(topic@.take(i + 1).drop_last() =~= topic@.take(i as int));
        if c == '/' {
            proof {
                lemma_filter_nonempty_step(p);
            }
            if i > start {
                if count == 2 {
                    let id = topic.substring_char(start, i).to_owned();
                    proof {
                        lemma_slash_pieces_split(topic@, i as int);
                        assert(topic@ =~= topic@.take(n as int));
                        assert(slash_pieces(topic@) =~= p + slash_pieces(topic@.skip(i + 1)));
                        Seq::filter_distributes_over_add(p, slash_pieces(topic@.skip(i + 1)), nonempty_piece());
                    }
                    return Some(id);
                }
                count = count + 1;
            }
            proof {
                assert(slash_pieces(topic@.take(i + 1)) =~= p.push(Seq::<char>::empty()));
                assert(p.push(Seq::<char>::empty()).drop_last() =~= p);
                lemma_slash_pieces_split(topic@.take(i + 1), i as int);
                assert(topic@.take(i + 1).take(i as int) =~= topic@.take(i as int));
            }
            start = i + 1;
        } else {
            proof {
                let q = p.update(p.len() - 1, p.last().push(c));
                assert(slash_pieces(topic@.take(i + 1)) =~= q);
                assert(q.drop_last() =~= p.drop_last());
                assert(q.last() =~= topic@.subrange(start as int, i + 1));
            }
        }
        i = i + 1;
    }
    proof {
        assert(topic@.take(n as int) =~= topic@);
        lemma_filter_nonempty_step(slash_pieces(topic@));
    }
    if n > start && count == 2 {
        Some(topic.substring_char(start, n).to_owned())
    } else {
        None
    }
}


/// The state a lowercased keyword names: `on`, `off` or `unavailable`.
pub open spec fn keyword_state_of(lowered: Seq<char>) -> Option<SpecDeviceState> {
    if lowered == "on"@ {
        Some(SpecDeviceState::On)
    } else if lowered == "off"@ {
        Some(SpecDeviceState::Off)
    } else if lowered == "unavailable"@ {
        Some(SpecDeviceState::Unavailable)
    } else {
        None
    }
}

/// The model of an optional device state.
pub open spec fn state_option_view(s: Option<DeviceState>) -> Option<SpecDeviceState> {
    match s {
        Some(d) => Some(d@),
        None => None,
    }
}

/// The state for a payload that names none: a text longer than 20 bytes
/// (UTF-8) is summarised as `complex_payload`, a shorter one is kept.
pub open spec fn fallback_state_of(trimmed: Seq<char>) -> SpecDeviceState {
    if encode_utf8(trimmed).len() > 20 {
        SpecDeviceState::Unknown("complex_payload"@)
    } else {
        SpecDeviceState::Unknown(trimmed)
    }
}

/// How a trimmed payload is classified, given its lowercase form, its JSON
/// reading, and the lowercase form of its JSON `state` string (read only
/// where there is one):
/// 1. a plain `on` / `off` / `unavailable` keyword, in any case;
/// 2. otherwise the JSON `state` string, as a keyword or as `Unknown`;
/// 3. otherwise a JSON object whose string values all read `unavailable`;
/// 4. otherwise `Unknown` holding the text, or `complex_payload` if it is long.
pub open spec fn classified_state(
    trimmed: Seq<char>,
    lowered: Seq<char>,
    doc: SpecJsonDoc,
    lowered_state: Seq<char>,
) -> SpecDeviceState {
    match keyword_state_of(lowered) {
        Some(s) => s,
        None => match state_text(doc) {
            Some(_) => match keyword_state_of(lowered_state) {
                Some(s) => s,
                None => SpecDeviceState::Unknown(lowered_state),
            },
            None => if all_strings_unavailable(doc) {
                SpecDeviceState::Unavailable
            } else {
                fallback_state_of(trimmed)
            },
        },
    }
}

/// The device state that a raw payload text reports.
pub open spec fn ha_state_of(input: Seq<char>) -> SpecDeviceState {
    let trimmed = trim_spec(input);
    let doc = json_doc_of(trimmed);
    let lowered_state = match state_text(doc) {
        Some(t) => lowercase_of(t),
        None => Seq::<char>::empty(),
    };
    classified_state(trimmed, lowercase_of(trimmed), doc, lowered_state)
}

/// The state a lowercased keyword names, if it is `on`, `off` or `unavailable`.
pub fn keyword_state(lowered: &str) -> (state: Option<DeviceState>)
    ensures
        state_option_view(state) == keyword_state_of(lowered@),
{
    if str_eq(lowered, "on") {
        Some(DeviceState::On)
    } else if str_eq(lowered, "off") {
        Some(DeviceState::Off)
    } else if str_eq(lowered, "unavailable") {
        Some(DeviceState::Unavailable)
    } else {
        None
    }
}

/// The state of a payload that names none.
pub fn fallback_state(trimmed: &str) -> (state: DeviceState)
    ensures
        state@ == fallback_state_of(trimmed@),
{
    if trimmed.as_bytes().len() > 20 {
        DeviceState::Unknown("complex_payload".to_owned())
    } else {
        DeviceState::Unknown(trimmed.to_owned())
    }
}

/// Classifies a trimmed payload from its lowercase form `lowered`, its JSON
/// reading `doc`, and `lowered_state`, the lowercase form of the document's
/// `state` string (consulted only when the document has one).
pub fn classify_state(trimmed: &str, lowered: &str, doc: &JsonDoc, lowered_state: &str) -> (state: DeviceState)
    ensures
        state@ == classified_state(trimmed@, lowered@, doc@, lowered_state@),
{
    if let Some(s) = keyword_state(lowered) {
        return s;
    }
    if state_member(doc).is_some() {
        return match keyword_state(lowered_state) {
            Some(s) => s,
            None => DeviceState::Unknown(lowered_state.to_owned()),
        };
    }
    if strings_all_unavailable(doc) {
        return DeviceState::Unavailable;
    }
    fallback_state(trimmed)
}

/// The device state a Home Assistant payload reports: a plain keyword in any
/// case, else the `state` member of a JSON object, else `Unavailable` for an
/// object whose string values all read `unavailable`, else `Unknown`.
pub fn parse_ha_state(input: &str) -> (state: DeviceState)
    ensures
        state@ == ha_state_of(input@),
{
    let trimmed = trim_white_space(input);
    let lowered = to_lowercase(trimmed);
    if let Some(s) = keyword_state(lowered.as_str()) {
        return s;
    }
    let doc = read_json(trimmed);
    let lowered_state = match state_member(&doc) {
        Some(t) => to_lowercase(t),
        None => String::new(),
    };
    classify_state(trimmed, lowered.as_str(), &doc, lowered_state.as_str())
}

/// A byte payload that is not UTF-8 text.
#[verifier::external_type_specification]
#[verifier::external_body]
pub struct ExUtf8Error(std::str::Utf8Error);

/// Decodes UTF-8 bytes.
/// Calls `std::str::from_utf8`, documented to succeed exactly on valid
/// UTF-8, and copies the text; the error value is carried through unread.
#[verifier::external_body]
fn utf8_to_string(bytes: &[u8]) -> (r: Result<String, std::str::Utf8Error>)
    ensures
        r is Ok <==> valid_utf8(bytes@),
        r matches Ok(text) ==> text@ == decode_utf8(bytes@),
{
    std::str::from_utf8(bytes).map(|text| text.to_string())
}

/// Why a payload cannot be ingested at all.
#[derive(Debug)]
pub enum PayloadError {
    /// The payload bytes are not UTF-8; the decoder's error is kept.
    NotUtf8(std::str::Utf8Error),
}

/// The payload bytes as text: refused exactly when they are not valid UTF-8.
pub fn decode_payload(payload: &[u8]) -> (r: Result<String, PayloadError>)
    ensures
        r is Ok <==> valid_utf8(payload@),
        r matches Ok(text) ==> text@ == decode_utf8(payload@),
{
    match utf8_to_string(payload) {
        Ok(text) => Ok(text),
        Err(e) => Err(PayloadError::NotUtf8(e)),
    }
}

/// The text whose state a message reports: the payload's `state` field when
/// the payload is structured and has one, else the raw text.
pub open spec fn state_source(raw: Seq<char>, payload: Option<HaPayload>) -> Seq<char> {
    match payload {
        Some(p) => match p.state {
            Some(s) => s@,
            None => raw,
        },
        None => raw,
    }
}

/// The device id recorded for a topic: its device id, or `unknown`.
pub open spec fn device_id_or_unknown(topic: Seq<char>) -> Seq<char> {
    match device_id_of(topic) {
        Some(id) => id,
        None => "unknown"@,
    }
}

/// The state a message reports, read from its structured payload's `state`
/// field if there is one, else from the raw text.
pub fn message_state(raw: &str, payload: &Option<HaPayload>) -> (state: DeviceState)
    ensures
        state@ == ha_state_of(state_source(raw@, *payload)),
{
    match payload {
        Some(p) => match &p.state {
            Some(s) => parse_ha_state(s.as_str()),
            None => parse_ha_state(raw),
        },
        None => parse_ha_state(raw),
    }
}

/// Which structured event goes to Seq for an accepted message.
#[derive(Debug, Clone, Copy, PartialEq, Eq, Structural)]
pub enum SeqNotice {
    /// The device went unavailable: feeds WAP dropout detection.
    DeviceUnavailable,
    /// Any other reading: a plain receipt.
    TelemetryReceived,
}

/// What becomes of one MQTT message.
#[derive(Debug)]
pub enum IngestOutcome {
    /// Valid: published to Kafka after `notice` is sent to Seq.
    Accepted { message: TelemetryMessage, notice: SeqNotice },
    /// Refused by validation.
    Rejected { error: ValidationError },
}

/// `m` is a message prepared for `topic`, `raw` and `payload`: what
/// `prepare_message` promises of its result.
pub open spec fn is_prepared(m: TelemetryMessage, topic: Seq<char>, raw: Seq<char>, payload: Option<HaPayload>) -> bool {
    &&& m.topic@ == topic
    &&& m.device_id@ == device_id_or_unknown(topic)
    &&& m.device_id@.len() > 0
    &&& m.state@ == ha_state_of(state_source(raw, payload))
    &&& m.payload == payload
    &&& m.raw_payload@ == raw
    &&& is_uuid_v4(m.id)
    &&& is_clock_reading(m.timestamp)
}

/// The telemetry message for a topic and its decoded payload (with the
/// payload's structured reading, where it has one): device id from the
/// topic, state from the payload, a fresh id and the current time.
pub fn prepare_message(topic: String, raw: String, payload: Option<HaPayload>) -> (message: TelemetryMessage)
    ensures
        message.topic@ == topic@,
        message.device_id@ == device_id_or_unknown(topic@),
        message.device_id@.len() > 0,
        message.state@ == ha_state_of(state_source(raw@, payload)),
        message.payload == payload,
        message.raw_payload@ == raw@,
        is_uuid_v4(message.id),
        is_clock_reading(message.timestamp),
{
    let state = message_state(raw.as_str(), &payload);
    let device_id = match extract_device_id(topic.as_str()) {
        Some(id) => id,
        None => "unknown".to_owned(),
    };
    proof {
        reveal_strlit("unknown");
        lemma_device_id_nonempty(topic@);
    }
    TelemetryMessage::new(topic, device_id, state, payload, raw)
}

/// What becomes of a message checked at instant `now`: refused with the
/// validation error, or accepted with the Seq notice its state calls for.
pub open spec fn routed(message: TelemetryMessage, now: crate::telemetry::Timestamp) -> IngestOutcome {
    match validation_at(message, now) {
        Ok(()) => IngestOutcome::Accepted {
            message,
            notice: if message.state@ is Unavailable {
                SeqNotice::DeviceUnavailable
            } else {
                SeqNotice::TelemetryReceived
            },
        },
        Err(error) => IngestOutcome::Rejected { error },
    }
}

/// Validates a message at instant `now` and decides what is reported to
/// Seq: a device that went unavailable feeds dropout detection, any other
/// reading is a plain receipt.
pub fn route_message(message: TelemetryMessage, now: crate::telemetry::Timestamp) -> (r: IngestOutcome)
    ensures
        r == routed(message, now),
{
    match message.validate_at(now) {
        Ok(()) => {
            let notice = match message.state {
                DeviceState::Unavailable => SeqNotice::DeviceUnavailable,
                _ => SeqNotice::TelemetryReceived,
            };
            IngestOutcome::Accepted { message, notice }
        },
        Err(error) => IngestOutcome::Rejected { error },
    }
}

/// Builds the telemetry message for a topic and its decoded payload,
/// validates it against the current time, and decides what is reported.
/// Only an empty topic or a message timestamp after the validation time
/// (a clock that went back) is refused.
pub fn ingest(topic: String, raw: String, payload: Option<HaPayload>) -> (r: IngestOutcome)
    ensures
        topic@.len() == 0 ==> r == (IngestOutcome::Rejected { error: ValidationError::EmptyTopic }),
        topic@.len() > 0 ==> (r is Accepted || r == (IngestOutcome::Rejected {
            error: ValidationError::FutureTimestamp,
        })),
        r matches IngestOutcome::Accepted { message, notice } ==> {
            &&& message.topic@ == topic@
            &&& message.device_id@ == device_id_or_unknown(topic@)
            &&& message.state@ == ha_state_of(state_source(raw@, payload))
            &&& message.payload == payload
            &&& message.raw_payload@ == raw@
            &&& is_uuid_v4(message.id)
            &&& is_clock_reading(message.timestamp)
            &&& (notice == SeqNotice::DeviceUnavailable <==> message.state@ is Unavailable)
        },
        exists|m: TelemetryMessage, now: crate::telemetry::Timestamp|
            is_prepared(m, topic@, raw@, payload) && is_clock_reading(now) && r == routed(m, now),
{
    let ghost (t, w, p) = (topic@, raw@, payload);
    let message = prepare_message(topic, raw, payload);
    let ghost m = message;
    let now = utc_now();
    let r = route_message(message, now);
    assert(is_prepared(m, t, w, p) && is_clock_reading(now) && r == routed(m, now));
    r
}

/// A device id taken from a topic is never empty.
pub proof fn lemma_device_id_nonempty(topic: Seq<char>)
    ensures
        device_id_of(topic) matches Some(id) ==> id.len() > 0,
{
    let segs = topic_segments(topic);
    if segs.len() >= 3 {
        slash_pieces(topic).lemma_filter_pred(nonempty_piece(), 2);
    }
}

/// Exactly three words name a state: `on` is On, `off` is Off and
/// `unavailable` is Unavailable; every other word names none.
pub proof fn lemma_keyword_words(w: Seq<char>)
    ensures
        keyword_state_of(w) == Some(SpecDeviceState::On) <==> w == "on"@,
        keyword_state_of(w) == Some(SpecDeviceState::Off) <==> w == "off"@,
        keyword_state_of(w) == Some(SpecDeviceState::Unavailable) <==> w == "unavailable"@,
        keyword_state_of(w) is None <==> (w != "on"@ && w != "off"@ && w != "unavailable"@),
{
    reveal_strlit("on");
    reveal_strlit("off");
    reveal_strlit("unavailable");
    assert("on"@.len() == 2);
    assert("off"@.len() == 3);
    assert("unavailable"@.len() == 11);
    assert("on"@ != "off"@);
    assert("on"@ != "unavailable"@);
    assert("off"@ != "unavailable"@);
}

/// A payload reads as a device state only when it says so: Unavailable
/// only if its trimmed text lowercases to `unavailable`, its JSON `state`
/// string lowercases to `unavailable`, or it is a JSON object whose string
/// values all read `unavailable`; On and Off only if the trimmed text or
/// the JSON `state` string lowercases to `on` or `off`. Anything else is
/// Unknown, holding the lowercased `state` string, the trimmed text, or
/// `complex_payload`.
pub proof fn lemma_state_comes_from_the_payload(input: Seq<char>)
    ensures
        ({
            let trimmed = trim_spec(input);
            let doc = json_doc_of(trimmed);
            let said = |w: Seq<char>|
                lowercase_of(trimmed) == w || (state_text(doc) matches Some(t) && lowercase_of(t) == w);
            &&& ha_state_of(input) is Unavailable ==> said("unavailable"@) || all_strings_unavailable(doc)
            &&& ha_state_of(input) is On ==> said("on"@)
            &&& ha_state_of(input) is Off ==> said("off"@)
            &&& ha_state_of(input) matches SpecDeviceState::Unknown(x) ==> (
                x == trimmed || x == "complex_payload"@
                || (state_text(doc) matches Some(t) && x == lowercase_of(t)))
        }),
{
    let trimmed = trim_spec(input);
    let doc = json_doc_of(trimmed);
    let lowered = lowercase_of(trimmed);
    lemma_keyword_words(lowered);
    match state_text(doc) {
        Some(t) => lemma_keyword_words(lowercase_of(t)),
        None => {},
    }
}

} // verus!
