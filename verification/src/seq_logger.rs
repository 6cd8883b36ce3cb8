//! Structured events for Seq in CLEF (Compact Log Event Format): their
//! construction, the WAP dropout detector, and the batch that is shipped
//! to Seq once a second.

use vstd::prelude::*;
use crate::telemetry::{is_clock_reading, utc_now, Timestamp};
use crate::text::{join, join_spec, str_eq};

verus! {

/// One CLEF event.
#[derive(Debug, Clone)]
pub struct ClefEvent {
    pub timestamp: Timestamp,
    pub message_template: String,
    pub level: String,
    pub topic: Option<String>,
    pub device_id: Option<String>,
    pub message_id: Option<String>,
    pub kafka_partition: Option<i32>,
    pub kafka_offset: Option<i64>,
    pub dropout_count: Option<usize>,
    pub dropout_devices: Option<String>,
    pub wap_suspect: Option<String>,
    pub application: String,
}

/// `e` carries `level` and `template`, names the application, and has no
/// optional property set.
pub open spec fn is_plain_event(e: ClefEvent, level: Seq<char>, template: Seq<char>) -> bool {
    &&& is_clock_reading(e.timestamp)
    &&& e.level@ == level
    &&& e.message_template@ == template
    &&& e.application@ == "foxwatch"@
    &&& e.topic is None
    &&& e.device_id is None
    &&& e.message_id is None
    &&& e.kafka_partition is None
    &&& e.kafka_offset is None
    &&& e.dropout_count is None
    &&& e.dropout_devices is None
    &&& e.wap_suspect is None
}

/// The warning that a device went unavailable.
pub open spec fn is_device_unavailable_event(e: ClefEvent, device_id: Seq<char>, topic: Seq<char>) -> bool {
    &&& is_clock_reading(e.timestamp)
    &&& e.level@ == "Warning"@
    &&& e.message_template@ == "Device unavailable: {device_id} on {topic}"@
    &&& e.application@ == "foxwatch"@
    &&& e.device_id.deep_view() == Some(device_id)
    &&& e.topic.deep_view() == Some(topic)
    &&& e.message_id is None
    &&& e.kafka_partition is None
    &&& e.kafka_offset is None
    &&& e.dropout_count is None
    &&& e.dropout_devices is None
    &&& e.wap_suspect is None
}

/// The alert that the devices `devices` of the greyhound_down access point
/// dropped out together.
pub open spec fn is_dropout_alert(e: ClefEvent, devices: Seq<Seq<char>>) -> bool {
    &&& is_clock_reading(e.timestamp)
    &&& e.level@ == "Error"@
    &&& e.message_template@ == "WAP dropout detected: {dropout_count} devices on greyhound_down went unavailable within {window}s \u{2014} suspect WAP reboot or interference"@
    &&& e.application@ == "foxwatch"@
    &&& e.dropout_count == Some(devices.len() as usize)
    &&& e.dropout_devices.deep_view() == Some(join_spec(devices, ", "@))
    &&& e.wap_suspect.deep_view() == Some("greyhound_down"@)
    &&& e.topic is None
    &&& e.device_id is None
    &&& e.message_id is None
    &&& e.kafka_partition is None
    &&& e.kafka_offset is None
}

impl ClefEvent {
    /// An event at the current time with the given level and message template.
    pub fn new(level: &str, template: &str) -> (e: ClefEvent)
        ensures
            is_plain_event(e, level@, template@),
    {
        ClefEvent {
            timestamp: utc_now(),
            message_template: template.to_owned(),
            level: level.to_owned(),
            topic: None,
            device_id: None,
            message_id: None,
            kafka_partition: None,
            kafka_offset: None,
            dropout_count: None,
            dropout_devices: None,
            wap_suspect: None,
            application: "foxwatch".to_owned(),
        }
    }

    /// An `Information` event with a free-form template.
    pub fn information(template: &str) -> (e: ClefEvent)
        ensures
            is_plain_event(e, "Information"@, template@),
    {
        ClefEvent::new("Information", template)
    }

    /// An `Error` event with a free-form template.
    pub fn error(template: &str) -> (e: ClefEvent)
        ensures
            is_plain_event(e, "Error"@, template@),
    {
        ClefEvent::new("Error", template)
    }

    /// The receipt of a telemetry message.
    pub fn telemetry_received(topic: &str, device_id: &str, message_id: &str) -> (e: ClefEvent)
        ensures
            is_clock_reading(e.timestamp),
            e.level@ == "Information"@,
            e.message_template@ == "Telemetry received from {device_id} on {topic}"@,
            e.application@ == "foxwatch"@,
            e.topic.deep_view() == Some(topic@),
            e.device_id.deep_view() == Some(device_id@),
            e.message_id.deep_view() == Some(message_id@),
            e.kafka_partition is None,
            e.kafka_offset is None,
            e.dropout_count is None,
            e.dropout_devices is None,
            e.wap_suspect is None,
    {
        let mut e = ClefEvent::new("Information", "Telemetry received from {device_id} on {topic}");
        e.topic = Some(topic.to_owned());
        e.device_id = Some(device_id.to_owned());
        e.message_id = Some(message_id.to_owned());
        e
    }

    /// The confirmation that Kafka stored a message.
    pub fn kafka_delivered(device_id: &str, partition: i32, offset: i64) -> (e: ClefEvent)
        ensures
            is_clock_reading(e.timestamp),
            e.level@ == "Information"@,
            e.message_template@
                == "Kafka delivery confirmed for {device_id} partition={kafka_partition} offset={kafka_offset}"@,
            e.application@ == "foxwatch"@,
            e.device_id.deep_view() == Some(device_id@),
            e.kafka_partition == Some(partition),
            e.kafka_offset == Some(offset),
            e.topic is None,
            e.message_id is None,
            e.dropout_count is None,
            e.dropout_devices is None,
            e.wap_suspect is None,
    {
        let mut e = ClefEvent::new(
            "Information",
            "Kafka delivery confirmed for {device_id} partition={kafka_partition} offset={kafka_offset}",
        );
        e.device_id = Some(device_id.to_owned());
        e.kafka_partition = Some(partition);
        e.kafka_offset = Some(offset);
        e
    }

    /// The warning that a device went unavailable.
    pub fn device_unavailable(device_id: &str, topic: &str) -> (e: ClefEvent)
        ensures
            is_device_unavailable_event(e, device_id@, topic@),
    {
        let mut e = ClefEvent::new("Warning", "Device unavailable: {device_id} on {topic}");
        e.device_id = Some(device_id.to_owned());
        e.topic = Some(topic.to_owned());
        e
    }

    /// The alert that several greyhound_down devices dropped out together.
    pub fn dropout_alert(devices: &Vec<String>) -> (e: ClefEvent)
        ensures
            is_dropout_alert(e, devices.deep_view()),
    {
        let mut e = ClefEvent::new(
            "Error",
            "WAP dropout detected: {dropout_count} devices on greyhound_down went unavailable within {window}s \u{2014} suspect WAP reboot or interference",
        );
        e.dropout_count = Some(devices.len());
        e.dropout_devices = Some(join(devices, ", "));
        e.wap_suspect = Some("greyhound_down".to_owned());
        e
    }
}


/// How long an unavailable device counts towards a dropout: 30 seconds.
pub const DROPOUT_WINDOW_NANOS: u64 = 30_000_000_000;

/// How many distinct greyhound_down devices must drop within the window.
pub const DROPOUT_THRESHOLD: usize = 2;

/// The devices behind the greyhound_down access point.
pub open spec fn is_greyhound_device(d: Seq<char>) -> bool {
    ||| d == "family_room_froggy"@
    ||| d == "family_room_giraffe"@
    ||| d == "family_room_greenie"@
}

/// Whether a device sits behind the greyhound_down access point.
pub fn greyhound_device(d: &str) -> (member: bool)
    ensures
        member == is_greyhound_device(d@),
{
    str_eq(d, "family_room_froggy") || str_eq(d, "family_room_giraffe") || str_eq(
        d,
        "family_room_greenie",
    )
}

/// One device seen going unavailable, at a monotonic time in nanoseconds.
#[derive(Debug, Clone)]
pub struct Sighting {
    pub device_id: String,
    pub seen_at: u64,
}

/// The model of a sighting: (device id, time seen).
pub type SpecSighting = (Seq<char>, u64);

pub open spec fn sightings_model(s: Seq<Sighting>) -> Seq<SpecSighting> {
    s.map_values(|x: Sighting| (x.device_id@, x.seen_at))
}

/// Nanoseconds from `seen_at` to `now`; 0 if `now` is earlier.
pub open spec fn elapsed(seen_at: u64, now: u64) -> int {
    if now >= seen_at {
        now - seen_at
    } else {
        0
    }
}

pub open spec fn in_window(now: u64) -> spec_fn(SpecSighting) -> bool {
    |s: SpecSighting| elapsed(s.1, now) < DROPOUT_WINDOW_NANOS
}

pub open spec fn not_greyhound() -> spec_fn(SpecSighting) -> bool {
    |s: SpecSighting| !is_greyhound_device(s.0)
}

/// The greyhound_down devices among the sightings, oldest first.
pub open spec fn greyhound_drops(s: Seq<SpecSighting>) -> Seq<Seq<char>> {
    s.filter_map(|x: SpecSighting| if is_greyhound_device(x.0) { Some(x.0) } else { None })
}

/// The items of `s`, each kept at its first occurrence only.
pub open spec fn distinct_in_order(s: Seq<Seq<char>>) -> Seq<Seq<char>>
    decreases s.len(),
{
    if s.len() == 0 {
        Seq::empty()
    } else {
        let d = distinct_in_order(s.drop_last());
        if d.contains(s.last()) {
            d
        } else {
            d.push(s.last())
        }
    }
}

/// Tracks recent unavailable events and detects correlated dropouts of the
/// greyhound_down access point's devices.
pub struct DropoutTracker {
    recent: Vec<Sighting>,
}

impl View for DropoutTracker {
    type V = Seq<SpecSighting>;

    closed spec fn view(&self) -> Seq<SpecSighting> {
        sightings_model(self.recent@)
    }
}

/// The sightings kept after `device` is seen at `now`: all earlier ones and
/// the new one, less those older than the window.
pub open spec fn window_after(recent: Seq<SpecSighting>, device: Seq<char>, now: u64) -> Seq<SpecSighting> {
    recent.push((device, now)).filter(in_window(now))
}

/// The distinct greyhound_down devices unavailable within the window once
/// `device` is seen at `now`.
pub open spec fn dropped_group(recent: Seq<SpecSighting>, device: Seq<char>, now: u64) -> Seq<Seq<char>> {
    distinct_in_order(greyhound_drops(window_after(recent, device, now)))
}

/// The sightings the tracker keeps after `device` is seen at `now`: those
/// within the window, less the greyhound_down ones when an alert fires.
pub open spec fn tracker_after(recent: Seq<SpecSighting>, device: Seq<char>, now: u64) -> Seq<SpecSighting> {
    let kept = window_after(recent, device, now);
    if dropped_group(recent, device, now).len() >= DROPOUT_THRESHOLD {
        kept.filter(not_greyhound())
    } else {
        kept
    }
}

impl DropoutTracker {
    /// A tracker that has seen nothing.
    pub fn new() -> (t: DropoutTracker)
        ensures
            t@ == Seq::<SpecSighting>::empty(),
    {
        DropoutTracker { recent: Vec::new() }
    }

    /// Handles a device going unavailable at monotonic time `now`
    /// (nanoseconds): a warning for the device, and, when at least
    /// `DROPOUT_THRESHOLD` distinct greyhound_down devices have gone
    /// unavailable within the window, a dropout alert after which those
    /// devices are forgotten.
    pub fn device_unavailable(&mut self, device_id: &str, topic: &str, now: u64) -> (events: Vec<ClefEvent>)
        ensures
            ({
                let kept = window_after(old(self)@, device_id@, now);
                let group = dropped_group(old(self)@, device_id@, now);
                &&& is_device_unavailable_event(events@[0], device_id@, topic@)
                &&& if group.len() >= DROPOUT_THRESHOLD {
                    &&& events@.len() == 2
                    &&& is_dropout_alert(events@[1], group)
                } else {
                    &&& events@.len() == 1
                }
            }),
            final(self)@ == tracker_after(old(self)@, device_id@, now),
    {
        let mut events: Vec<ClefEvent> = Vec::new();
        events.push(ClefEvent::device_unavailable(device_id, topic));
        let ghost before = self@;
        self.recent.push(Sighting { device_id: device_id.to_owned(), seen_at: now });
        proof {
            assert(sightings_model(self.recent@) =~= before.push((device_id@, now)));
        }
        let kept = retain_in_window(&self.recent, now);
        let group = distinct_greyhound_drops(&kept);
        if group.len() >= DROPOUT_THRESHOLD {
            events.push(ClefEvent::dropout_alert(&group));
            self.recent = retain_other_devices(&kept);
        } else {
            self.recent = kept;
        }
        events
    }
}

/// The sightings within the window at `now`.
fn retain_in_window(recent: &Vec<Sighting>, now: u64) -> (kept: Vec<Sighting>)
    ensures
        sightings_model(kept@) == sightings_model(recent@).filter(in_window(now)),
{
    let ghost model = sightings_model(recent@);
    let mut kept: Vec<Sighting> = Vec::new();
    let mut i: usize = 0;
    while i < recent.len()
        invariant
            i <= recent.len(),
            model == sightings_model(recent@),
            sightings_model(kept@) == model.take(i as int).filter(in_window(now)),
        decreases recent.len() - i,
    {
        let s = &recent[i];
        let age: u64 = if now >= s.seen_at { now - s.seen_at } else { 0 };
        proof {
            let t = model.take(i + 1);
            assert(t.drop_last() =~= model.take(i as int));
            assert(t.last() == (s.device_id@, s.seen_at));
            reveal_with_fuel(Seq::filter, 1);
        }
        if age < DROPOUT_WINDOW_NANOS {
            let ghost old_kept = kept@;
            kept.push(Sighting { device_id: s.device_id.clone(), seen_at: s.seen_at });
            proof {
                assert(sightings_model(kept@) =~= sightings_model(old_kept).push((s.device_id@, s.seen_at)));
            }
        }
        i = i + 1;
    }
    proof {
        assert(model.take(recent.len() as int) =~= model);
    }
    kept
}

/// The sightings of devices not behind greyhound_down.
fn retain_other_devices(recent: &Vec<Sighting>) -> (kept: Vec<Sighting>)
    ensures
        sightings_model(kept@) == sightings_model(recent@).filter(not_greyhound()),
{
    let ghost model = sightings_model(recent@);
    let mut kept: Vec<Sighting> = Vec::new();
    let mut i: usize = 0;
    while i < recent.len()
        invariant
            i <= recent.len(),
            model == sightings_model(recent@),
            sightings_model(kept@) == model.take(i as int).filter(not_greyhound()),
        decreases recent.len() - i,
    {
        let s = &recent[i];
        proof {
            let t = model.take(i + 1);
            assert(t.drop_last() =~= model.take(i as int));
            assert(t.last() == (s.device_id@, s.seen_at));
            reveal_with_fuel(Seq::filter, 1);
        }
        if !greyhound_device(s.device_id.as_str()) {
            let ghost old_kept = kept@;
            kept.push(Sighting { device_id: s.device_id.clone(), seen_at: s.seen_at });
            proof {
                assert(sightings_model(kept@) =~= sightings_model(old_kept).push((s.device_id@, s.seen_at)));
            }
        }
        i = i + 1;
    }
    proof {
        assert(model.take(recent.len() as int) =~= model);
    }
    kept
}

/// Whether `name` occurs in `list`.
fn contains_name(list: &Vec<String>, name: &str) -> (found: bool)
    ensures
        found == list.deep_view().contains(name@),
{
    let mut i: usize = 0;
    while i < list.len()
        invariant
            i <= list.len(),
            forall|j: int| 0 <= j < i ==> list.deep_view()[j] != name@,
        decreases list.len() - i,
    {
        if str_eq(list[i].as_str(), name) {
            assert(list.deep_view()[i as int] == name@);
            return true;
        }
        i = i + 1;
    }
    false
}

/// The distinct greyhound_down devices among the sightings, in order of
/// first appearance.
fn distinct_greyhound_drops(recent: &Vec<Sighting>) -> (group: Vec<String>)
    ensures
        group.deep_view() == distinct_in_order(greyhound_drops(sightings_model(recent@))),
{
    let ghost model = sightings_model(recent@);
    let mut group: Vec<String> = Vec::new();
    let mut i: usize = 0;
    while i < recent.len()
        invariant
            i <= recent.len(),
            model == sightings_model(recent@),
            group.deep_view() == distinct_in_order(greyhound_drops(model.take(i as int))),
        decreases recent.len() - i,
    {
        let s = &recent[i];
        let ghost drops = greyhound_drops(model.take(i as int));
        proof {
            let t = model.take(i + 1);
            assert(t.drop_last() =~= model.take(i as int));
            assert(t.last() == (s.device_id@, s.seen_at));
            reveal_with_fuel(Seq::filter_map, 1);
        }
        if greyhound_device(s.device_id.as_str()) {
            proof {
                assert(greyhound_drops(model.take(i + 1)) =~= drops.push(s.device_id@));
                assert(greyhound_drops(model.take(i + 1)).drop_last() =~= drops);
            }
            if !contains_name(&group, s.device_id.as_str()) {
                let ghost old_group = group.deep_view();
                group.push(s.device_id.clone());
                proof {
                    assert(group.deep_view() =~= old_group.push(s.device_id@));
                }
            }
        } else {
            proof {
                assert(greyhound_drops(model.take(i + 1)) =~= drops);
            }
        }
        i = i + 1;
    }
    proof {
        assert(model.take(recent.len() as int) =~= model);
    }
    group
}


/// One step of the shipping loop: an event accepted (as its serialized
/// line), or the once-a-second tick that ships what was gathered.
pub enum BatchStep {
    Accept(Seq<char>),
    Tick,
}

/// The batch after one step, and the lines shipped by it (`None` when the
/// step posts nothing: an accepted event, or a tick with nothing gathered).
pub open spec fn batch_step(pending: Seq<Seq<char>>, step: BatchStep) -> (Seq<Seq<char>>, Option<Seq<Seq<char>>>) {
    match step {
        BatchStep::Accept(line) => (pending.push(line), None),
        BatchStep::Tick => if pending.len() == 0 {
            (pending, None)
        } else {
            (Seq::empty(), Some(pending))
        },
    }
}

/// Running the steps from an empty batch: the batch left over, and the
/// lines of each post, in the order they were posted.
pub open spec fn batch_run(steps: Seq<BatchStep>) -> (Seq<Seq<char>>, Seq<Seq<Seq<char>>>)
    decreases steps.len(),
{
    if steps.len() == 0 {
        (Seq::empty(), Seq::empty())
    } else {
        let (pending, posts) = batch_run(steps.drop_last());
        let (next, shipped) = batch_step(pending, steps.last());
        match shipped {
            Some(lines) => (next, posts.push(lines)),
            None => (next, posts),
        }
    }
}

/// The lines accepted by the steps, in order.
pub open spec fn accepted_lines(steps: Seq<BatchStep>) -> Seq<Seq<char>> {
    steps.filter_map(|s: BatchStep| match s {
        BatchStep::Accept(line) => Some(line),
        BatchStep::Tick => None,
    })
}

/// The lines of several posts, one after the other.
pub open spec fn concat_posts(posts: Seq<Seq<Seq<char>>>) -> Seq<Seq<char>>
    decreases posts.len(),
{
    if posts.len() == 0 {
        Seq::empty()
    } else {
        concat_posts(posts.drop_last()) + posts.last()
    }
}

/// Shipping to Seq loses, repeats and reorders nothing: over any run of
/// accepted events and ticks, the posted lines followed by those still
/// waiting are exactly the accepted lines, in the order accepted; so each
/// accepted event is posted at most once, and in order. No post is empty.
pub proof fn lemma_shipping_preserves_events(steps: Seq<BatchStep>)
    ensures
        concat_posts(batch_run(steps).1) + batch_run(steps).0 == accepted_lines(steps),
        forall|i: int| 0 <= i < batch_run(steps).1.len() ==> #[trigger] batch_run(steps).1[i].len() > 0,
    decreases steps.len(),
{
    reveal_with_fuel(Seq::filter_map, 1);
    if steps.len() > 0 {
        let init = steps.drop_last();
        lemma_shipping_preserves_events(init);
        let (pending, posts) = batch_run(init);
        match steps.last() {
            BatchStep::Accept(line) => {
                assert(concat_posts(posts) + pending.push(line) =~= (concat_posts(posts) + pending).push(line));
                assert(accepted_lines(steps) =~= accepted_lines(init) + seq![line]);
            },
            BatchStep::Tick => {
                assert(accepted_lines(steps) == accepted_lines(init));
                if pending.len() > 0 {
                    let posts2 = posts.push(pending);
                    assert(posts2.drop_last() =~= posts);
                    assert(concat_posts(posts2) + Seq::<Seq<char>>::empty() =~= concat_posts(posts) + pending);
                    assert forall|i: int| 0 <= i < posts2.len() implies #[trigger] posts2[i].len() > 0 by {
                        if i < posts.len() {
                            assert(posts2[i] == posts[i]);
                        }
                    }
                }
            },
        }
    }
}

/// Serialized events waiting to be shipped to Seq, oldest first.
pub struct EventBatch {
    lines: Vec<String>,
}

impl View for EventBatch {
    type V = Seq<Seq<char>>;

    closed spec fn view(&self) -> Seq<Seq<char>> {
        self.lines.deep_view()
    }
}

impl EventBatch {
    /// An empty batch.
    pub fn new() -> (b: EventBatch)
        ensures
            b@ == Seq::<Seq<char>>::empty(),
    {
        EventBatch { lines: Vec::new() }
    }

    /// Queues one serialized event.
    pub fn push(&mut self, line: String)
        ensures
            final(self)@ == old(self)@.push(line@),
            final(self)@ == batch_step(old(self)@, BatchStep::Accept(line@)).0,
    {
        let ghost before = self@;
        self.lines.push(line);
        proof {
            assert(self.lines.deep_view() =~= before.push(line@));
        }
    }

    /// Whether no event is queued.
    pub fn is_empty(&self) -> (empty: bool)
        ensures
            empty == (self@.len() == 0),
    {
        self.lines.len() == 0
    }

    /// The request body for the queued events, one per line, emptying the
    /// batch; `None`, and nothing changed, when no event is queued.
    pub fn take_body(&mut self) -> (body: Option<String>)
        ensures
            old(self)@.len() == 0 ==> body is None && final(self)@ == old(self)@,
            old(self)@.len() > 0 ==> body.deep_view() == Some(join_spec(old(self)@, "\n"@))
                && final(self)@ == Seq::<Seq<char>>::empty(),
            final(self)@ == batch_step(old(self)@, BatchStep::Tick).0,
            match batch_step(old(self)@, BatchStep::Tick).1 {
                Some(lines) => body.deep_view() == Some(join_spec(lines, "\n"@)),
                None => body is None,
            },
    {
        if self.lines.len() == 0 {
            return None;
        }
        let body = join(&self.lines, "\n");
        self.lines = Vec::new();
        proof {
            assert(self.lines.deep_view() =~= Seq::<Seq<char>>::empty());
        }
        Some(body)
    }
}

/// `s` without its trailing `/` characters.
pub open spec fn trim_trailing_slashes(s: Seq<char>) -> Seq<char>
    decreases s.len(),
{
    if s.len() > 0 && s.last() == '/' {
        trim_trailing_slashes(s.drop_last())
    } else {
        s
    }
}

/// The Seq raw-event ingestion endpoint under a server URL.
pub open spec fn ingest_url_of(seq_url: Seq<char>) -> Seq<char> {
    trim_trailing_slashes(seq_url) + "/api/events/raw?clef"@
}

/// The URL CLEF batches are posted to: the server URL without trailing
/// slashes, followed by `/api/events/raw?clef`.
pub fn seq_ingest_url(seq_url: &str) -> (url: String)
    ensures
        url@ == ingest_url_of(seq_url@),
{
    let mut end = seq_url.unicode_len();
    assert(seq_url@.take(end as int) =~= seq_url@);
    while end > 0 && seq_url.get_char(end - 1) == '/'
        invariant
            end <= seq_url@.len(),
            trim_trailing_slashes(seq_url@) == trim_trailing_slashes(seq_url@.take(end as int)),
        decreases end,
    {
        proof {
            let t = seq_url@.take(end as int);
            assert(t.drop_last() =~= seq_url@.take(end - 1));
        }
        end = end - 1;
    }
    let mut url = seq_url.substring_char(0, end).to_owned();
    proof {
        let t = seq_url@.take(end as int);
        assert(seq_url@.subrange(0, end as int) =~= t);
    }
    url.append("/api/events/raw?clef");
    url
}

/// Trailing slashes on the server URL do not change the ingestion URL.
pub proof fn lemma_ingest_url_ignores_trailing_slash(seq_url: Seq<char>)
    ensures
        ingest_url_of(seq_url.push('/')) == ingest_url_of(seq_url),
{
    assert(seq_url.push('/').drop_last() =~= seq_url);
}


/// Keeping first occurrences leaves no duplicates and the same members.
pub proof fn lemma_distinct_in_order(s: Seq<Seq<char>>)
    ensures
        distinct_in_order(s).no_duplicates(),
        forall|x: Seq<char>| #[trigger] distinct_in_order(s).contains(x) <==> s.contains(x),
    decreases s.len(),
{
    if s.len() > 0 {
        let init = s.drop_last();
        lemma_distinct_in_order(init);
        let d = distinct_in_order(init);
        let l = s.last();
        assert(s =~= init.push(l));
        assert forall|x: Seq<char>| #[trigger] distinct_in_order(s).contains(x) <==> s.contains(x) by {
            assert(s.contains(x) <==> (init.contains(x) || x == l)) by {
                if s.contains(x) {
                    let i = choose|i: int| 0 <= i < s.len() && s[i] == x;
                    if i < s.len() - 1 {
                        assert(init[i] == x);
                    }
                }
                if init.contains(x) {
                    let i = choose|i: int| 0 <= i < init.len() && init[i] == x;
                    assert(s[i] == x);
                }
                if x == l {
                    assert(s[s.len() - 1] == x);
                }
            }
            if !d.contains(l) {
                let e = d.push(l);
                assert(e.contains(x) <==> (d.contains(x) || x == l)) by {
                    if e.contains(x) {
                        let i = choose|i: int| 0 <= i < e.len() && e[i] == x;
                        if i < d.len() {
                            assert(d[i] == x);
                        }
                    }
                    if d.contains(x) {
                        let i = choose|i: int| 0 <= i < d.len() && d[i] == x;
                        assert(e[i] == x);
                    }
                    if x == l {
                        assert(e[d.len() as int] == x);
                    }
                }
            }
        }
    }
}

/// The alert counts each greyhound_down device once, however often it
/// dropped: the group is exactly the distinct greyhound_down devices seen
/// within the window, the new one included.
pub proof fn lemma_dropped_group_counts_devices_once(recent: Seq<SpecSighting>, device: Seq<char>, now: u64)
    ensures
        dropped_group(recent, device, now).no_duplicates(),
        forall|x: Seq<char>| #[trigger] dropped_group(recent, device, now).contains(x) <==> (
            is_greyhound_device(x) && exists|i: int|
                0 <= i < window_after(recent, device, now).len()
                && #[trigger] window_after(recent, device, now)[i].0 == x),
{
    let kept = window_after(recent, device, now);
    let f = |x: SpecSighting| if is_greyhound_device(x.0) { Some(x.0) } else { None };
    lemma_distinct_in_order(greyhound_drops(kept));
    assert forall|x: Seq<char>| #[trigger] dropped_group(recent, device, now).contains(x) <==> (
        is_greyhound_device(x) && exists|i: int| 0 <= i < kept.len() && #[trigger] kept[i].0 == x) by {
        if greyhound_drops(kept).contains(x) {
            kept.lemma_filter_map_contains(f, x);
            let t = choose|t: SpecSighting| #[trigger] kept.contains(t) && f(t) == Some(x);
            let i = choose|i: int| 0 <= i < kept.len() && kept[i] == t;
            assert(kept[i].0 == x);
        }
        if is_greyhound_device(x) && exists|i: int| 0 <= i < kept.len() && #[trigger] kept[i].0 == x {
            let i = choose|i: int| 0 <= i < kept.len() && #[trigger] kept[i].0 == x;
            lemma_filter_map_keeps(kept, f, i);
        }
    }
}

/// An item that maps to `Some` stays in the `filter_map` output.
proof fn lemma_filter_map_keeps(s: Seq<SpecSighting>, f: spec_fn(SpecSighting) -> Option<Seq<char>>, i: int)
    requires
        0 <= i < s.len(),
        f(s[i]) is Some,
    ensures
        s.filter_map(f).contains(f(s[i])->0),
    decreases s.len(),
{
    reveal_with_fuel(Seq::filter_map, 1);
    let rest = s.drop_last();
    if i == s.len() - 1 {
        let out = s.filter_map(f);
        assert(out == rest.filter_map(f) + seq![f(s[i])->0]);
        assert(out[out.len() - 1] == f(s[i])->0);
    } else {
        assert(rest[i] == s[i]);
        lemma_filter_map_keeps(rest, f, i);
        let r = rest.filter_map(f);
        let j = choose|j: int| 0 <= j < r.len() && r[j] == f(s[i])->0;
        match f(s.last()) {
            Some(v) => {
                assert((r + seq![v])[j] == r[j]);
            },
            None => {},
        }
    }
}

/// A device that keeps dropping on its own never raises an alert: when every
/// greyhound_down sighting the tracker holds is of `device`, seeing `device`
/// again does not reach the threshold.
pub proof fn lemma_single_device_never_alerts(recent: Seq<SpecSighting>, device: Seq<char>, now: u64)
    requires
        forall|i: int| 0 <= i < recent.len() && is_greyhound_device(#[trigger] recent[i].0) ==> recent[i].0 == device,
    ensures
        dropped_group(recent, device, now).len() < DROPOUT_THRESHOLD,
{
    let kept = window_after(recent, device, now);
    let group = dropped_group(recent, device, now);
    lemma_dropped_group_counts_devices_once(recent, device, now);
    assert forall|j: int| 0 <= j < group.len() implies #[trigger] group[j] == device by {
        assert(group.contains(group[j]));
        let i = choose|i: int| 0 <= i < kept.len() && #[trigger] kept[i].0 == group[j];
        let all = recent.push((device, now));
        all.lemma_filter_contains_rev(in_window(now), kept[i]);
        let k = choose|k: int| 0 <= k < all.len() && all[k] == kept[i];
        if k < recent.len() {
            assert(recent[k] == all[k]);
        }
    }
    if group.len() >= 2 {
        assert(group[0] == group[1]);
    }
}

/// Two different greyhound_down devices unavailable within the window raise
/// an alert: when the tracker holds a sighting of another such device that
/// is still within the window at `now`, seeing `device` fires.
pub proof fn lemma_two_devices_alert(recent: Seq<SpecSighting>, device: Seq<char>, now: u64, i: int)
    requires
        0 <= i < recent.len(),
        is_greyhound_device(device),
        is_greyhound_device(recent[i].0),
        recent[i].0 != device,
        elapsed(recent[i].1, now) < DROPOUT_WINDOW_NANOS,
    ensures
        dropped_group(recent, device, now).len() >= DROPOUT_THRESHOLD,
{
    let all = recent.push((device, now));
    let kept = window_after(recent, device, now);
    let group = dropped_group(recent, device, now);
    lemma_dropped_group_counts_devices_once(recent, device, now);
    assert(all[i] == recent[i]);
    all.lemma_filter_contains(in_window(now), i);
    all.lemma_filter_contains(in_window(now), all.len() - 1);
    let a = choose|a: int| 0 <= a < kept.len() && kept[a] == all[i];
    let b = choose|b: int| 0 <= b < kept.len() && kept[b] == all[all.len() - 1];
    assert(kept[a].0 == recent[i].0);
    assert(kept[b].0 == device);
    assert(group.contains(recent[i].0));
    assert(group.contains(device));
    let p = choose|p: int| 0 <= p < group.len() && group[p] == recent[i].0;
    let q = choose|q: int| 0 <= q < group.len() && group[q] == device;
    assert(p != q);
}

/// After each sighting the tracker holds at most one greyhound_down device
/// pending: a second one raises the alert, which clears them.
pub proof fn lemma_at_most_one_pending_device(recent: Seq<SpecSighting>, device: Seq<char>, now: u64)
    ensures
        distinct_in_order(greyhound_drops(tracker_after(recent, device, now))).len() < DROPOUT_THRESHOLD,
{
    let kept = window_after(recent, device, now);
    if dropped_group(recent, device, now).len() >= DROPOUT_THRESHOLD {
        let rest = kept.filter(not_greyhound());
        let f = |x: SpecSighting| if is_greyhound_device(x.0) { Some(x.0) } else { None };
        let drops = greyhound_drops(rest);
        if drops.len() > 0 {
            assert(drops.contains(drops[0]));
            rest.lemma_filter_map_contains(f, drops[0]);
            let t = choose|t: SpecSighting| #[trigger] rest.contains(t) && f(t) == Some(drops[0]);
            let i = choose|i: int| 0 <= i < rest.len() && rest[i] == t;
            kept.lemma_filter_pred(not_greyhound(), i);
        }
        assert(drops =~= Seq::<Seq<char>>::empty());
        assert(distinct_in_order(drops) =~= Seq::<Seq<char>>::empty());
    }
}

/// What the tracker holds after `device` is seen at `now`: the new
/// sighting and every earlier one, as long as it is within the window, and,
/// when an alert fires, no greyhound_down sighting at all.
pub proof fn lemma_tracker_contents(recent: Seq<SpecSighting>, device: Seq<char>, now: u64, x: SpecSighting)
    ensures
        tracker_after(recent, device, now).contains(x) <==> {
            &&& (x == (device, now) || recent.contains(x))
            &&& elapsed(x.1, now) < DROPOUT_WINDOW_NANOS
            &&& (dropped_group(recent, device, now).len() >= DROPOUT_THRESHOLD ==> !is_greyhound_device(x.0))
        },
{
    let all = recent.push((device, now));
    let kept = all.filter(in_window(now));
    let alert = dropped_group(recent, device, now).len() >= DROPOUT_THRESHOLD;
    assert(all.contains(x) <==> (x == (device, now) || recent.contains(x))) by {
        if all.contains(x) {
            let i = choose|i: int| 0 <= i < all.len() && all[i] == x;
            if i < recent.len() {
                assert(recent[i] == x);
            }
        }
        if recent.contains(x) {
            let i = choose|i: int| 0 <= i < recent.len() && recent[i] == x;
            assert(all[i] == x);
        }
        if x == (device, now) {
            assert(all[all.len() - 1] == x);
        }
    }
    assert(kept.contains(x) <==> (all.contains(x) && in_window(now)(x))) by {
        if kept.contains(x) {
            all.lemma_filter_contains_rev(in_window(now), x);
            let i = choose|i: int| 0 <= i < kept.len() && kept[i] == x;
            all.lemma_filter_pred(in_window(now), i);
        }
        if all.contains(x) && in_window(now)(x) {
            let i = choose|i: int| 0 <= i < all.len() && all[i] == x;
            all.lemma_filter_contains(in_window(now), i);
        }
    }
    if alert {
        let rest = kept.filter(not_greyhound());
        if rest.contains(x) {
            kept.lemma_filter_contains_rev(not_greyhound(), x);
            let i = choose|i: int| 0 <= i < rest.len() && rest[i] == x;
            kept.lemma_filter_pred(not_greyhound(), i);
        }
        if kept.contains(x) && not_greyhound()(x) {
            let i = choose|i: int| 0 <= i < kept.len() && kept[i] == x;
            kept.lemma_filter_contains(not_greyhound(), i);
        }
    }
}

/// Correlation across calls: if a greyhound_down device seen at `seen` did
/// not raise an alert, then a different greyhound_down device seen at `now`,
/// less than the window later, does.
pub proof fn lemma_recent_sighting_correlates(
    recent: Seq<SpecSighting>,
    first: Seq<char>,
    seen: u64,
    second: Seq<char>,
    now: u64,
)
    requires
        is_greyhound_device(first),
        is_greyhound_device(second),
        first != second,
        dropped_group(recent, first, seen).len() < DROPOUT_THRESHOLD,
        elapsed(seen, now) < DROPOUT_WINDOW_NANOS,
    ensures
        dropped_group(tracker_after(recent, first, seen), second, now).len() >= DROPOUT_THRESHOLD,
{
    let t = tracker_after(recent, first, seen);
    lemma_tracker_contents(recent, first, seen, (first, seen));
    assert(elapsed(seen, seen) == 0);
    assert(t.contains((first, seen)));
    let i = choose|i: int| 0 <= i < t.len() && t[i] == (first, seen);
    lemma_two_devices_alert(t, second, now, i);
}

} // verus!
