//! Event kinds and the event shapes that the read paths work on.
use vstd::prelude::*;
use crate::text::str_eq;

verus! {

/// The kind of an event, read from its `event` field.
#[derive(Clone, Copy, PartialEq, Eq, Structural, Debug)]
pub enum EventKind {
    AppActive,
    TabActive,
    TabAudioStop,
    AppAudio,
    AppAudioStop,
    Other,
}

pub open spec fn event_kind_of(name: Seq<char>) -> EventKind {
    if name == "app_active"@ {
        EventKind::AppActive
    } else if name == "tab_active"@ {
        EventKind::TabActive
    } else if name == "tab_audio_stop"@ {
        EventKind::TabAudioStop
    } else if name == "app_audio"@ {
        EventKind::AppAudio
    } else if name == "app_audio_stop"@ {
        EventKind::AppAudioStop
    } else {
        EventKind::Other
    }
}

/// The kind named by an `event` field.
pub fn event_kind(name: &str) -> (r: EventKind)
    ensures
        r == event_kind_of(name@),
{
    if str_eq(name, "app_active") {
        EventKind::AppActive
    } else if str_eq(name, "tab_active") {
        EventKind::TabActive
    } else if str_eq(name, "tab_audio_stop") {
        EventKind::TabAudioStop
    } else if str_eq(name, "app_audio") {
        EventKind::AppAudio
    } else if str_eq(name, "app_audio_stop") {
        EventKind::AppAudioStop
    } else {
        EventKind::Other
    }
}

pub open spec fn opt_view(o: Option<String>) -> Option<Seq<char>> {
    match o {
        Some(s) => Some(s@),
        None => None,
    }
}

/// A copy of an optional string.
pub fn clone_opt(o: &Option<String>) -> (r: Option<String>)
    ensures
        r == *o,
{
    match o {
        Some(s) => Some(s.clone()),
        None => None,
    }
}

/// Whether an optional string holds exactly `lit`.
pub fn opt_is(o: &Option<String>, lit: &str) -> (r: bool)
    ensures
        r == (opt_view(*o) == Some(lit@)),
{
    match o {
        Some(s) => str_eq(s.as_str(), lit),
        None => false,
    }
}

/// Whether two optional strings are equal.
pub fn opt_eq(a: &Option<String>, b: &Option<String>) -> (r: bool)
    ensures
        r == (opt_view(*a) == opt_view(*b)),
{
    match (a, b) {
        (Some(x), Some(y)) => str_eq(x.as_str(), y.as_str()),
        (None, None) => true,
        _ => false,
    }
}

/// An event as the attribution engine reads it: a stored event whose entity is set.
pub struct EventForBlocks {
    /// Nanoseconds since the Unix epoch.
    pub ts: i128,
    pub source: String,
    pub event: String,
    pub entity: String,
    pub title: Option<String>,
    /// The payload's `activity` field, if it holds a string.
    pub activity: Option<String>,
}

impl EventForBlocks {
    pub open spec fn kind(&self) -> EventKind {
        event_kind_of(self.event@)
    }

    /// Background-audible events: an audible tab, and the audio stop markers and heartbeats.
    pub open spec fn is_audio(&self) -> bool {
        ||| (self.kind() == EventKind::TabActive && opt_view(self.activity) == Some("audio"@))
        ||| self.kind() == EventKind::TabAudioStop
        ||| self.kind() == EventKind::AppAudio
        ||| self.kind() == EventKind::AppAudioStop
    }
}

/// Whether the event belongs to the audio stream.
pub fn is_audio_event(e: &EventForBlocks) -> (r: bool)
    ensures
        r == e.is_audio(),
{
    let k = event_kind(e.event.as_str());
    match k {
        EventKind::TabActive => opt_is(&e.activity, "audio"),
        EventKind::TabAudioStop | EventKind::AppAudio | EventKind::AppAudioStop => true,
        _ => false,
    }
}

pub open spec fn sorted_by_ts(events: Seq<EventForBlocks>) -> bool {
    forall|i: int, j: int| 0 <= i <= j < events.len() ==> events[i].ts <= events[j].ts
}

/// The positions, among the first `n` events, of the audio events (with `audio`) or of the
/// focus events (without), in order.
pub open spec fn stream_of(events: Seq<EventForBlocks>, audio: bool, n: int) -> Seq<usize>
    decreases n,
{
    if n <= 0 {
        Seq::empty()
    } else {
        let p = stream_of(events, audio, n - 1);
        if events[n - 1].is_audio() == audio {
            p.push((n - 1) as usize)
        } else {
            p
        }
    }
}

/// Indices of the focus events and of the audio events, each in input order.
pub fn split_streams(events: &[EventForBlocks]) -> (r: (Vec<usize>, Vec<usize>))
    ensures
        forall|k: int| 0 <= k < r.0@.len() ==> r.0@[k] < events@.len() && !events@[r.0@[k] as int].is_audio(),
        forall|k: int| 0 <= k < r.1@.len() ==> r.1@[k] < events@.len() && events@[r.1@[k] as int].is_audio(),
        forall|k: int, l: int| 0 <= k < l < r.0@.len() ==> r.0@[k] < r.0@[l],
        forall|k: int, l: int| 0 <= k < l < r.1@.len() ==> r.1@[k] < r.1@[l],
        r.0@.len() + r.1@.len() == events@.len(),
        r.0@ == stream_of(events@, false, events@.len() as int),
        r.1@ == stream_of(events@, true, events@.len() as int),
{
    let mut focus: Vec<usize> = Vec::new();
    let mut audio: Vec<usize> = Vec::new();
    let mut i: usize = 0;
    while i < events.len()
        invariant
            i <= events@.len(),
            focus@.len() + audio@.len() == i,
            forall|k: int| 0 <= k < focus@.len() ==> focus@[k] < i && !events@[focus@[k] as int].is_audio(),
            forall|k: int| 0 <= k < audio@.len() ==> audio@[k] < i && events@[audio@[k] as int].is_audio(),
            forall|k: int, l: int| 0 <= k < l < focus@.len() ==> focus@[k] < focus@[l],
            forall|k: int, l: int| 0 <= k < l < audio@.len() ==> audio@[k] < audio@[l],
            focus@ == stream_of(events@, false, i as int),
            audio@ == stream_of(events@, true, i as int),
        decreases events@.len() - i,
    {
        if is_audio_event(&events[i]) {
            audio.push(i);
        } else {
            focus.push(i);
        }
        i = i + 1;
    }
    (focus, audio)
}

/// The string member `key` of a JSON object text, as serde_json reads it; none when the
/// text is not a JSON object or the member is absent or not a string.
pub uninterp spec fn json_member_text(json: Seq<char>, key: Seq<char>) -> Option<Seq<char>>;

/// Relies on `serde_json::from_str::<Value>`, `Value::get` and `Value::as_str`: the
/// member `key` of the parsed value when it is a string; the result depends on the two
/// texts alone.
#[verifier::external_body]
fn json_member_str(json: &str, key: &str) -> (r: Option<String>)
    ensures
        opt_view(r) == json_member_text(json@, key@),
{
    serde_json::from_str::<serde_json::Value>(json).ok().and_then(|v| v.get(key).and_then(|m| m.as_str()).map(|m| m.to_string()))
}

/// The `activity` member of a stored payload.
pub open spec fn payload_activity(payload: Seq<char>) -> Option<Seq<char>> {
    json_member_text(payload, "activity"@)
}

/// The `activity` field of a stored payload.
pub fn parse_activity_from_payload(payload_json: &str) -> (r: Option<String>)
    ensures
        opt_view(r) == payload_activity(payload_json@),
{
    json_member_str(payload_json, "activity")
}

/// A stored event as the store hands it over.
pub struct EventRow {
    pub id: i64,
    pub ts: String,
    pub source: String,
    pub event: String,
    pub entity: Option<String>,
    pub title: Option<String>,
    pub payload_json: String,
}

/// A stored event as the read paths report it.
pub struct EventRecord {
    pub id: i64,
    pub ts: String,
    pub source: String,
    pub event: String,
    pub entity: Option<String>,
    pub title: Option<String>,
    pub activity: Option<String>,
}

/// The record of a stored event, with the payload's `activity` read out.
pub fn event_record_from_row(row: &EventRow) -> (r: EventRecord)
    ensures
        r.id == row.id,
        r.ts == row.ts,
        r.source == row.source,
        r.event == row.event,
        r.entity == row.entity,
        r.title == row.title,
        opt_view(r.activity) == payload_activity(row.payload_json@),
{
    EventRecord {
        id: row.id,
        ts: row.ts.clone(),
        source: row.source.clone(),
        event: row.event.clone(),
        entity: clone_opt(&row.entity),
        title: clone_opt(&row.title),
        activity: parse_activity_from_payload(row.payload_json.as_str()),
    }
}

} // verus!
