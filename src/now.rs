//! The "Now" reducer: what the user is doing at present, from the recent event tail.
use vstd::prelude::*;
use crate::attribution::{is_browser_app, is_browser_app_spec, AUDIO_IDLE_CUTOFF_SECONDS};
use crate::clock::{NANOS_PER_SECOND, instant_in_range, parse_rfc3339, rfc3339_instant, format_rfc3339, rfc3339_text};
use crate::events::{EventRecord, EventRow, event_record_from_row, clone_opt, opt_is, opt_view, event_kind, event_kind_of, EventKind, payload_activity};
use crate::privacy::{PrivacyIndex, PrivacyDecision, apply_privacy_to_event, HIDDEN_ENTITY};
use crate::settings::Settings;
use crate::text::{chars_of, string_of, trim_chars, to_lower, lower_of, trimmed, str_eq};

verus! {

/// Bounds of the scan window.
pub const NOW_SCAN_MIN: usize = 1;

pub const NOW_SCAN_MAX: usize = 2000;

/// How many title hints the snapshot carries at most.
pub const LATEST_TITLES_MAX: usize = 64;

/// The scan window, clamped to [1, 2000].
pub fn clamp_scan_limit(n: usize) -> (r: usize)
    ensures
        r == if n < NOW_SCAN_MIN { NOW_SCAN_MIN } else if n > NOW_SCAN_MAX { NOW_SCAN_MAX } else { n },
{
    if n < NOW_SCAN_MIN {
        NOW_SCAN_MIN
    } else if n > NOW_SCAN_MAX {
        NOW_SCAN_MAX
    } else {
        n
    }
}

/// The recent events the reducer reads, each list newest first.
pub struct NowInput {
    /// The tail of all events.
    pub latest: Vec<EventRow>,
    pub app_active: Vec<EventRow>,
    pub tab_active: Vec<EventRow>,
    pub tab_audio_stop: Vec<EventRow>,
    pub app_audio: Vec<EventRow>,
    pub app_audio_stop: Vec<EventRow>,
    /// `(event, entity, title)` of recent focus events that carry a title.
    pub titles: Vec<(String, String, String)>,
}

pub struct NowSnapshot {
    pub server_ts: String,
    pub focus_ttl_seconds: i64,
    pub audio_ttl_seconds: i64,
    pub latest_event_id: Option<i64>,
    pub latest_event: Option<EventRecord>,
    pub latest_event_age_seconds: Option<i64>,
    pub app_active: Option<EventRecord>,
    pub app_active_age_seconds: Option<i64>,
    pub tab_focus: Option<EventRecord>,
    pub tab_focus_age_seconds: Option<i64>,
    pub tab_audio: Option<EventRecord>,
    pub tab_audio_stop: Option<EventRecord>,
    pub tab_audio_age_seconds: Option<i64>,
    pub tab_audio_active: bool,
    pub app_audio: Option<EventRecord>,
    pub app_audio_stop: Option<EventRecord>,
    pub app_audio_age_seconds: Option<i64>,
    pub app_audio_active: bool,
    pub now_focus_app: Option<EventRecord>,
    pub now_using_tab: Option<EventRecord>,
    pub now_background_audio: Option<EventRecord>,
    /// `("domain|<host>" or "app|<entity>", title)`, first occurrence per key.
    pub latest_titles: Vec<(String, String)>,
}

/// Whole seconds from an RFC 3339 instant to `now`, never negative.
pub open spec fn age_spec(ts: Seq<char>, now: i128) -> Option<i64> {
    match rfc3339_instant(ts) {
        Some(t) => if now > t {
            Some(((now - t) / (NANOS_PER_SECOND as int)) as i64)
        } else {
            Some(0)
        },
        None => None,
    }
}

pub fn age_seconds(ts: &str, now: i128) -> (r: Option<i64>)
    requires
        instant_in_range(now),
    ensures
        r == age_spec(ts@, now),
{
    match parse_rfc3339(ts) {
        Some(t) => if now > t {
            Some(((now - t) / NANOS_PER_SECOND) as i64)
        } else {
            Some(0)
        },
        None => None,
    }
}

fn record_age(e: &Option<EventRecord>, now: i128) -> (r: Option<i64>)
    requires
        instant_in_range(now),
    ensures
        r == match e {
            Some(x) => age_spec(x.ts@, now),
            None => None,
        },
{
    match e {
        Some(x) => age_seconds(x.ts.as_str(), now),
        None => None,
    }
}

pub fn clone_record(e: &EventRecord) -> (r: EventRecord)
    ensures
        r == *e,
{
    EventRecord {
        id: e.id,
        ts: e.ts.clone(),
        source: e.source.clone(),
        event: e.event.clone(),
        entity: clone_opt(&e.entity),
        title: clone_opt(&e.title),
        activity: clone_opt(&e.activity),
    }
}

fn clone_opt_record(e: &Option<EventRecord>) -> (r: Option<EventRecord>)
    ensures
        r == *e,
{
    match e {
        Some(x) => Some(clone_record(x)),
        None => None,
    }
}

/// Whether a row is shown at all once the rules apply.
pub open spec fn survives(privacy: PrivacyIndex, row: EventRow) -> bool {
    match row.entity {
        Some(ent) => privacy.decision_spec(row.event@, ent@) != PrivacyDecision::Drop,
        None => true,
    }
}

/// Whether a row is picked: it survives and, with `audio` set, its payload says
/// `activity: "audio"` (without it, says anything else).
pub open spec fn picked(privacy: PrivacyIndex, row: EventRow, filter: Option<bool>) -> bool {
    &&& survives(privacy, row)
    &&& match filter {
        Some(audio) => (payload_activity(row.payload_json@) == Some("audio"@)) == audio,
        None => true,
    }
}

/// The first picked row of a newest-first list.
pub open spec fn first_picked(privacy: PrivacyIndex, rows: Seq<EventRow>, filter: Option<bool>) -> Option<int> {
    if exists|i: int| 0 <= i < rows.len() && picked(privacy, #[trigger] rows[i], filter) {
        Some(choose|i: int| 0 <= i < rows.len() && picked(privacy, #[trigger] rows[i], filter) && forall|j: int| 0 <= j < i ==> !picked(privacy, #[trigger] rows[j], filter))
    } else {
        None
    }
}

/// The record that the read paths show for a row that survives the rules: the row itself,
/// with the payload's `activity`, and a masked entity shown as `__hidden__` without a title.
pub open spec fn shows_row(privacy: PrivacyIndex, row: EventRow, e: EventRecord) -> bool {
    &&& e.id == row.id
    &&& e.ts == row.ts
    &&& e.source == row.source
    &&& e.event == row.event
    &&& opt_view(e.activity) == payload_activity(row.payload_json@)
    &&& match row.entity {
        Some(ent) => if privacy.decision_spec(row.event@, ent@) == PrivacyDecision::Mask {
            opt_view(e.entity) == Some(HIDDEN_ENTITY@) && e.title is None
        } else {
            e.entity == row.entity && e.title == row.title
        },
        None => e.entity is None && e.title == row.title,
    }
}

/// A snapshot field holds the first picked row of its list, as shown, or nothing when no
/// row is picked.
pub open spec fn pick_of(privacy: PrivacyIndex, rows: Seq<EventRow>, filter: Option<bool>, r: Option<EventRecord>) -> bool {
    match first_picked(privacy, rows, filter) {
        Some(i) => r matches Some(e) && shows_row(privacy, rows[i], e),
        None => r is None,
    }
}

/// The record of the first picked row, with the rules applied; `pick` says which row.
fn pick_first(rows: &[EventRow], privacy: &PrivacyIndex, filter: Option<bool>) -> (r: (Option<EventRecord>, Ghost<Option<int>>))
    ensures
        match r.1@ {
            Some(i) => 0 <= i < rows@.len() && picked(*privacy, rows@[i], filter) && (forall|j: int| 0 <= j < i ==> !picked(*privacy, #[trigger] rows@[j], filter)) && (r.0 matches Some(e) && shows_row(*privacy, rows@[i], e)),
            None => r.0 is None && forall|j: int| 0 <= j < rows@.len() ==> !picked(*privacy, #[trigger] rows@[j], filter),
        },
{
    let mut i: usize = 0;
    while i < rows.len()
        invariant
            i <= rows@.len(),
            forall|j: int| 0 <= j < i ==> !picked(*privacy, #[trigger] rows@[j], filter),
        decreases rows@.len() - i,
    {
        let row = &rows[i];
        let rec = event_record_from_row(row);
        let ok_filter = match filter {
            Some(audio) => opt_is(&rec.activity, "audio") == audio,
            None => true,
        };
        if ok_filter {
            let shown = apply_privacy_to_event(rec, privacy);
            if let Some(e) = shown {
                return (Some(e), Ghost(Some(i as int)));
            }
        }
        i = i + 1;
    }
    (None, Ghost(None))
}

/// An audio source is active when it was seen, is not older than the audio window (or
/// its age cannot be read), and no stop marker at or after it was seen.
pub open spec fn audio_active_spec(a: Option<EventRecord>, stop: Option<EventRecord>, now: i128, ttl: i64) -> bool {
    match a {
        None => false,
        Some(x) => {
            let fresh = match age_spec(x.ts@, now) {
                Some(age) => age <= ttl,
                None => true,
            };
            let stopped = match (stop, rfc3339_instant(x.ts@)) {
                (Some(s), Some(a_ts)) => match rfc3339_instant(s.ts@) {
                    Some(s_ts) => s_ts >= a_ts,
                    None => false,
                },
                _ => false,
            };
            fresh && !stopped
        },
    }
}

fn audio_active(a: &Option<EventRecord>, stop: &Option<EventRecord>, now: i128, ttl: i64) -> (r: bool)
    requires
        instant_in_range(now),
    ensures
        r == audio_active_spec(*a, *stop, now, ttl),
{
    match a {
        None => false,
        Some(x) => {
            let fresh = match age_seconds(x.ts.as_str(), now) {
                Some(age) => age <= ttl,
                None => true,
            };
            if !fresh {
                return false;
            }
            match (stop, parse_rfc3339(x.ts.as_str())) {
                (Some(s), Some(a_ts)) => match parse_rfc3339(s.ts.as_str()) {
                    Some(s_ts) => !(s_ts >= a_ts),
                    None => true,
                },
                _ => true,
            }
        },
    }
}

pub open spec fn fresh_spec(e: Option<EventRecord>, now: i128, ttl: i64) -> bool {
    match e {
        Some(x) => match age_spec(x.ts@, now) {
            Some(age) => age <= ttl,
            None => false,
        },
        None => false,
    }
}

fn fresh(e: &Option<EventRecord>, now: i128, ttl: i64) -> (r: bool)
    requires
        instant_in_range(now),
    ensures
        r == fresh_spec(*e, now, ttl),
{
    match record_age(e, now) {
        Some(age) => age <= ttl,
        None => false,
    }
}

/// The browser has the focus: the fresh focused app is a browser, or no app is fresh
/// and a tab focus is.
pub open spec fn browser_focused_spec(focus_app: Option<EventRecord>, tab_fresh: bool) -> bool {
    ||| (focus_app matches Some(x) && x.entity matches Some(ent) && is_browser_app_spec(ent@))
    ||| (focus_app is None && tab_fresh)
}

fn has_key(out: &Vec<(String, String)>, key: &str) -> (r: bool)
    ensures
        !r ==> forall|a: int| 0 <= a < out@.len() ==> out@[a].0@ != key@,
        r ==> exists|a: int| 0 <= a < out@.len() && out@[a].0@ == key@,
{
    let mut j: usize = 0;
    while j < out.len()
        invariant
            j <= out@.len(),
            forall|a: int| 0 <= a < j ==> out@[a].0@ != key@,
        decreases out@.len() - j,
    {
        if str_eq(out[j].0.as_str(), key) {
            return true;
        }
        j = j + 1;
    }
    false
}

/// The title hint of a row `(event, entity, title)`: keyed `domain|<lower-cased host>` for
/// tab focus and `app|<entity>` for app focus, with entity and title trimmed; none for a
/// blank entity or title, for another kind, or for an entity that a rule drops or masks.
pub open spec fn title_hint(privacy: PrivacyIndex, row: (String, String, String)) -> Option<(Seq<char>, Seq<char>)> {
    let ent = trimmed(row.1@);
    let t = trimmed(row.2@);
    if ent.len() == 0 || t.len() == 0 {
        None
    } else if privacy.decision_spec(row.0@, ent) != PrivacyDecision::Allow {
        None
    } else {
        match event_kind_of(row.0@) {
            EventKind::TabActive => Some(("domain|"@ + lower_of(ent), t)),
            EventKind::AppActive => Some(("app|"@ + ent, t)),
            _ => None,
        }
    }
}

pub open spec fn has_hint_key(acc: Seq<(Seq<char>, Seq<char>)>, k: Seq<char>) -> bool {
    exists|i: int| 0 <= i < acc.len() && (#[trigger] acc[i]).0 == k
}

/// The hints of the first `n` rows (newest first): the first title per key, until there
/// are `LATEST_TITLES_MAX` keys.
pub open spec fn title_hints(privacy: PrivacyIndex, rows: Seq<(String, String, String)>, n: int) -> Seq<(Seq<char>, Seq<char>)>
    decreases n,
{
    if n <= 0 {
        Seq::empty()
    } else {
        let acc = title_hints(privacy, rows, n - 1);
        if acc.len() >= LATEST_TITLES_MAX {
            acc
        } else {
            match title_hint(privacy, rows[n - 1]) {
                Some(h) => if has_hint_key(acc, h.0) {
                    acc
                } else {
                    acc.push(h)
                },
                None => acc,
            }
        }
    }
}

proof fn lemma_title_hints_full(privacy: PrivacyIndex, rows: Seq<(String, String, String)>, i: int, m: int)
    requires
        0 <= i <= m,
        title_hints(privacy, rows, i).len() >= LATEST_TITLES_MAX,
    ensures
        title_hints(privacy, rows, m) == title_hints(privacy, rows, i),
    decreases m - i,
{
    if m > i {
        lemma_title_hints_full(privacy, rows, i, m - 1);
    }
}

pub open spec fn hint_views(out: Seq<(String, String)>) -> Seq<(Seq<char>, Seq<char>)> {
    out.map_values(|p: (String, String)| (p.0@, p.1@))
}

/// Collects the title hints: per key the most recent title, skipping blank entities and
/// titles and entities that a rule drops or masks, at most 64 keys.
pub fn latest_titles(rows: &[(String, String, String)], privacy: &PrivacyIndex) -> (r: Vec<(String, String)>)
    ensures
        hint_views(r@) == title_hints(*privacy, rows@, rows@.len() as int),
        r@.len() <= LATEST_TITLES_MAX,
{
    let mut out: Vec<(String, String)> = Vec::new();
    let mut i: usize = 0;
    while i < rows.len()
        invariant
            i <= rows@.len(),
            out@.len() <= LATEST_TITLES_MAX,
            hint_views(out@) == title_hints(*privacy, rows@, i as int),
        decreases rows@.len() - i,
    {
        if out.len() >= LATEST_TITLES_MAX {
            proof {
                lemma_title_hints_full(*privacy, rows@, i as int, rows@.len() as int);
            }
            return out;
        }
        let ghost acc = title_hints(*privacy, rows@, i as int);
        let ghost h = title_hint(*privacy, rows@[i as int]);
        assert(title_hints(*privacy, rows@, i + 1) == match h {
            Some(x) => if has_hint_key(acc, x.0) { acc } else { acc.push(x) },
            None => acc,
        });
        let (event, entity, title) = (&rows[i].0, &rows[i].1, &rows[i].2);
        let ec = chars_of(entity.as_str());
        let ent_c = trim_chars(ec.as_slice());
        let tc = chars_of(title.as_str());
        let t_c = trim_chars(tc.as_slice());
        if ent_c.len() > 0 && t_c.len() > 0 {
            let ent = string_of(ent_c.as_slice());
            let t = string_of(t_c.as_slice());
            if privacy.decision_for(event.as_str(), ent.as_str()) == PrivacyDecision::Allow {
                let k = event_kind(event.as_str());
                let key = match k {
                    EventKind::TabActive => {
                        let mut key = String::from_str("domain|");
                        let lower = to_lower(ent.as_str());
                        key.append(lower.as_str());
                        Some(key)
                    },
                    EventKind::AppActive => {
                        let mut key = String::from_str("app|");
                        key.append(ent.as_str());
                        Some(key)
                    },
                    _ => None,
                };
                proof {
                    reveal_strlit("domain|");
                    reveal_strlit("app|");
                    if key is Some {
                        assert(h == Some((key->0@, t@)));
                    } else {
                        assert(h is None);
                    }
                }
                if let Some(key) = key {
                    let found = has_key(&out, key.as_str());
                    proof {
                        if has_hint_key(acc, key@) {
                            let j = choose|j: int| 0 <= j < acc.len() && (#[trigger] acc[j]).0 == key@;
                            assert(hint_views(out@)[j] == acc[j]);
                            assert(out@[j].0@ == key@);
                        }
                    }
                    proof {
                        if found {
                            let a = choose|a: int| 0 <= a < out@.len() && out@[a].0@ == key@;
                            assert(hint_views(out@)[a] == acc[a]);
                            assert(has_hint_key(acc, key@));
                        }
                    }
                    if !found {
                        let ghost kv = key@;
                        let ghost tv = t@;
                        out.push((key, t));
                        proof {
                            assert(!has_hint_key(acc, kv)) by {
                                if has_hint_key(acc, kv) {
                                    let j = choose|j: int| 0 <= j < acc.len() && (#[trigger] acc[j]).0 == kv;
                                    assert(hint_views(out@)[j] == acc[j]);
                                }
                            }
                            assert(hint_views(out@) =~= acc.push((kv, tv)));
                        }
                    }
                }
            }
        }
        i = i + 1;
    }
    out
}

/// The snapshot of what the user is doing at `now`.
pub fn reduce_now(input: &NowInput, privacy: &PrivacyIndex, settings: Settings, now: i128) -> (r: NowSnapshot)
    requires
        instant_in_range(now),
    ensures
        r.server_ts@ == rfc3339_text(now),
        r.focus_ttl_seconds == if settings.idle_cutoff_seconds < 10 { 10 } else { settings.idle_cutoff_seconds },
        r.audio_ttl_seconds == AUDIO_IDLE_CUTOFF_SECONDS,
        r.latest_event_id == match r.latest_event {
            Some(e) => Some(e.id),
            None => None::<i64>,
        },
        r.tab_audio_active == audio_active_spec(r.tab_audio, r.tab_audio_stop, now, r.audio_ttl_seconds),
        r.app_audio_active == audio_active_spec(r.app_audio, r.app_audio_stop, now, r.audio_ttl_seconds),
        r.now_focus_app == if fresh_spec(r.app_active, now, r.focus_ttl_seconds) {
            r.app_active
        } else {
            None
        },
        r.now_using_tab == if browser_focused_spec(r.now_focus_app, fresh_spec(r.tab_focus, now, r.focus_ttl_seconds)) {
            if fresh_spec(r.tab_focus, now, r.focus_ttl_seconds) {
                r.tab_focus
            } else {
                None
            }
        } else if r.tab_audio_active {
            r.tab_audio
        } else {
            None
        },
        r.now_background_audio == if r.app_audio_active {
            r.app_audio
        } else {
            None
        },
        r.latest_event_age_seconds == match r.latest_event {
            Some(x) => age_spec(x.ts@, now),
            None => None,
        },
        r.app_active_age_seconds == match r.app_active {
            Some(x) => age_spec(x.ts@, now),
            None => None,
        },
        pick_of(*privacy, input.latest@, None, r.latest_event),
        pick_of(*privacy, input.app_active@, None, r.app_active),
        pick_of(*privacy, input.tab_active@, Some(false), r.tab_focus),
        pick_of(*privacy, input.tab_active@, Some(true), r.tab_audio),
        pick_of(*privacy, input.tab_audio_stop@, None, r.tab_audio_stop),
        pick_of(*privacy, input.app_audio@, None, r.app_audio),
        pick_of(*privacy, input.app_audio_stop@, None, r.app_audio_stop),
        r.tab_focus_age_seconds == match r.tab_focus {
            Some(x) => age_spec(x.ts@, now),
            None => None,
        },
        r.tab_audio_age_seconds == match r.tab_audio {
            Some(x) => age_spec(x.ts@, now),
            None => None,
        },
        r.app_audio_age_seconds == match r.app_audio {
            Some(x) => age_spec(x.ts@, now),
            None => None,
        },
        r.latest_titles@.len() <= LATEST_TITLES_MAX,
        hint_views(r.latest_titles@) == title_hints(*privacy, input.titles@, input.titles@.len() as int),
{
    let (latest_event, Ghost(li)) = pick_first(input.latest.as_slice(), privacy, None);
    let (app_active, Ghost(ai)) = pick_first(input.app_active.as_slice(), privacy, None);
    let (tab_focus, Ghost(fi)) = pick_first(input.tab_active.as_slice(), privacy, Some(false));
    let (tab_audio, Ghost(ti)) = pick_first(input.tab_active.as_slice(), privacy, Some(true));
    let (tab_audio_stop, Ghost(si)) = pick_first(input.tab_audio_stop.as_slice(), privacy, None);
    let (app_audio, Ghost(pi)) = pick_first(input.app_audio.as_slice(), privacy, None);
    let (app_audio_stop, Ghost(qi)) = pick_first(input.app_audio_stop.as_slice(), privacy, None);
    proof {
        lemma_first_picked(*privacy, input.tab_audio_stop@, None, si);
        lemma_first_picked(*privacy, input.app_audio@, None, pi);
        lemma_first_picked(*privacy, input.app_audio_stop@, None, qi);
        lemma_first_picked(*privacy, input.latest@, None, li);
        lemma_first_picked(*privacy, input.app_active@, None, ai);
        lemma_first_picked(*privacy, input.tab_active@, Some(false), fi);
        lemma_first_picked(*privacy, input.tab_active@, Some(true), ti);
    }
    let titles = latest_titles(input.titles.as_slice(), privacy);
    let focus_ttl: i64 = if settings.idle_cutoff_seconds < 10 { 10 } else { settings.idle_cutoff_seconds };
    let audio_ttl: i64 = AUDIO_IDLE_CUTOFF_SECONDS;
    let tab_audio_on = audio_active(&tab_audio, &tab_audio_stop, now, audio_ttl);
    let app_audio_on = audio_active(&app_audio, &app_audio_stop, now, audio_ttl);
    let app_fresh = fresh(&app_active, now, focus_ttl);
    let tab_fresh = fresh(&tab_focus, now, focus_ttl);
    let now_focus_app = if app_fresh { clone_opt_record(&app_active) } else { None };
    let browser_focused = match &now_focus_app {
        Some(x) => match &x.entity {
            Some(ent) => is_browser_app(ent.as_str()),
            None => false,
        },
        None => false,
    } || (now_focus_app.is_none() && tab_fresh);
    let now_using_tab = if browser_focused {
        if tab_fresh { clone_opt_record(&tab_focus) } else { None }
    } else if tab_audio_on {
        clone_opt_record(&tab_audio)
    } else {
        None
    };
    let now_background_audio = if app_audio_on { clone_opt_record(&app_audio) } else { None };
    let latest_event_id = match &latest_event {
        Some(e) => Some(e.id),
        None => None,
    };
    NowSnapshot {
        server_ts: format_rfc3339(now),
        focus_ttl_seconds: focus_ttl,
        audio_ttl_seconds: audio_ttl,
        latest_event_id,
        latest_event_age_seconds: record_age(&latest_event, now),
        latest_event,
        app_active_age_seconds: record_age(&app_active, now),
        app_active,
        tab_focus_age_seconds: record_age(&tab_focus, now),
        tab_focus,
        tab_audio_age_seconds: record_age(&tab_audio, now),
        tab_audio,
        tab_audio_stop,
        tab_audio_active: tab_audio_on,
        app_audio_age_seconds: record_age(&app_audio, now),
        app_audio,
        app_audio_stop,
        app_audio_active: app_audio_on,
        now_focus_app,
        now_using_tab,
        now_background_audio,
        latest_titles: titles,
    }
}

proof fn lemma_first_picked(privacy: PrivacyIndex, rows: Seq<EventRow>, filter: Option<bool>, found: Option<int>)
    requires
        match found {
            Some(i) => 0 <= i < rows.len() && picked(privacy, rows[i], filter) && (forall|j: int| 0 <= j < i ==> !picked(privacy, #[trigger] rows[j], filter)),
            None => forall|j: int| 0 <= j < rows.len() ==> !picked(privacy, #[trigger] rows[j], filter),
        },
    ensures
        first_picked(privacy, rows, filter) == found,
{
    match found {
        Some(i) => {
            assert(picked(privacy, rows[i], filter));
            let c = choose|c: int| 0 <= c < rows.len() && picked(privacy, #[trigger] rows[c], filter) && forall|j: int| 0 <= j < c ==> !picked(privacy, #[trigger] rows[j], filter);
            if c < i {
                assert(!picked(privacy, rows[c], filter));
            }
            if c > i {
                assert(!picked(privacy, rows[i], filter));
            }
        },
        None => {},
    }
}

} // verus!
