//! The attribution engine: entity resolution under the browser/OS duality, timeline
//! segments, fixed-length blocks with their top items, and the background-audio overlay.
use vstd::prelude::*;
use crate::clock::{NANOS_PER_SECOND, instant_in_range, format_rfc3339, rfc3339_text};
use crate::events::{EventForBlocks, EventKind, event_kind, stream_of, opt_view, clone_opt, opt_eq, sorted_by_ts, split_streams};
use crate::text::{
    chars_of, string_of, str_eq, to_lower, lower_of, trim_chars, trimmed, ends_with_chars,
    seq_ends_with, occurs_at, occurs_at_chars, sub_chars,
};

verus! {

/// How long after a `tab_active` its domain still stands for what a focused browser shows.
pub const DOMAIN_FRESHNESS_SECONDS: i64 = 300;

/// Upper bound of the idle cutoff applied to the audio stream.
pub const AUDIO_IDLE_CUTOFF_SECONDS: i64 = 120;

/// What an attribution target is.
#[derive(Clone, Copy, PartialEq, Eq, Structural, Debug)]
pub enum EntityKind {
    App,
    Domain,
}

impl EntityKind {
    pub open spec fn name(self) -> Seq<char> {
        match self {
            EntityKind::App => "app"@,
            EntityKind::Domain => "domain"@,
        }
    }

    /// The wire name of the kind: `app` or `domain`.
    pub fn as_str(self) -> (r: &'static str)
        ensures
            r@ == self.name(),
    {
        match self {
            EntityKind::App => "app",
            EntityKind::Domain => "domain",
        }
    }
}

/// The last path component: what follows the last `\` or `/`.
pub open spec fn basename(s: Seq<char>) -> Seq<char>
    decreases s.len(),
{
    if s.len() == 0 {
        s
    } else if s.last() == '\\' || s.last() == '/' {
        Seq::empty()
    } else {
        basename(s.drop_last()).push(s.last())
    }
}

/// The executable names of the browsers.
pub open spec fn browser_name(s: Seq<char>) -> bool {
    ||| s == "chrome.exe"@
    ||| s == "msedge.exe"@
    ||| s == "brave.exe"@
    ||| s == "vivaldi.exe"@
    ||| s == "opera.exe"@
    ||| s == "firefox.exe"@
}

/// An app is a browser when its lower-cased base name is a browser executable.
pub open spec fn is_browser_app_spec(app: Seq<char>) -> bool {
    browser_name(lower_of(basename(app)))
}

/// Whether a lower-cased executable name is one of the browsers.
pub fn is_browser_exe(lower_exe: &str) -> (r: bool)
    ensures
        r == browser_name(lower_exe@),
{
    str_eq(lower_exe, "chrome.exe") || str_eq(lower_exe, "msedge.exe") || str_eq(
        lower_exe,
        "brave.exe",
    ) || str_eq(lower_exe, "vivaldi.exe") || str_eq(lower_exe, "opera.exe") || str_eq(
        lower_exe,
        "firefox.exe",
    )
}

proof fn lemma_basename_from(s: Seq<char>, k: int)
    requires
        0 <= k <= s.len(),
        k == 0 || s[k - 1] == '\\' || s[k - 1] == '/',
        forall|j: int| k <= j < s.len() ==> s[j] != '\\' && s[j] != '/',
    ensures
        basename(s) == s.subrange(k, s.len() as int),
    decreases s.len(),
{
    if s.len() == k {
        if k > 0 {
            assert(basename(s) == Seq::<char>::empty());
        }
        assert(s.subrange(k, s.len() as int) =~= Seq::<char>::empty());
        if k == 0 {
            assert(s =~= Seq::<char>::empty());
        }
    } else {
        lemma_basename_from(s.drop_last(), k);
        assert(s.drop_last().subrange(k, s.len() - 1).push(s.last()) =~= s.subrange(k, s.len() as int));
    }
}

/// The base name of a path.
pub fn basename_of(s: &str) -> (r: String)
    ensures
        r@ == basename(s@),
{
    let cs = chars_of(s);
    let mut k: usize = cs.len();
    while k > 0 && cs[k - 1] != '\\' && cs[k - 1] != '/'
        invariant
            k <= cs@.len(),
            cs@ == s@,
            forall|j: int| k <= j < cs@.len() ==> cs@[j] != '\\' && cs@[j] != '/',
        decreases k,
    {
        k = k - 1;
    }
    proof {
        lemma_basename_from(cs@, k as int);
    }
    let tail = sub_chars(cs.as_slice(), k, cs.len());
    string_of(tail.as_slice())
}

/// Whether `app` names a browser binary (its base name, case-insensitively).
pub fn is_browser_app(app: &str) -> (r: bool)
    ensures
        r == is_browser_app_spec(app@),
{
    let base = basename_of(app);
    let lower = to_lower(base.as_str());
    is_browser_exe(lower.as_str())
}

pub open spec fn contains_seq(s: Seq<char>, needle: Seq<char>) -> bool {
    exists|i: int| occurs_at(s, needle, i)
}

/// Whether `needle` occurs somewhere in `s`.
pub fn contains_chars(s: &[char], needle: &[char]) -> (r: bool)
    ensures
        r == contains_seq(s@, needle@),
{
    if needle.len() == 0 {
        assert(s@.subrange(0, 0) =~= needle@);
        assert(occurs_at(s@, needle@, 0));
        return true;
    }
    let mut i: usize = 0;
    while i < s.len()
        invariant
            i <= s@.len(),
            needle@.len() > 0,
            forall|j: int| 0 <= j < i ==> !occurs_at(s@, needle@, j),
        decreases s@.len() - i,
    {
        if occurs_at_chars(s, needle, i) {
            return true;
        }
        i = i + 1;
    }
    false
}

/// A web title as it is kept: trimmed, and on YouTube hosts without the ` - YouTube` suffix.
pub open spec fn normalized_web_title(domain: Seq<char>, raw: Seq<char>) -> Seq<char> {
    let t = trimmed(raw);
    if t.len() == 0 {
        t
    } else if contains_seq(lower_of(domain), "youtube."@) && seq_ends_with(t, " - YouTube"@) {
        trimmed(t.subrange(0, t.len() - " - YouTube"@.len()))
    } else {
        trimmed(t)
    }
}

/// Normalises a page title for `domain`.
pub fn normalize_web_title(domain: &str, raw: &str) -> (r: String)
    ensures
        r@ == normalized_web_title(domain@, raw@),
{
    let rc = chars_of(raw);
    let t = trim_chars(rc.as_slice());
    if t.len() == 0 {
        return string_of(t.as_slice());
    }
    let d = to_lower(domain);
    let dc = chars_of(d.as_str());
    let yt = chars_of("youtube.");
    let suffix = chars_of(" - YouTube");
    if contains_chars(dc.as_slice(), yt.as_slice()) && ends_with_chars(t.as_slice(), suffix.as_slice()) {
        let cut = t.len() - suffix.len();
        let head = sub_chars(t.as_slice(), 0, cut);
        let u = trim_chars(head.as_slice());
        string_of(u.as_slice())
    } else {
        let u = trim_chars(t.as_slice());
        string_of(u.as_slice())
    }
}

/// The title kept for a domain item: none unless titles are stored and the
/// normalised title is non-empty.
pub open spec fn domain_title_spec(domain: Seq<char>, raw: Option<Seq<char>>, store_titles: bool) -> Option<Seq<char>> {
    if !store_titles {
        None
    } else {
        match raw {
            None => None,
            Some(r) => if trimmed(r).len() == 0 {
                None
            } else {
                let t = normalized_web_title(domain, trimmed(r));
                if t.len() == 0 {
                    None
                } else {
                    Some(t)
                }
            },
        }
    }
}

/// The normalised title of a domain item, if titles are stored and one remains.
pub fn normalized_title_for_domain(domain: &str, raw: Option<&str>, store_titles: bool) -> (r: Option<String>)
    ensures
        opt_view(r) == domain_title_spec(
            domain@,
            match raw {
                Some(s) => Some(s@),
                None => None,
            },
            store_titles,
        ),
{
    if !store_titles {
        return None;
    }
    let raw = match raw {
        Some(s) => s,
        None => return None,
    };
    let rc = chars_of(raw);
    let r = trim_chars(rc.as_slice());
    if r.len() == 0 {
        return None;
    }
    let rs = string_of(r.as_slice());
    let t = normalize_web_title(domain, rs.as_str());
    if t.as_str().unicode_len() == 0 {
        None
    } else {
        Some(t)
    }
}

/// The part of a gap between consecutive events that is attributed. A gap up to the idle
/// cutoff is attributed in full, a gap that is not positive not at all. A longer gap is an
/// idle break: on the focus stream none of it counts; on the audio stream, whose sources
/// send heartbeats rather than stop markers, it is `clamped` to the cutoff.
pub open spec fn span_of(gap: int, cutoff: int, clamped: bool) -> int {
    if gap <= 0 {
        0
    } else if gap <= cutoff {
        gap
    } else if clamped {
        cutoff
    } else {
        0
    }
}

/// The attributed part of a gap (all values in nanoseconds).
pub fn span_gap(gap: i128, cutoff: i128, clamped: bool) -> (r: i128)
    ensures
        r == span_of(gap as int, cutoff as int, clamped),
{
    if gap <= 0 {
        0
    } else if gap <= cutoff {
        gap
    } else if clamped {
        cutoff
    } else {
        0
    }
}

/// On the focus stream a gap of exactly the idle cutoff is attributed in full and is no
/// idle break; a gap one second longer is an idle break and none of it is attributed.
pub proof fn lemma_idle_cutoff_boundary(cutoff_seconds: int)
    requires
        cutoff_seconds >= 1,
    ensures
        span_of(cutoff_seconds * NANOS_PER_SECOND, cutoff_seconds * NANOS_PER_SECOND, false)
            == cutoff_seconds * NANOS_PER_SECOND,
        (cutoff_seconds + 1) * NANOS_PER_SECOND > cutoff_seconds * NANOS_PER_SECOND,
        span_of((cutoff_seconds + 1) * NANOS_PER_SECOND, cutoff_seconds * NANOS_PER_SECOND, false) == 0,
{
}

/// Which register a moment is credited to.
#[derive(Clone, Copy, PartialEq, Eq, Structural, Debug)]
pub enum Attribution {
    ToApp,
    ToDomain,
    Nothing,
}

/// The registers of the focus walk.
pub struct FocusRegisters {
    pub app: Option<String>,
    pub app_title: Option<String>,
    pub domain: Option<String>,
    pub domain_title: Option<String>,
    /// When the current domain was last seen (nanoseconds since the epoch).
    pub domain_ts: Option<i128>,
}

pub open spec fn freshness_ns() -> int {
    DOMAIN_FRESHNESS_SECONDS * NANOS_PER_SECOND
}

/// Entity resolution at instant `at`: a focused browser with a fresh domain credits the
/// domain; otherwise a set app is credited; otherwise a set domain; otherwise nothing.
pub open spec fn attribution_spec(
    app: Option<Seq<char>>,
    domain: Option<Seq<char>>,
    domain_ts: Option<i128>,
    at: int,
) -> Attribution {
    match app {
        Some(a) => if is_browser_app_spec(a) && domain is Some && domain_ts is Some && at
            - domain_ts->0 <= freshness_ns() {
            Attribution::ToDomain
        } else {
            Attribution::ToApp
        },
        None => if domain is Some {
            Attribution::ToDomain
        } else {
            Attribution::Nothing
        },
    }
}

/// A focused browser credits a domain seen exactly `DOMAIN_FRESHNESS_SECONDS` earlier, and
/// falls back to the browser one second later; a browser with no tab ever seen is credited
/// itself, never a domain.
pub proof fn lemma_domain_freshness_boundary(app: Seq<char>, domain: Seq<char>, seen: i128, at: int)
    requires
        is_browser_app_spec(app),
    ensures
        at - seen == DOMAIN_FRESHNESS_SECONDS * NANOS_PER_SECOND ==> attribution_spec(Some(app), Some(domain), Some(seen), at) == Attribution::ToDomain,
        at - seen == (DOMAIN_FRESHNESS_SECONDS + 1) * NANOS_PER_SECOND ==> attribution_spec(Some(app), Some(domain), Some(seen), at) == Attribution::ToApp,
        attribution_spec(Some(app), None, None, at) == Attribution::ToApp,
{
}

pub open spec fn empty_registers() -> FocusRegisters {
    FocusRegisters { app: None, app_title: None, domain: None, domain_title: None, domain_ts: None }
}

impl FocusRegisters {
    pub open spec fn attribution_at(&self, at: int) -> Attribution {
        attribution_spec(opt_view(self.app), opt_view(self.domain), self.domain_ts, at)
    }

    pub fn empty() -> (r: FocusRegisters)
        ensures
            r.app is None && r.app_title is None && r.domain is None && r.domain_title is None
                && r.domain_ts is None,
            r == empty_registers(),
    {
        FocusRegisters { app: None, app_title: None, domain: None, domain_title: None, domain_ts: None }
    }

    /// Which register the instant `at` is credited to.
    pub fn attribution(&self, at: i128) -> (r: Attribution)
        requires
            instant_in_range(at),
            self.domain_ts matches Some(t) ==> instant_in_range(t),
        ensures
            r == self.attribution_at(at as int),
    {
        match &self.app {
            Some(a) => {
                if is_browser_app(a.as_str()) {
                    match (&self.domain, self.domain_ts) {
                        (Some(_), Some(t)) => {
                            if at - t <= DOMAIN_FRESHNESS_SECONDS as i128 * NANOS_PER_SECOND {
                                Attribution::ToDomain
                            } else {
                                Attribution::ToApp
                            }
                        },
                        _ => Attribution::ToApp,
                    }
                } else {
                    Attribution::ToApp
                }
            },
            None => {
                if self.domain.is_some() {
                    Attribution::ToDomain
                } else {
                    Attribution::Nothing
                }
            },
        }
    }
}

/// Focus or background audio.
#[derive(Clone, Copy, PartialEq, Eq, Structural, Debug)]
pub enum Activity {
    Focus,
    Audio,
}

impl Activity {
    pub open spec fn name(self) -> Seq<char> {
        match self {
            Activity::Focus => "focus"@,
            Activity::Audio => "audio"@,
        }
    }

    /// The wire name: `focus` or `audio`.
    pub fn as_str(self) -> (r: &'static str)
        ensures
            r@ == self.name(),
    {
        match self {
            Activity::Focus => "focus",
            Activity::Audio => "audio",
        }
    }
}

/// A segment while it is being built; times in nanoseconds since the epoch.
pub struct SegmentAcc {
    pub kind: EntityKind,
    pub entity: String,
    pub title: Option<String>,
    pub activity: Activity,
    pub start: i128,
    pub end: i128,
}

/// Two segments fold into one when they credit the same thing and touch.
pub open spec fn continues(last: SegmentAcc, seg: SegmentAcc) -> bool {
    &&& last.kind == seg.kind
    &&& last.entity@ == seg.entity@
    &&& opt_view(last.title) == opt_view(seg.title)
    &&& last.activity == seg.activity
    &&& last.end == seg.start
}

/// Segments in time order, each non-empty and none overlapping the next.
pub open spec fn chained(out: Seq<SegmentAcc>) -> bool {
    &&& forall|k: int| 0 <= k < out.len() ==> out[k].start < out[k].end
    &&& forall|k: int, l: int| 0 <= k < l < out.len() ==> out[k].end <= out[l].start
}

/// `out` after `seg`: `seg` appended, or the last segment extended when `seg` continues
/// it; an empty `seg` changes nothing.
pub open spec fn merge_push(out: Seq<SegmentAcc>, seg: SegmentAcc) -> Seq<SegmentAcc> {
    if seg.end <= seg.start {
        out
    } else if out.len() > 0 && continues(out.last(), seg) {
        out.update(out.len() - 1, (SegmentAcc { end: seg.end, ..out.last() }))
    } else {
        out.push(seg)
    }
}

/// Appends `seg`, or extends the last segment when `seg` continues it; an empty `seg` is
/// dropped.
pub fn push_or_merge_segment(out: &mut Vec<SegmentAcc>, seg: SegmentAcc)
    ensures
        seg.end <= seg.start ==> final(out)@ == old(out)@,
        seg.start < seg.end && old(out)@.len() > 0 && continues(old(out)@.last(), seg)
            ==> final(out)@ == old(out)@.update(old(out)@.len() - 1, (SegmentAcc { end: seg.end, ..old(out)@.last() })),
        seg.start < seg.end && !(old(out)@.len() > 0 && continues(old(out)@.last(), seg))
            ==> final(out)@ == old(out)@.push(seg),
        final(out)@ == merge_push(old(out)@, seg),
{
    if seg.end <= seg.start {
        return;
    }
    let n = out.len();
    if n > 0 {
        let same = {
            let last = &out[n - 1];
            last.kind == seg.kind && last.entity == seg.entity && opt_eq(&last.title, &seg.title)
                && last.activity == seg.activity && last.end == seg.start
        };
        if same {
            let mut last = out.pop().unwrap();
            last.end = seg.end;
            out.push(last);
            assert(out@ =~= old(out)@.update(
                old(out)@.len() - 1,
                SegmentAcc { end: seg.end, ..old(out)@.last() },
            ));
            return;
        }
    }
    out.push(seg);
}

/// The idle cutoff of the focus walk, in nanoseconds: at least ten seconds.
pub open spec fn focus_cutoff_ns(idle_cutoff_seconds: i64) -> int {
    if idle_cutoff_seconds < 10 {
        10 * NANOS_PER_SECOND
    } else {
        idle_cutoff_seconds * NANOS_PER_SECOND
    }
}

/// The idle cutoff of the audio walk: the focus cutoff, at most two minutes.
pub open spec fn audio_cutoff_ns(idle_cutoff_seconds: i64) -> int {
    if focus_cutoff_ns(idle_cutoff_seconds) < AUDIO_IDLE_CUTOFF_SECONDS * NANOS_PER_SECOND {
        focus_cutoff_ns(idle_cutoff_seconds)
    } else {
        AUDIO_IDLE_CUTOFF_SECONDS * NANOS_PER_SECOND
    }
}

pub fn focus_cutoff(idle_cutoff_seconds: i64) -> (r: i128)
    ensures
        r == focus_cutoff_ns(idle_cutoff_seconds),
        10 * NANOS_PER_SECOND <= r,
{
    let s: i64 = if idle_cutoff_seconds < 10 { 10 } else { idle_cutoff_seconds };
    s as i128 * NANOS_PER_SECOND
}

pub fn audio_cutoff(idle_cutoff_seconds: i64) -> (r: i128)
    ensures
        r == audio_cutoff_ns(idle_cutoff_seconds),
        10 * NANOS_PER_SECOND <= r <= AUDIO_IDLE_CUTOFF_SECONDS * NANOS_PER_SECOND,
{
    let f = focus_cutoff(idle_cutoff_seconds);
    let a: i128 = AUDIO_IDLE_CUTOFF_SECONDS as i128 * NANOS_PER_SECOND;
    if f < a {
        f
    } else {
        a
    }
}

/// What a walk over a stream needs of it: `idx` picks events in increasing positions,
/// the events are in time order and every instant is in range.
pub open spec fn stream_ok(events: Seq<EventForBlocks>, idx: Seq<usize>, now: i128) -> bool {
    &&& sorted_by_ts(events)
    &&& forall|k: int| 0 <= k < events.len() ==> instant_in_range(#[trigger] events[k].ts)
    &&& instant_in_range(now)
    &&& forall|k: int| 0 <= k < idx.len() ==> idx[k] < events.len()
    &&& forall|k: int, l: int| 0 <= k < l < idx.len() ==> idx[k] < idx[l]
}

/// The instant that ends the span of the `i`-th event of a stream: the next event, or `now`.
pub open spec fn next_ts_spec(events: Seq<EventForBlocks>, idx: Seq<usize>, i: int, now: i128) -> i128 {
    if i + 1 < idx.len() {
        events[idx[i + 1] as int].ts
    } else {
        now
    }
}

fn next_ts(events: &[EventForBlocks], idx: &[usize], i: usize, now: i128) -> (r: i128)
    requires
        i < idx@.len(),
        stream_ok(events@, idx@, now),
    ensures
        r == next_ts_spec(events@, idx@, i as int, now),
        instant_in_range(r),
        i + 1 < idx@.len() ==> events@[idx@[i as int] as int].ts <= r,
{
    if i < idx.len() - 1 {
        events[idx[i + 1]].ts
    } else {
        now
    }
}

/// The registers of the timeline's focus walk after event `e`: app focus sets the app and
/// its title, tab focus the domain, its title and when it was seen; any other event of the
/// focus stream sets the app registers.
pub open spec fn timeline_registers(r: FocusRegisters, e: EventForBlocks) -> FocusRegisters {
    match e.kind() {
        EventKind::AppActive => FocusRegisters { app: Some(e.entity), app_title: e.title, ..r },
        EventKind::TabActive => FocusRegisters {
            domain: Some(e.entity),
            domain_title: e.title,
            domain_ts: Some(e.ts),
            ..r
        },
        _ => FocusRegisters { app: Some(e.entity), app_title: e.title, ..r },
    }
}

/// The focus segment `[start, end)` that the registers resolve to at `start`, if any.
pub open spec fn focus_segment(r: FocusRegisters, start: i128, end: i128) -> Option<SegmentAcc> {
    match r.attribution_at(start as int) {
        Attribution::ToDomain => Some(
            SegmentAcc {
                kind: EntityKind::Domain,
                entity: r.domain->0,
                title: r.domain_title,
                activity: Activity::Focus,
                start,
                end,
            },
        ),
        Attribution::ToApp => Some(
            SegmentAcc {
                kind: EntityKind::App,
                entity: r.app->0,
                title: r.app_title,
                activity: Activity::Focus,
                start,
                end,
            },
        ),
        Attribution::Nothing => None,
    }
}

/// The focus walk over the first `n` events of a stream: the registers it leaves and the
/// segments it has emitted. An event whose span is empty is skipped; otherwise it updates
/// the registers, credits its attributed span to what they resolve to, and an idle break
/// after it clears them.
pub open spec fn focus_walk(
    events: Seq<EventForBlocks>,
    idx: Seq<usize>,
    cutoff: i128,
    now: i128,
    n: int,
) -> (FocusRegisters, Seq<SegmentAcc>)
    decreases n,
{
    if n <= 0 {
        (empty_registers(), Seq::empty())
    } else {
        let prev = focus_walk(events, idx, cutoff, now, n - 1);
        let e = events[idx[n - 1] as int];
        let nt = next_ts_spec(events, idx, n - 1, now);
        if nt <= e.ts {
            prev
        } else {
            let r = timeline_registers(prev.0, e);
            let end = (e.ts + span_of(nt - e.ts, cutoff as int, false)) as i128;
            let out = match focus_segment(r, e.ts, end) {
                Some(seg) => merge_push(prev.1, seg),
                None => prev.1,
            };
            (if nt - e.ts > cutoff { empty_registers() } else { r }, out)
        }
    }
}

/// The audio walk over the first `n` events of a stream: each audible tab or audio
/// heartbeat credits its attributed span to its own domain or app; stop markers credit
/// nothing.
pub open spec fn audio_walk(
    events: Seq<EventForBlocks>,
    idx: Seq<usize>,
    cutoff: i128,
    now: i128,
    n: int,
) -> Seq<SegmentAcc>
    decreases n,
{
    if n <= 0 {
        Seq::empty()
    } else {
        let prev = audio_walk(events, idx, cutoff, now, n - 1);
        let e = events[idx[n - 1] as int];
        let nt = next_ts_spec(events, idx, n - 1, now);
        if !(e.kind() == EventKind::TabActive || e.kind() == EventKind::AppAudio) || nt <= e.ts {
            prev
        } else {
            merge_push(
                prev,
                SegmentAcc {
                    kind: if e.kind() == EventKind::TabActive { EntityKind::Domain } else { EntityKind::App },
                    entity: e.entity,
                    title: e.title,
                    activity: Activity::Audio,
                    start: e.ts,
                    end: (e.ts + span_of(nt - e.ts, cutoff as int, true)) as i128,
                },
            )
        }
    }
}

/// Focus segments of the timeline: each focus event credits the span up to the next one
/// (at most the idle cutoff) to what the registers resolve to at the event.
pub fn focus_segments(events: &[EventForBlocks], idx: &[usize], cutoff: i128, now: i128) -> (r: Vec<SegmentAcc>)
    requires
        stream_ok(events@, idx@, now),
        10 * NANOS_PER_SECOND <= cutoff <= 10_000_000_000_000_000_000_000_000_000,
    ensures
        r@ == focus_walk(events@, idx@, cutoff, now, idx@.len() as int).1,
        chained(r@),
        forall|k: int| 0 <= k < r@.len() ==> r@[k].activity == Activity::Focus,
        forall|k: int| 0 <= k < r@.len() ==> instant_in_range(r@[k].start) && instant_in_range(r@[k].end),
{
    let mut out: Vec<SegmentAcc> = Vec::new();
    let mut regs = FocusRegisters::empty();
    let mut i: usize = 0;
    while i < idx.len()
        invariant
            stream_ok(events@, idx@, now),
            10 * NANOS_PER_SECOND <= cutoff <= 10_000_000_000_000_000_000_000_000_000,
            i <= idx@.len(),
            chained(out@),
            forall|k: int| 0 <= k < out@.len() ==> out@[k].activity == Activity::Focus,
            forall|k: int| 0 <= k < out@.len() ==> instant_in_range(out@[k].start) && instant_in_range(out@[k].end),
            i < idx@.len() ==> forall|k: int| 0 <= k < out@.len() ==> out@[k].end <= events@[idx@[i as int] as int].ts,
            regs.domain_ts matches Some(t) ==> instant_in_range(t),
            (regs, out@) == focus_walk(events@, idx@, cutoff, now, i as int),
        decreases idx@.len() - i,
    {
        let cur = &events[idx[i]];
        let nt = next_ts(events, idx, i, now);
        let ghost prev = focus_walk(events@, idx@, cutoff, now, i as int);
        if nt <= cur.ts {
            i = i + 1;
            proof {
                if i < idx@.len() {
                    assert(idx@[i - 1] < idx@[i as int]);
                }
            }
            continue;
        }
        match event_kind(cur.event.as_str()) {
            EventKind::AppActive => {
                regs.app = Some(cur.entity.clone());
                regs.app_title = clone_opt(&cur.title);
            },
            EventKind::TabActive => {
                regs.domain = Some(cur.entity.clone());
                regs.domain_title = clone_opt(&cur.title);
                regs.domain_ts = Some(cur.ts);
            },
            _ => {
                regs.app = Some(cur.entity.clone());
                regs.app_title = clone_opt(&cur.title);
            },
        }
        let raw_gap = nt - cur.ts;
        let seg = span_gap(raw_gap, cutoff, false);
        let seg_end = cur.ts + seg;
        let resolved = regs.attribution(cur.ts);
        let ghost before = out@;
        match resolved {
            Attribution::ToDomain => {
                let d = match &regs.domain {
                    Some(d) => d.clone(),
                    None => String::new(),
                };
                push_or_merge_segment(
                    &mut out,
                    SegmentAcc {
                        kind: EntityKind::Domain,
                        entity: d,
                        title: clone_opt(&regs.domain_title),
                        activity: Activity::Focus,
                        start: cur.ts,
                        end: seg_end,
                    },
                );
            },
            Attribution::ToApp => {
                let a = match &regs.app {
                    Some(a) => a.clone(),
                    None => String::new(),
                };
                push_or_merge_segment(
                    &mut out,
                    SegmentAcc {
                        kind: EntityKind::App,
                        entity: a,
                        title: clone_opt(&regs.app_title),
                        activity: Activity::Focus,
                        start: cur.ts,
                        end: seg_end,
                    },
                );
            },
            Attribution::Nothing => {},
        }
        assert(regs == timeline_registers(prev.0, *cur));
        if raw_gap > cutoff {
            regs = FocusRegisters::empty();
        }
        i = i + 1;
        proof {
            if i < idx@.len() {
                assert(idx@[i - 1] < idx@[i as int]);
            }
        }
    }
    out
}

/// The `j`-th event of the stream is an audible tab or an audio heartbeat at instant `t`.
pub open spec fn heartbeat_at(events: Seq<EventForBlocks>, idx: Seq<usize>, j: int, t: i128) -> bool {
    &&& 0 <= j < idx.len()
    &&& events[idx[j] as int].ts == t
    &&& (events[idx[j] as int].kind() == EventKind::TabActive || events[idx[j] as int].kind()
        == EventKind::AppAudio)
}

/// Some event of the stream is an audible tab or an audio heartbeat at instant `t`.
pub open spec fn starts_at_heartbeat(events: Seq<EventForBlocks>, idx: Seq<usize>, t: i128) -> bool {
    exists|j: int| #[trigger] heartbeat_at(events, idx, j, t)
}

/// Audio segments of the timeline: an audible tab or an audio heartbeat credits the span
/// up to the next audio event (at most the audio cutoff); stop markers credit nothing.
pub fn audio_segments(events: &[EventForBlocks], idx: &[usize], cutoff: i128, now: i128) -> (r: Vec<SegmentAcc>)
    requires
        stream_ok(events@, idx@, now),
        10 * NANOS_PER_SECOND <= cutoff <= AUDIO_IDLE_CUTOFF_SECONDS * NANOS_PER_SECOND,
    ensures
        chained(r@),
        forall|k: int| 0 <= k < r@.len() ==> r@[k].activity == Activity::Audio,
        forall|k: int| 0 <= k < r@.len() ==> instant_in_range(r@[k].start) && instant_in_range(r@[k].end),
        forall|k: int| 0 <= k < r@.len() ==> starts_at_heartbeat(events@, idx@, r@[k].start),
        r@ == audio_walk(events@, idx@, cutoff, now, idx@.len() as int),
{
    let mut out: Vec<SegmentAcc> = Vec::new();
    let mut i: usize = 0;
    while i < idx.len()
        invariant
            stream_ok(events@, idx@, now),
            10 * NANOS_PER_SECOND <= cutoff <= AUDIO_IDLE_CUTOFF_SECONDS * NANOS_PER_SECOND,
            i <= idx@.len(),
            chained(out@),
            forall|k: int| 0 <= k < out@.len() ==> out@[k].activity == Activity::Audio,
            forall|k: int| 0 <= k < out@.len() ==> instant_in_range(out@[k].start) && instant_in_range(out@[k].end),
            i < idx@.len() ==> forall|k: int| 0 <= k < out@.len() ==> out@[k].end <= events@[idx@[i as int] as int].ts,
            forall|k: int| 0 <= k < out@.len() ==> starts_at_heartbeat(events@, idx@, out@[k].start),
            out@ == audio_walk(events@, idx@, cutoff, now, i as int),
        decreases idx@.len() - i,
    {
        let cur = &events[idx[i]];
        let k = event_kind(cur.event.as_str());
        let nt = next_ts(events, idx, i, now);
        let kind = match k {
            EventKind::TabActive => EntityKind::Domain,
            EventKind::AppAudio => EntityKind::App,
            _ => {
                i = i + 1;
                proof {
                    if i < idx@.len() {
                        assert(idx@[i - 1] < idx@[i as int]);
                    }
                }
                continue;
            },
        };
        if nt <= cur.ts {
            i = i + 1;
            proof {
                if i < idx@.len() {
                    assert(idx@[i - 1] < idx@[i as int]);
                }
            }
            continue;
        }
        let seg = span_gap(nt - cur.ts, cutoff, true);
        let ghost before = out@;
        let ghost j = i as int;
        push_or_merge_segment(
            &mut out,
            SegmentAcc {
                kind,
                entity: cur.entity.clone(),
                title: clone_opt(&cur.title),
                activity: Activity::Audio,
                start: cur.ts,
                end: cur.ts + seg,
            },
        );
        proof {
            assert forall|k: int| 0 <= k < out@.len() implies starts_at_heartbeat(events@, idx@, out@[k].start) by {
                if k < before.len() {
                    assert(out@[k].start == before[k].start);
                } else {
                    assert(out@[k].start == cur.ts);
                    assert(heartbeat_at(events@, idx@, j, out@[k].start));
                }
            }
        }
        i = i + 1;
        proof {
            if i < idx@.len() {
                assert(idx@[i - 1] < idx@[i as int]);
            }
        }
    }
    out
}

/// A segment of the day's timeline.
pub struct TimelineSegment {
    pub kind: EntityKind,
    pub entity: String,
    pub title: Option<String>,
    pub activity: Activity,
    /// Nanoseconds since the epoch.
    pub start: i128,
    pub end: i128,
    pub start_ts: String,
    pub end_ts: String,
    pub seconds: i64,
}

/// A timeline segment that reports `seg` faithfully.
pub open spec fn reports(t: TimelineSegment, seg: SegmentAcc) -> bool {
    &&& t.kind == seg.kind
    &&& t.entity@ == seg.entity@
    &&& opt_view(t.title) == opt_view(seg.title)
    &&& t.activity == seg.activity
    &&& t.start == seg.start
    &&& t.end == seg.end
    &&& t.start_ts@ == rfc3339_text(seg.start)
    &&& t.end_ts@ == rfc3339_text(seg.end)
    &&& t.seconds == (seg.end - seg.start) / (NANOS_PER_SECOND as int)
}

fn whole_seconds(start: i128, end: i128) -> (r: i64)
    requires
        instant_in_range(start),
        instant_in_range(end),
        start <= end,
    ensures
        r == (end - start) / (NANOS_PER_SECOND as int),
        r >= 0,
{
    ((end - start) / NANOS_PER_SECOND) as i64
}

fn report_segment(seg: &SegmentAcc) -> (r: TimelineSegment)
    requires
        instant_in_range(seg.start),
        instant_in_range(seg.end),
        seg.start < seg.end,
    ensures
        reports(r, *seg),
{
    TimelineSegment {
        kind: seg.kind,
        entity: seg.entity.clone(),
        title: clone_opt(&seg.title),
        activity: seg.activity,
        start: seg.start,
        end: seg.end,
        start_ts: format_rfc3339(seg.start),
        end_ts: format_rfc3339(seg.end),
        seconds: whole_seconds(seg.start, seg.end),
    }
}

/// A timeline segment that is at least one whole second long and reports its own times.
pub open spec fn segment_ok(t: TimelineSegment) -> bool {
    &&& t.seconds > 0
    &&& t.start < t.end
    &&& t.seconds == (t.end - t.start) / (NANOS_PER_SECOND as int)
    &&& t.start_ts@ == rfc3339_text(t.start)
    &&& t.end_ts@ == rfc3339_text(t.end)
}

/// Two time-ordered segment lists merged by start, the first list first on a tie (what a
/// stable sort of their concatenation gives).
pub open spec fn merged(f: Seq<SegmentAcc>, a: Seq<SegmentAcc>) -> Seq<SegmentAcc>
    decreases f.len() + a.len(),
{
    if f.len() == 0 {
        a
    } else if a.len() == 0 {
        f
    } else if f[0].start <= a[0].start {
        seq![f[0]] + merged(f.drop_first(), a)
    } else {
        seq![a[0]] + merged(f, a.drop_first())
    }
}

/// The segments that last at least one whole second.
pub open spec fn kept(s: Seq<SegmentAcc>) -> Seq<SegmentAcc>
    decreases s.len(),
{
    if s.len() == 0 {
        s
    } else {
        (if (s[0].end - s[0].start) / (NANOS_PER_SECOND as int) > 0 {
            seq![s[0]]
        } else {
            Seq::empty()
        }) + kept(s.drop_first())
    }
}

pub open spec fn timeline_ok(r: Seq<TimelineSegment>) -> bool {
    &&& forall|k: int, l: int| 0 <= k < l < r.len() ==> r[k].start <= r[l].start
    &&& forall|k: int| 0 <= k < r.len() ==> segment_ok(#[trigger] r[k])
}

fn push_reported(out: &mut Vec<TimelineSegment>, seg: &SegmentAcc)
    requires
        instant_in_range(seg.start),
        instant_in_range(seg.end),
        seg.start < seg.end,
        timeline_ok(old(out)@),
        old(out)@.len() > 0 ==> old(out)@.last().start <= seg.start,
    ensures
        timeline_ok(final(out)@),
        final(out)@.len() > 0 ==> final(out)@.last().start <= seg.start,
        if (seg.end - seg.start) / (NANOS_PER_SECOND as int) > 0 {
            final(out)@.len() == old(out)@.len() + 1 && final(out)@.subrange(0, old(out)@.len() as int) == old(out)@ && reports(final(out)@.last(), *seg)
        } else {
            final(out)@ == old(out)@
        },
{
    let t = report_segment(seg);
    if t.seconds > 0 {
        let ghost before = out@;
        out.push(t);
        assert(out@.subrange(0, before.len() as int) =~= before);
        assert(segment_ok(out@.last()));
        assert forall|k: int| 0 <= k < out@.len() implies segment_ok(#[trigger] out@[k]) by {
            if k < before.len() {
                assert(out@[k] == before[k]);
            }
        }
        assert forall|k: int, l: int| 0 <= k < l < out@.len() implies out@[k].start <= out@[l].start by {
            if l < before.len() {
                assert(out@[k] == before[k]);
                assert(out@[l] == before[l]);
            } else {
                assert(out@[k] == before[k]);
                assert(before[k].start <= before.last().start);
            }
        }
    }
}

#[verifier::rlimit(30)]
/// The day's timeline: focus and audio segments in order of their start, focus first on
/// a tie, those shorter than a whole second left out.
pub fn build_timeline_segments(events: &[EventForBlocks], settings: crate::settings::Settings, now: i128) -> (r: Vec<TimelineSegment>)
    requires
        sorted_by_ts(events@),
        forall|k: int| 0 <= k < events@.len() ==> instant_in_range(#[trigger] events@[k].ts),
        instant_in_range(now),
    ensures
        timeline_ok(r@),
        events@.len() == 0 ==> r@.len() == 0,
        events@.len() > 0 ==> ({
            let fc = focus_cutoff_ns(settings.idle_cutoff_seconds) as i128;
            let ac = audio_cutoff_ns(settings.idle_cutoff_seconds) as i128;
            let fi = stream_of(events@, false, events@.len() as int);
            let ai = stream_of(events@, true, events@.len() as int);
            let segs = kept(merged(focus_walk(events@, fi, fc, now, fi.len() as int).1, audio_walk(events@, ai, ac, now, ai.len() as int)));
            &&& r@.len() == segs.len()
            &&& forall|k: int| 0 <= k < r@.len() ==> reports(#[trigger] r@[k], segs[k])
        }),
{
    let mut out: Vec<TimelineSegment> = Vec::new();
    if events.len() == 0 {
        return out;
    }
    let (focus_idx, audio_idx) = split_streams(events);
    let fc = focus_cutoff(settings.idle_cutoff_seconds);
    let ac = audio_cutoff(settings.idle_cutoff_seconds);
    let focus = focus_segments(events, focus_idx.as_slice(), fc, now);
    let audio = audio_segments(events, audio_idx.as_slice(), ac, now);
    let mut i: usize = 0;
    let mut j: usize = 0;
    let ghost all = kept(merged(focus@, audio@));
    let ghost mut done: Seq<SegmentAcc> = Seq::empty();
    assert(focus@.subrange(0, focus@.len() as int) =~= focus@);
    assert(audio@.subrange(0, audio@.len() as int) =~= audio@);
    while i < focus.len() || j < audio.len()
        invariant
            all == kept(merged(focus@, audio@)),
            done + kept(merged(focus@.subrange(i as int, focus@.len() as int), audio@.subrange(j as int, audio@.len() as int))) == all,
            out@.len() == done.len(),
            forall|k: int| 0 <= k < out@.len() ==> reports(#[trigger] out@[k], done[k]),
            chained(focus@),
            chained(audio@),
            forall|k: int| 0 <= k < focus@.len() ==> instant_in_range(focus@[k].start) && instant_in_range(focus@[k].end),
            forall|k: int| 0 <= k < audio@.len() ==> instant_in_range(audio@[k].start) && instant_in_range(audio@[k].end),
            i <= focus@.len(),
            j <= audio@.len(),
            timeline_ok(out@),
            out@.len() > 0 && i < focus@.len() ==> out@.last().start <= focus@[i as int].start,
            out@.len() > 0 && j < audio@.len() ==> out@.last().start <= audio@[j as int].start,
        decreases focus@.len() - i + audio@.len() - j,
    {
        let take_focus = j == audio.len() || (i < focus.len() && focus[i].start <= audio[j].start);
        let ghost fr = focus@.subrange(i as int, focus@.len() as int);
        let ghost ar = audio@.subrange(j as int, audio@.len() as int);
        let ghost prev_out = out@;
        if take_focus {
            assert(focus@[i as int].start < focus@[i as int].end);
            push_reported(&mut out, &focus[i]);
            proof {
                let x = focus@[i as int];
                assert(fr.drop_first() =~= focus@.subrange(i + 1, focus@.len() as int));
                if ar.len() == 0 {
                    assert(merged(fr, ar) == fr);
                    assert(merged(fr.drop_first(), ar) == fr.drop_first());
                    assert(fr =~= seq![x] + fr.drop_first());
                } else {
                    assert(merged(fr, ar) == seq![x] + merged(fr.drop_first(), ar));
                }
                lemma_kept_cons(x, merged(fr.drop_first(), ar));
                let add = if (x.end - x.start) / (NANOS_PER_SECOND as int) > 0 { seq![x] } else { Seq::<SegmentAcc>::empty() };
                assert(done + add + kept(merged(fr.drop_first(), ar)) =~= done + (add + kept(merged(fr.drop_first(), ar))));
                done = done + add;
                assert forall|k: int| 0 <= k < out@.len() implies reports(#[trigger] out@[k], done[k]) by {
                    if k < prev_out.len() {
                        assert(out@[k] == out@.subrange(0, prev_out.len() as int)[k]);
                    }
                }
            }
            i = i + 1;
            proof {
                if i < focus@.len() {
                    assert(focus@[i - 1].end <= focus@[i as int].start);
                    assert(focus@[i - 1].start < focus@[i - 1].end);
                }
            }
        } else {
            assert(audio@[j as int].start < audio@[j as int].end);
            push_reported(&mut out, &audio[j]);
            proof {
                let x = audio@[j as int];
                assert(ar.drop_first() =~= audio@.subrange(j + 1, audio@.len() as int));
                if fr.len() == 0 {
                    assert(merged(fr, ar) == ar);
                    assert(merged(fr, ar.drop_first()) == ar.drop_first());
                    assert(ar =~= seq![x] + ar.drop_first());
                } else {
                    assert(merged(fr, ar) == seq![x] + merged(fr, ar.drop_first()));
                }
                lemma_kept_cons(x, merged(fr, ar.drop_first()));
                let add = if (x.end - x.start) / (NANOS_PER_SECOND as int) > 0 { seq![x] } else { Seq::<SegmentAcc>::empty() };
                assert(done + add + kept(merged(fr, ar.drop_first())) =~= done + (add + kept(merged(fr, ar.drop_first()))));
                done = done + add;
                assert forall|k: int| 0 <= k < out@.len() implies reports(#[trigger] out@[k], done[k]) by {
                    if k < prev_out.len() {
                        assert(out@[k] == out@.subrange(0, prev_out.len() as int)[k]);
                    }
                }
            }
            j = j + 1;
            proof {
                if j < audio@.len() {
                    assert(audio@[j - 1].end <= audio@[j as int].start);
                    assert(audio@[j - 1].start < audio@[j - 1].end);
                }
            }
        }
    }
    proof {
        assert(focus@.subrange(i as int, focus@.len() as int) =~= Seq::<SegmentAcc>::empty());
        assert(audio@.subrange(j as int, audio@.len() as int) =~= Seq::<SegmentAcc>::empty());
        assert(kept(Seq::<SegmentAcc>::empty()) =~= Seq::<SegmentAcc>::empty());
        assert(done =~= all);
    }
    out
}

proof fn lemma_kept_cons(x: SegmentAcc, rest: Seq<SegmentAcc>)
    ensures
        kept(seq![x] + rest) == (if (x.end - x.start) / (NANOS_PER_SECOND as int) > 0 {
            seq![x]
        } else {
            Seq::<SegmentAcc>::empty()
        }) + kept(rest),
{
    assert((seq![x] + rest).drop_first() =~= rest);
    assert((seq![x] + rest)[0] == x);
}

} // verus!
