//! The top targets of a day, as the report generator reads them.
use vstd::prelude::*;
use crate::attribution::{basename, basename_of, is_browser_app, is_browser_app_spec, normalize_web_title, normalized_web_title, Activity, EntityKind, TimelineSegment};
use crate::export::append;
use crate::events::opt_view;
use crate::privacy::{is_blocked_domain, blocked_domain_spec, holds};
use crate::reports::{display_entity, display_entity_spec, extract_vscode_workspace, vscode_workspace};
use crate::text::{chars_of, string_of, str_eq, to_lower, lower_of, trimmed, trim_str};

verus! {

/// Time on one target over a day.
pub struct AggregateItem {
    pub kind: EntityKind,
    pub entity: String,
    pub label: String,
    pub subtitle: Option<String>,
    pub seconds: i64,
    pub blocked: bool,
    pub audio: bool,
}

/// The code of a character with ASCII capitals lowered.
pub open spec fn ascii_lower(c: char) -> u32 {
    if 'A' <= c <= 'Z' {
        (c as u32 + 32) as u32
    } else {
        c as u32
    }
}

fn ascii_lower_exec(c: char) -> (r: u32)
    ensures
        r == ascii_lower(c),
{
    if 'A' <= c && c <= 'Z' {
        c as u32 + 32
    } else {
        c as u32
    }
}

/// Equal but for the case of ASCII letters, as `str::eq_ignore_ascii_case` compares.
pub open spec fn eq_ascii_case(a: Seq<char>, b: Seq<char>) -> bool {
    a.len() == b.len() && forall|i: int| 0 <= i < a.len() ==> ascii_lower(#[trigger] a[i]) == ascii_lower(b[i])
}

pub fn eq_ignore_ascii_case(a: &str, b: &str) -> (r: bool)
    ensures
        r == eq_ascii_case(a@, b@),
{
    let ac = chars_of(a);
    let bc = chars_of(b);
    if ac.len() != bc.len() {
        return false;
    }
    let mut i: usize = 0;
    while i < ac.len()
        invariant
            ac@ == a@,
            bc@ == b@,
            ac@.len() == bc@.len(),
            i <= ac@.len(),
            forall|k: int| 0 <= k < i ==> ascii_lower(#[trigger] ac@[k]) == ascii_lower(bc@[k]),
        decreases ac@.len() - i,
    {
        if ascii_lower_exec(ac[i]) != ascii_lower_exec(bc[i]) {
            return false;
        }
        i = i + 1;
    }
    true
}

pub open spec fn sorted_items(s: Seq<AggregateItem>) -> bool {
    forall|i: int, j: int| 0 <= i < j < s.len() ==> s[i].seconds >= s[j].seconds
}

pub open spec fn item_ok(it: AggregateItem, audio: bool) -> bool {
    it.audio == audio && it.seconds > 0
}

pub open spec fn among_items(x: AggregateItem, s: Seq<AggregateItem>) -> bool {
    exists|j: int| 0 <= j < s.len() && s[j] == x
}

fn sort_items_desc(items: Vec<AggregateItem>, Ghost(audio): Ghost<bool>) -> (r: Vec<AggregateItem>)
    requires
        forall|i: int| 0 <= i < items@.len() ==> item_ok(#[trigger] items@[i], audio),
    ensures
        sorted_items(r@),
        r@.len() == items@.len(),
        forall|i: int| 0 <= i < r@.len() ==> item_ok(#[trigger] r@[i], audio),
        forall|i: int| 0 <= i < r@.len() ==> among_items(r@[i], items@),
{
    let ghost orig = items@;
    let mut items = items;
    let mut out: Vec<AggregateItem> = Vec::new();
    assert forall|i: int| 0 <= i < items@.len() implies among_items(items@[i], orig) by {
        assert(orig[i] == items@[i]);
    }
    let ghost n = items@.len();
    while items.len() > 0
        invariant
            sorted_items(out@),
            out@.len() + items@.len() == n,
            forall|i: int| 0 <= i < items@.len() ==> item_ok(#[trigger] items@[i], audio),
            forall|i: int| 0 <= i < out@.len() ==> item_ok(#[trigger] out@[i], audio),
            forall|i: int| 0 <= i < out@.len() ==> among_items(out@[i], orig),
            forall|i: int| 0 <= i < items@.len() ==> among_items(items@[i], orig),
        decreases items@.len(),
    {
        let ghost before = items@;
        let x = items.remove(0);
        assert(item_ok(before[0], audio));
        assert forall|i: int| 0 <= i < items@.len() implies item_ok(#[trigger] items@[i], audio) by {
            assert(items@[i] == before[i + 1]);
        }
        assert(among_items(before[0], orig));
        assert forall|i: int| 0 <= i < items@.len() implies among_items(items@[i], orig) by {
            assert(items@[i] == before[i + 1]);
            assert(among_items(before[i + 1], orig));
        }
        let mut p: usize = 0;
        while p < out.len() && out[p].seconds >= x.seconds
            invariant
                p <= out@.len(),
                forall|i: int| 0 <= i < p ==> out@[i].seconds >= x.seconds,
            decreases out@.len() - p,
        {
            p = p + 1;
        }
        let ghost prev = out@;
        out.insert(p, x);
        assert forall|i: int| 0 <= i < out@.len() implies item_ok(#[trigger] out@[i], audio) by {
            if i < p {
                assert(out@[i] == prev[i]);
            } else if i > p {
                assert(out@[i] == prev[i - 1]);
            }
        }
        assert forall|i: int| 0 <= i < out@.len() implies among_items(out@[i], orig) by {
            if i < p {
                assert(out@[i] == prev[i]);
                assert(among_items(prev[i], orig));
            } else if i > p {
                assert(out@[i] == prev[i - 1]);
                assert(among_items(prev[i - 1], orig));
            }
        }
        assert forall|i: int, j: int| 0 <= i < j < out@.len() implies out@[i].seconds >= out@[j].seconds by {
            if j < p {
            } else if j == p {
            } else if i < p {
                assert(out@[j] == prev[j - 1]);
            } else if i == p {
                assert(out@[j] == prev[j - 1]);
                assert(prev[p as int].seconds < x.seconds);
                assert(prev[p as int].seconds >= prev[j - 1].seconds || p == j - 1);
            } else {
                assert(out@[j] == prev[j - 1]);
                assert(out@[i] == prev[i - 1]);
            }
        }
    }
    out
}

fn saturating_add(a: i64, b: i64) -> (r: i64)
    requires
        a >= 0,
        b >= 0,
    ensures
        r == if a + b > i64::MAX { i64::MAX as int } else { a + b },
{
    if a > i64::MAX - b {
        i64::MAX
    } else {
        a + b
    }
}

fn position_of(keys: &Vec<String>, key: &str) -> (r: Option<usize>)
    ensures
        r matches Some(j) ==> j < keys@.len() && keys@[j as int]@ == key@,
        r is None ==> forall|k: int| 0 <= k < keys@.len() ==> keys@[k]@ != key@,
{
    let mut j: usize = 0;
    while j < keys.len()
        invariant
            j <= keys@.len(),
            forall|k: int| 0 <= k < j ==> keys@[k]@ != key@,
        decreases keys@.len() - j,
    {
        if str_eq(keys[j].as_str(), key) {
            return Some(j);
        }
        j = j + 1;
    }
    None
}

fn holds_str(set: &[String], x: &str) -> (r: bool)
    ensures
        r == holds(set@, x@),
{
    let mut j: usize = 0;
    while j < set.len()
        invariant
            j <= set@.len(),
            forall|k: int| 0 <= k < j ==> (#[trigger] set@[k])@ != x@,
        decreases set@.len() - j,
    {
        if str_eq(set[j].as_str(), x) {
            return true;
        }
        j = j + 1;
    }
    false
}

/// The subtitle of an app target: for VS Code the workspace named in its window title,
/// for other apps that are not browsers the title itself; none when titles are not kept.
pub open spec fn app_subtitle_spec(entity: Seq<char>, title: Option<Seq<char>>, store_titles: bool) -> Option<Seq<char>> {
    if !store_titles || is_browser_app_spec(entity) {
        None
    } else {
        let raw = match title {
            Some(t) => trimmed(t),
            None => Seq::empty(),
        };
        if raw.len() == 0 {
            None
        } else if eq_ascii_case(basename(entity), "code.exe"@) {
            match vscode_workspace(raw) {
                Some(ws) => Some("Workspace: "@ + ws),
                None => Some(raw),
            }
        } else {
            Some(raw)
        }
    }
}

fn app_subtitle(entity: &str, title: &Option<String>, store_titles: bool) -> (r: Option<String>)
    ensures
        opt_view(r) == app_subtitle_spec(entity@, opt_view(*title), store_titles),
{
    if !store_titles || is_browser_app(entity) {
        return None;
    }
    let raw = match title {
        Some(t) => trim_str(t.as_str()),
        None => String::new(),
    };
    if raw.as_str().unicode_len() == 0 {
        return None;
    }
    let base = basename_of(entity);
    if eq_ignore_ascii_case(base.as_str(), "code.exe") {
        match extract_vscode_workspace(raw.as_str()) {
            Some(ws) => {
                let mut out = chars_of("Workspace: ");
                let wc = chars_of(ws.as_str());
                append(&mut out, wc.as_slice());
                Some(string_of(out.as_slice()))
            },
            None => Some(raw),
        }
    } else {
        Some(raw)
    }
}

/// What a target reports: kind, entity, label, subtitle, seconds, blocked.
pub type TargetView = (EntityKind, Seq<char>, Seq<char>, Option<Seq<char>>, int, bool);

pub open spec fn target_view(it: AggregateItem) -> TargetView {
    (it.kind, it.entity@, it.label@, opt_view(it.subtitle), it.seconds as int, it.blocked)
}

/// The target that a segment counts for, with its key, if it counts: segments of the
/// requested activity with time and a non-blank entity. A domain is lower-cased and, when
/// titles are kept and its normalised title is not blank, keyed and labelled by that title;
/// otherwise it is labelled by its display name. An app is labelled by its display name.
pub open spec fn segment_target(
    s: TimelineSegment,
    store_titles: bool,
    audio: bool,
    blocked_apps: Seq<String>,
    blocked_domains: Seq<String>,
) -> Option<(Seq<char>, TargetView)> {
    if (s.activity == Activity::Audio) != audio || s.seconds <= 0 || trimmed(s.entity@).len() == 0 {
        None
    } else {
        match s.kind {
            EntityKind::Domain => {
                let entity = lower_of(trimmed(s.entity@));
                let tn = trimmed(
                    match s.title {
                        Some(t) => normalized_web_title(entity, t@),
                        None => Seq::empty(),
                    },
                );
                let blocked = blocked_domain_spec(entity, blocked_domains);
                if store_titles && tn.len() > 0 {
                    Some(("domain|"@ + entity + "|"@ + tn, (EntityKind::Domain, entity, tn, Some(entity), s.seconds as int, blocked)))
                } else {
                    Some(("domain|"@ + entity, (EntityKind::Domain, entity, display_entity_spec(entity), None, s.seconds as int, blocked)))
                }
            },
            EntityKind::App => {
                let entity = trimmed(s.entity@);
                Some((
                    "app|"@ + entity,
                    (EntityKind::App, entity, display_entity_spec(entity), app_subtitle_spec(entity, opt_view(s.title), store_titles), s.seconds as int, holds(blocked_apps, entity)),
                ))
            },
        }
    }
}

pub open spec fn add_seconds(v: TargetView, secs: int) -> TargetView {
    (v.0, v.1, v.2, v.3, if v.4 + secs > i64::MAX { i64::MAX as int } else { v.4 + secs }, v.5)
}

pub open spec fn has_target(acc: Seq<(Seq<char>, TargetView)>, k: Seq<char>) -> bool {
    exists|j: int| 0 <= j < acc.len() && (#[trigger] acc[j]).0 == k
}

/// The targets of the first `n` segments, in order of first appearance: the first segment
/// of a target gives its label and subtitle, and the seconds of all of them are summed
/// (saturating).
pub open spec fn target_walk(
    segs: Seq<TimelineSegment>,
    store_titles: bool,
    audio: bool,
    blocked_apps: Seq<String>,
    blocked_domains: Seq<String>,
    n: int,
) -> Seq<(Seq<char>, TargetView)>
    decreases n,
{
    if n <= 0 {
        Seq::empty()
    } else {
        let acc = target_walk(segs, store_titles, audio, blocked_apps, blocked_domains, n - 1);
        match segment_target(segs[n - 1], store_titles, audio, blocked_apps, blocked_domains) {
            None => acc,
            Some(t) => if has_target(acc, t.0) {
                let j = choose|j: int| 0 <= j < acc.len() && (#[trigger] acc[j]).0 == t.0;
                acc.update(j, (t.0, add_seconds(acc[j].1, t.1.4)))
            } else {
                acc.push(t)
            },
        }
    }
}

/// Whether a target of the walk reports as `v`.
pub open spec fn reports_target(w: Seq<(Seq<char>, TargetView)>, v: TargetView) -> bool {
    exists|j: int| 0 <= j < w.len() && w[j].1 == v
}

/// The targets of the focus (or, with `audio`, the background-audio) segments, with
/// their seconds summed per target, largest first, at most `limit` of them.
pub fn aggregate_top_from_segments(
    segments: &[TimelineSegment],
    store_titles: bool,
    audio: bool,
    blocked_apps: &[String],
    blocked_domains: &[String],
    limit: usize,
) -> (r: Vec<AggregateItem>)
    ensures
        sorted_items(r@),
        ({
            let w = target_walk(segments@, store_titles, audio, blocked_apps@, blocked_domains@, segments@.len() as int);
            &&& r@.len() == if w.len() < limit { w.len() } else { limit as nat }
            &&& forall|i: int| 0 <= i < r@.len() ==> reports_target(w, target_view(#[trigger] r@[i]))
        }),
        forall|i: int| 0 <= i < r@.len() ==> (#[trigger] r@[i]).audio == audio && r@[i].seconds > 0,
{
    let mut keys: Vec<String> = Vec::new();
    let mut items: Vec<AggregateItem> = Vec::new();
    let mut i: usize = 0;
    while i < segments.len()
        invariant
            i <= segments@.len(),
            keys@.len() == items@.len(),
            forall|k: int| 0 <= k < items@.len() ==> item_ok(#[trigger] items@[k], audio),
            ({
                let w = target_walk(segments@, store_titles, audio, blocked_apps@, blocked_domains@, i as int);
                &&& w.len() == items@.len()
                &&& forall|k: int| 0 <= k < w.len() ==> (#[trigger] w[k]).0 == keys@[k]@ && w[k].1 == target_view(items@[k])
            }),
            forall|a: int, b: int| 0 <= a < b < keys@.len() ==> keys@[a]@ != keys@[b]@,
        decreases segments@.len() - i,
    {
        let ghost w = target_walk(segments@, store_titles, audio, blocked_apps@, blocked_domains@, i as int);
        let s = &segments[i];
        let ghost tgt = segment_target(*s, store_titles, audio, blocked_apps@, blocked_domains@);
        assert(target_walk(segments@, store_titles, audio, blocked_apps@, blocked_domains@, i + 1) == match tgt {
            None => w,
            Some(t) => if has_target(w, t.0) {
                let j = choose|j: int| 0 <= j < w.len() && (#[trigger] w[j]).0 == t.0;
                w.update(j, (t.0, add_seconds(w[j].1, t.1.4)))
            } else {
                w.push(t)
            },
        });
        i = i + 1;
        let is_audio = s.activity == Activity::Audio;
        if audio != is_audio || s.seconds <= 0 {
            continue;
        }
        let raw = trim_str(s.entity.as_str());
        if raw.as_str().unicode_len() == 0 {
            continue;
        }
        let (key, item) = match s.kind {
            EntityKind::Domain => {
                let entity = to_lower(raw.as_str());
                let title_norm = match &s.title {
                    Some(t) => normalize_web_title(entity.as_str(), t.as_str()),
                    None => String::new(),
                };
                let tn = trim_str(title_norm.as_str());
                let mut key = chars_of("domain|");
                let ec = chars_of(entity.as_str());
                append(&mut key, ec.as_slice());
                let blocked = is_blocked_domain(entity.as_str(), blocked_domains);
                if store_titles && tn.as_str().unicode_len() > 0 {
                    append(&mut key, chars_of("|").as_slice());
                    append(&mut key, chars_of(tn.as_str()).as_slice());
                    let item = AggregateItem {
                        kind: EntityKind::Domain,
                        subtitle: Some(entity.clone()),
                        entity,
                        label: tn,
                        seconds: s.seconds,
                        blocked,
                        audio,
                    };
                    (string_of(key.as_slice()), item)
                } else {
                    let label = display_entity(entity.as_str());
                    let item = AggregateItem { kind: EntityKind::Domain, entity, label, subtitle: None, seconds: s.seconds, blocked, audio };
                    (string_of(key.as_slice()), item)
                }
            },
            EntityKind::App => {
                let label = display_entity(raw.as_str());
                let subtitle = app_subtitle(raw.as_str(), &s.title, store_titles);
                let blocked = holds_str(blocked_apps, raw.as_str());
                let mut key = chars_of("app|");
                append(&mut key, chars_of(raw.as_str()).as_slice());
                let item = AggregateItem { kind: EntityKind::App, entity: raw, label, subtitle, seconds: s.seconds, blocked, audio };
                (string_of(key.as_slice()), item)
            },
        };
        assert(tgt == Some((key@, target_view(item))));
        let pos = position_of(&keys, key.as_str());
        if let Some(j) = pos {
            let ghost before = items@;
            proof {
                let c = choose|c: int| 0 <= c < w.len() && (#[trigger] w[c]).0 == key@;
                assert(w[j as int].0 == key@);
                if c != j {
                    assert(keys@[c]@ == keys@[j as int]@);
                }
            }
            let mut old_item = items.remove(j);
            assert(item_ok(before[j as int], audio));
            old_item.seconds = saturating_add(old_item.seconds, item.seconds);
            items.insert(j, old_item);
            assert forall|k: int| 0 <= k < items@.len() implies item_ok(#[trigger] items@[k], audio) by {
                if k != j {
                    assert(items@[k] == before[k]);
                }
            }
        } else {
            proof {
                assert(!has_target(w, key@)) by {
                    if has_target(w, key@) {
                        let c = choose|c: int| 0 <= c < w.len() && (#[trigger] w[c]).0 == key@;
                        assert(keys@[c]@ == key@);
                    }
                }
            }
            let ghost old_keys = keys@;
            keys.push(key);
            items.push(item);
            assert forall|a: int, b: int| 0 <= a < b < keys@.len() implies keys@[a]@ != keys@[b]@ by {
                if b < old_keys.len() {
                    assert(keys@[a] == old_keys[a] && keys@[b] == old_keys[b]);
                } else {
                    assert(keys@[a] == old_keys[a]);
                }
            }
            assert forall|k: int| 0 <= k < target_walk(segments@, store_titles, audio, blocked_apps@, blocked_domains@, i as int).len() implies (#[trigger] target_walk(segments@, store_titles, audio, blocked_apps@, blocked_domains@, i as int)[k]).0 == keys@[k]@ && target_walk(segments@, store_titles, audio, blocked_apps@, blocked_domains@, i as int)[k].1 == target_view(items@[k]) by {
                if k < old_keys.len() {
                    assert(keys@[k] == old_keys[k]);
                }
            }
        }
    }
    let ghost walked = items@;
    let mut sorted = sort_items_desc(items, Ghost(audio));
    let ghost full = sorted@;
    sorted.truncate(limit);
    assert forall|i: int| 0 <= i < sorted@.len() implies (#[trigger] sorted@[i]).audio == audio && sorted@[i].seconds > 0 by {
        assert(sorted@[i] == full[i]);
        assert(item_ok(full[i], audio));
    }
    proof {
        let w = target_walk(segments@, store_titles, audio, blocked_apps@, blocked_domains@, segments@.len() as int);
        assert forall|i: int| 0 <= i < sorted@.len() implies reports_target(w, target_view(#[trigger] sorted@[i])) by {
            assert(sorted@[i] == full[i]);
            assert(among_items(full[i], walked));
            let j = choose|j: int| 0 <= j < walked.len() && walked[j] == full[i];
            assert(w[j].1 == target_view(walked[j]));
            assert(reports_target(w, target_view(sorted@[i])));
        }
    }
    sorted
}

} // verus!
