use recorder_core::attribution::EntityKind;
use recorder_core::blocks::{BlockSummary, TopItem};
use recorder_core::events::{event_record_from_row, parse_activity_from_payload, EventForBlocks, EventRecord, EventRow};
use recorder_core::export::{csv_escape, export_csv, export_markdown, fmt_duration, fmt_hhmm, CSV_HEADER};
use recorder_core::ingest::{plan_ingest, validate_event, IngestError, IngestEvent, IngestOutcome, PayloadEdit, PayloadKey, PayloadShape};
use recorder_core::now::{clamp_scan_limit, reduce_now, NowInput};
use recorder_core::privacy::{apply_privacy_to_event, blocked_sets, hide_for_reads, is_blocked_domain, privacy_kind_for_event, PrivacyDecision, PrivacyIndex, PrivacyRuleRow};
use recorder_core::review::{block_is_reviewed, block_summary_is_reviewed, find_due_block, BlockReview};
use recorder_core::settings::{default_limit, default_now_limit, default_reports_limit, privacy_level_label, ReportSettings, Settings, DEFAULT_DAILY_PROMPT};
use recorder_core::tracking::{check_pause, pause_until, tracking_is_paused, PauseCheck, PauseError};

const NS: i128 = 1_000_000_000;

fn parse_rfc3339(s: &str) -> Option<i128> {
    time::OffsetDateTime::parse(s, &time::format_description::well_known::Rfc3339).ok().map(|t| t.unix_timestamp_nanos())
}

fn format_rfc3339(t: i128) -> String {
    time::OffsetDateTime::from_unix_timestamp_nanos(t)
        .ok()
        .and_then(|v| v.format(&time::format_description::well_known::Rfc3339).ok())
        .unwrap_or_default()
}

fn t0() -> i128 {
    parse_rfc3339("2026-02-15T00:00:00Z").unwrap()
}

fn settings() -> Settings {
    Settings {
        block_seconds: 2700,
        idle_cutoff_seconds: 300,
        store_titles: true,
        store_exe_path: false,
        review_min_seconds: 300,
        review_notify_repeat_minutes: 10,
        review_notify_when_paused: false,
        review_notify_when_idle: false,
    }
}

fn rule(kind: &str, value: &str, action: &str) -> PrivacyRuleRow {
    PrivacyRuleRow { id: 1, kind: kind.to_string(), value: value.to_string(), action: action.to_string(), created_at: String::new() }
}

fn review() -> BlockReview {
    BlockReview { skipped: false, skip_reason: None, doing: None, output: None, next: None, tags: Vec::new(), updated_at: "u".to_string() }
}

fn block(start: i128, end: i128, total: i64) -> BlockSummary {
    BlockSummary {
        id: format_rfc3339(start),
        start_ts: format_rfc3339(start),
        end_ts: format_rfc3339(end),
        start,
        end,
        total_seconds: total,
        top_items: Vec::new(),
        background_top_items: Vec::new(),
        background_seconds: None,
        review: None,
    }
}

fn ingest(v: i32, ts: &str, event: &str, domain: Option<&str>, app: Option<&str>) -> IngestEvent {
    IngestEvent {
        v,
        ts: ts.to_string(),
        source: "test".to_string(),
        event: event.to_string(),
        domain: domain.map(|s| s.to_string()),
        app: app.map(|s| s.to_string()),
        title: Some("T".to_string()),
    }
}

const OBJ: PayloadShape = PayloadShape { is_object: true, has_domain: true, has_app: false };

#[test]
fn review_doneness_single_fields() {
    let mut r = review();
    assert!(!block_is_reviewed(&r));
    r.doing = Some("   ".to_string());
    assert!(!block_is_reviewed(&r));
    r.doing = Some("x".to_string());
    assert!(block_is_reviewed(&r));
    let mut r = review();
    r.next = Some("n".to_string());
    assert!(block_is_reviewed(&r));
    let mut r = review();
    r.tags.push("t".to_string());
    assert!(block_is_reviewed(&r));
    let mut r = review();
    r.skipped = true;
    assert!(block_is_reviewed(&r));
    let mut b = block(t0(), t0() + 60 * NS, 60);
    assert!(!block_summary_is_reviewed(&b));
    b.review = Some(r);
    assert!(block_summary_is_reviewed(&b));
}

#[test]
fn scenario_d_due_selector_last_block_grace() {
    let b1 = block(t0(), t0() + 2700 * NS, 2700);
    let b2 = block(t0() + 2700 * NS, t0() + 3300 * NS, 600);
    let now = t0() + 3320 * NS;
    let due = find_due_block(&[b1, b2], settings(), now).unwrap();
    assert_eq!(due.start, t0());
}

#[test]
fn due_selector_takes_last_block_after_grace() {
    let b1 = block(t0(), t0() + 2700 * NS, 2700);
    let b2 = block(t0() + 2700 * NS, t0() + 3300 * NS, 600);
    let now = t0() + 3331 * NS;
    let due = find_due_block(&[b1, b2], settings(), now).unwrap();
    assert_eq!(due.start, t0() + 2700 * NS);
    let mut b3 = block(t0(), t0() + 2700 * NS, 2700);
    b3.review = Some(BlockReview { skipped: true, ..review() });
    let short = block(t0() + 2700 * NS, t0() + 2800 * NS, 100);
    assert!(find_due_block(&[b3, short], settings(), now).is_none());
    assert!(find_due_block(&[], settings(), now).is_none());
}

#[test]
fn scenario_f_pause_acknowledges_but_drops() {
    let now = t0();
    let until = pause_until(None, Some(5), now).unwrap().unwrap();
    assert_eq!(until, "2026-02-15T00:05:00Z");
    let c = check_pause(true, Some(&until), now + 60 * NS);
    assert_eq!(c, PauseCheck::Paused);
    let idx = PrivacyIndex::new();
    let e = ingest(1, "2026-02-15T00:01:00Z", "app_active", None, Some("code.exe"));
    assert!(matches!(plan_ingest(&e, tracking_is_paused(c), &idx, settings(), OBJ), Ok(IngestOutcome::Ignore)));
    let c = check_pause(true, Some(&until), now + 300 * NS);
    assert_eq!(c, PauseCheck::ResumeNow);
    assert!(!tracking_is_paused(c));
    assert_eq!(check_pause(true, Some("garbage"), now), PauseCheck::ResumeNow);
    assert_eq!(check_pause(false, None, now), PauseCheck::Active);
    assert_eq!(check_pause(true, None, now), PauseCheck::Paused);
}

#[test]
fn pause_requests_are_checked() {
    let now = t0();
    assert_eq!(pause_until(Some("nope"), None, now).unwrap_err(), PauseError::InvalidUntilTs);
    assert_eq!(pause_until(None, Some(0), now).unwrap_err(), PauseError::InvalidMinutes);
    assert_eq!(PauseError::InvalidMinutes.code(), "invalid_minutes");
    assert_eq!(pause_until(Some("2026-02-16T00:00:00Z"), Some(3), now).unwrap().as_deref(), Some("2026-02-16T00:00:00Z"));
    assert_eq!(pause_until(None, None, now).unwrap(), None);
}

#[test]
fn ingest_rejects_invalid_events() {
    let idx = PrivacyIndex::new();
    let e = ingest(0, "2026-02-15T00:00:00Z", "app_active", None, Some("a"));
    assert_eq!(plan_ingest(&e, false, &idx, settings(), OBJ).err(), Some(IngestError::InvalidVersion));
    let e = ingest(1, "yesterday", "app_active", None, Some("a"));
    assert_eq!(plan_ingest(&e, true, &idx, settings(), OBJ).err(), Some(IngestError::InvalidTs));
    let e = ingest(1, "2026-02-15T00:00:00Z", "tab_active", Some("  "), Some("a"));
    assert_eq!(validate_event(&e).err(), Some(IngestError::MissingDomain));
    let e = ingest(1, "2026-02-15T00:00:00Z", "tab_audio_stop", None, None);
    assert_eq!(validate_event(&e).err(), Some(IngestError::MissingDomain));
    let e = ingest(1, "2026-02-15T00:00:00Z", "app_audio", None, None);
    assert_eq!(validate_event(&e).err(), Some(IngestError::MissingApp));
    assert_eq!(IngestError::MissingApp.code(), "missing_app");
    let e = ingest(1, "2026-02-15T00:00:00Z", "tab_audio_stop", None, Some("chrome.exe"));
    assert_eq!(validate_event(&e).err(), Some(IngestError::MissingDomain));
    let e = ingest(1, "2026-02-15T00:00:00Z", "app_audio_stop", Some("x.com"), None);
    assert_eq!(validate_event(&e).err(), Some(IngestError::MissingApp));
    let e = ingest(1, "2026-02-15T00:00:00Z", "custom", None, None);
    assert_eq!(validate_event(&e).unwrap(), None);
}

#[test]
fn ingest_masks_and_drops() {
    let idx = PrivacyIndex::from_rules(&[rule("domain", "youtube.com", "mask"), rule("app", "secret.exe", "drop")]);
    let e = ingest(1, "2026-02-15T00:00:00Z", "tab_active", Some("M.YouTube.com"), None);
    match plan_ingest(&e, false, &idx, settings(), OBJ).unwrap() {
        IngestOutcome::Store(s) => {
            assert_eq!(s.entity.as_deref(), Some("__hidden__"));
            assert_eq!(s.title, None);
            assert_eq!(s.edits, vec![
                PayloadEdit::MarkMasked,
                PayloadEdit::Hide(PayloadKey::Domain),
                PayloadEdit::Remove(PayloadKey::Title),
                PayloadEdit::Remove(PayloadKey::ExePath),
                PayloadEdit::Remove(PayloadKey::Pid),
                PayloadEdit::Remove(PayloadKey::ExePath),
                PayloadEdit::Remove(PayloadKey::Pid),
            ]);
        }
        IngestOutcome::Ignore => panic!("masked events are stored"),
    }
    let e = ingest(1, "2026-02-15T00:00:00Z", "app_active", None, Some("secret.exe"));
    assert!(matches!(plan_ingest(&e, false, &idx, settings(), OBJ), Ok(IngestOutcome::Ignore)));
    let e = ingest(1, "2026-02-15T00:00:00Z", "tab_active", Some("com"), None);
    match plan_ingest(&e, false, &idx, settings(), OBJ).unwrap() {
        IngestOutcome::Store(s) => {
            assert_eq!(s.entity.as_deref(), Some("com"));
            assert_eq!(s.title.as_deref(), Some("T"));
        }
        IngestOutcome::Ignore => panic!("allowed events are stored"),
    }
}

#[test]
fn masking_drops_title_path_and_pid_whatever_the_keys() {
    let idx = PrivacyIndex::from_rules(&[rule("app", "x.exe", "mask")]);
    let mut st = settings();
    st.store_exe_path = true;
    let e = ingest(1, "2026-02-15T00:00:00Z", "app_active", None, Some("x.exe"));
    let bare = PayloadShape { is_object: true, has_domain: false, has_app: false };
    match plan_ingest(&e, false, &idx, st, bare).unwrap() {
        IngestOutcome::Store(s) => assert_eq!(s.edits, vec![
            PayloadEdit::MarkMasked,
            PayloadEdit::Remove(PayloadKey::Title),
            PayloadEdit::Remove(PayloadKey::ExePath),
            PayloadEdit::Remove(PayloadKey::Pid),
        ]),
        IngestOutcome::Ignore => panic!("masked events are stored"),
    }
}

#[test]
fn privacy_lookup_and_suffix_match() {
    let idx = PrivacyIndex::from_rules(&[rule("domain", "youtube.com", "drop"), rule("app", "x.exe", "mask")]);
    assert_eq!(idx.decision_for("tab_active", "  YouTube.com "), PrivacyDecision::Drop);
    assert_eq!(idx.decision_for("app_active", " x.exe "), PrivacyDecision::Mask);
    assert_eq!(idx.decision_for("app_active", "youtube.com"), PrivacyDecision::Allow);
    assert_eq!(idx.check_domain("m.youtube.com").as_deref(), Some("drop"));
    assert_eq!(idx.check_domain("youtube.org"), None);
    assert_eq!(privacy_kind_for_event("tab_audio_stop"), "domain");
    assert_eq!(privacy_kind_for_event("other"), "app");
    let com = PrivacyIndex::from_rules(&[rule("domain", "com", "drop")]);
    assert_eq!(com.check_domain("github.com"), None);
}

#[test]
fn privacy_on_read_paths_is_idempotent() {
    let idx = PrivacyIndex::from_rules(&[rule("app", "x.exe", "mask")]);
    let events = vec![EventForBlocks { ts: t0(), source: "s".into(), event: "app_active".into(), entity: "x.exe".into(), title: Some("t".into()), activity: None }];
    let once = hide_for_reads(events, &idx);
    assert_eq!(once[0].entity, "__hidden__");
    assert_eq!(once[0].title, None);
    assert_eq!(once[0].ts, t0());
    let twice = hide_for_reads(once, &idx);
    assert_eq!(twice[0].entity, "__hidden__");
    assert_eq!(twice[0].ts, t0());
    let rec = EventRecord { id: 3, ts: "x".into(), source: "s".into(), event: "app_active".into(), entity: Some("x.exe".into()), title: Some("t".into()), activity: None };
    let masked = apply_privacy_to_event(rec, &idx).unwrap();
    assert_eq!(masked.entity.as_deref(), Some("__hidden__"));
    let again = apply_privacy_to_event(masked, &idx).unwrap();
    assert_eq!(again.entity.as_deref(), Some("__hidden__"));
}

#[test]
fn dropped_events_leave_the_read_path() {
    let idx = PrivacyIndex::from_rules(&[rule("app", "x.exe", "drop"), rule("app", "y.exe", "mask")]);
    let mk = |ts: i128, ent: &str| EventForBlocks { ts, source: "s".into(), event: "app_active".into(), entity: ent.into(), title: Some("t".into()), activity: None };
    let out = hide_for_reads(vec![mk(t0(), "a.exe"), mk(t0() + NS, "x.exe"), mk(t0() + 2 * NS, "y.exe")], &idx);
    assert_eq!(out.len(), 2);
    assert_eq!(out[0].entity, "a.exe");
    assert_eq!(out[0].title.as_deref(), Some("t"));
    assert_eq!(out[1].entity, "__hidden__");
    assert_eq!(out[1].ts, t0() + 2 * NS);
    assert_eq!(out[1].title, None);
}

#[test]
fn blocked_sets_and_domains() {
    let rules = [rule("app", " a.exe ", "drop"), rule("domain", " YouTube.com", "drop"), rule("domain", "x.com", "mask"), rule("app", "a.exe", "drop")];
    let (apps, domains) = blocked_sets(&rules);
    assert_eq!(apps, vec!["a.exe".to_string()]);
    assert_eq!(domains, vec!["youtube.com".to_string()]);
    assert!(is_blocked_domain("m.youtube.com", &domains));
    assert!(is_blocked_domain(" YOUTUBE.COM ", &domains));
    assert!(!is_blocked_domain("x.com", &domains));
    assert!(!is_blocked_domain("", &domains));
}

#[test]
fn csv_escape_quotes_when_needed() {
    assert_eq!(csv_escape("plain"), "plain");
    assert_eq!(csv_escape("a,b"), "\"a,b\"");
    assert_eq!(csv_escape("say \"hi\""), "\"say \"\"hi\"\"\"");
    assert_eq!(csv_escape("line\nbreak"), "\"line\nbreak\"");
    let unescaped = { let e = csv_escape("x\"y,z"); e[1..e.len() - 1].replace("\"\"", "\"") };
    assert_eq!(unescaped, "x\"y,z");
}

#[test]
fn durations_are_formatted() {
    assert_eq!(fmt_duration(0), "0m");
    assert_eq!(fmt_duration(-5), "0m");
    assert_eq!(fmt_duration(29), "0m");
    assert_eq!(fmt_duration(30), "1m");
    assert_eq!(fmt_duration(3600), "1h");
    assert_eq!(fmt_duration(3600 + 25 * 60), "1h 25m");
    assert_eq!(fmt_duration(i64::MAX) .ends_with('m'), true);
}

#[test]
fn masked_entity_in_exports() {
    let mut b = block(t0(), t0() + 300 * NS, 300);
    b.top_items = vec![
        TopItem { kind: EntityKind::Domain, entity: "__hidden__".into(), title: None, seconds: 200 },
        TopItem { kind: EntityKind::Domain, entity: "github.com".into(), title: Some("Repo, main".into()), seconds: 100 },
    ];
    b.review = Some(BlockReview { doing: Some("code".into()), tags: vec!["a".into(), "b".into()], ..review() });
    let csv = export_csv("2026-02-15", &[b]);
    assert!(csv.starts_with(CSV_HEADER));
    let row = &csv[CSV_HEADER.len()..];
    assert_eq!(row, "2026-02-15,2026-02-15T00:00:00Z,2026-02-15T00:00:00Z,2026-02-15T00:05:00Z,300,__hidden__,200,\"Repo, main (github.com)\",100,,,,,,,0,,code,,,a;b,u\n");
    let mut b = block(t0(), t0() + 300 * NS, 300);
    b.top_items = vec![TopItem { kind: EntityKind::App, entity: "__hidden__".into(), title: None, seconds: 300 }];
    let md = export_markdown("2026-02-15", &[b], 8 * 3600);
    assert_eq!(md, "# 2026-02-15\n\n## 08:00–08:05\nTop: __hidden__ 5m\n\n");
}

#[test]
fn clock_times_in_local_offset() {
    assert_eq!(fmt_hhmm("2026-02-15T23:30:00Z", 3600), "00:30");
    assert_eq!(fmt_hhmm("1969-12-31T23:59:00Z", 0), "23:59");
    assert_eq!(fmt_hhmm("garbageT12:34:56", 0), "12:34");
    assert_eq!(fmt_hhmm("nothing", 0), "??:??");
}

#[test]
fn payload_activity_is_read() {
    assert_eq!(parse_activity_from_payload("{\"activity\":\"audio\"}").as_deref(), Some("audio"));
    assert_eq!(parse_activity_from_payload("{\"activity\":3}"), None);
    assert_eq!(parse_activity_from_payload("not json"), None);
    let row = EventRow { id: 7, ts: "t".into(), source: "s".into(), event: "tab_active".into(), entity: Some("e".into()), title: None, payload_json: "{\"activity\":\"focus\"}".into() };
    let r = event_record_from_row(&row);
    assert_eq!(r.id, 7);
    assert_eq!(r.activity.as_deref(), Some("focus"));
}

fn row(id: i64, ts: i128, event: &str, entity: &str, payload: &str) -> EventRow {
    EventRow { id, ts: format_rfc3339(ts), source: "s".into(), event: event.into(), entity: Some(entity.into()), title: None, payload_json: payload.into() }
}

#[test]
fn now_reducer_prefers_browser_tab() {
    let now = t0() + 100 * NS;
    let input = NowInput {
        latest: vec![row(3, t0() + 90 * NS, "tab_active", "github.com", "{}")],
        app_active: vec![row(2, t0() + 80 * NS, "app_active", "chrome.exe", "{}")],
        tab_active: vec![row(3, t0() + 90 * NS, "tab_active", "github.com", "{}"), row(1, t0() + 10 * NS, "tab_active", "music.com", "{\"activity\":\"audio\"}")],
        tab_audio_stop: Vec::new(),
        app_audio: vec![row(4, t0() - 500 * NS, "app_audio", "QQMusic.exe", "{}")],
        app_audio_stop: Vec::new(),
        titles: vec![("tab_active".into(), "GitHub.com".into(), " Repo ".into()), ("tab_active".into(), "github.com".into(), "Old".into())],
    };
    let snap = reduce_now(&input, &PrivacyIndex::new(), settings(), now);
    assert_eq!(snap.latest_event_id, Some(3));
    assert_eq!(snap.now_focus_app.as_ref().map(|e| e.id), Some(2));
    assert_eq!(snap.now_using_tab.as_ref().map(|e| e.id), Some(3));
    assert!(snap.tab_audio_active);
    assert!(!snap.app_audio_active);
    assert!(snap.now_background_audio.is_none());
    assert_eq!(snap.app_active_age_seconds, Some(20));
    assert_eq!(snap.latest_titles, vec![("domain|github.com".to_string(), "Repo".to_string())]);
    assert_eq!(snap.audio_ttl_seconds, 120);
    assert_eq!(clamp_scan_limit(0), 1);
    assert_eq!(clamp_scan_limit(5000), 2000);
}

#[test]
fn settings_helpers() {
    let mut s = settings();
    assert_eq!(privacy_level_label(s), "L2");
    s.store_exe_path = true;
    assert_eq!(privacy_level_label(s), "L3");
    s.store_titles = false;
    s.store_exe_path = false;
    assert_eq!(privacy_level_label(s), "L1");
    let n = Settings { block_seconds: 5, idle_cutoff_seconds: 1, review_min_seconds: 1, review_notify_repeat_minutes: 99999, ..s }.normalized();
    assert_eq!((n.block_seconds, n.idle_cutoff_seconds, n.review_min_seconds, n.review_notify_repeat_minutes), (60, 10, 60, 1440));
    assert_eq!((default_limit(), default_now_limit(), default_reports_limit()), (50, 200, 30));
    let r = ReportSettings::defaults("now");
    assert_eq!(r.model, "gpt-4o-mini");
    assert_eq!(r.daily_prompt, DEFAULT_DAILY_PROMPT);
    assert_eq!(r.updated_at, "now");
}

use recorder_core::collector::{audio_step, should_remind, should_report_focus, snooze_minutes, AudioAction, AudioPoll, AudioSource, FocusKey};

fn key(app: &str, pid: u32, title: &str) -> FocusKey {
    FocusKey { app: app.to_string(), pid, title: title.to_string() }
}

#[test]
fn collector_reports_focus_on_change_or_heartbeat() {
    assert!(should_report_focus(&None, &key("a", 1, ""), false));
    assert!(!should_report_focus(&Some(key("a", 1, "")), &key("a", 1, ""), false));
    assert!(should_report_focus(&Some(key("a", 1, "")), &key("a", 1, ""), true));
    assert!(should_report_focus(&Some(key("a", 1, "")), &key("a", 2, ""), false));
}

#[test]
fn collector_audio_poll_failure_is_no_stop() {
    let last = Some(AudioSource { pid: 4, app: "QQMusic.exe".into() });
    let (next, action) = audio_step(last, AudioPoll::Failed, true);
    assert_eq!(action, AudioAction::Nothing);
    assert_eq!(next.map(|s| s.pid), Some(4));
    let (next, action) = audio_step(Some(AudioSource { pid: 4, app: "QQMusic.exe".into() }), AudioPoll::Silent, false);
    assert_eq!(action, AudioAction::ReportStop);
    assert!(next.is_none());
    let (_, action) = audio_step(None, AudioPoll::Silent, true);
    assert_eq!(action, AudioAction::Nothing);
    let (_, action) = audio_step(Some(AudioSource { pid: 4, app: "a".into() }), AudioPoll::Playing(AudioSource { pid: 4, app: "a".into() }), false);
    assert_eq!(action, AudioAction::Nothing);
    let (_, action) = audio_step(Some(AudioSource { pid: 4, app: "a".into() }), AudioPoll::Playing(AudioSource { pid: 5, app: "a".into() }), false);
    assert_eq!(action, AudioAction::Report);
}

#[test]
fn collector_review_reminders() {
    assert!(should_remind(false, false, false, false, None, Some("b1")));
    assert!(!should_remind(true, true, false, false, None, Some("b1")));
    assert!(!should_remind(false, false, true, false, None, Some("b1")));
    assert!(should_remind(false, false, true, true, None, Some("b1")));
    assert!(!should_remind(false, true, false, false, Some("b1"), Some("b1")));
    assert!(should_remind(false, true, false, false, Some("b0"), Some("b1")));
    assert!(!should_remind(false, false, false, false, None, None));
    assert_eq!(snooze_minutes(0), 1);
    assert_eq!(snooze_minutes(10), 10);
}

use recorder_core::deletion::{deletion_range, RangeError};

#[test]
fn block_deletion_ranges() {
    let (a, b) = deletion_range(Some("2026-02-15T00:00:00Z"), None, None, 2700).unwrap();
    assert_eq!((a.as_str(), b.as_str()), ("2026-02-15T00:00:00Z", "2026-02-15T00:45:00Z"));
    let (a, b) = deletion_range(Some("x"), Some("2026-02-15T01:00:00Z"), Some("2026-02-15T01:10:00Z"), 2700).unwrap();
    assert_eq!((a.as_str(), b.as_str()), ("2026-02-15T01:00:00Z", "2026-02-15T01:10:00Z"));
    assert_eq!(deletion_range(Some("2026-02-15T00:00:00Z"), None, None, 10).unwrap().1, "2026-02-15T00:01:00Z");
    assert_eq!(deletion_range(None, Some("  "), None, 60).unwrap_err(), RangeError::MissingStartTs);
    assert_eq!(deletion_range(Some("bad"), None, None, 60).unwrap_err(), RangeError::InvalidStartTs);
    assert_eq!(deletion_range(Some("2026-02-15T00:00:00Z"), None, Some("bad"), 60).unwrap_err(), RangeError::InvalidEndTs);
    assert_eq!(deletion_range(Some("2026-02-15T00:00:00Z"), None, Some("2026-02-14T00:00:00Z"), 60).unwrap_err(), RangeError::InvalidRange);
    assert_eq!(RangeError::InvalidRange.code(), "invalid_range");
}
