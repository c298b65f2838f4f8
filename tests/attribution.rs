use recorder_core::attribution::{build_timeline_segments, is_browser_app, is_browser_exe, normalize_web_title, normalized_title_for_domain, Activity, EntityKind};
use recorder_core::blocks::{build_blocks, BlockSummary, TopItem};
use recorder_core::clock::{parse_day_start_utc_for_offset, tz_offset_from_minutes, day_window_utc, normalize_tz_offset_minutes};
use recorder_core::events::EventForBlocks;
use recorder_core::privacy::{hide_for_reads, PrivacyIndex, PrivacyRuleRow};
use recorder_core::settings::{Settings, DEFAULT_REVIEW_MIN_SECONDS, DEFAULT_REVIEW_NOTIFY_REPEAT_MINUTES};

const NS: i128 = 1_000_000_000;

fn parse_rfc3339(s: &str) -> Option<i128> {
    time::OffsetDateTime::parse(s, &time::format_description::well_known::Rfc3339).ok().map(|t| t.unix_timestamp_nanos())
}

fn format_rfc3339(t: i128) -> String {
    time::OffsetDateTime::from_unix_timestamp_nanos(t)
        .ok()
        .and_then(|v| v.format(&time::format_description::well_known::Rfc3339).ok())
        .unwrap_or_default()
}

fn base() -> i128 {
    parse_rfc3339("2026-02-15T00:00:00Z").unwrap()
}

fn m(mins: i128) -> i128 {
    base() + mins * 60 * NS
}

fn s(secs: i128) -> i128 {
    base() + secs * NS
}

fn ev(ts: i128, source: &str, event: &str, entity: &str, title: Option<&str>, activity: Option<&str>) -> EventForBlocks {
    EventForBlocks {
        ts,
        source: source.to_string(),
        event: event.to_string(),
        entity: entity.to_string(),
        title: title.map(|t| t.to_string()),
        activity: activity.map(|a| a.to_string()),
    }
}

fn settings(store_titles: bool) -> Settings {
    Settings {
        block_seconds: 45 * 60,
        idle_cutoff_seconds: 10 * 60,
        store_titles,
        store_exe_path: false,
        review_min_seconds: DEFAULT_REVIEW_MIN_SECONDS,
        review_notify_repeat_minutes: DEFAULT_REVIEW_NOTIFY_REPEAT_MINUTES,
        review_notify_when_paused: false,
        review_notify_when_idle: false,
    }
}

fn sec_of(b: &BlockSummary, entity: &str) -> i64 {
    b.top_items.iter().find(|it| it.entity == entity).map(|it| it.seconds).unwrap_or(0)
}

#[test]
fn parse_day_start_utc_for_offset_works() {
    let tz = tz_offset_from_minutes(8 * 60);
    let start = parse_day_start_utc_for_offset("2026-02-15", tz).unwrap();
    let start = time::OffsetDateTime::from_unix_timestamp_nanos(start).unwrap();
    assert_eq!(start.offset(), time::UtcOffset::UTC);
    assert_eq!(start.date().to_string(), "2026-02-14");
    assert_eq!(start.hour(), 16);
    assert_eq!(start.minute(), 0);

    let tz = tz_offset_from_minutes(-5 * 60);
    let start = parse_day_start_utc_for_offset("2026-02-15", tz).unwrap();
    let start = time::OffsetDateTime::from_unix_timestamp_nanos(start).unwrap();
    assert_eq!(start.date().to_string(), "2026-02-15");
    assert_eq!(start.hour(), 5);
    assert_eq!(start.minute(), 0);
}

#[test]
fn build_blocks_prefers_domain_when_browser_active() {
    let chrome = "C:\\Program Files\\Google\\Chrome\\Application\\chrome.exe";
    let code = "C:\\Program Files\\Microsoft VS Code\\Code.exe";
    let events = vec![
        ev(m(0), "windows_collector", "app_active", chrome, None, None),
        ev(m(1), "browser_extension", "tab_active", "github.com", None, None),
        ev(m(2), "windows_collector", "app_active", chrome, None, None),
        ev(m(3), "browser_extension", "tab_active", "github.com", None, None),
        ev(m(4), "windows_collector", "app_active", code, None, None),
    ];
    let blocks = build_blocks(&events, settings(false), m(5));
    assert_eq!(blocks.len(), 1);
    let b = &blocks[0];
    assert_eq!(b.total_seconds, 5 * 60);
    assert_eq!(sec_of(b, "github.com"), 3 * 60);
    assert_eq!(sec_of(b, chrome), 60);
    assert_eq!(sec_of(b, code), 60);
}

#[test]
fn build_blocks_splits_domain_by_title_when_store_titles() {
    let events = vec![
        ev(m(0), "windows_collector", "app_active", "chrome.exe", None, None),
        ev(m(1), "browser_extension", "tab_active", "www.youtube.com", Some("Video A - YouTube"), None),
        ev(m(2), "browser_extension", "tab_active", "www.youtube.com", Some("Video B - YouTube"), None),
    ];
    let blocks = build_blocks(&events, settings(true), m(3));
    assert_eq!(blocks.len(), 1);
    let b = &blocks[0];
    let sec_domain = |title: &str| {
        b.top_items
            .iter()
            .find(|it| it.kind.as_str() == "domain" && it.entity == "www.youtube.com" && it.title.as_deref() == Some(title))
            .map(|it| it.seconds)
            .unwrap_or(0)
    };
    assert_eq!(sec_domain("Video A"), 60);
    assert_eq!(sec_domain("Video B"), 60);
    assert!(b.top_items.iter().any(|it| it.entity == "www.youtube.com"));
}

#[test]
fn scenario_a_top_items_are_ordered_by_seconds() {
    let events = vec![
        ev(m(0), "c", "app_active", "chrome.exe", None, None),
        ev(m(1), "e", "tab_active", "github.com", None, None),
        ev(m(2), "c", "app_active", "chrome.exe", None, None),
        ev(m(3), "e", "tab_active", "github.com", None, None),
        ev(m(4), "c", "app_active", "code.exe", None, None),
    ];
    let blocks = build_blocks(&events, settings(false), m(5));
    let b = &blocks[0];
    assert_eq!(b.top_items[0].entity, "github.com");
    assert_eq!(b.top_items[0].seconds, 180);
    assert_eq!(b.top_items.len(), 3);
    let sum: i64 = b.top_items.iter().map(|it| it.seconds).sum();
    assert_eq!(sum, b.total_seconds);
    assert_eq!(b.id, "2026-02-15T00:00:00Z");
    assert_eq!(b.start_ts, "2026-02-15T00:00:00Z");
    assert_eq!(b.end_ts, "2026-02-15T00:05:00Z");
}

#[test]
fn blocks_split_at_block_length_and_stay_contiguous() {
    let mut s2 = settings(false);
    s2.block_seconds = 60;
    let events = vec![ev(m(0), "c", "app_active", "code.exe", None, None)];
    let blocks = build_blocks(&events, s2, m(3));
    assert_eq!(blocks.len(), 3);
    for b in &blocks {
        assert_eq!(b.total_seconds, 60);
        assert!(b.start <= b.end);
    }
    assert_eq!(blocks[0].end, blocks[1].start);
    assert_eq!(blocks[1].end, blocks[2].start);
}

#[test]
fn block_length_below_a_minute_is_raised() {
    let mut s2 = settings(false);
    s2.block_seconds = 5;
    let events = vec![ev(m(0), "c", "app_active", "code.exe", None, None)];
    let blocks = build_blocks(&events, s2, m(2));
    assert_eq!(blocks.len(), 2);
    assert_eq!(blocks[0].total_seconds, 60);
}

#[test]
fn more_than_five_entities_keep_the_top_five() {
    let apps = ["a.exe", "b.exe", "c.exe", "d.exe", "e.exe", "f.exe"];
    let mut events = Vec::new();
    let mut t = 0;
    for (i, a) in apps.iter().enumerate() {
        events.push(ev(s(t), "c", "app_active", a, None, None));
        t += 10 * (i as i128 + 1);
    }
    let blocks = build_blocks(&events, settings(false), s(t));
    let b = &blocks[0];
    assert_eq!(b.top_items.len(), 5);
    assert_eq!(b.top_items[0].entity, "f.exe");
    let sum: i64 = b.top_items.iter().map(|it| it.seconds).sum();
    assert!(sum < b.total_seconds);
    assert_eq!(b.total_seconds, 210);
}

#[test]
fn gap_equal_to_cutoff_is_attributed_in_full() {
    let mut st = settings(false);
    st.idle_cutoff_seconds = 60;
    let events = vec![
        ev(s(0), "c", "app_active", "code.exe", None, None),
        ev(s(60), "c", "app_active", "code.exe", None, None),
    ];
    let blocks = build_blocks(&events, st, s(60));
    assert_eq!(blocks.len(), 1);
    assert_eq!(blocks[0].total_seconds, 60);
    let segs = build_timeline_segments(&events, st, s(60));
    assert_eq!(segs.len(), 1);
    assert_eq!(segs[0].seconds, 60);
}

#[test]
fn gap_over_cutoff_breaks_the_walk() {
    let mut st = settings(false);
    st.idle_cutoff_seconds = 60;
    let events = vec![
        ev(s(0), "c", "app_active", "code.exe", None, None),
        ev(s(61), "c", "app_active", "code.exe", None, None),
    ];
    let blocks = build_blocks(&events, st, s(121));
    assert_eq!(blocks.len(), 1);
    assert_eq!(blocks[0].total_seconds, 60);
    assert_eq!(blocks[0].start, s(61));
    let segs = build_timeline_segments(&events, st, s(121));
    assert_eq!(segs.len(), 1);
    assert_eq!(segs[0].start, s(61));
}

#[test]
fn gap_one_second_over_a_600s_cutoff_attributes_nothing() {
    let events = vec![
        ev(s(0), "c", "app_active", "Code.exe", None, None),
        ev(s(601), "c", "app_active", "Code.exe", None, None),
    ];
    let blocks = build_blocks(&events, settings(false), s(661));
    assert_eq!(blocks.len(), 1);
    assert_eq!(blocks[0].start_ts, "2026-02-15T00:10:01Z");
    assert_eq!(blocks[0].end_ts, "2026-02-15T00:11:01Z");
    assert_eq!(blocks[0].total_seconds, 60);
}

#[test]
fn audio_only_blocks_use_the_audio_cutoff() {
    let events = vec![ev(s(0), "c", "app_audio", "QQMusic", None, Some("audio"))];
    let blocks = build_blocks(&events, settings(false), s(300));
    assert_eq!(blocks.len(), 1);
    assert_eq!(blocks[0].start_ts, "2026-02-15T00:00:00Z");
    assert_eq!(blocks[0].end_ts, "2026-02-15T00:02:00Z");
    assert_eq!(blocks[0].total_seconds, 120);
    assert_eq!(blocks[0].top_items.len(), 1);
    assert_eq!(blocks[0].top_items[0].entity, "QQMusic");
    assert_eq!(blocks[0].top_items[0].kind, EntityKind::App);
    assert_eq!(blocks[0].background_seconds, None);
}

#[test]
fn domain_fresh_at_300_seconds() {
    let events = vec![
        ev(s(0), "e", "tab_active", "github.com", None, None),
        ev(s(100), "c", "app_active", "chrome.exe", None, None),
        ev(s(300), "c", "app_active", "chrome.exe", None, None),
    ];
    let segs = build_timeline_segments(&events, settings(false), s(360));
    let last = segs.last().unwrap();
    assert_eq!(last.kind, EntityKind::Domain);
    assert_eq!(last.entity, "github.com");
}

#[test]
fn domain_stale_at_301_seconds() {
    let events = vec![
        ev(s(0), "e", "tab_active", "github.com", None, None),
        ev(s(100), "c", "app_active", "chrome.exe", None, None),
        ev(s(301), "c", "app_active", "chrome.exe", None, None),
    ];
    let segs = build_timeline_segments(&events, settings(false), s(360));
    let last = segs.last().unwrap();
    assert_eq!(last.kind, EntityKind::App);
    assert_eq!(last.entity, "chrome.exe");
    assert_eq!(last.start, s(301));
}

#[test]
fn browser_without_tab_credits_the_browser() {
    let events = vec![ev(m(0), "c", "app_active", "C:\\Apps\\firefox.exe", None, None)];
    let blocks = build_blocks(&events, settings(false), m(2));
    assert_eq!(blocks[0].top_items.len(), 1);
    assert_eq!(blocks[0].top_items[0].kind, EntityKind::App);
    assert_eq!(blocks[0].top_items[0].entity, "C:\\Apps\\firefox.exe");
}

#[test]
fn scenario_c_audio_stop_ends_the_segment() {
    let events = vec![
        ev(s(0), "c", "app_audio", "QQMusic.exe", None, Some("audio")),
        ev(s(90), "c", "app_audio_stop", "QQMusic.exe", None, Some("audio")),
        ev(s(200), "c", "app_audio", "QQMusic.exe", None, Some("audio")),
    ];
    let segs = build_timeline_segments(&events, settings(false), s(260));
    assert_eq!(segs.len(), 2);
    assert_eq!(segs[0].activity, Activity::Audio);
    assert_eq!(segs[0].start, s(0));
    assert_eq!(segs[0].end, s(90));
    assert_eq!(segs[0].seconds, 90);
    assert_eq!(segs[1].start, s(200));
    assert!(segs.iter().all(|x| x.end <= s(90) || x.start >= s(200)));
}

#[test]
fn background_audio_is_attached_to_blocks() {
    let events = vec![
        ev(s(0), "c", "app_active", "code.exe", None, None),
        ev(s(30), "e", "tab_active", "music.example.com", Some("Song"), Some("audio")),
        ev(s(90), "c", "app_active", "code.exe", None, None),
    ];
    let blocks = build_blocks(&events, settings(true), s(120));
    assert_eq!(blocks.len(), 1);
    assert_eq!(blocks[0].total_seconds, 120);
    assert_eq!(blocks[0].background_seconds, Some(90));
    assert_eq!(blocks[0].background_top_items[0].entity, "music.example.com");
    assert_eq!(blocks[0].background_top_items[0].title.as_deref(), Some("Song"));
}

#[test]
fn audio_only_day_still_has_blocks() {
    let events = vec![
        ev(s(0), "c", "app_audio", "QQMusic.exe", None, Some("audio")),
        ev(s(60), "c", "app_audio", "QQMusic.exe", None, Some("audio")),
    ];
    let blocks = build_blocks(&events, settings(false), s(120));
    assert_eq!(blocks.len(), 1);
    assert_eq!(blocks[0].total_seconds, 120);
}

#[test]
fn no_events_no_blocks() {
    let events: Vec<EventForBlocks> = Vec::new();
    assert!(build_blocks(&events, settings(false), m(1)).is_empty());
    assert!(build_timeline_segments(&events, settings(false), m(1)).is_empty());
}

#[test]
fn timeline_merges_touching_segments() {
    let events = vec![
        ev(s(0), "c", "app_active", "code.exe", Some("a"), None),
        ev(s(30), "c", "app_active", "code.exe", Some("a"), None),
        ev(s(60), "c", "app_active", "code.exe", Some("b"), None),
    ];
    let segs = build_timeline_segments(&events, settings(true), s(90));
    assert_eq!(segs.len(), 2);
    assert_eq!(segs[0].seconds, 60);
    assert_eq!(segs[0].title.as_deref(), Some("a"));
    assert_eq!(segs[0].activity.as_str(), "focus");
    assert_eq!(segs[0].start_ts, "2026-02-15T00:00:00Z");
}

#[test]
fn browser_detection_uses_base_name_case_insensitively() {
    assert!(is_browser_app("C:\\Program Files\\Google\\Chrome\\Application\\CHROME.EXE"));
    assert!(is_browser_app("/usr/bin/firefox.exe"));
    assert!(!is_browser_app("chrome.exe.bak"));
    assert!(!is_browser_app("C:\\chrome.exe\\code.exe"));
    assert!(is_browser_exe("msedge.exe"));
    assert!(!is_browser_exe("MSEDGE.EXE"));
}

#[test]
fn web_titles_are_normalized() {
    assert_eq!(normalize_web_title("www.YouTube.com", "  Video A - YouTube  "), "Video A");
    assert_eq!(normalize_web_title("github.com", "Repo - YouTube"), "Repo - YouTube");
    assert_eq!(normalize_web_title("youtube.com", "   "), "");
    assert_eq!(normalized_title_for_domain("youtube.com", Some(" - YouTube"), true).as_deref(), Some("- YouTube"));
    assert_eq!(normalized_title_for_domain("youtube.com", Some("   "), true), None);
    assert_eq!(normalized_title_for_domain("youtube.com", Some("X - YouTube"), false), None);
    assert_eq!(normalized_title_for_domain("youtube.com", Some("X - YouTube"), true).as_deref(), Some("X"));
}

#[test]
fn day_window_at_utc_plus_8() {
    let (a, b) = day_window_utc("2026-02-15", tz_offset_from_minutes(480)).unwrap();
    assert_eq!(format_rfc3339(a), "2026-02-14T16:00:00Z");
    assert_eq!(format_rfc3339(b), "2026-02-15T16:00:00Z");
    assert_eq!(b - a, 86_400 * NS);
}

#[test]
fn day_window_rejects_bad_dates() {
    assert!(parse_day_start_utc_for_offset("2026-02-30", 0).is_err());
    assert!(parse_day_start_utc_for_offset("2026-13-01", 0).is_err());
    assert!(parse_day_start_utc_for_offset("2026/02/15", 0).is_err());
    assert!(parse_day_start_utc_for_offset("2026-02-15-01", 0).is_err());
    assert!(parse_day_start_utc_for_offset("2026-+2-15", 0).is_ok());
}

#[test]
fn tz_offsets_are_clamped() {
    assert_eq!(normalize_tz_offset_minutes(None), 0);
    assert_eq!(normalize_tz_offset_minutes(Some(900)), 840);
    assert_eq!(normalize_tz_offset_minutes(Some(-900)), -840);
    assert_eq!(tz_offset_from_minutes(480), 28_800);
    assert_eq!(tz_offset_from_minutes(2000), 0);
}

#[test]
fn rfc3339_round_trip_through_the_clock() {
    let t = parse_rfc3339("2026-02-15T08:30:00+08:00").unwrap();
    assert_eq!(format_rfc3339(t), "2026-02-15T00:30:00Z");
    assert!(parse_rfc3339("2026-02-15 08:30").is_none());
    let _ = TopItem { kind: EntityKind::App, entity: String::new(), title: None, seconds: 1 };
}

#[test]
fn masked_entities_keep_the_order_of_top_items() {
    let events = vec![
        ev(s(0), "c", "app_active", "secret.exe", None, None),
        ev(s(120), "c", "app_active", "code.exe", None, None),
        ev(s(180), "c", "app_active", "notes.exe", None, None),
    ];
    let plain = build_blocks(&events, settings(false), s(200));
    let rule = PrivacyRuleRow { id: 1, kind: "app".into(), value: "secret.exe".into(), action: "mask".into(), created_at: String::new() };
    let idx = PrivacyIndex::from_rules(&[rule]);
    let hidden_events = hide_for_reads(events, &idx);
    let masked = build_blocks(&hidden_events, settings(false), s(200));
    let secs = |b: &BlockSummary| b.top_items.iter().map(|it| it.seconds).collect::<Vec<_>>();
    assert_eq!(secs(&plain[0]), secs(&masked[0]));
    assert_eq!(masked[0].top_items[0].entity, "__hidden__");
    assert_eq!(plain[0].top_items[0].entity, "secret.exe");
    assert_eq!(plain[0].start, masked[0].start);
    assert_eq!(plain[0].end, masked[0].end);
}
