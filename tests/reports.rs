use recorder_core::reports::{
    display_entity, extract_tag_block, extract_vscode_workspace, render_prompt_template, report_id_daily, report_id_weekly,
    report_is_good, sanitize_llm_markdown_output, strip_tag_blocks, strip_wrapping_code_fence, validate_report_kind,
    validate_yyyy_mm_dd, ReportRecord,
};

fn record(output: Option<&str>, error: Option<&str>) -> ReportRecord {
    ReportRecord {
        id: "daily-2026-02-15".into(),
        kind: "daily".into(),
        period_start: "2026-02-15".into(),
        period_end: "2026-02-15".into(),
        generated_at: "t".into(),
        provider_url: None,
        model: None,
        prompt: None,
        input_json: None,
        output_md: output.map(|s| s.to_string()),
        error: error.map(|s| s.to_string()),
    }
}

#[test]
fn report_ids_and_kinds() {
    assert_eq!(report_id_daily("2026-02-15"), "daily-2026-02-15");
    assert_eq!(report_id_weekly("2026-02-09", "2026-02-15"), "weekly-2026-02-09-2026-02-15");
    assert!(validate_report_kind("daily"));
    assert!(validate_report_kind("weekly"));
    assert!(!validate_report_kind("monthly"));
    assert!(validate_yyyy_mm_dd("2026-02-15"));
    assert!(!validate_yyyy_mm_dd("2026-2-15"));
    assert!(!validate_yyyy_mm_dd("2026/02/15"));
    assert!(!validate_yyyy_mm_dd("2026-02-1x"));
}

#[test]
fn report_goodness() {
    assert!(report_is_good(&record(Some("# ok"), None)));
    assert!(report_is_good(&record(Some("# ok"), Some("  "))));
    assert!(!report_is_good(&record(Some("   "), None)));
    assert!(!report_is_good(&record(Some("# ok"), Some("boom"))));
    assert!(!report_is_good(&record(None, None)));
}

#[test]
fn entity_display_names() {
    assert_eq!(display_entity("  "), "(unknown)");
    assert_eq!(display_entity("__hidden__"), "(hidden)");
    assert_eq!(display_entity("C:\\Program Files\\App\\Code.EXE"), "Code");
    assert_eq!(display_entity("/usr/bin/vim"), "vim");
    assert_eq!(display_entity("github.com"), "github.com");
}

#[test]
fn vscode_workspaces() {
    assert_eq!(extract_vscode_workspace("main.rs - recorder - Visual Studio Code").as_deref(), Some("recorder"));
    assert_eq!(extract_vscode_workspace("main.rs — proj — Visual Studio Code Insiders").as_deref(), Some("proj"));
    assert_eq!(extract_vscode_workspace("Welcome").as_deref(), Some("Welcome"));
    assert_eq!(extract_vscode_workspace("  "), None);
    assert_eq!(extract_vscode_workspace(" - Visual Studio Code").as_deref(), Some("Visual Studio Code"));
    assert_eq!(extract_vscode_workspace("x - Visual Studio Code - Visual Studio Code").as_deref(), Some("Visual Studio Code"));
    assert_eq!(extract_vscode_workspace("- - -"), None);
    assert_eq!(extract_vscode_workspace("a - -"), Some("a".to_string()));
}

#[test]
fn prompt_templates() {
    let out = render_prompt_template("Day {{date}}: {{json}}", &[("date", "2026-02-15")], "{}");
    assert_eq!(out, "Day 2026-02-15: {}");
    let out = render_prompt_template("Day {{date}} {{date}}", &[("date", "D")], "[1]");
    assert_eq!(out, "Day D D\n\nInput JSON:\n[1]");
}

#[test]
fn llm_output_cleanup() {
    assert_eq!(extract_tag_block("x<final>A</final>y", "<final>", "</final>").as_deref(), Some("A"));
    assert_eq!(extract_tag_block("x<final>A", "<final>", "</final>"), None);
    assert_eq!(strip_tag_blocks("a<think>b</think>c<think>d</think>e", "<think>", "</think>"), "ace");
    assert_eq!(strip_tag_blocks("a<think>b", "<think>", "</think>"), "ab");
    assert_eq!(strip_wrapping_code_fence("```md\n# Title\n```"), "# Title");
    assert_eq!(strip_wrapping_code_fence("```\n```"), "");
    assert_eq!(strip_wrapping_code_fence("  plain  "), "plain");
    assert_eq!(strip_wrapping_code_fence("```md\nno close"), "```md\nno close");
    assert_eq!(sanitize_llm_markdown_output("<think>hmm</think>\n```markdown\n# Report\n```\n"), "# Report");
    assert_eq!(sanitize_llm_markdown_output("noise<final> # Done </final>"), "# Done");
}

use recorder_core::attribution::{Activity, EntityKind, TimelineSegment};
use recorder_core::summary::{aggregate_top_from_segments, eq_ignore_ascii_case};

fn seg(kind: EntityKind, entity: &str, title: Option<&str>, activity: Activity, seconds: i64) -> TimelineSegment {
    TimelineSegment {
        kind,
        entity: entity.to_string(),
        title: title.map(|t| t.to_string()),
        activity,
        start: 0,
        end: seconds as i128 * 1_000_000_000,
        start_ts: String::new(),
        end_ts: String::new(),
        seconds,
    }
}

#[test]
fn day_top_targets() {
    let segs = vec![
        seg(EntityKind::Domain, "WWW.YouTube.com", Some("Clip - YouTube"), Activity::Focus, 30),
        seg(EntityKind::App, "C:\\VS\\Code.exe", Some("main.rs - proj - Visual Studio Code"), Activity::Focus, 50),
        seg(EntityKind::Domain, "www.youtube.com", Some("Clip - YouTube"), Activity::Focus, 40),
        seg(EntityKind::App, "music.exe", None, Activity::Audio, 100),
        seg(EntityKind::App, "notes.exe", Some("todo"), Activity::Focus, 10),
    ];
    let blocked_domains = vec!["youtube.com".to_string()];
    let items = aggregate_top_from_segments(&segs, true, false, &[], &blocked_domains, 10);
    assert_eq!(items.len(), 3);
    assert_eq!(items[0].entity, "www.youtube.com");
    assert_eq!(items[0].seconds, 70);
    assert_eq!(items[0].label, "Clip");
    assert!(items[0].blocked);
    assert_eq!(items[1].label, "Code");
    assert_eq!(items[1].subtitle.as_deref(), Some("Workspace: proj"));
    assert_eq!(items[2].subtitle.as_deref(), Some("todo"));
    let audio = aggregate_top_from_segments(&segs, true, true, &["music.exe".to_string()], &[], 1);
    assert_eq!(audio.len(), 1);
    assert!(audio[0].blocked && audio[0].audio);
    assert!(eq_ignore_ascii_case("Code.EXE", "code.exe"));
    assert!(!eq_ignore_ascii_case("code.ex", "code.exe"));
}
