//! Application settings and report settings.
use vstd::prelude::*;

verus! {

pub const DEFAULT_BLOCK_SECONDS: i64 = 2700;

pub const DEFAULT_IDLE_CUTOFF_SECONDS: i64 = 300;

pub const DEFAULT_REVIEW_MIN_SECONDS: i64 = 300;

pub const DEFAULT_REVIEW_NOTIFY_REPEAT_MINUTES: i64 = 10;

pub const REVIEW_MIN_SECONDS_MIN: i64 = 60;

pub const REVIEW_MIN_SECONDS_MAX: i64 = 14_400;

pub const REVIEW_NOTIFY_REPEAT_MINUTES_MIN: i64 = 1;

pub const REVIEW_NOTIFY_REPEAT_MINUTES_MAX: i64 = 1440;

/// The application settings.
#[derive(Clone, Copy, PartialEq, Eq, Structural, Debug)]
pub struct Settings {
    pub block_seconds: i64,
    pub idle_cutoff_seconds: i64,
    pub store_titles: bool,
    pub store_exe_path: bool,
    /// Minimum block duration before it can become due for review.
    pub review_min_seconds: i64,
    /// Minimum minutes between repeated review notifications for one due block.
    pub review_notify_repeat_minutes: i64,
    pub review_notify_when_paused: bool,
    pub review_notify_when_idle: bool,
}

pub open spec fn clamp_i64(v: i64, lo: i64, hi: i64) -> i64 {
    if v < lo {
        lo
    } else if v > hi {
        hi
    } else {
        v
    }
}

pub fn clamp(v: i64, lo: i64, hi: i64) -> (r: i64)
    requires
        lo <= hi,
    ensures
        r == clamp_i64(v, lo, hi),
{
    if v < lo {
        lo
    } else if v > hi {
        hi
    } else {
        v
    }
}

impl Settings {
    /// Settings whose bounds hold: a block of at least a minute, an idle cutoff of at
    /// least ten seconds, and the review bounds in range.
    pub open spec fn valid(&self) -> bool {
        &&& self.block_seconds >= 60
        &&& self.idle_cutoff_seconds >= 10
        &&& REVIEW_MIN_SECONDS_MIN <= self.review_min_seconds <= REVIEW_MIN_SECONDS_MAX
        &&& REVIEW_NOTIFY_REPEAT_MINUTES_MIN <= self.review_notify_repeat_minutes
            <= REVIEW_NOTIFY_REPEAT_MINUTES_MAX
    }

    /// The settings with every bound enforced, as they are re-checked on load.
    pub fn normalized(self) -> (r: Settings)
        ensures
            r.valid(),
            r.block_seconds == if self.block_seconds < 60 { 60 } else { self.block_seconds },
            r.idle_cutoff_seconds == if self.idle_cutoff_seconds < 10 {
                10
            } else {
                self.idle_cutoff_seconds
            },
            r.review_min_seconds == clamp_i64(self.review_min_seconds, REVIEW_MIN_SECONDS_MIN, REVIEW_MIN_SECONDS_MAX),
            r.review_notify_repeat_minutes == clamp_i64(
                self.review_notify_repeat_minutes,
                REVIEW_NOTIFY_REPEAT_MINUTES_MIN,
                REVIEW_NOTIFY_REPEAT_MINUTES_MAX,
            ),
            r.store_titles == self.store_titles,
            r.store_exe_path == self.store_exe_path,
            r.review_notify_when_paused == self.review_notify_when_paused,
            r.review_notify_when_idle == self.review_notify_when_idle,
            self.valid() ==> r == self,
    {
        Settings {
            block_seconds: if self.block_seconds < 60 { 60 } else { self.block_seconds },
            idle_cutoff_seconds: if self.idle_cutoff_seconds < 10 {
                10
            } else {
                self.idle_cutoff_seconds
            },
            store_titles: self.store_titles,
            store_exe_path: self.store_exe_path,
            review_min_seconds: clamp(self.review_min_seconds, REVIEW_MIN_SECONDS_MIN, REVIEW_MIN_SECONDS_MAX),
            review_notify_repeat_minutes: clamp(
                self.review_notify_repeat_minutes,
                REVIEW_NOTIFY_REPEAT_MINUTES_MIN,
                REVIEW_NOTIFY_REPEAT_MINUTES_MAX,
            ),
            review_notify_when_paused: self.review_notify_when_paused,
            review_notify_when_idle: self.review_notify_when_idle,
        }
    }
}

/// The privacy level that the settings amount to: `L3` when executable paths are kept,
/// else `L2` when titles are kept, else `L1`.
pub fn privacy_level_label(s: Settings) -> (r: &'static str)
    ensures
        r@ == if s.store_exe_path {
            "L3"@
        } else if s.store_titles {
            "L2"@
        } else {
            "L1"@
        },
{
    if s.store_exe_path {
        "L3"
    } else if s.store_titles {
        "L2"
    } else {
        "L1"
    }
}

/// How many events `/events` lists when no limit is given.
pub fn default_limit() -> (r: usize)
    ensures
        r == 50,
{
    50
}

/// How many recent events the "Now" scan reads when no limit is given.
pub fn default_now_limit() -> (r: usize)
    ensures
        r == 200,
{
    200
}

/// How many reports are listed when no limit is given.
pub fn default_reports_limit() -> (r: usize)
    ensures
        r == 30,
{
    30
}

pub const DEFAULT_DAILY_PROMPT: &'static str = r#"
你是严格的个人复盘助手。只能使用我提供的 JSON 数据，不要猜测/脑补；缺失信息用 N/A。
只输出 Markdown（不要代码围栏），不要输出任何额外解释。

目标：把 {{date}} 的使用记录整理成可直接贴到笔记里的“日报表格”，并给出 3~6 条可执行建议（必须与数据强相关）。

输出结构：
1) 标题：# {{date}} 日报（RecorderPhone）
2) 概览表（必须是 Markdown 表格）：
| 指标 | 值 | 备注 |
至少包含：Focus 总时长、Background audio 总时长、Blocks 数、已复盘 Blocks 数、未复盘 Blocks 数、Top1 占比、Focus 上下文数、Focus 切换次数、黑名单 Focus 时长、最晚活动时间、隐私级别。
3) 时间分布（表格，最多 8 行）：
| 时段(小时) | Focus | Audio | 备注 |
规则：优先用 input.stats.focus_top_hours；若为空，再从 input.stats.focus_by_hour_seconds 推导。列出 Focus 最多的 Top 6 小时，再加 1 行“其余”。
4) Top 列表（最多 10 行，表格）：
| Rank | 类型(app/site) | 名称(优先 title；没有就用域名/应用) | 次级信息(域名/应用) | 时长 | 占比 | 黑名单? |
5) Blocks 表（按时间升序，最多 20 行，超出就合并为“其余”一行）：
| 时间段 | Top Focus | Focus 时长 | Top Audio | Audio 时长 | doing/output/next(若有) | Tags | 状态(reviewed/skipped/pending) |
6) 洞察与建议：3~6 条 bullet，每条以 “Action:” 开头，必须可执行且与数据强相关。
建议尽量覆盖：节奏（高峰时段）、碎片化（切换次数/上下文数）、黑名单时间、未复盘 block 的闭环。

输入 JSON：
{{json}}
"#;

pub const DEFAULT_WEEKLY_PROMPT: &'static str = r#"
你是严格的周复盘助手。只能使用我提供的 JSON 数据，不要猜测；缺失信息用 N/A。
只输出 Markdown（不要代码围栏），不要输出任何额外解释。

目标：把 {{week_start}}~{{week_end}} 的记录整理成“周报表格 + 下周实验建议”。

输出结构：
1) 标题：# 周报 {{week_start}} ~ {{week_end}}（RecorderPhone）
2) 每日概览表（表格，按日期升序）：
| 日期 | Focus 时长 | Audio 时长 | Blocks | 已复盘 | Top1 | Top1 占比 |
3) 本周 Top（最多 15 行，表格）：
| Rank | 类型(app/site) | 名称(优先 title；没有就用域名/应用) | 次级信息 | 总时长 | 占比 |
4) 未复盘清单（如有，表格，最多 10 行）：
| 日期 | 时间段 | Top Focus | 备注 |
5) 下周建议（3~5 条 bullet，以 “Action:” 开头），并给出 1 个“可量化实验”。

输入 JSON：
{{json}}
"#;

/// Settings of the report generator.
pub struct ReportSettings {
    pub enabled: bool,
    pub api_base_url: String,
    pub api_key: String,
    pub model: String,
    pub daily_enabled: bool,
    /// Minutes after local midnight, 0..1439.
    pub daily_at_minutes: i64,
    pub daily_prompt: String,
    pub weekly_enabled: bool,
    /// 1 = Monday .. 7 = Sunday.
    pub weekly_weekday: i32,
    pub weekly_at_minutes: i64,
    pub weekly_prompt: String,
    pub save_md: bool,
    pub save_csv: bool,
    pub output_dir: Option<String>,
    pub updated_at: String,
}

impl ReportSettings {
    /// The settings a fresh store starts with.
    pub fn defaults(updated_at: &str) -> (r: ReportSettings)
        ensures
            !r.enabled && !r.daily_enabled && !r.weekly_enabled,
            r.api_base_url@ == "https://api.openai.com/v1"@,
            r.api_key@.len() == 0,
            r.model@ == "gpt-4o-mini"@,
            r.daily_at_minutes == 10,
            r.daily_prompt@ == DEFAULT_DAILY_PROMPT@,
            r.weekly_weekday == 1,
            r.weekly_at_minutes == 20,
            r.weekly_prompt@ == DEFAULT_WEEKLY_PROMPT@,
            r.save_md && !r.save_csv,
            r.output_dir is None,
            r.updated_at@ == updated_at@,
    {
        ReportSettings {
            enabled: false,
            api_base_url: String::from_str("https://api.openai.com/v1"),
            api_key: String::new(),
            model: String::from_str("gpt-4o-mini"),
            daily_enabled: false,
            daily_at_minutes: 10,
            daily_prompt: String::from_str(DEFAULT_DAILY_PROMPT),
            weekly_enabled: false,
            weekly_weekday: 1,
            weekly_at_minutes: 20,
            weekly_prompt: String::from_str(DEFAULT_WEEKLY_PROMPT),
            save_md: true,
            save_csv: false,
            output_dir: None,
            updated_at: String::from_str(updated_at),
        }
    }
}

} // verus!
