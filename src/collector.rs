//! The decisions of the host collector's poll loop: when to report the foreground app,
//! when to report audio and its end, and when to remind about a block due for review.
use vstd::prelude::*;

verus! {

/// What identifies a foreground report: the app, its process id and (when titles are
/// sent) its window title.
pub struct FocusKey {
    pub app: String,
    pub pid: u32,
    pub title: String,
}

pub open spec fn same_focus_key(a: FocusKey, b: FocusKey) -> bool {
    a.app@ == b.app@ && a.pid == b.pid && a.title@ == b.title@
}

/// Whether to report the foreground app: when it changed since the last report, or when
/// the heartbeat is due.
pub fn should_report_focus(last: &Option<FocusKey>, key: &FocusKey, heartbeat_due: bool) -> (r: bool)
    ensures
        r == (heartbeat_due || !(last matches Some(l) && same_focus_key(*l, *key))),
{
    let changed = match last {
        Some(l) => !(l.app == key.app && l.pid == key.pid && l.title == key.title),
        None => true,
    };
    changed || heartbeat_due
}

/// The app that plays audio.
pub struct AudioSource {
    pub pid: u32,
    pub app: String,
}

/// The result of polling the audio sessions.
pub enum AudioPoll {
    /// The poll failed: nothing new is known.
    Failed,
    /// No session is audible.
    Silent,
    Playing(AudioSource),
}

/// What the collector sends after an audio poll.
#[derive(Clone, Copy, PartialEq, Eq, Structural, Debug)]
pub enum AudioAction {
    Nothing,
    /// An `app_audio` event for the playing source.
    Report,
    /// An `app_audio_stop` event for the source that was playing.
    ReportStop,
}

pub open spec fn same_source(a: AudioSource, b: AudioSource) -> bool {
    a.pid == b.pid && a.app@ == b.app@
}

/// One audio step. A failed poll changes nothing and sends nothing (a transient failure is
/// no stop); a playing source is reported when it changed or the heartbeat is due; silence
/// after a source sends one stop marker and forgets the source.
pub fn audio_step(last: Option<AudioSource>, poll: AudioPoll, heartbeat_due: bool) -> (r: (Option<AudioSource>, AudioAction))
    ensures
        poll is Failed ==> r.1 == AudioAction::Nothing && r.0 == last,
        poll is Silent ==> r.0 is None && (r.1 == AudioAction::ReportStop <==> last is Some) && (
        r.1 != AudioAction::Report),
        poll matches AudioPoll::Playing(p) ==> r.0 == Some(p) && (r.1 == AudioAction::Report <==> (
        heartbeat_due || !(last matches Some(l) && same_source(l, p)))) && r.1 != AudioAction::ReportStop,
{
    match poll {
        AudioPoll::Failed => (last, AudioAction::Nothing),
        AudioPoll::Silent => match last {
            Some(_) => (None, AudioAction::ReportStop),
            None => (None, AudioAction::Nothing),
        },
        AudioPoll::Playing(p) => {
            let changed = match &last {
                Some(l) => !(l.pid == p.pid && l.app == p.app),
                None => true,
            };
            if changed || heartbeat_due {
                (Some(p), AudioAction::Report)
            } else {
                (Some(p), AudioAction::Nothing)
            }
        },
    }
}

/// Whether to show a review reminder for the due block `due_id`: never while snoozed or
/// (unless asked to) while tracking is paused, and only for a due block. A block that was
/// the subject of the last reminder is not reminded about again once a snooze was set.
pub fn should_remind(
    snoozed: bool,
    snooze_set: bool,
    paused: bool,
    notify_when_paused: bool,
    last_block_id: Option<&str>,
    due_id: Option<&str>,
) -> (r: bool)
    ensures
        r == (!snoozed && !(paused && !notify_when_paused) && (due_id matches Some(d) && (!snooze_set
            || !(last_block_id matches Some(l) && l@ == d@)))),
{
    if snoozed {
        return false;
    }
    if paused && !notify_when_paused {
        return false;
    }
    let d = match due_id {
        Some(d) => d,
        None => return false,
    };
    let same = match last_block_id {
        Some(l) => crate::text::str_eq(l, d),
        None => false,
    };
    !same || !snooze_set
}

/// Minutes of snooze after a reminder: the setting, at least one.
pub fn snooze_minutes(repeat_minutes: u64) -> (r: u64)
    ensures
        r == if repeat_minutes < 1 { 1 } else { repeat_minutes },
{
    if repeat_minutes < 1 {
        1
    } else {
        repeat_minutes
    }
}

} // verus!
