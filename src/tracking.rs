//! The paused/active tracking state, with auto-resume at the pause deadline.
use vstd::prelude::*;
use crate::clock::{NANOS_PER_SECOND, instant_in_range, parse_rfc3339, rfc3339_instant, format_rfc3339, rfc3339_text};

verus! {

/// The stored tracking state.
pub struct TrackingStatus {
    pub paused: bool,
    pub paused_until_ts: Option<String>,
    pub updated_at: String,
}

/// What a read of the tracking state finds.
#[derive(Clone, Copy, PartialEq, Eq, Structural, Debug)]
pub enum PauseCheck {
    /// Not paused.
    Active,
    /// Paused, with no deadline or a deadline still ahead.
    Paused,
    /// The deadline has passed, or it cannot be read: resume now.
    ResumeNow,
}

pub open spec fn pause_check_spec(paused: bool, until: Option<Seq<char>>, now: i128) -> PauseCheck {
    if !paused {
        PauseCheck::Active
    } else {
        match until {
            None => PauseCheck::Paused,
            Some(u) => match rfc3339_instant(u) {
                Some(t) => if t <= now {
                    PauseCheck::ResumeNow
                } else {
                    PauseCheck::Paused
                },
                None => PauseCheck::ResumeNow,
            },
        }
    }
}

/// Reads the tracking state at `now`; an expired or unreadable deadline asks for a resume.
pub fn check_pause(paused: bool, paused_until_ts: Option<&str>, now: i128) -> (r: PauseCheck)
    ensures
        r == pause_check_spec(
            paused,
            match paused_until_ts {
                Some(s) => Some(s@),
                None => None,
            },
            now,
        ),
{
    if !paused {
        return PauseCheck::Active;
    }
    match paused_until_ts {
        None => PauseCheck::Paused,
        Some(u) => match parse_rfc3339(u) {
            Some(t) => if t <= now {
                PauseCheck::ResumeNow
            } else {
                PauseCheck::Paused
            },
            None => PauseCheck::ResumeNow,
        },
    }
}

/// Whether events are to be dropped after a check.
pub fn tracking_is_paused(c: PauseCheck) -> (r: bool)
    ensures
        r == (c == PauseCheck::Paused),
{
    c == PauseCheck::Paused
}

/// Why a pause request is refused.
#[derive(Clone, Copy, PartialEq, Eq, Structural, Debug)]
pub enum PauseError {
    InvalidUntilTs,
    InvalidMinutes,
}

impl PauseError {
    pub fn code(self) -> (r: &'static str)
        ensures
            r@ == match self {
                PauseError::InvalidUntilTs => "invalid_until_ts"@,
                PauseError::InvalidMinutes => "invalid_minutes"@,
            },
    {
        match self {
            PauseError::InvalidUntilTs => "invalid_until_ts",
            PauseError::InvalidMinutes => "invalid_minutes",
        }
    }
}

/// The deadline of a pause: the given RFC 3339 instant as written, or `minutes` after
/// `now`, or none (an indefinite pause).
pub fn pause_until(until_ts: Option<&str>, minutes: Option<i64>, now: i128) -> (r: Result<Option<String>, PauseError>)
    requires
        instant_in_range(now),
    ensures
        match until_ts {
            Some(u) => match rfc3339_instant(u@) {
                Some(_) => r matches Ok(Some(s)) && s@ == u@,
                None => r == Err::<Option<String>, PauseError>(PauseError::InvalidUntilTs),
            },
            None => match minutes {
                Some(m) => if m <= 0 {
                    r == Err::<Option<String>, PauseError>(PauseError::InvalidMinutes)
                } else {
                    r matches Ok(Some(s)) && s@ == rfc3339_text((now + m * 60 * NANOS_PER_SECOND) as i128)
                },
                None => r matches Ok(None),
            },
        },
{
    match until_ts {
        Some(u) => match parse_rfc3339(u) {
            Some(_) => Ok(Some(String::from_str(u))),
            None => Err(PauseError::InvalidUntilTs),
        },
        None => match minutes {
            Some(m) => if m <= 0 {
                Err(PauseError::InvalidMinutes)
            } else {
                let until: i128 = now + m as i128 * 60 * NANOS_PER_SECOND;
                Ok(Some(format_rfc3339(until)))
            },
            None => Ok(None),
        },
    }
}

} // verus!
