//! The time ranges that bulk deletions remove.
use vstd::prelude::*;
use crate::clock::{NANOS_PER_SECOND, parse_rfc3339, rfc3339_instant, format_rfc3339, rfc3339_text};
use crate::text::{blank, is_blank};

verus! {

/// Why a deletion range is refused.
#[derive(Clone, Copy, PartialEq, Eq, Structural, Debug)]
pub enum RangeError {
    MissingStartTs,
    InvalidStartTs,
    InvalidEndTs,
    InvalidRange,
}

impl RangeError {
    pub fn code(self) -> (r: &'static str)
        ensures
            r@ == match self {
                RangeError::MissingStartTs => "missing_start_ts"@,
                RangeError::InvalidStartTs => "invalid_start_ts"@,
                RangeError::InvalidEndTs => "invalid_end_ts"@,
                RangeError::InvalidRange => "invalid_range"@,
            },
    {
        match self {
            RangeError::MissingStartTs => "missing_start_ts",
            RangeError::InvalidStartTs => "invalid_start_ts",
            RangeError::InvalidEndTs => "invalid_end_ts",
            RangeError::InvalidRange => "invalid_range",
        }
    }
}

pub open spec fn filled_text(o: Option<Seq<char>>) -> Option<Seq<char>> {
    match o {
        Some(s) => if is_blank(s) {
            None
        } else {
            Some(s)
        },
        None => None,
    }
}

/// The range `[start, end)` of a block deletion, as nanosecond instants: from the start
/// (the `start_ts`, else the block id) to the given end, else one block length later.
pub open spec fn deletion_range_spec(
    block_id: Option<Seq<char>>,
    start_ts: Option<Seq<char>>,
    end_ts: Option<Seq<char>>,
    block_seconds: i64,
) -> Result<(int, int), RangeError> {
    let start_text = if filled_text(start_ts) is Some { filled_text(start_ts) } else { filled_text(block_id) };
    match start_text {
        None => Err(RangeError::MissingStartTs),
        Some(st) => match rfc3339_instant(st) {
            None => Err(RangeError::InvalidStartTs),
            Some(start) => {
                let end = match filled_text(end_ts) {
                    Some(et) => match rfc3339_instant(et) {
                        Some(e) => Ok(e as int),
                        None => Err(RangeError::InvalidEndTs),
                    },
                    None => Ok(start + (if block_seconds < 60 { 60 } else { block_seconds as int }) * NANOS_PER_SECOND),
                };
                match end {
                    Err(e) => Err(e),
                    Ok(end) => if end <= start {
                        Err(RangeError::InvalidRange)
                    } else {
                        Ok((start as int, end))
                    },
                }
            },
        },
    }
}

fn filled<'a>(o: Option<&'a str>) -> (r: Option<&'a str>)
    ensures
        match r {
            Some(s) => filled_text(match o { Some(x) => Some(x@), None => None }) == Some(s@),
            None => filled_text(match o { Some(x) => Some(x@), None => None }) is None,
        },
{
    match o {
        Some(s) => if blank(s) {
            None
        } else {
            Some(s)
        },
        None => None,
    }
}

/// The range of a block deletion, as RFC 3339 texts.
pub fn deletion_range(
    block_id: Option<&str>,
    start_ts: Option<&str>,
    end_ts: Option<&str>,
    block_seconds: i64,
) -> (r: Result<(String, String), RangeError>)
    ensures
        match deletion_range_spec(
            match block_id { Some(x) => Some(x@), None => None },
            match start_ts { Some(x) => Some(x@), None => None },
            match end_ts { Some(x) => Some(x@), None => None },
            block_seconds,
        ) {
            Ok((s, e)) => r matches Ok((a, b)) && a@ == rfc3339_text(s as i128) && b@ == rfc3339_text(e as i128),
            Err(err) => r == Err::<(String, String), RangeError>(err),
        },
{
    let st = match filled(start_ts) {
        Some(s) => Some(s),
        None => filled(block_id),
    };
    let st = match st {
        Some(s) => s,
        None => return Err(RangeError::MissingStartTs),
    };
    let start = match parse_rfc3339(st) {
        Some(t) => t,
        None => return Err(RangeError::InvalidStartTs),
    };
    let end = match filled(end_ts) {
        Some(et) => match parse_rfc3339(et) {
            Some(e) => e,
            None => return Err(RangeError::InvalidEndTs),
        },
        None => {
            let len: i64 = if block_seconds < 60 { 60 } else { block_seconds };
            start + len as i128 * NANOS_PER_SECOND
        },
    };
    if end <= start {
        return Err(RangeError::InvalidRange);
    }
    Ok((format_rfc3339(start), format_rfc3339(end)))
}

} // verus!
