//! The ingest pipeline: validate an incoming event, honour a pause, apply the privacy
//! rules and the global privacy settings, and say what to store.
use vstd::prelude::*;
use crate::clock::{parse_rfc3339, rfc3339_instant};
use crate::events::{EventKind, event_kind, event_kind_of, clone_opt, opt_view};
use crate::privacy::{PrivacyIndex, PrivacyDecision, HIDDEN_ENTITY, decision_of_action};
use crate::settings::Settings;
use crate::text::{blank, is_blank, str_eq};

verus! {

/// An event as a collector sends it (the fields that the pipeline reads).
pub struct IngestEvent {
    pub v: i32,
    pub ts: String,
    pub source: String,
    pub event: String,
    pub domain: Option<String>,
    pub app: Option<String>,
    pub title: Option<String>,
}

/// Why an incoming event is refused.
#[derive(Clone, Copy, PartialEq, Eq, Structural, Debug)]
pub enum IngestError {
    InvalidVersion,
    InvalidTs,
    MissingDomain,
    MissingApp,
}

impl IngestError {
    /// The wire code of the error.
    pub fn code(self) -> (r: &'static str)
        ensures
            r@ == match self {
                IngestError::InvalidVersion => "invalid_version"@,
                IngestError::InvalidTs => "invalid_ts"@,
                IngestError::MissingDomain => "missing_domain"@,
                IngestError::MissingApp => "missing_app"@,
            },
    {
        match self {
            IngestError::InvalidVersion => "invalid_version",
            IngestError::InvalidTs => "invalid_ts",
            IngestError::MissingDomain => "missing_domain",
            IngestError::MissingApp => "missing_app",
        }
    }
}

/// A payload member that the pipeline may rewrite.
#[derive(Clone, Copy, PartialEq, Eq, Structural, Debug)]
pub enum PayloadKey {
    Domain,
    App,
    Title,
    ExePath,
    Pid,
}

impl PayloadKey {
    pub fn name(self) -> (r: &'static str) {
        match self {
            PayloadKey::Domain => "domain",
            PayloadKey::App => "app",
            PayloadKey::Title => "title",
            PayloadKey::ExePath => "exePath",
            PayloadKey::Pid => "pid",
        }
    }
}

/// One change to the stored JSON payload.
#[derive(Clone, Copy, PartialEq, Eq, Structural, Debug)]
pub enum PayloadEdit {
    /// Set `masked` to `true`.
    MarkMasked,
    /// Set the member to `"__hidden__"`.
    Hide(PayloadKey),
    /// Remove the member.
    Remove(PayloadKey),
}

/// What the payload holds, as far as the pipeline cares.
#[derive(Clone, Copy, PartialEq, Eq, Structural, Debug)]
pub struct PayloadShape {
    pub is_object: bool,
    pub has_domain: bool,
    pub has_app: bool,
}

/// What to store for an accepted event.
pub struct StoredEvent {
    pub entity: Option<String>,
    pub title: Option<String>,
    pub edits: Vec<PayloadEdit>,
}

/// The outcome of an accepted event: acknowledged either way, stored or not.
pub enum IngestOutcome {
    /// Acknowledged and not stored (tracking is paused, or a rule drops the event).
    Ignore,
    Store(StoredEvent),
}

/// A field that holds something other than white space.
pub open spec fn present(f: Option<String>) -> Option<Seq<char>> {
    match f {
        Some(s) => if is_blank(s@) {
            None
        } else {
            Some(s@)
        },
        None => None,
    }
}

/// The entity of an event: the domain for tab events, the app for app events, otherwise
/// the domain if present, else the app.
pub open spec fn entity_spec(e: IngestEvent) -> Option<Seq<char>> {
    match event_kind_of(e.event@) {
        EventKind::TabActive | EventKind::TabAudioStop => present(e.domain),
        EventKind::AppActive | EventKind::AppAudio | EventKind::AppAudioStop => present(e.app),
        _ => if present(e.domain) is Some {
            present(e.domain)
        } else {
            present(e.app)
        },
    }
}

/// The validation verdict of an event.
pub open spec fn validation_spec(e: IngestEvent) -> Result<Option<Seq<char>>, IngestError> {
    if e.v < 1 {
        Err(IngestError::InvalidVersion)
    } else if rfc3339_instant(e.ts@) is None {
        Err(IngestError::InvalidTs)
    } else {
        let k = event_kind_of(e.event@);
        let ent = entity_spec(e);
        if (k == EventKind::TabActive || k == EventKind::TabAudioStop) && ent is None {
            Err(IngestError::MissingDomain)
        } else if (k == EventKind::AppActive || k == EventKind::AppAudio || k == EventKind::AppAudioStop)
            && ent is None {
            Err(IngestError::MissingApp)
        } else {
            Ok(ent)
        }
    }
}

fn present_exec(f: &Option<String>) -> (r: Option<String>)
    ensures
        opt_view(r) == present(*f),
{
    match f {
        Some(s) => if blank(s.as_str()) {
            None
        } else {
            Some(s.clone())
        },
        None => None,
    }
}

/// Validates an incoming event and picks its entity.
pub fn validate_event(e: &IngestEvent) -> (r: Result<Option<String>, IngestError>)
    ensures
        match (r, validation_spec(*e)) {
            (Ok(a), Ok(b)) => opt_view(a) == b,
            (Err(a), Err(b)) => a == b,
            _ => false,
        },
{
    if e.v < 1 {
        return Err(IngestError::InvalidVersion);
    }
    if parse_rfc3339(e.ts.as_str()).is_none() {
        return Err(IngestError::InvalidTs);
    }
    let k = event_kind(e.event.as_str());
    let ent = match k {
        EventKind::TabActive | EventKind::TabAudioStop => present_exec(&e.domain),
        EventKind::AppActive | EventKind::AppAudio | EventKind::AppAudioStop => present_exec(&e.app),
        _ => {
            let d = present_exec(&e.domain);
            if d.is_some() {
                d
            } else {
                present_exec(&e.app)
            }
        },
    };
    let none = ent.is_none();
    if (k == EventKind::TabActive || k == EventKind::TabAudioStop) && none {
        return Err(IngestError::MissingDomain);
    }
    if (k == EventKind::AppActive || k == EventKind::AppAudio || k == EventKind::AppAudioStop) && none {
        return Err(IngestError::MissingApp);
    }
    Ok(ent)
}

/// The payload edits: masking marks the payload, hides each entity member it holds and
/// drops the title, the executable path and the process id; then titles, paths and pids
/// go where the settings do not keep them.
pub open spec fn edits_spec(mask: bool, shape: PayloadShape, settings: Settings) -> Seq<PayloadEdit> {
    if !shape.is_object {
        Seq::empty()
    } else {
        let m = if mask {
            seq![PayloadEdit::MarkMasked] + (if shape.has_domain {
                seq![PayloadEdit::Hide(PayloadKey::Domain)]
            } else {
                Seq::empty()
            }) + (if shape.has_app {
                seq![PayloadEdit::Hide(PayloadKey::App)]
            } else {
                Seq::empty()
            }) + seq![
                PayloadEdit::Remove(PayloadKey::Title),
                PayloadEdit::Remove(PayloadKey::ExePath),
                PayloadEdit::Remove(PayloadKey::Pid),
            ]
        } else {
            Seq::empty()
        };
        let t = if !settings.store_titles {
            seq![PayloadEdit::Remove(PayloadKey::Title)]
        } else {
            Seq::empty()
        };
        let x = if !settings.store_exe_path {
            seq![PayloadEdit::Remove(PayloadKey::ExePath), PayloadEdit::Remove(PayloadKey::Pid)]
        } else {
            Seq::empty()
        };
        m + t + x
    }
}

fn payload_edits(mask: bool, shape: PayloadShape, settings: Settings) -> (r: Vec<PayloadEdit>)
    ensures
        r@ == edits_spec(mask, shape, settings),
{
    let mut r: Vec<PayloadEdit> = Vec::new();
    if !shape.is_object {
        return r;
    }
    if mask {
        r.push(PayloadEdit::MarkMasked);
        if shape.has_domain {
            r.push(PayloadEdit::Hide(PayloadKey::Domain));
        }
        if shape.has_app {
            r.push(PayloadEdit::Hide(PayloadKey::App));
        }
        r.push(PayloadEdit::Remove(PayloadKey::Title));
        r.push(PayloadEdit::Remove(PayloadKey::ExePath));
        r.push(PayloadEdit::Remove(PayloadKey::Pid));
    }
    if !settings.store_titles {
        r.push(PayloadEdit::Remove(PayloadKey::Title));
    }
    if !settings.store_exe_path {
        r.push(PayloadEdit::Remove(PayloadKey::ExePath));
        r.push(PayloadEdit::Remove(PayloadKey::Pid));
    }
    assert(r@ =~= edits_spec(mask, shape, settings));
    r
}

/// What becomes of an incoming event. Validation comes first: an invalid event is refused
/// and nothing is stored. A valid event is acknowledged; it is not stored while tracking
/// is paused or when a rule drops it; a masking rule replaces its entity with
/// `__hidden__` and clears its title; the title is also cleared where titles are not kept.
pub fn plan_ingest(
    e: &IngestEvent,
    paused: bool,
    privacy: &PrivacyIndex,
    settings: Settings,
    shape: PayloadShape,
) -> (r: Result<IngestOutcome, IngestError>)
    ensures
        validation_spec(*e) matches Err(err) ==> r == Err::<IngestOutcome, IngestError>(err),
        validation_spec(*e) matches Ok(ent) ==> {
            let action = decision_of_action(privacy.ingest_action_spec(e.event@, opt_view(e.domain), opt_view(e.app)));
            if paused || action == PrivacyDecision::Drop {
                r matches Ok(IngestOutcome::Ignore)
            } else {
                let mask = action == PrivacyDecision::Mask;
                r matches Ok(IngestOutcome::Store(s)) && (if mask {
                    opt_view(s.entity) == Some(HIDDEN_ENTITY@)
                } else {
                    opt_view(s.entity) == ent
                }) && (if mask || !settings.store_titles {
                    s.title is None
                } else {
                    s.title == e.title
                }) && s.edits@ == edits_spec(mask, shape, settings)
            }
        },
{
    let ent = match validate_event(e) {
        Ok(x) => x,
        Err(err) => return Err(err),
    };
    if paused {
        return Ok(IngestOutcome::Ignore);
    }
    let domain: Option<&str> = match &e.domain {
        Some(d) => Some(d.as_str()),
        None => None,
    };
    let app: Option<&str> = match &e.app {
        Some(a) => Some(a.as_str()),
        None => None,
    };
    let action = privacy.ingest_action(e.event.as_str(), domain, app);
    let decision = match &action {
        Some(a) => if str_eq(a.as_str(), "drop") {
            PrivacyDecision::Drop
        } else if str_eq(a.as_str(), "mask") {
            PrivacyDecision::Mask
        } else {
            PrivacyDecision::Allow
        },
        None => PrivacyDecision::Allow,
    };
    assert(decision == decision_of_action(opt_view(action)));
    if decision == PrivacyDecision::Drop {
        return Ok(IngestOutcome::Ignore);
    }
    let mask = decision == PrivacyDecision::Mask;
    let entity = if mask {
        Some(String::from_str(HIDDEN_ENTITY))
    } else {
        ent
    };
    let title = if mask || !settings.store_titles {
        None
    } else {
        clone_opt(&e.title)
    };
    let edits = payload_edits(mask, shape, settings);
    Ok(IngestOutcome::Store(StoredEvent { entity, title, edits }))
}

/// An event that fails validation is refused, whatever the pause state, the rules and the
/// settings: an invalid version or an unreadable timestamp never reaches the store.
pub proof fn lemma_invalid_event_never_stored(e: IngestEvent)
    requires
        e.v < 1 || rfc3339_instant(e.ts@) is None,
    ensures
        validation_spec(e) is Err,
        e.v < 1 ==> validation_spec(e) == Err::<Option<Seq<char>>, IngestError>(IngestError::InvalidVersion),
        e.v >= 1 ==> validation_spec(e) == Err::<Option<Seq<char>>, IngestError>(IngestError::InvalidTs),
{
}

} // verus!
