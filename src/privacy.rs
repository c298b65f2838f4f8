//! Privacy rules: drop or mask an app or a domain, with suffix matching for domains.
use vstd::prelude::*;
use crate::events::{EventForBlocks, EventKind, EventRecord, event_kind, event_kind_of, opt_view, sorted_by_ts};
use crate::text::{
    chars_of, string_of, str_eq, to_lower, lower_of, trim_str, trimmed, is_blank, blank,
    contains_char, sub_chars,
};

verus! {

/// What replaces a masked entity.
pub const HIDDEN_ENTITY: &'static str = "__hidden__";

/// What a privacy rule decides for an event.
#[derive(Clone, Copy, PartialEq, Eq, Structural, Debug)]
pub enum PrivacyDecision {
    Allow,
    Drop,
    Mask,
}

/// A stored privacy rule.
pub struct PrivacyRuleRow {
    pub id: i64,
    pub kind: String,
    pub value: String,
    pub action: String,
    pub created_at: String,
}

/// One entry of the index: `(kind, value) -> action`.
pub struct PrivacyRule {
    pub kind: String,
    pub value: String,
    pub action: String,
}

/// The rules, looked up by `(kind, value)`; a later entry for a pair replaces an earlier one.
pub struct PrivacyIndex {
    pub rules: Vec<PrivacyRule>,
}

/// The action that the last rule for `(kind, value)` among `rules` holds.
pub open spec fn action_for(rules: Seq<PrivacyRule>, kind: Seq<char>, value: Seq<char>) -> Option<Seq<char>>
    decreases rules.len(),
{
    if rules.len() == 0 {
        None
    } else if rules.last().kind@ == kind && rules.last().value@ == value {
        Some(rules.last().action@)
    } else {
        action_for(rules.drop_last(), kind, value)
    }
}

pub open spec fn decision_of_action(a: Option<Seq<char>>) -> PrivacyDecision {
    match a {
        Some(s) => if s == "drop"@ {
            PrivacyDecision::Drop
        } else if s == "mask"@ {
            PrivacyDecision::Mask
        } else {
            PrivacyDecision::Allow
        },
        None => PrivacyDecision::Allow,
    }
}

fn decision_from_action(a: &str) -> (r: PrivacyDecision)
    ensures
        r == decision_of_action(Some(a@)),
{
    if str_eq(a, "drop") {
        PrivacyDecision::Drop
    } else if str_eq(a, "mask") {
        PrivacyDecision::Mask
    } else {
        PrivacyDecision::Allow
    }
}

/// Tab events are checked against domain rules, all others against app rules.
pub open spec fn privacy_kind_spec(event: Seq<char>) -> Seq<char> {
    if event_kind_of(event) == EventKind::TabActive || event_kind_of(event) == EventKind::TabAudioStop {
        "domain"@
    } else {
        "app"@
    }
}

/// The rule kind that an event is checked against.
pub fn privacy_kind_for_event(event: &str) -> (r: &'static str)
    ensures
        r@ == privacy_kind_spec(event@),
{
    match event_kind(event) {
        EventKind::TabActive | EventKind::TabAudioStop => "domain",
        _ => "app",
    }
}

/// The looked-up form of an entity: trimmed, and lower-cased for domains.
pub open spec fn normalized_entity(kind: Seq<char>, entity: Seq<char>) -> Seq<char> {
    if kind == "domain"@ {
        lower_of(trimmed(entity))
    } else {
        trimmed(entity)
    }
}

impl PrivacyIndex {
    /// An index without rules.
    pub fn new() -> (r: PrivacyIndex)
        ensures
            r.rules@.len() == 0,
    {
        PrivacyIndex { rules: Vec::new() }
    }

    /// The index of the stored rules.
    pub fn from_rules(rows: &[PrivacyRuleRow]) -> (r: PrivacyIndex)
        ensures
            r.rules@.len() == rows@.len(),
            forall|i: int| 0 <= i < rows@.len() ==> {
                &&& (#[trigger] r.rules@[i]).kind == rows@[i].kind
                &&& r.rules@[i].value == rows@[i].value
                &&& r.rules@[i].action == rows@[i].action
            },
    {
        let mut rules: Vec<PrivacyRule> = Vec::new();
        let mut i: usize = 0;
        while i < rows.len()
            invariant
                i <= rows@.len(),
                rules@.len() == i,
                forall|k: int| 0 <= k < i ==> {
                    &&& (#[trigger] rules@[k]).kind == rows@[k].kind
                    &&& rules@[k].value == rows@[k].value
                    &&& rules@[k].action == rows@[k].action
                },
            decreases rows@.len() - i,
        {
            let row = &rows[i];
            rules.push(PrivacyRule { kind: row.kind.clone(), value: row.value.clone(), action: row.action.clone() });
            i = i + 1;
        }
        PrivacyIndex { rules }
    }

    /// The action stored for `(kind, value)`.
    pub fn lookup(&self, kind: &str, value: &str) -> (r: Option<&String>)
        ensures
            match r {
                Some(a) => action_for(self.rules@, kind@, value@) == Some(a@),
                None => action_for(self.rules@, kind@, value@) is None,
            },
    {
        let mut i: usize = self.rules.len();
        assert(self.rules@.subrange(0, i as int) =~= self.rules@);
        while i > 0
            invariant
                i <= self.rules@.len(),
                action_for(self.rules@, kind@, value@) == action_for(self.rules@.subrange(0, i as int), kind@, value@),
            decreases i,
        {
            let ghost pre = self.rules@.subrange(0, i as int);
            assert(pre.drop_last() =~= self.rules@.subrange(0, i - 1));
            let r = &self.rules[i - 1];
            if str_eq(r.kind.as_str(), kind) && str_eq(r.value.as_str(), value) {
                return Some(&r.action);
            }
            i = i - 1;
        }
        None
    }

    pub open spec fn decision_spec(&self, event: Seq<char>, entity: Seq<char>) -> PrivacyDecision {
        let kind = privacy_kind_spec(event);
        decision_of_action(action_for(self.rules@, kind, normalized_entity(kind, entity)))
    }

    /// The decision for an event's entity: an exact match on the normalised entity.
    pub fn decision_for(&self, event: &str, entity: &str) -> (r: PrivacyDecision)
        ensures
            r == self.decision_spec(event@, entity@),
    {
        let kind = privacy_kind_for_event(event);
        let t = trim_str(entity);
        let value = if str_eq(kind, "domain") {
            to_lower(t.as_str())
        } else {
            t
        };
        match self.lookup(kind, value.as_str()) {
            Some(a) => decision_from_action(a.as_str()),
            None => PrivacyDecision::Allow,
        }
    }
}

/// What the read paths show of a stored event: dropped events vanish; masked ones keep
/// their timing but show `__hidden__` and no title.
pub open spec fn after_privacy(e: EventRecord, d: PrivacyDecision, r: Option<EventRecord>) -> bool {
    match d {
        PrivacyDecision::Drop => r is None,
        PrivacyDecision::Mask => r matches Some(m) && m.id == e.id && m.ts == e.ts && m.source
            == e.source && m.event == e.event && opt_view(m.entity) == Some(HIDDEN_ENTITY@)
            && m.title is None && m.activity == e.activity,
        PrivacyDecision::Allow => r == Some(e),
    }
}

/// What applying the rules to a read-path event gives.
pub open spec fn privacy_applied(privacy: PrivacyIndex, e: EventRecord, r: Option<EventRecord>) -> bool {
    match e.entity {
        Some(ent) => after_privacy(e, privacy.decision_spec(e.event@, ent@), r),
        None => r == Some(e),
    }
}

/// Applying the rules twice gives what applying them once gave, when no rule of the
/// event's kind catches `__hidden__` itself.
pub proof fn lemma_apply_privacy_idempotent(privacy: PrivacyIndex, e: EventRecord, once: EventRecord, twice: Option<EventRecord>)
    requires
        privacy.decision_spec(e.event@, HIDDEN_ENTITY@) == PrivacyDecision::Allow,
        privacy_applied(privacy, e, Some(once)),
        privacy_applied(privacy, once, twice),
    ensures
        twice == Some(once),
{
}

/// Applies the privacy rules to an event of a read path.
pub fn apply_privacy_to_event(e: EventRecord, privacy: &PrivacyIndex) -> (r: Option<EventRecord>)
    ensures
        privacy_applied(*privacy, e, r),
{
    let d = match &e.entity {
        Some(ent) => privacy.decision_for(e.event.as_str(), ent.as_str()),
        None => PrivacyDecision::Allow,
    };
    match d {
        PrivacyDecision::Allow => Some(e),
        PrivacyDecision::Drop => None,
        PrivacyDecision::Mask => {
            let mut e = e;
            e.entity = Some(String::from_str(HIDDEN_ENTITY));
            e.title = None;
            Some(e)
        },
    }
}

/// The instants of a sequence of events.
pub open spec fn timing(s: Seq<EventForBlocks>) -> Seq<i128> {
    s.map_values(|e: EventForBlocks| e.ts)
}

/// Whether a rule drops the event.
pub open spec fn dropped(privacy: PrivacyIndex, e: EventForBlocks) -> bool {
    privacy.decision_spec(e.event@, e.entity@) == PrivacyDecision::Drop
}

/// The positions, among the first `n` events, of those that no rule drops.
pub open spec fn kept_positions(events: Seq<EventForBlocks>, privacy: PrivacyIndex, n: int) -> Seq<int>
    decreases n,
{
    if n <= 0 {
        Seq::empty()
    } else {
        let p = kept_positions(events, privacy, n - 1);
        if dropped(privacy, events[n - 1]) {
            p
        } else {
            p.push(n - 1)
        }
    }
}

/// The instants that the read paths show: those of the events that no rule drops.
pub open spec fn read_timing(events: Seq<EventForBlocks>, privacy: PrivacyIndex) -> Seq<i128> {
    kept_positions(events, privacy, events.len() as int).map_values(|p: int| events[p].ts)
}

proof fn lemma_kept_positions_bounds(events: Seq<EventForBlocks>, privacy: PrivacyIndex, n: int)
    requires
        0 <= n <= events.len(),
    ensures
        forall|k: int| 0 <= k < kept_positions(events, privacy, n).len() ==> 0 <= #[trigger] kept_positions(events, privacy, n)[k] < n,
        forall|k: int, l: int| 0 <= k < l < kept_positions(events, privacy, n).len() ==> kept_positions(events, privacy, n)[k] < kept_positions(events, privacy, n)[l],
    decreases n,
{
    if n > 0 {
        lemma_kept_positions_bounds(events, privacy, n - 1);
        let p = kept_positions(events, privacy, n - 1);
        let q = kept_positions(events, privacy, n);
        assert forall|k: int| 0 <= k < p.len() implies q[k] == p[k] by {}
        assert forall|k: int| 0 <= k < q.len() implies 0 <= #[trigger] q[k] < n by {
            if k < p.len() {
                assert(q[k] == p[k]);
            }
        }
        assert forall|k: int, l: int| 0 <= k < l < q.len() implies q[k] < q[l] by {
            if l < p.len() {
                assert(q[k] == p[k] && q[l] == p[l]);
            } else {
                assert(q[k] == p[k]);
            }
        }
    }
}

/// Masking keeps timing: two rule sets that drop the same events (for instance, before and
/// after a masking rule is added) show the same instants, in the same order.
pub proof fn lemma_masking_keeps_timing(events: Seq<EventForBlocks>, before: PrivacyIndex, after: PrivacyIndex)
    requires
        forall|i: int| 0 <= i < events.len() ==> dropped(before, #[trigger] events[i]) == dropped(after, events[i]),
    ensures
        read_timing(events, before) == read_timing(events, after),
{
    lemma_same_kept(events, before, after, events.len() as int);
}

proof fn lemma_same_kept(events: Seq<EventForBlocks>, before: PrivacyIndex, after: PrivacyIndex, n: int)
    requires
        0 <= n <= events.len(),
        forall|i: int| 0 <= i < events.len() ==> dropped(before, #[trigger] events[i]) == dropped(after, events[i]),
    ensures
        kept_positions(events, before, n) == kept_positions(events, after, n),
    decreases n,
{
    if n > 0 {
        lemma_same_kept(events, before, after, n - 1);
        assert(dropped(before, events[n - 1]) == dropped(after, events[n - 1]));
    }
}

/// What the timeline and block views see of an event that is kept: dropped events are
/// gone; a masked one keeps its instant and shows `__hidden__` without a title.
pub open spec fn shown_for_reads(privacy: PrivacyIndex, e: EventForBlocks, r: EventForBlocks) -> bool {
    let d = privacy.decision_spec(e.event@, e.entity@);
    &&& r.ts == e.ts
    &&& r.event == e.event
    &&& r.activity == e.activity
    &&& r.source == e.source
    &&& (d == PrivacyDecision::Allow ==> r.entity == e.entity && r.title == e.title)
    &&& (d == PrivacyDecision::Mask ==> r.entity@ == HIDDEN_ENTITY@ && r.title is None)
    &&& r.entity@ == shown_entity(privacy, e.event@, e.entity@)
}

/// The events of the timeline and block views: an event that a rule drops is left out; a
/// masked one keeps its place and its instant and shows `__hidden__` without a title.
pub fn hide_for_reads(events: Vec<EventForBlocks>, privacy: &PrivacyIndex) -> (r: Vec<EventForBlocks>)
    ensures
        r@.len() == kept_positions(events@, *privacy, events@.len() as int).len(),
        forall|k: int| 0 <= k < r@.len() ==> shown_for_reads(*privacy, events@[kept_positions(events@, *privacy, events@.len() as int)[k]], #[trigger] r@[k]),
        timing(r@) == read_timing(events@, *privacy),
        sorted_by_ts(events@) ==> sorted_by_ts(r@),
{
    let ghost orig = events@;
    let mut events = events;
    let mut out: Vec<EventForBlocks> = Vec::new();
    let ghost mut n: int = 0;
    while events.len() > 0
        invariant
            0 <= n <= orig.len(),
            n + events@.len() == orig.len(),
            forall|k: int| 0 <= k < events@.len() ==> events@[k] == orig[n + k],
            out@.len() == kept_positions(orig, *privacy, n).len(),
            forall|k: int| 0 <= k < out@.len() ==> shown_for_reads(*privacy, orig[kept_positions(orig, *privacy, n)[k]], #[trigger] out@[k]),
            sorted_by_ts(orig) ==> sorted_by_ts(out@),
            sorted_by_ts(orig) && out@.len() > 0 ==> forall|k: int| n <= k < orig.len() ==> out@.last().ts <= #[trigger] orig[k].ts,
        decreases events@.len(),
    {
        proof {
            lemma_kept_positions_bounds(orig, *privacy, n);
        }
        let ghost before = events@;
        let ghost prev_out = out@;
        let mut e = events.remove(0);
        assert(e == orig[n]);
        assert forall|k: int| 0 <= k < events@.len() implies events@[k] == orig[n + 1 + k] by {
            assert(events@[k] == before[k + 1]);
        }
        let d = privacy.decision_for(e.event.as_str(), e.entity.as_str());
        if d != PrivacyDecision::Drop {
            if d == PrivacyDecision::Mask {
                e.entity = String::from_str(HIDDEN_ENTITY);
                e.title = None;
            }
            out.push(e);
            assert forall|k: int| 0 <= k < out@.len() implies shown_for_reads(*privacy, orig[kept_positions(orig, *privacy, n + 1)[k]], #[trigger] out@[k]) by {
                if k < prev_out.len() {
                    assert(out@[k] == prev_out[k]);
                }
            }
        }
        proof {
            n = n + 1;
        }
    }
    proof {
        lemma_kept_positions_bounds(orig, *privacy, n);
        assert(timing(out@) =~= read_timing(orig, *privacy));
    }
    out
}

/// The part of a domain after its first `.`.
pub open spec fn after_first_dot(d: Seq<char>) -> Seq<char>
    decreases d.len(),
{
    if d.len() == 0 {
        d
    } else if d[0] == '.' {
        d.drop_first()
    } else {
        after_first_dot(d.drop_first())
    }
}

pub proof fn lemma_after_first_dot_shorter(d: Seq<char>)
    requires
        d.contains('.'),
    ensures
        after_first_dot(d).len() < d.len(),
    decreases d.len(),
{
    if d[0] != '.' {
        let i = choose|i: int| 0 <= i < d.len() && d[i] == '.';
        assert(d.drop_first()[i - 1] == '.');
        lemma_after_first_dot_shorter(d.drop_first());
    }
}

/// The domains a rule may be stored under to match `d`: `d` itself, then each suffix
/// after a leading label for as long as it still holds a dot (never a bare top-level
/// domain).
pub open spec fn domain_candidates(d: Seq<char>) -> Seq<Seq<char>>
    decreases d.len(),
{
    if d.contains('.') && after_first_dot(d).contains('.') {
        proof {
            lemma_after_first_dot_shorter(d);
        }
        seq![d] + domain_candidates(after_first_dot(d))
    } else {
        seq![d]
    }
}

/// The part after the first dot, if there is one.
fn split_after_dot(d: &[char]) -> (r: Option<Vec<char>>)
    ensures
        d@.contains('.') <==> r is Some,
        r matches Some(rest) ==> rest@ == after_first_dot(d@),
{
    let mut i: usize = 0;
    assert(d@.subrange(0, d@.len() as int) =~= d@);
    while i < d.len()
        invariant
            i <= d@.len(),
            forall|k: int| 0 <= k < i ==> d@[k] != '.',
            after_first_dot(d@) == after_first_dot(d@.subrange(i as int, d@.len() as int)),
        decreases d@.len() - i,
    {
        let ghost tail = d@.subrange(i as int, d@.len() as int);
        assert(tail.drop_first() =~= d@.subrange(i + 1, d@.len() as int));
        if d[i] == '.' {
            let rest = sub_chars(d, i + 1, d.len());
            return Some(rest);
        }
        i = i + 1;
    }
    None
}

pub open spec fn first_domain_action(rules: Seq<PrivacyRule>, cands: Seq<Seq<char>>) -> Option<Seq<char>>
    decreases cands.len(),
{
    if cands.len() == 0 {
        None
    } else {
        match action_for(rules, "domain"@, cands[0]) {
            Some(a) => Some(a),
            None => first_domain_action(rules, cands.drop_first()),
        }
    }
}

impl PrivacyIndex {
    pub open spec fn domain_action(&self, domain: Seq<char>) -> Option<Seq<char>> {
        first_domain_action(self.rules@, domain_candidates(lower_of(domain)))
    }

    /// The action of the first rule that matches the lower-cased domain or one of its
    /// suffixes.
    pub fn check_domain(&self, domain: &str) -> (r: Option<String>)
        ensures
            opt_view(r) == self.domain_action(domain@),
    {
        let lower = to_lower(domain);
        let mut cand = chars_of(lower.as_str());
        let ghost d = cand@;
        loop
            invariant
                self.domain_action(domain@) == first_domain_action(self.rules@, domain_candidates(cand@)),
            decreases cand@.len(),
        {
            let cs = string_of(cand.as_slice());
            let dom = "domain";
            proof {
                reveal_strlit("domain");
            }
            if let Some(a) = self.lookup(dom, cs.as_str()) {
                assert(domain_candidates(cand@)[0] == cand@);
                return Some(a.clone());
            }
            assert(domain_candidates(cand@)[0] == cand@);
            match split_after_dot(cand.as_slice()) {
                None => {
                    assert(domain_candidates(cand@) =~= seq![cand@]);
                    assert(seq![cand@].drop_first() =~= Seq::<Seq<char>>::empty());
                    assert(first_domain_action(self.rules@, Seq::<Seq<char>>::empty()) is None);
                    return None;
                },
                Some(rest) => {
                    if !contains_char(rest.as_slice(), '.') {
                        assert(domain_candidates(cand@) =~= seq![cand@]);
                        assert(seq![cand@].drop_first() =~= Seq::<Seq<char>>::empty());
                        assert(first_domain_action(self.rules@, Seq::<Seq<char>>::empty()) is None);
                        return None;
                    }
                    proof {
                        lemma_after_first_dot_shorter(cand@);
                        assert(domain_candidates(cand@).drop_first() =~= domain_candidates(rest@));
                    }
                    cand = rest;
                },
            }
        }
    }

    /// The rule that applies to an incoming event: tab events by domain, app focus events
    /// by app; other events by domain first, then by app.
    pub fn ingest_action(&self, event: &str, domain: Option<&str>, app: Option<&str>) -> (r: Option<String>)
        ensures
            opt_view(r) == self.ingest_action_spec(
                event@,
                match domain {
                    Some(d) => Some(d@),
                    None => None,
                },
                match app {
                    Some(a) => Some(a@),
                    None => None,
                },
            ),
    {
        let k = event_kind(event);
        let d = match domain {
            Some(d) => if blank(d) { None } else { Some(d) },
            None => None,
        };
        let a = match app {
            Some(a) => if blank(a) { None } else { Some(a) },
            None => None,
        };
        proof {
            reveal_strlit("app");
        }
        match k {
            EventKind::TabActive => {
                if let Some(d) = d {
                    return self.check_domain(d);
                }
            },
            EventKind::AppActive => {
                if let Some(a) = a {
                    return match self.lookup("app", a) {
                        Some(x) => Some(x.clone()),
                        None => None,
                    };
                }
            },
            _ => {},
        }
        if let Some(d) = d {
            let r = self.check_domain(d);
            if r.is_some() {
                return r;
            }
        }
        if let Some(a) = a {
            return match self.lookup("app", a) {
                Some(x) => Some(x.clone()),
                None => None,
            };
        }
        None
    }

    pub open spec fn ingest_action_spec(&self, event: Seq<char>, domain: Option<Seq<char>>, app: Option<Seq<char>>) -> Option<Seq<char>> {
        let d = match domain {
            Some(x) => if is_blank(x) { None } else { Some(x) },
            None => None,
        };
        let a = match app {
            Some(x) => if is_blank(x) { None } else { Some(x) },
            None => None,
        };
        let generic = match d {
            Some(x) if self.domain_action(x) is Some => self.domain_action(x),
            _ => match a {
                Some(y) => action_for(self.rules@, "app"@, y),
                None => None,
            },
        };
        match event_kind_of(event) {
            EventKind::TabActive => match d {
                Some(x) => self.domain_action(x),
                None => generic,
            },
            EventKind::AppActive => match a {
                Some(y) => action_for(self.rules@, "app"@, y),
                None => generic,
            },
            _ => generic,
        }
    }
}

/// The entity that the read paths show for an event: the entity itself, or `__hidden__`
/// when a rule drops or masks it.
pub open spec fn shown_entity(privacy: PrivacyIndex, event: Seq<char>, entity: Seq<char>) -> Seq<char> {
    if privacy.decision_spec(event, entity) == PrivacyDecision::Allow {
        entity
    } else {
        HIDDEN_ENTITY@
    }
}

/// Applying the rules to what they already produced changes nothing: the shown entity of
/// a shown entity is itself.
pub proof fn lemma_privacy_idempotent(privacy: PrivacyIndex, event: Seq<char>, entity: Seq<char>)
    ensures
        shown_entity(privacy, event, shown_entity(privacy, event, entity)) == shown_entity(privacy, event, entity),
{
}

/// Whether `x` is one of the strings.
pub open spec fn holds(set: Seq<String>, x: Seq<char>) -> bool {
    exists|j: int| 0 <= j < set.len() && (#[trigger] set[j])@ == x
}

fn holds_exec(set: &[String], x: &str) -> (r: bool)
    ensures
        r == holds(set@, x@),
{
    let mut j: usize = 0;
    while j < set.len()
        invariant
            j <= set@.len(),
            forall|k: int| 0 <= k < j ==> (#[trigger] set@[k])@ != x@,
        decreases set@.len() - j,
    {
        if str_eq(set[j].as_str(), x) {
            return true;
        }
        j = j + 1;
    }
    false
}

pub open spec fn blocked_domain_spec(domain: Seq<char>, blocked: Seq<String>) -> bool {
    let d = lower_of(trimmed(domain));
    d.len() > 0 && exists|i: int| 0 <= i < domain_candidates(d).len() && holds(blocked, #[trigger] domain_candidates(d)[i])
}

/// Whether a domain, or one of its suffixes that still holds a dot, is blocked.
pub fn is_blocked_domain(domain: &str, blocked: &[String]) -> (r: bool)
    ensures
        r == blocked_domain_spec(domain@, blocked@),
{
    let t = trim_str(domain);
    let d = to_lower(t.as_str());
    if d.as_str().unicode_len() == 0 {
        return false;
    }
    let ghost dd = d@;
    assert(dd == lower_of(trimmed(domain@)));
    let mut cand = chars_of(d.as_str());
    let ghost mut seen: int = 0;
    loop
        invariant
            0 <= seen,
            seen + domain_candidates(cand@).len() == domain_candidates(dd).len(),
            forall|k: int| 0 <= k < domain_candidates(cand@).len() ==> domain_candidates(cand@)[k] == domain_candidates(dd)[seen + k],
            forall|k: int| 0 <= k < seen ==> !holds(blocked@, #[trigger] domain_candidates(dd)[k]),
            dd.len() > 0,
            dd == lower_of(trimmed(domain@)),
        decreases cand@.len(),
    {
        let cs = string_of(cand.as_slice());
        assert(domain_candidates(cand@)[0] == cand@);
        assert(domain_candidates(cand@)[0] == domain_candidates(dd)[seen + 0]);
        assert(0 <= seen < domain_candidates(dd).len());
        if holds_exec(blocked, cs.as_str()) {
            assert(holds(blocked@, domain_candidates(dd)[seen]));
            return true;
        }
        let next = match split_after_dot(cand.as_slice()) {
            None => {
                assert(domain_candidates(cand@) =~= seq![cand@]);
                assert forall|i: int| 0 <= i < domain_candidates(dd).len() implies !holds(blocked@, #[trigger] domain_candidates(dd)[i]) by {
                    if i >= seen {
                        assert(i == seen);
                    }
                }
                return false;
            },
            Some(rest) => rest,
        };
        if !contains_char(next.as_slice(), '.') {
            assert(domain_candidates(cand@) =~= seq![cand@]);
            assert forall|i: int| 0 <= i < domain_candidates(dd).len() implies !holds(blocked@, #[trigger] domain_candidates(dd)[i]) by {
                if i >= seen {
                    assert(i == seen);
                }
            }
            return false;
        }
        proof {
            lemma_after_first_dot_shorter(cand@);
            let cc = domain_candidates(cand@);
            assert(cc == seq![cand@] + domain_candidates(next@));
            assert forall|k: int| 0 <= k < domain_candidates(next@).len() implies domain_candidates(next@)[k] == domain_candidates(dd)[seen + 1 + k] by {
                assert(domain_candidates(next@)[k] == cc[k + 1]);
            }
            seen = seen + 1;
        }
        cand = next;
    }
}

/// The value a drop rule blocks among apps (or, with `domain`, among domains): the trimmed
/// value, lower-cased for domains, if it is not empty.
pub open spec fn blocked_value(r: PrivacyRuleRow, domain: bool) -> Option<Seq<char>> {
    let kind = if domain { "domain"@ } else { "app"@ };
    if r.action@ != "drop"@ || r.kind@ != kind {
        None
    } else {
        let v = if domain { lower_of(trimmed(r.value@)) } else { trimmed(r.value@) };
        if v.len() > 0 {
            Some(v)
        } else {
            None
        }
    }
}

/// Exactly the values that the drop rules of `kind` block, each once.
pub open spec fn is_blocked_set(out: Seq<String>, rules: Seq<PrivacyRuleRow>, kind: bool) -> bool {
    &&& forall|j: int| 0 <= j < out.len() ==> exists|i: int| 0 <= i < rules.len() && blocked_value(#[trigger] rules[i], kind) == Some((#[trigger] out[j])@)
    &&& forall|i: int| 0 <= i < rules.len() ==> (blocked_value(#[trigger] rules[i], kind) matches Some(v) ==> holds(out, v))
    &&& forall|j: int, k: int| 0 <= j < k < out.len() ==> out[j]@ != out[k]@
}

fn insert_unique(out: &mut Vec<String>, v: String)
    requires
        forall|j: int, k: int| 0 <= j < k < old(out)@.len() ==> old(out)@[j]@ != old(out)@[k]@,
    ensures
        forall|j: int, k: int| 0 <= j < k < final(out)@.len() ==> final(out)@[j]@ != final(out)@[k]@,
        holds(final(out)@, v@),
        forall|x: Seq<char>| holds(final(out)@, x) <==> (holds(old(out)@, x) || x == v@),
{
    if holds_exec(out.as_slice(), v.as_str()) {
        return;
    }
    let ghost before = out@;
    out.push(v);
    assert(out@[out@.len() - 1]@ == v@);
    assert forall|x: Seq<char>| holds(out@, x) <==> (holds(before, x) || x == v@) by {
        if holds(out@, x) {
            let j = choose|j: int| 0 <= j < out@.len() && (#[trigger] out@[j])@ == x;
            if j < before.len() {
                assert(before[j] == out@[j]);
            }
        }
        if holds(before, x) {
            let j = choose|j: int| 0 <= j < before.len() && (#[trigger] before[j])@ == x;
            assert(out@[j] == before[j]);
        }
    }
}

fn blocked_value_exec(r: &PrivacyRuleRow, domain: bool) -> (v: Option<String>)
    ensures
        opt_view(v) == blocked_value(*r, domain),
{
    proof {
        reveal_strlit("app");
        reveal_strlit("domain");
        reveal_strlit("drop");
    }
    if !str_eq(r.action.as_str(), "drop") {
        return None;
    }
    if !domain {
        if !str_eq(r.kind.as_str(), "app") {
            return None;
        }
        let v = trim_str(r.value.as_str());
        if v.as_str().unicode_len() > 0 {
            Some(v)
        } else {
            None
        }
    } else {
        if !str_eq(r.kind.as_str(), "domain") {
            return None;
        }
        let t = trim_str(r.value.as_str());
        let v = to_lower(t.as_str());
        if v.as_str().unicode_len() > 0 {
            Some(v)
        } else {
            None
        }
    }
}

fn add_blocked(out: &mut Vec<String>, Ghost(rules): Ghost<Seq<PrivacyRuleRow>>, Ghost(i): Ghost<int>, v: Option<String>, Ghost(kind): Ghost<bool>)
    requires
        0 <= i < rules.len(),
        opt_view(v) == blocked_value(rules[i], kind),
        is_blocked_set(old(out)@, rules.subrange(0, i), kind),
    ensures
        is_blocked_set(final(out)@, rules.subrange(0, i + 1), kind),
{
    let ghost pre = rules.subrange(0, i);
    let ghost post = rules.subrange(0, i + 1);
    let ghost before = out@;
    assert forall|k: int| 0 <= k < i implies post[k] == pre[k] by {}
    if let Some(v) = v {
        insert_unique(out, v);
    }
    assert forall|j: int| 0 <= j < out@.len() implies exists|k: int| 0 <= k < post.len() && blocked_value(#[trigger] post[k], kind) == Some((#[trigger] out@[j])@) by {
        if holds(before, out@[j]@) {
            let jj = choose|jj: int| 0 <= jj < before.len() && (#[trigger] before[jj])@ == out@[j]@;
            let k = choose|k: int| 0 <= k < pre.len() && blocked_value(#[trigger] pre[k], kind) == Some((#[trigger] before[jj])@);
            assert(post[k] == pre[k]);
        } else {
            assert(holds(out@, out@[j]@));
            assert(blocked_value(post[i], kind) == Some(out@[j]@));
        }
    }
    assert forall|k: int| 0 <= k < post.len() implies (blocked_value(#[trigger] post[k], kind) matches Some(x) ==> holds(out@, x)) by {
        if k < i {
            assert(post[k] == pre[k]);
            if blocked_value(pre[k], kind) is Some {
                assert(holds(before, blocked_value(pre[k], kind)->0));
            }
        }
    }
}

/// The blocked apps and the blocked domains of the drop rules.
pub fn blocked_sets(rules: &[PrivacyRuleRow]) -> (r: (Vec<String>, Vec<String>))
    ensures
        is_blocked_set(r.0@, rules@, false),
        is_blocked_set(r.1@, rules@, true),
{
    let mut apps: Vec<String> = Vec::new();
    let mut domains: Vec<String> = Vec::new();
    let mut i: usize = 0;
    while i < rules.len()
        invariant
            i <= rules@.len(),
            is_blocked_set(apps@, rules@.subrange(0, i as int), false),
            is_blocked_set(domains@, rules@.subrange(0, i as int), true),
        decreases rules@.len() - i,
    {
        let a = blocked_value_exec(&rules[i], false);
        add_blocked(&mut apps, Ghost(rules@), Ghost(i as int), a, Ghost(false));
        let d = blocked_value_exec(&rules[i], true);
        add_blocked(&mut domains, Ghost(rules@), Ghost(i as int), d, Ghost(true));
        i = i + 1;
    }
    assert(rules@.subrange(0, rules@.len() as int) =~= rules@);
    (apps, domains)
}

} // verus!
