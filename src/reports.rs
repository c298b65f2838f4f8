//! Helpers around the report generator: ids, input checks, display names, and the clean-up
//! of text returned by the language model.
use vstd::prelude::*;
use crate::attribution::basename;
use crate::events::opt_view;
use crate::export::append;
use crate::text::{
    chars_of, string_of, str_eq, to_lower, lower_of, trim_chars, trimmed, trim_back, is_blank, blank,
    sub_chars, seq_ends_with, seq_starts_with, ends_with_chars, occurs_at, occurs_at_chars,
    lemma_trim_back_skip,
};

verus! {

/// Whether `kind` names a report kind: `daily` or `weekly`.
pub fn validate_report_kind(kind: &str) -> (r: bool)
    ensures
        r == (kind@ == "daily"@ || kind@ == "weekly"@),
{
    str_eq(kind, "daily") || str_eq(kind, "weekly")
}

pub open spec fn yyyy_mm_dd(s: Seq<char>) -> bool {
    &&& s.len() == 10
    &&& s[4] == '-'
    &&& s[7] == '-'
    &&& forall|i: int| 0 <= i < 10 && i != 4 && i != 7 ==> '0' <= #[trigger] s[i] <= '9'
}

/// Whether `s` has the shape `YYYY-MM-DD` (digits and two dashes).
pub fn validate_yyyy_mm_dd(s: &str) -> (r: bool)
    ensures
        r == yyyy_mm_dd(s@),
{
    let cs = chars_of(s);
    if cs.len() != 10 {
        return false;
    }
    if cs[4] != '-' || cs[7] != '-' {
        return false;
    }
    let mut i: usize = 0;
    while i < 10
        invariant
            cs@ == s@,
            cs@.len() == 10,
            i <= 10,
            forall|k: int| 0 <= k < i && k != 4 && k != 7 ==> '0' <= #[trigger] cs@[k] <= '9',
        decreases 10 - i,
    {
        if i != 4 && i != 7 && !('0' <= cs[i] && cs[i] <= '9') {
            return false;
        }
        i = i + 1;
    }
    true
}

/// The id of the daily report of `date`: `daily-<date>`.
pub fn report_id_daily(date: &str) -> (r: String)
    ensures
        r@ == "daily-"@ + date@,
{
    let mut out = chars_of("daily-");
    let d = chars_of(date);
    append(&mut out, d.as_slice());
    string_of(out.as_slice())
}

/// The id of the weekly report of a week: `weekly-<start>-<end>`.
pub fn report_id_weekly(start: &str, end: &str) -> (r: String)
    ensures
        r@ == "weekly-"@ + start@ + "-"@ + end@,
{
    let mut out = chars_of("weekly-");
    let s = chars_of(start);
    append(&mut out, s.as_slice());
    let dash = chars_of("-");
    append(&mut out, dash.as_slice());
    let e = chars_of(end);
    append(&mut out, e.as_slice());
    string_of(out.as_slice())
}

/// A stored report.
pub struct ReportRecord {
    pub id: String,
    pub kind: String,
    pub period_start: String,
    pub period_end: String,
    pub generated_at: String,
    pub provider_url: Option<String>,
    pub model: Option<String>,
    pub prompt: Option<String>,
    pub input_json: Option<String>,
    pub output_md: Option<String>,
    pub error: Option<String>,
}

/// A report is good when it has output and no error.
pub open spec fn report_good(r: ReportRecord) -> bool {
    &&& (r.output_md matches Some(o) && !is_blank(o@))
    &&& (r.error matches Some(e) ==> is_blank(e@))
}

/// Whether a stored report has non-blank output and no (non-blank) error.
pub fn report_is_good(r: &ReportRecord) -> (b: bool)
    ensures
        b == report_good(*r),
{
    let out_ok = match &r.output_md {
        Some(o) => !blank(o.as_str()),
        None => false,
    };
    let err_ok = match &r.error {
        Some(e) => blank(e.as_str()),
        None => true,
    };
    out_ok && err_ok
}

/// The display name of an entity: `(unknown)` when blank, `(hidden)` when masked, else
/// the base name of the path without a trailing `.exe` (in any case).
pub open spec fn display_entity_spec(raw: Seq<char>) -> Seq<char> {
    let v = trimmed(raw);
    if v.len() == 0 {
        "(unknown)"@
    } else if v == "__hidden__"@ {
        "(hidden)"@
    } else {
        let base = basename(v);
        if seq_ends_with(lower_of(base), ".exe"@) && base.len() >= 4 {
            base.subrange(0, base.len() - 4)
        } else {
            base
        }
    }
}

/// The name shown for an app or a domain.
pub fn display_entity(raw: &str) -> (r: String)
    ensures
        r@ == display_entity_spec(raw@),
{
    let rc = chars_of(raw);
    let v = trim_chars(rc.as_slice());
    if v.len() == 0 {
        return String::from_str("(unknown)");
    }
    let vs = string_of(v.as_slice());
    if str_eq(vs.as_str(), "__hidden__") {
        return String::from_str("(hidden)");
    }
    let base = crate::attribution::basename_of(vs.as_str());
    let lower = to_lower(base.as_str());
    let lc = chars_of(lower.as_str());
    let exe = chars_of(".exe");
    let bc = chars_of(base.as_str());
    if ends_with_chars(lc.as_slice(), exe.as_slice()) && bc.len() >= 4 {
        let head = sub_chars(bc.as_slice(), 0, bc.len() - 4);
        string_of(head.as_slice())
    } else {
        base
    }
}

/// The first position at or after `i` where `pat` occurs.
pub open spec fn find_from(s: Seq<char>, pat: Seq<char>, i: int) -> Option<int>
    decreases s.len() + 1 - i,
{
    if i < 0 || i > s.len() {
        None
    } else if occurs_at(s, pat, i) {
        Some(i)
    } else {
        find_from(s, pat, i + 1)
    }
}

/// The last position at or before `i` where `pat` occurs.
pub open spec fn rfind_below(s: Seq<char>, pat: Seq<char>, i: int) -> Option<int>
    decreases i + 1,
{
    if i < 0 {
        None
    } else if occurs_at(s, pat, i) {
        Some(i)
    } else {
        rfind_below(s, pat, i - 1)
    }
}

pub proof fn lemma_find_from_bounds(s: Seq<char>, pat: Seq<char>, i: int)
    ensures
        find_from(s, pat, i) is Some ==> i <= find_from(s, pat, i)->0 && occurs_at(s, pat, find_from(s, pat, i)->0),
    decreases s.len() + 1 - i,
{
    if 0 <= i <= s.len() && !occurs_at(s, pat, i) {
        lemma_find_from_bounds(s, pat, i + 1);
    }
}

pub proof fn lemma_rfind_bounds(s: Seq<char>, pat: Seq<char>, i: int)
    ensures
        rfind_below(s, pat, i) is Some ==> rfind_below(s, pat, i)->0 <= i && occurs_at(s, pat, rfind_below(s, pat, i)->0),
    decreases i + 1,
{
    if i >= 0 && !occurs_at(s, pat, i) {
        lemma_rfind_bounds(s, pat, i - 1);
    }
}

/// The first occurrence of `pat` at or after `from`.
pub fn find_chars(s: &[char], pat: &[char], from: usize) -> (r: Option<usize>)
    ensures
        match r {
            Some(k) => find_from(s@, pat@, from as int) == Some(k as int),
            None => find_from(s@, pat@, from as int) is None,
        },
{
    if from > s.len() {
        return None;
    }
    let mut i: usize = from;
    while i <= s.len()
        invariant
            from <= i,
            i <= s@.len() + 1,
            find_from(s@, pat@, from as int) == find_from(s@, pat@, i as int),
        decreases s@.len() + 1 - i,
    {
        if occurs_at_chars(s, pat, i) {
            return Some(i);
        }
        if i == s.len() {
            assert(find_from(s@, pat@, i + 1) is None);
            return None;
        }
        i = i + 1;
    }
    None
}

/// The last occurrence of `pat` in `s`.
pub fn rfind_chars(s: &[char], pat: &[char]) -> (r: Option<usize>)
    ensures
        match r {
            Some(k) => rfind_below(s@, pat@, s@.len() as int) == Some(k as int),
            None => rfind_below(s@, pat@, s@.len() as int) is None,
        },
{
    let mut i: usize = s.len();
    loop
        invariant
            i <= s@.len(),
            rfind_below(s@, pat@, s@.len() as int) == rfind_below(s@, pat@, i as int),
        decreases i,
    {
        if occurs_at_chars(s, pat, i) {
            return Some(i);
        }
        if i == 0 {
            assert(rfind_below(s@, pat@, -1) is None);
            return None;
        }
        i = i - 1;
    }
}

/// The text between the first `open` and the first `close` after it.
pub open spec fn tag_block(s: Seq<char>, open: Seq<char>, close: Seq<char>) -> Option<Seq<char>> {
    match find_from(s, open, 0) {
        None => None,
        Some(st) => match find_from(s, close, st + open.len()) {
            None => None,
            Some(e) => Some(s.subrange(st + open.len(), e)),
        },
    }
}

/// The text inside the first `open` ... `close` pair, if there is one.
pub fn extract_tag_block(input: &str, open: &str, close: &str) -> (r: Option<String>)
    ensures
        opt_view(r) == tag_block(input@, open@, close@),
{
    let s = chars_of(input);
    let o = chars_of(open);
    let c = chars_of(close);
    let st = match find_chars(s.as_slice(), o.as_slice(), 0) {
        Some(v) => v,
        None => return None,
    };
    proof {
        lemma_find_from_bounds(s@, o@, 0);
    }
    let n = s.len();
    let from = st + o.len();
    let e = match find_chars(s.as_slice(), c.as_slice(), from) {
        Some(v) => v,
        None => return None,
    };
    proof {
        lemma_find_from_bounds(s@, c@, from as int);
    }
    let inner = sub_chars(s.as_slice(), from, e);
    Some(string_of(inner.as_slice()))
}

/// Every `open` ... `close` block removed; an `open` without a `close` after it loses
/// only the tag itself, and removal stops there.
pub open spec fn stripped_tags(s: Seq<char>, open: Seq<char>, close: Seq<char>) -> Seq<char>
    decreases s.len(),
{
    if open.len() == 0 {
        s
    } else {
        match find_from(s, open, 0) {
            None => s,
            Some(st) => {
                let from = st + open.len();
                match find_from(s, close, from) {
                    None => s.subrange(0, st) + s.subrange(from, s.len() as int),
                    Some(e) => {
                        proof {
                            lemma_find_from_bounds(s, open, 0);
                            lemma_find_from_bounds(s, close, from);
                        }
                        stripped_tags(s.subrange(0, st) + s.subrange(e + close.len(), s.len() as int), open, close)
                    },
                }
            },
        }
    }
}

/// Removes every `open` ... `close` block.
pub fn strip_tag_blocks(input: &str, open: &str, close: &str) -> (r: String)
    requires
        open@.len() > 0,
    ensures
        r@ == stripped_tags(input@, open@, close@),
{
    let o = chars_of(open);
    let c = chars_of(close);
    let mut s = chars_of(input);
    loop
        invariant
            o@ == open@,
            c@ == close@,
            o@.len() > 0,
            stripped_tags(input@, open@, close@) == stripped_tags(s@, open@, close@),
        decreases s@.len(),
    {
        let st = match find_chars(s.as_slice(), o.as_slice(), 0) {
            Some(v) => v,
            None => return string_of(s.as_slice()),
        };
        proof {
            lemma_find_from_bounds(s@, o@, 0);
        }
        let n = s.len();
        let from = st + o.len();
        match find_chars(s.as_slice(), c.as_slice(), from) {
            None => {
                let mut out = sub_chars(s.as_slice(), 0, st);
                let tail = sub_chars(s.as_slice(), from, s.len());
                append(&mut out, tail.as_slice());
                return string_of(out.as_slice());
            },
            Some(e) => {
                proof {
                    lemma_find_from_bounds(s@, c@, from as int);
                }
                let mut out = sub_chars(s.as_slice(), 0, st);
                let tail = sub_chars(s.as_slice(), e + c.len(), s.len());
                append(&mut out, tail.as_slice());
                s = out;
            },
        }
    }
}

/// `pat` removed from the end for as long as the text ends with it.
pub open spec fn trim_end_matches(s: Seq<char>, pat: Seq<char>) -> Seq<char>
    decreases s.len(),
{
    if pat.len() > 0 && seq_ends_with(s, pat) {
        trim_end_matches(s.subrange(0, s.len() - pat.len()), pat)
    } else {
        s
    }
}

/// The body of a text wrapped whole in one code fence; any other text comes back trimmed.
pub open spec fn unfenced(input: Seq<char>) -> Seq<char> {
    let t = trimmed(input);
    if !seq_starts_with(t, "```"@) {
        t
    } else {
        match find_from(t, "\n"@, 0) {
            None => t,
            Some(nl) => {
                let aot = trim_back(t.subrange(nl + 1, t.len() as int));
                if !seq_ends_with(aot, "```"@) {
                    t
                } else {
                    match rfind_below(aot, "\n```"@, aot.len() as int) {
                        Some(cs) => trimmed(aot.subrange(0, cs)),
                        None => trimmed(trim_end_matches(aot, "```"@)),
                    }
                }
            },
        }
    }
}

fn trim_end_chars(s: &[char]) -> (r: Vec<char>)
    ensures
        r@ == trim_back(s@),
{
    let mut j: usize = s.len();
    assert(s@.subrange(0, j as int) =~= s@);
    while j > 0 && crate::text::is_white(s[j - 1])
        invariant
            j <= s@.len(),
            trim_back(s@) == trim_back(s@.subrange(0, j as int)),
        decreases j,
    {
        proof {
            lemma_trim_back_skip(s@, j as int);
            assert(s@.subrange(0, j as int).subrange(0, j - 1) =~= s@.subrange(0, j - 1));
            lemma_trim_back_skip(s@.subrange(0, j as int), j as int);
        }
        j = j - 1;
    }
    sub_chars(s, 0, j)
}

fn starts_with_chars(s: &[char], p: &[char]) -> (r: bool)
    ensures
        r == seq_starts_with(s@, p@),
{
    let b = occurs_at_chars(s, p, 0);
    proof {
        if b {
            assert(seq_starts_with(s@, p@));
        }
        if seq_starts_with(s@, p@) {
            assert(occurs_at(s@, p@, 0));
        }
    }
    b
}

/// Unwraps a text that is wrapped whole in one code fence.
pub fn strip_wrapping_code_fence(input: &str) -> (r: String)
    ensures
        r@ == unfenced(input@),
{
    let ic = chars_of(input);
    let t = trim_chars(ic.as_slice());
    let fence = chars_of("```");
    if !starts_with_chars(t.as_slice(), fence.as_slice()) {
        return string_of(t.as_slice());
    }
    let nl_pat = chars_of("\n");
    let nl = match find_chars(t.as_slice(), nl_pat.as_slice(), 0) {
        Some(v) => v,
        None => return string_of(t.as_slice()),
    };
    proof {
        lemma_find_from_bounds(t@, nl_pat@, 0);
        reveal_strlit("\n");
    }
    let n = t.len();
    let after = sub_chars(t.as_slice(), nl + 1, t.len());
    let aot = trim_end_chars(after.as_slice());
    if !ends_with_chars(aot.as_slice(), fence.as_slice()) {
        return string_of(t.as_slice());
    }
    let close_pat = chars_of("\n```");
    match rfind_chars(aot.as_slice(), close_pat.as_slice()) {
        Some(cs) => {
            proof {
                lemma_rfind_bounds(aot@, close_pat@, aot@.len() as int);
            }
            let body = sub_chars(aot.as_slice(), 0, cs);
            let b = trim_chars(body.as_slice());
            string_of(b.as_slice())
        },
        None => {
            let mut body = aot;
            loop
                invariant
                    fence@ == "```"@,
                    trim_end_matches(body@, fence@) == trim_end_matches(aot@, fence@),
                ensures
                    !seq_ends_with(body@, fence@),
                    trim_end_matches(body@, fence@) == trim_end_matches(aot@, fence@),
                decreases body@.len(),
            {
                proof {
                    reveal_strlit("```");
                }
                if !ends_with_chars(body.as_slice(), fence.as_slice()) {
                    break;
                }
                body = sub_chars(body.as_slice(), 0, body.len() - fence.len());
            }
            proof {
                reveal_strlit("```");
            }
            assert(trim_end_matches(body@, fence@) == body@);
            let b = trim_chars(body.as_slice());
            string_of(b.as_slice())
        },
    }
}

/// The text of a model's answer as it is kept: the `<final>` block if there is one, with
/// reasoning blocks removed, unwrapped from a code fence, and trimmed.
pub open spec fn sanitized(input: Seq<char>) -> Seq<char> {
    let s = match tag_block(input, "<final>"@, "</final>"@) {
        Some(f) => f,
        None => input,
    };
    let s = stripped_tags(s, "<think>"@, "</think>"@);
    let s = stripped_tags(s, "<analysis>"@, "</analysis>"@);
    trimmed(unfenced(s))
}

/// Cleans up the Markdown returned by a language model.
pub fn sanitize_llm_markdown_output(input: &str) -> (r: String)
    ensures
        r@ == sanitized(input@),
{
    proof {
        reveal_strlit("<think>");
        reveal_strlit("<analysis>");
    }
    let s = match extract_tag_block(input, "<final>", "</final>") {
        Some(f) => f,
        None => String::from_str(input),
    };
    let s = strip_tag_blocks(s.as_str(), "<think>", "</think>");
    let s = strip_tag_blocks(s.as_str(), "<analysis>", "</analysis>");
    let s = strip_wrapping_code_fence(s.as_str());
    let sc = chars_of(s.as_str());
    let t = trim_chars(sc.as_slice());
    string_of(t.as_slice())
}

/// Every occurrence of `pat`, left to right and without overlap, replaced by `rep`.
pub open spec fn replaced(s: Seq<char>, pat: Seq<char>, rep: Seq<char>) -> Seq<char>
    decreases s.len(),
{
    if pat.len() == 0 || s.len() == 0 {
        s
    } else if occurs_at(s, pat, 0) {
        rep + replaced(s.subrange(pat.len() as int, s.len() as int), pat, rep)
    } else {
        seq![s[0]] + replaced(s.drop_first(), pat, rep)
    }
}

fn replace_chars(s: &[char], pat: &[char], rep: &[char]) -> (r: Vec<char>)
    requires
        pat@.len() > 0,
    ensures
        r@ == replaced(s@, pat@, rep@),
{
    let mut out: Vec<char> = Vec::new();
    let mut i: usize = 0;
    assert(s@.subrange(0, s@.len() as int) =~= s@);
    while i < s.len()
        invariant
            i <= s@.len(),
            pat@.len() > 0,
            out@ + replaced(s@.subrange(i as int, s@.len() as int), pat@, rep@) == replaced(s@, pat@, rep@),
        decreases s@.len() - i,
    {
        let ghost rest = s@.subrange(i as int, s@.len() as int);
        if occurs_at_chars(s, pat, i) {
            assert(occurs_at(rest, pat@, 0)) by {
                assert(rest.subrange(0, pat@.len() as int) =~= s@.subrange(i as int, i + pat@.len()));
            }
            assert(rest.subrange(pat@.len() as int, rest.len() as int) =~= s@.subrange(i + pat@.len(), s@.len() as int));
            let ghost prev = out@;
            append(&mut out, rep);
            assert(out@ + replaced(s@.subrange(i + pat@.len(), s@.len() as int), pat@, rep@) =~= prev + (rep@ + replaced(s@.subrange(i + pat@.len(), s@.len() as int), pat@, rep@)));
            i = i + pat.len();
        } else {
            assert(!occurs_at(rest, pat@, 0)) by {
                if occurs_at(rest, pat@, 0) {
                    assert(rest.subrange(0, pat@.len() as int) =~= s@.subrange(i as int, i + pat@.len()));
                }
            }
            assert(rest.drop_first() =~= s@.subrange(i + 1, s@.len() as int));
            let ghost prev = out@;
            out.push(s[i]);
            assert(out@ + replaced(s@.subrange(i + 1, s@.len() as int), pat@, rep@) =~= prev + (seq![s@[i as int]] + replaced(s@.subrange(i + 1, s@.len() as int), pat@, rep@)));
            i = i + 1;
        }
    }
    assert(s@.subrange(i as int, s@.len() as int) =~= Seq::<char>::empty());
    assert(out@ + Seq::<char>::empty() =~= out@);
    out
}

pub open spec fn placeholder(key: Seq<char>) -> Seq<char> {
    "{{"@ + key + "}}"@
}

/// The template with the first `n` variables filled in, in order.
pub open spec fn with_vars(template: Seq<char>, vars: Seq<(&str, &str)>, n: int) -> Seq<char>
    decreases n,
{
    if n <= 0 {
        template
    } else {
        replaced(with_vars(template, vars, n - 1), placeholder(vars[n - 1].0@), vars[n - 1].1@)
    }
}

/// The prompt: every `{{key}}` replaced by its value, then the JSON put in place of
/// `{{json}}`, or appended under an `Input JSON:` line where the template has no such slot.
pub open spec fn rendered_prompt(template: Seq<char>, vars: Seq<(&str, &str)>, json: Seq<char>) -> Seq<char> {
    let t = with_vars(template, vars, vars.len() as int);
    if contains_seq_spec(t, "{{json}}"@) {
        replaced(t, "{{json}}"@, json)
    } else {
        t + "\n\nInput JSON:\n"@ + json
    }
}

pub open spec fn contains_seq_spec(s: Seq<char>, pat: Seq<char>) -> bool {
    find_from(s, pat, 0) is Some
}

/// Fills in a prompt template.
pub fn render_prompt_template(template: &str, vars: &[(&str, &str)], json_text: &str) -> (r: String)
    ensures
        r@ == rendered_prompt(template@, vars@, json_text@),
{
    let mut out = chars_of(template);
    let mut i: usize = 0;
    proof {
        reveal_strlit("{{");
        reveal_strlit("{{json}}");
    }
    while i < vars.len()
        invariant
            i <= vars@.len(),
            out@ == with_vars(template@, vars@, i as int),
        decreases vars@.len() - i,
    {
        let (k, v) = vars[i];
        proof {
            reveal_strlit("{{");
        }
        let mut pat = chars_of("{{");
        let kc = chars_of(k);
        append(&mut pat, kc.as_slice());
        let close = chars_of("}}");
        append(&mut pat, close.as_slice());
        let vc = chars_of(v);
        assert(pat@ =~= placeholder(k@));
        out = replace_chars(out.as_slice(), pat.as_slice(), vc.as_slice());
        i = i + 1;
    }
    let slot = chars_of("{{json}}");
    let jc = chars_of(json_text);
    match find_chars(out.as_slice(), slot.as_slice(), 0) {
        Some(_) => {
            let r = replace_chars(out.as_slice(), slot.as_slice(), jc.as_slice());
            string_of(r.as_slice())
        },
        None => {
            append_str_chars(&mut out, "\n\nInput JSON:\n");
            append(&mut out, jc.as_slice());
            string_of(out.as_slice())
        },
    }
}

fn append_str_chars(out: &mut Vec<char>, s: &str)
    ensures
        final(out)@ == old(out)@ + s@,
{
    let cs = chars_of(s);
    append(out, cs.as_slice());
}

pub open spec fn is_dash(c: char) -> bool {
    c == '-' || c == '—' || c == '–'
}

/// The pieces of `s` between dashes (`-`, `—` or `–`).
pub open spec fn dash_pieces(s: Seq<char>) -> Seq<Seq<char>>
    decreases s.len(),
{
    if s.len() == 0 {
        seq![Seq::<char>::empty()]
    } else {
        let before = dash_pieces(s.drop_last());
        if is_dash(s.last()) {
            before.push(Seq::<char>::empty())
        } else {
            before.update(before.len() - 1, before.last().push(s.last()))
        }
    }
}

/// The last piece that is not blank, trimmed.
pub open spec fn last_filled(pieces: Seq<Seq<char>>) -> Option<Seq<char>>
    decreases pieces.len(),
{
    if pieces.len() == 0 {
        None
    } else if trimmed(pieces.last()).len() > 0 {
        Some(trimmed(pieces.last()))
    } else {
        last_filled(pieces.drop_last())
    }
}

/// The title without one trailing ` - Visual Studio Code` marker (of any dash kind, with
/// or without `Insiders`), trimmed.
pub open spec fn without_vscode_suffix(t: Seq<char>) -> Seq<char> {
    let sfx = seq![
        " - Visual Studio Code"@,
        " — Visual Studio Code"@,
        " – Visual Studio Code"@,
        " - Visual Studio Code Insiders"@,
        " — Visual Studio Code Insiders"@,
        " – Visual Studio Code Insiders"@,
    ];
    let cut = if seq_ends_with(t, sfx[0]) {
        t.subrange(0, t.len() - sfx[0].len())
    } else if seq_ends_with(t, sfx[1]) {
        t.subrange(0, t.len() - sfx[1].len())
    } else if seq_ends_with(t, sfx[2]) {
        t.subrange(0, t.len() - sfx[2].len())
    } else if seq_ends_with(t, sfx[3]) {
        t.subrange(0, t.len() - sfx[3].len())
    } else if seq_ends_with(t, sfx[4]) {
        t.subrange(0, t.len() - sfx[4].len())
    } else if seq_ends_with(t, sfx[5]) {
        t.subrange(0, t.len() - sfx[5].len())
    } else {
        t
    };
    trimmed(cut)
}

/// The workspace named by a VS Code window title: the last dash-separated part.
pub open spec fn vscode_workspace(title: Seq<char>) -> Option<Seq<char>> {
    let t = trimmed(title);
    if t.len() == 0 {
        None
    } else {
        let s = without_vscode_suffix(t);
        if s.len() == 0 {
            None
        } else {
            last_filled(dash_pieces(s))
        }
    }
}

fn strip_suffix_if(t: &Vec<char>, sfx: &str) -> (r: Option<Vec<char>>)
    ensures
        match r {
            Some(v) => seq_ends_with(t@, sfx@) && v@ == t@.subrange(0, t@.len() - sfx@.len()),
            None => !seq_ends_with(t@, sfx@),
        },
{
    let sc = chars_of(sfx);
    if ends_with_chars(t.as_slice(), sc.as_slice()) {
        Some(sub_chars(t.as_slice(), 0, t.len() - sc.len()))
    } else {
        None
    }
}

/// The workspace or folder named by a VS Code window title.
pub fn extract_vscode_workspace(title: &str) -> (r: Option<String>)
    ensures
        opt_view(r) == vscode_workspace(title@),
{
    let tc = chars_of(title);
    let t = trim_chars(tc.as_slice());
    if t.len() == 0 {
        return None;
    }
    let cut = match strip_suffix_if(&t, " - Visual Studio Code") {
        Some(v) => v,
        None => match strip_suffix_if(&t, " — Visual Studio Code") {
            Some(v) => v,
            None => match strip_suffix_if(&t, " – Visual Studio Code") {
                Some(v) => v,
                None => match strip_suffix_if(&t, " - Visual Studio Code Insiders") {
                    Some(v) => v,
                    None => match strip_suffix_if(&t, " — Visual Studio Code Insiders") {
                        Some(v) => v,
                        None => match strip_suffix_if(&t, " – Visual Studio Code Insiders") {
                            Some(v) => v,
                            None => t,
                        },
                    },
                },
            },
        },
    };
    let s = trim_chars(cut.as_slice());
    assert(s@ == without_vscode_suffix(trimmed(title@)));
    if s.len() == 0 {
        return None;
    }
    // Split at dashes, keeping the last piece that is not blank.
    let mut best: Option<Vec<char>> = None;
    let mut cur: Vec<char> = Vec::new();
    let mut i: usize = 0;
    while i < s.len()
        invariant
            i <= s@.len(),
            cur@ == dash_pieces(s@.subrange(0, i as int)).last(),
            dash_pieces(s@.subrange(0, i as int)).len() >= 1,
            last_filled(dash_pieces(s@.subrange(0, i as int)).drop_last()) == match best {
                Some(b) => Some(b@),
                None => None::<Seq<char>>,
            },
        decreases s@.len() - i,
    {
        let ghost pre = dash_pieces(s@.subrange(0, i as int));
        assert(s@.subrange(0, i + 1).drop_last() =~= s@.subrange(0, i as int));
        let c = s[i];
        if c == '-' || c == '—' || c == '–' {
            let piece = trim_chars(cur.as_slice());
            if piece.len() > 0 {
                best = Some(piece);
            }
            cur = Vec::new();
            assert(dash_pieces(s@.subrange(0, i + 1)).drop_last() =~= pre);
        } else {
            cur.push(c);
            assert(dash_pieces(s@.subrange(0, i + 1)).drop_last() =~= pre.drop_last());
        }
        i = i + 1;
    }
    assert(s@.subrange(0, s@.len() as int) =~= s@);
    let last = trim_chars(cur.as_slice());
    if last.len() > 0 {
        Some(string_of(last.as_slice()))
    } else {
        match best {
            Some(b) => Some(string_of(b.as_slice())),
            None => None,
        }
    }
}

} // verus!
