//! The text exports of a day: CSV (one row per block) and Markdown, and the duration and
//! clock-time formats they use.
use vstd::prelude::*;
use crate::attribution::EntityKind;
use crate::blocks::{BlockSummary, TopItem};
use crate::clock::{NANOS_PER_SECOND, SECONDS_PER_DAY, parse_rfc3339, rfc3339_instant};
use crate::review::BlockReview;
use crate::text::{chars_of, string_of, trim_chars, trimmed, str_eq, contains_char};

verus! {

pub const CSV_HEADER: &'static str = "date,block_id,start_ts,end_ts,total_seconds,top1_name,top1_seconds,top2_name,top2_seconds,top3_name,top3_seconds,top4_name,top4_seconds,top5_name,top5_seconds,skipped,skip_reason,doing,output,next,tags,review_updated_at\n";

pub open spec fn digit_char(d: int) -> char {
    if d == 0 { '0' } else if d == 1 { '1' } else if d == 2 { '2' } else if d == 3 { '3' } else if d == 4 { '4' }
    else if d == 5 { '5' } else if d == 6 { '6' } else if d == 7 { '7' } else if d == 8 { '8' } else { '9' }
}

/// The decimal digits of a natural number.
pub open spec fn nat_text(n: nat) -> Seq<char>
    decreases n,
{
    if n < 10 {
        seq![digit_char(n as int)]
    } else {
        nat_text(n / 10).push(digit_char((n % 10) as int))
    }
}

/// The decimal text of an integer, with a leading `-` when negative.
pub open spec fn int_text(i: int) -> Seq<char> {
    if i < 0 {
        seq!['-'] + nat_text((-i) as nat)
    } else {
        nat_text(i as nat)
    }
}

fn digit(d: u64) -> (c: char)
    requires
        d < 10,
    ensures
        c == digit_char(d as int),
{
    if d == 0 { '0' } else if d == 1 { '1' } else if d == 2 { '2' } else if d == 3 { '3' } else if d == 4 { '4' }
    else if d == 5 { '5' } else if d == 6 { '6' } else if d == 7 { '7' } else if d == 8 { '8' } else { '9' }
}

fn nat_digits(n: u64) -> (r: Vec<char>)
    ensures
        r@ == nat_text(n as nat),
    decreases n,
{
    if n < 10 {
        let mut r: Vec<char> = Vec::new();
        r.push(digit(n));
        r
    } else {
        let mut r = nat_digits(n / 10);
        r.push(digit(n % 10));
        r
    }
}

/// The decimal text of an integer.
pub fn int_digits(i: i64) -> (r: Vec<char>)
    ensures
        r@ == int_text(i as int),
{
    if i < 0 {
        let m: u64 = (-(i as i128)) as u64;
        let d = nat_digits(m);
        let mut r: Vec<char> = Vec::new();
        r.push('-');
        append(&mut r, d.as_slice());
        r
    } else {
        nat_digits(i as u64)
    }
}

/// Appends characters.
pub fn append(out: &mut Vec<char>, cs: &[char])
    ensures
        final(out)@ == old(out)@ + cs@,
{
    let mut i: usize = 0;
    while i < cs.len()
        invariant
            i <= cs@.len(),
            out@ == old(out)@ + cs@.subrange(0, i as int),
        decreases cs@.len() - i,
    {
        out.push(cs[i]);
        i = i + 1;
    }
    assert(cs@.subrange(0, cs@.len() as int) =~= cs@);
}

/// Appends a string's characters.
pub fn append_str(out: &mut Vec<char>, s: &str)
    ensures
        final(out)@ == old(out)@ + s@,
{
    let cs = chars_of(s);
    append(out, cs.as_slice());
}

/// A duration in the export format: `0m` for none, minutes (rounded to the nearest)
/// below an hour, else hours and the remaining minutes.
pub open spec fn duration_text(seconds: int) -> Seq<char> {
    if seconds <= 0 {
        "0m"@
    } else {
        let m = (seconds + 30) / 60;
        if m < 60 {
            nat_text(m as nat) + "m"@
        } else if m % 60 == 0 {
            nat_text((m / 60) as nat) + "h"@
        } else {
            nat_text((m / 60) as nat) + "h "@ + nat_text((m % 60) as nat) + "m"@
        }
    }
}

/// Formats a duration given in seconds.
pub fn fmt_duration(seconds: i64) -> (r: String)
    ensures
        r@ == duration_text(seconds as int),
{
    if seconds <= 0 {
        return String::from_str("0m");
    }
    let m: u64 = (seconds / 60 + (seconds % 60 + 30) / 60) as u64;
    assert(m == (seconds + 30) / 60);
    let mut out: Vec<char> = Vec::new();
    if m < 60 {
        let d = nat_digits(m);
        append(&mut out, d.as_slice());
        append_str(&mut out, "m");
    } else if m % 60 == 0 {
        let d = nat_digits(m / 60);
        append(&mut out, d.as_slice());
        append_str(&mut out, "h");
    } else {
        let d = nat_digits(m / 60);
        append(&mut out, d.as_slice());
        append_str(&mut out, "h ");
        let e = nat_digits(m % 60);
        append(&mut out, e.as_slice());
        append_str(&mut out, "m");
    }
    string_of(out.as_slice())
}

/// A cell is quoted when it holds a comma, a quote or a line break.
pub open spec fn needs_quote(s: Seq<char>) -> bool {
    s.contains(',') || s.contains('"') || s.contains('\n') || s.contains('\r')
}

/// Every quote doubled.
pub open spec fn doubled(s: Seq<char>) -> Seq<char>
    decreases s.len(),
{
    if s.len() == 0 {
        s
    } else if s[0] == '"' {
        seq!['"', '"'] + doubled(s.drop_first())
    } else {
        seq![s[0]] + doubled(s.drop_first())
    }
}

/// Every doubled quote made single again.
pub open spec fn undoubled(s: Seq<char>) -> Seq<char>
    decreases s.len(),
{
    if s.len() >= 2 && s[0] == '"' && s[1] == '"' {
        seq!['"'] + undoubled(s.subrange(2, s.len() as int))
    } else if s.len() >= 1 {
        seq![s[0]] + undoubled(s.drop_first())
    } else {
        s
    }
}

/// A CSV cell for `s`: quoted, with its quotes doubled, when it needs quoting.
pub open spec fn csv_escaped(s: Seq<char>) -> Seq<char> {
    if needs_quote(s) {
        seq!['"'] + doubled(s) + seq!['"']
    } else {
        s
    }
}

/// The value a CSV cell stands for: a quoted cell loses its quotes and has its doubled
/// quotes made single; any other cell stands for itself.
pub open spec fn csv_unescaped(cell: Seq<char>) -> Seq<char> {
    if cell.len() >= 2 && cell[0] == '"' && cell.last() == '"' {
        undoubled(cell.subrange(1, cell.len() - 1))
    } else {
        cell
    }
}

proof fn lemma_doubled_push(p: Seq<char>, c: char)
    ensures
        doubled(p.push(c)) == doubled(p) + (if c == '"' { seq!['"', '"'] } else { seq![c] }),
    decreases p.len(),
{
    if p.len() == 0 {
        assert(p.push(c).drop_first() =~= Seq::<char>::empty());
        assert(doubled(Seq::<char>::empty()) == Seq::<char>::empty());
        if c == '"' {
            assert(doubled(p.push(c)) =~= seq!['"', '"']);
        } else {
            assert(doubled(p.push(c)) =~= seq![c]);
        }
        assert(doubled(p) =~= Seq::<char>::empty());
    } else {
        assert(p.push(c).drop_first() =~= p.drop_first().push(c));
        lemma_doubled_push(p.drop_first(), c);
        if p[0] == '"' {
            assert(doubled(p.push(c)) =~= seq!['"', '"'] + doubled(p.drop_first().push(c)));
        } else {
            assert(doubled(p.push(c)) =~= seq![p[0]] + doubled(p.drop_first().push(c)));
        }
        assert(doubled(p.push(c)) =~= doubled(p) + (if c == '"' { seq!['"', '"'] } else { seq![c] }));
    }
}

proof fn lemma_undoubled_doubled(s: Seq<char>)
    ensures
        undoubled(doubled(s)) == s,
    decreases s.len(),
{
    if s.len() > 0 {
        lemma_undoubled_doubled(s.drop_first());
        let d = doubled(s);
        if s[0] == '"' {
            assert(d.subrange(2, d.len() as int) =~= doubled(s.drop_first()));
            assert(undoubled(d) =~= seq!['"'] + s.drop_first());
        } else {
            assert(d.drop_first() =~= doubled(s.drop_first()));
            assert(undoubled(d) =~= seq![s[0]] + s.drop_first());
        }
        assert(s =~= seq![s[0]] + s.drop_first());
    }
}

/// Every exported cell, un-escaped, is the original string.
pub proof fn lemma_csv_round_trip(s: Seq<char>)
    ensures
        csv_unescaped(csv_escaped(s)) == s,
{
    if needs_quote(s) {
        let cell = seq!['"'] + doubled(s) + seq!['"'];
        assert(cell.subrange(1, cell.len() - 1) =~= doubled(s));
        lemma_undoubled_doubled(s);
    } else {
        if s.len() >= 2 && s[0] == '"' {
            assert(s.contains('"'));
        }
    }
}

/// Escapes a CSV cell.
pub fn csv_escape(s: &str) -> (r: String)
    ensures
        r@ == csv_escaped(s@),
{
    let cs = chars_of(s);
    let needs = contains_char(cs.as_slice(), ',') || contains_char(cs.as_slice(), '"')
        || contains_char(cs.as_slice(), '\n') || contains_char(cs.as_slice(), '\r');
    if !needs {
        return string_of(cs.as_slice());
    }
    let mut out: Vec<char> = Vec::new();
    out.push('"');
    let mut i: usize = 0;
    while i < cs.len()
        invariant
            i <= cs@.len(),
            out@ == seq!['"'] + doubled(cs@.subrange(0, i as int)),
        decreases cs@.len() - i,
    {
        proof {
            assert(cs@.subrange(0, i + 1) =~= cs@.subrange(0, i as int).push(cs@[i as int]));
            lemma_doubled_push(cs@.subrange(0, i as int), cs@[i as int]);
        }
        if cs[i] == '"' {
            out.push('"');
            out.push('"');
        } else {
            out.push(cs[i]);
        }
        i = i + 1;
    }
    assert(cs@.subrange(0, cs@.len() as int) =~= cs@);
    out.push('"');
    string_of(out.as_slice())
}

/// The name shown for an item: `<title> (<domain>)` for a domain with a title, else the
/// entity itself (a masked entity shows as `__hidden__`).
pub open spec fn top_label_spec(it: TopItem) -> Seq<char> {
    let e = trimmed(it.entity@);
    if it.kind == EntityKind::Domain && it.title is Some && trimmed(it.title->0@).len() > 0 {
        trimmed(it.title->0@) + " ("@ + e + ")"@
    } else {
        e
    }
}

/// The name shown for an item.
pub fn top_label(it: &TopItem) -> (r: Vec<char>)
    ensures
        r@ == top_label_spec(*it),
{
    let ec = chars_of(it.entity.as_str());
    let e = trim_chars(ec.as_slice());
    if it.kind == EntityKind::Domain {
        if let Some(t) = &it.title {
            let tc = chars_of(t.as_str());
            let tt = trim_chars(tc.as_slice());
            if tt.len() > 0 {
                let mut out = tt;
                append_str(&mut out, " (");
                append(&mut out, e.as_slice());
                append_str(&mut out, ")");
                return out;
            }
        }
    }
    e
}

/// Joins cells with a separator.
pub open spec fn joined(cells: Seq<Seq<char>>, sep: char) -> Seq<char>
    decreases cells.len(),
{
    if cells.len() == 0 {
        Seq::empty()
    } else if cells.len() == 1 {
        cells[0]
    } else {
        joined(cells.drop_last(), sep).push(sep) + cells.last()
    }
}

fn join_cells(cells: &Vec<Vec<char>>, sep: char) -> (r: Vec<char>)
    ensures
        r@ == joined(cells@.map_values(|c: Vec<char>| c@), sep),
{
    let ghost views = cells@.map_values(|c: Vec<char>| c@);
    let mut out: Vec<char> = Vec::new();
    let mut i: usize = 0;
    while i < cells.len()
        invariant
            i <= cells@.len(),
            views == cells@.map_values(|c: Vec<char>| c@),
            out@ == joined(views.subrange(0, i as int), sep),
        decreases cells@.len() - i,
    {
        proof {
            assert(views.subrange(0, i + 1).drop_last() =~= views.subrange(0, i as int));
        }
        if i > 0 {
            out.push(sep);
        }
        append(&mut out, cells[i].as_slice());
        proof {
            if i == 0 {
                assert(views.subrange(0, 1).len() == 1);
                assert(out@ =~= views.subrange(0, 1)[0]);
            }
        }
        i = i + 1;
    }
    assert(views.subrange(0, cells@.len() as int) =~= views);
    out
}

/// The strings of a list, joined.
pub open spec fn joined_strings(v: Seq<String>, sep: char) -> Seq<char> {
    joined(v.map_values(|s: String| s@), sep)
}

fn join_strings(v: &Vec<String>, sep: char) -> (r: Vec<char>)
    ensures
        r@ == joined_strings(v@, sep),
{
    let mut cells: Vec<Vec<char>> = Vec::new();
    let mut i: usize = 0;
    while i < v.len()
        invariant
            i <= v@.len(),
            cells@.len() == i,
            forall|k: int| 0 <= k < i ==> (#[trigger] cells@[k])@ == v@[k]@,
        decreases v@.len() - i,
    {
        cells.push(chars_of(v[i].as_str()));
        i = i + 1;
    }
    let r = join_cells(&cells, sep);
    assert(cells@.map_values(|c: Vec<char>| c@) =~= v@.map_values(|s: String| s@));
    r
}

pub open spec fn opt_text(o: Option<String>) -> Seq<char> {
    match o {
        Some(s) => s@,
        None => Seq::empty(),
    }
}

/// The cells of a block's CSV row.
pub open spec fn csv_cells(date: Seq<char>, b: BlockSummary) -> Seq<Seq<char>> {
    let top = |i: int| if i < b.top_items@.len() {
        seq![csv_escaped(top_label_spec(b.top_items@[i])), int_text(b.top_items@[i].seconds as int)]
    } else {
        seq![Seq::<char>::empty(), Seq::<char>::empty()]
    };
    let review_cells = match b.review {
        Some(r) => seq![
            if r.skipped { "1"@ } else { "0"@ },
            csv_escaped(opt_text(r.skip_reason)),
            csv_escaped(opt_text(r.doing)),
            csv_escaped(opt_text(r.output)),
            csv_escaped(opt_text(r.next)),
            csv_escaped(joined_strings(r.tags@, ';')),
            csv_escaped(r.updated_at@),
        ],
        None => seq![Seq::<char>::empty(), Seq::<char>::empty(), Seq::<char>::empty(), Seq::<char>::empty(), Seq::<char>::empty(), Seq::<char>::empty(), Seq::<char>::empty()],
    };
    seq![csv_escaped(date), csv_escaped(b.id@), csv_escaped(b.start_ts@), csv_escaped(b.end_ts@), int_text(b.total_seconds as int)]
        + top(0) + top(1) + top(2) + top(3) + top(4) + review_cells
}

/// The CSV rows of the blocks.
pub open spec fn csv_rows(date: Seq<char>, bs: Seq<BlockSummary>) -> Seq<char>
    decreases bs.len(),
{
    if bs.len() == 0 {
        Seq::empty()
    } else {
        csv_rows(date, bs.drop_last()) + joined(csv_cells(date, bs.last()), ',').push('\n')
    }
}

fn escaped_cell(s: &str) -> (r: Vec<char>)
    ensures
        r@ == csv_escaped(s@),
{
    let e = csv_escape(s);
    chars_of(e.as_str())
}

fn escaped_opt(o: &Option<String>) -> (r: Vec<char>)
    ensures
        r@ == csv_escaped(opt_text(*o)),
{
    proof {
        reveal_strlit("");
    }
    match o {
        Some(s) => escaped_cell(s.as_str()),
        None => {
            let r = escaped_cell("");
            assert(opt_text(*o) =~= ""@);
            r
        },
    }
}

fn csv_row(date: &str, b: &BlockSummary) -> (r: Vec<char>)
    ensures
        r@ == joined(csv_cells(date@, *b), ',').push('\n'),
{
    let mut cells: Vec<Vec<char>> = Vec::new();
    cells.push(escaped_cell(date));
    cells.push(escaped_cell(b.id.as_str()));
    cells.push(escaped_cell(b.start_ts.as_str()));
    cells.push(escaped_cell(b.end_ts.as_str()));
    cells.push(int_digits(b.total_seconds));
    let mut i: usize = 0;
    while i < 5
        invariant
            i <= 5,
            cells@.len() == 5 + 2 * i,
            forall|k: int| 0 <= k < 5 + 2 * i ==> (#[trigger] cells@[k])@ == csv_cells(date@, *b)[k],
        decreases 5 - i,
    {
        if i < b.top_items.len() {
            let l = top_label(&b.top_items[i]);
            let ls = string_of(l.as_slice());
            cells.push(escaped_cell(ls.as_str()));
            cells.push(int_digits(b.top_items[i].seconds));
        } else {
            cells.push(Vec::new());
            cells.push(Vec::new());
        }
        i = i + 1;
    }
    match &b.review {
        Some(r) => {
            cells.push(if r.skipped { chars_of("1") } else { chars_of("0") });
            cells.push(escaped_opt(&r.skip_reason));
            cells.push(escaped_opt(&r.doing));
            cells.push(escaped_opt(&r.output));
            cells.push(escaped_opt(&r.next));
            let tags = join_strings(&r.tags, ';');
            let ts = string_of(tags.as_slice());
            cells.push(escaped_cell(ts.as_str()));
            cells.push(escaped_cell(r.updated_at.as_str()));
        },
        None => {
            let ghost cc = csv_cells(date@, *b);
            assert(forall|j: int| 15 <= j < 22 ==> cc[j] == Seq::<char>::empty());
            let mut k: usize = 0;
            while k < 7
                invariant
                    k <= 7,
                    cells@.len() == 15 + k,
                    cc == csv_cells(date@, *b),
                    forall|j: int| 15 <= j < 22 ==> cc[j] == Seq::<char>::empty(),
                    forall|j: int| 0 <= j < 15 + k ==> (#[trigger] cells@[j])@ == csv_cells(date@, *b)[j],
                decreases 7 - k,
            {
                cells.push(Vec::new());
                k = k + 1;
            }
        },
    }
    assert(cells@.map_values(|c: Vec<char>| c@) =~= csv_cells(date@, *b));
    let mut row = join_cells(&cells, ',');
    row.push('\n');
    row
}

/// The CSV export of a day's blocks: the header, then one row per block.
pub fn export_csv(date: &str, blocks: &[BlockSummary]) -> (r: String)
    ensures
        r@ == CSV_HEADER@ + csv_rows(date@, blocks@),
{
    let mut out = chars_of(CSV_HEADER);
    let mut i: usize = 0;
    while i < blocks.len()
        invariant
            i <= blocks@.len(),
            out@ == CSV_HEADER@ + csv_rows(date@, blocks@.subrange(0, i as int)),
        decreases blocks@.len() - i,
    {
        let row = csv_row(date, &blocks[i]);
        proof {
            assert(blocks@.subrange(0, i + 1).drop_last() =~= blocks@.subrange(0, i as int));
        }
        append(&mut out, row.as_slice());
        i = i + 1;
    }
    assert(blocks@.subrange(0, blocks@.len() as int) =~= blocks@);
    string_of(out.as_slice())
}

/// Two decimal digits of a number below 100.
pub open spec fn two_digits(n: int) -> Seq<char> {
    seq![digit_char(n / 10), digit_char(n % 10)]
}

fn two_digit_chars(n: i128) -> (r: Vec<char>)
    requires
        0 <= n < 100,
    ensures
        r@ == two_digits(n as int),
{
    let mut r: Vec<char> = Vec::new();
    r.push(digit((n / 10) as u64));
    r.push(digit((n % 10) as u64));
    r
}

/// Seconds since local midnight of an instant at a UTC offset.
pub open spec fn second_of_day(t: int, offset_seconds: int) -> int {
    let local = t + offset_seconds * NANOS_PER_SECOND;
    (local / (NANOS_PER_SECOND as int)) % (SECONDS_PER_DAY as int)
}

/// `HH:MM` of an instant at a UTC offset.
pub open spec fn clock_text(t: int, offset_seconds: int) -> Seq<char> {
    let sod = second_of_day(t, offset_seconds);
    two_digits(sod / 3600) + seq![':'] + two_digits((sod % 3600) / 60)
}

/// What follows the first `T`, up to the next one.
pub open spec fn after_t(s: Seq<char>) -> Option<Seq<char>>
    decreases s.len(),
{
    if s.len() == 0 {
        None
    } else if s[0] == 'T' {
        Some(before_t(s.drop_first()))
    } else {
        after_t(s.drop_first())
    }
}

pub open spec fn before_t(s: Seq<char>) -> Seq<char>
    decreases s.len(),
{
    if s.len() == 0 || s[0] == 'T' {
        Seq::empty()
    } else {
        seq![s[0]] + before_t(s.drop_first())
    }
}

/// The clock time shown for a timestamp: local `HH:MM` when it parses, else the first
/// five characters of its time part, else `??:??`.
pub open spec fn hhmm_text(ts: Seq<char>, offset_seconds: int) -> Seq<char> {
    match rfc3339_instant(ts) {
        Some(t) => clock_text(t as int, offset_seconds),
        None => match after_t(ts) {
            Some(p) => if p.len() >= 5 {
                p.subrange(0, 5)
            } else {
                "??:??"@
            },
            None => "??:??"@,
        },
    }
}

fn floor_div(a: i128, b: i128) -> (r: i128)
    requires
        b > 0,
        -1_000_000_000_000_000_000_000_000 <= a <= 1_000_000_000_000_000_000_000_000,
    ensures
        r as int == (a as int) / (b as int),
{
    if a >= 0 {
        a / b
    } else {
        let m: i128 = (-a - 1) / b;
        let rr: i128 = (-a - 1) % b;
        let q: i128 = -m - 1;
        proof {
            let ai = a as int;
            let bi = b as int;
            vstd::arithmetic::div_mod::lemma_fundamental_div_mod(-ai - 1, bi);
            vstd::arithmetic::div_mod::lemma_mod_pos_bound(-ai - 1, bi);
            assert(-ai - 1 == (m as int) * bi + (rr as int));
            assert(ai == (q as int) * bi + (bi - 1 - rr as int)) by (nonlinear_arith)
                requires
                    -ai - 1 == (m as int) * bi + (rr as int),
                    q as int == -(m as int) - 1,
            ;
            vstd::arithmetic::div_mod::lemma_fundamental_div_mod_converse(ai, bi, q as int, bi - 1 - rr as int);
        }
        q
    }
}

fn tail_after_t(cs: &[char]) -> (r: Option<Vec<char>>)
    ensures
        match (r, after_t(cs@)) {
            (Some(a), Some(b)) => a@ == b,
            (None, None) => true,
            _ => false,
        },
{
    let mut i: usize = 0;
    assert(cs@.subrange(0, cs@.len() as int) =~= cs@);
    while i < cs.len()
        invariant
            i <= cs@.len(),
            after_t(cs@) == after_t(cs@.subrange(i as int, cs@.len() as int)),
        decreases cs@.len() - i,
    {
        assert(cs@.subrange(i as int, cs@.len() as int).drop_first() =~= cs@.subrange(i + 1, cs@.len() as int));
        if cs[i] == 'T' {
            let mut j: usize = i + 1;
            let mut out: Vec<char> = Vec::new();
            while j < cs.len() && cs[j] != 'T'
                invariant
                    i + 1 <= j <= cs@.len(),
                    before_t(cs@.subrange(i + 1, cs@.len() as int)) == out@ + before_t(cs@.subrange(j as int, cs@.len() as int)),
                decreases cs@.len() - j,
            {
                assert(cs@.subrange(j as int, cs@.len() as int).drop_first() =~= cs@.subrange(j + 1, cs@.len() as int));
                assert(seq![cs@[j as int]] + before_t(cs@.subrange(j + 1, cs@.len() as int)) == before_t(cs@.subrange(j as int, cs@.len() as int)));
                assert(out@ + (seq![cs@[j as int]] + before_t(cs@.subrange(j + 1, cs@.len() as int))) =~= out@.push(cs@[j as int]) + before_t(cs@.subrange(j + 1, cs@.len() as int)));
                out.push(cs[j]);
                j = j + 1;
            }
            assert(before_t(cs@.subrange(j as int, cs@.len() as int)) =~= Seq::<char>::empty());
            assert(out@ + Seq::<char>::empty() =~= out@);
            return Some(out);
        }
        i = i + 1;
    }
    None
}

/// The local clock time (`HH:MM`) of an RFC 3339 timestamp at a UTC offset in seconds.
pub fn fmt_hhmm(rfc3339: &str, tz_offset_seconds: i32) -> (r: String)
    ensures
        r@ == hhmm_text(rfc3339@, tz_offset_seconds as int),
{
    match parse_rfc3339(rfc3339) {
        Some(t) => {
            let local: i128 = t + tz_offset_seconds as i128 * NANOS_PER_SECOND;
            let secs = floor_div(local, NANOS_PER_SECOND);
            let sod = secs - floor_div(secs, SECONDS_PER_DAY as i128) * SECONDS_PER_DAY as i128;
            assert(sod as int == (secs as int) % (SECONDS_PER_DAY as int));
            let mut out = two_digit_chars(sod / 3600);
            out.push(':');
            let mm = two_digit_chars((sod % 3600) / 60);
            append(&mut out, mm.as_slice());
            string_of(out.as_slice())
        },
        None => {
            let cs = chars_of(rfc3339);
            match tail_after_t(cs.as_slice()) {
                Some(p) => if p.len() >= 5 {
                    let head = crate::text::sub_chars(p.as_slice(), 0, 5);
                    string_of(head.as_slice())
                } else {
                    String::from_str("??:??")
                },
                None => String::from_str("??:??"),
            }
        },
    }
}

/// Cells joined by a separator text.
pub open spec fn joined_by(cells: Seq<Seq<char>>, sep: Seq<char>) -> Seq<char>
    decreases cells.len(),
{
    if cells.len() == 0 {
        Seq::empty()
    } else if cells.len() == 1 {
        cells[0]
    } else {
        joined_by(cells.drop_last(), sep) + sep + cells.last()
    }
}

/// `<name> <duration>` of each item.
pub open spec fn top_entries(items: Seq<TopItem>) -> Seq<Seq<char>> {
    items.map_values(|it: TopItem| top_label_spec(it) + " "@ + duration_text(it.seconds as int))
}

pub open spec fn skipped_line(r: BlockReview) -> Seq<char> {
    if r.skipped {
        match r.skip_reason {
            Some(reason) => if trimmed(reason@).len() > 0 {
                "- Skipped: "@ + reason@ + "\n"@
            } else {
                "- Skipped\n"@
            },
            None => "- Skipped\n"@,
        }
    } else {
        Seq::empty()
    }
}

/// A labelled line for a field that is filled in.
pub open spec fn field_text(label: Seq<char>, f: Option<String>) -> Seq<char> {
    match f {
        Some(v) => if trimmed(v@).len() > 0 {
            label + v@ + "\n"@
        } else {
            Seq::<char>::empty()
        },
        None => Seq::<char>::empty(),
    }
}

pub open spec fn tags_line(r: BlockReview) -> Seq<char> {
    if r.tags@.len() > 0 {
        "- Tags: "@ + joined_by(r.tags@.map_values(|s: String| s@), ", "@) + "\n"@
    } else {
        Seq::empty()
    }
}

/// The bullet lines of a review.
pub open spec fn review_lines(r: BlockReview) -> Seq<char> {
    skipped_line(r) + field_text("- Doing: "@, r.doing) + field_text("- Output: "@, r.output)
        + field_text("- Next: "@, r.next) + tags_line(r)
}

/// The Markdown section of one block.
pub open spec fn markdown_block(b: BlockSummary, offset_seconds: int) -> Seq<char> {
    let heading = "## "@ + hhmm_text(b.start_ts@, offset_seconds) + "–"@ + hhmm_text(b.end_ts@, offset_seconds) + "\n"@;
    let top = if b.top_items@.len() > 0 {
        "Top: "@ + joined_by(top_entries(b.top_items@), " · "@) + "\n"@
    } else {
        Seq::empty()
    };
    let review = match b.review {
        Some(r) => review_lines(r),
        None => Seq::empty(),
    };
    heading + top + review + "\n"@
}

pub open spec fn markdown_blocks(bs: Seq<BlockSummary>, offset_seconds: int) -> Seq<char>
    decreases bs.len(),
{
    if bs.len() == 0 {
        Seq::empty()
    } else {
        markdown_blocks(bs.drop_last(), offset_seconds) + markdown_block(bs.last(), offset_seconds)
    }
}

fn join_by(cells: &Vec<Vec<char>>, sep: &str) -> (r: Vec<char>)
    ensures
        r@ == joined_by(cells@.map_values(|c: Vec<char>| c@), sep@),
{
    let ghost views = cells@.map_values(|c: Vec<char>| c@);
    let mut out: Vec<char> = Vec::new();
    let mut i: usize = 0;
    while i < cells.len()
        invariant
            i <= cells@.len(),
            views == cells@.map_values(|c: Vec<char>| c@),
            out@ == joined_by(views.subrange(0, i as int), sep@),
        decreases cells@.len() - i,
    {
        proof {
            assert(views.subrange(0, i + 1).drop_last() =~= views.subrange(0, i as int));
        }
        if i > 0 {
            append_str(&mut out, sep);
        }
        append(&mut out, cells[i].as_slice());
        proof {
            if i == 0 {
                assert(out@ =~= views.subrange(0, 1)[0]);
            }
        }
        i = i + 1;
    }
    assert(views.subrange(0, cells@.len() as int) =~= views);
    out
}

fn field_line(out: &mut Vec<char>, label: &str, f: &Option<String>)
    ensures
        final(out)@ == old(out)@ + field_text(label@, *f),
{
    match f {
        Some(v) => {
            let vc = chars_of(v.as_str());
            let t = trim_chars(vc.as_slice());
            if t.len() > 0 {
                append_str(out, label);
                append(out, vc.as_slice());
                append_str(out, "\n");
                assert(final(out)@ =~= old(out)@ + (label@ + v@ + "\n"@));
            } else {
                assert(final(out)@ =~= old(out)@ + Seq::<char>::empty());
            }
        },
        None => {
            assert(final(out)@ =~= old(out)@ + Seq::<char>::empty());
        },
    }
}

fn skipped_text(out: &mut Vec<char>, r: &BlockReview)
    ensures
        final(out)@ == old(out)@ + skipped_line(*r),
{
    if r.skipped {
        match &r.skip_reason {
            Some(reason) => {
                let rc = chars_of(reason.as_str());
                let t = trim_chars(rc.as_slice());
                if t.len() > 0 {
                    append_str(out, "- Skipped: ");
                    append(out, rc.as_slice());
                    append_str(out, "\n");
                    assert(final(out)@ =~= old(out)@ + ("- Skipped: "@ + reason@ + "\n"@));
                } else {
                    append_str(out, "- Skipped\n");
                }
            },
            None => append_str(out, "- Skipped\n"),
        }
    } else {
        assert(final(out)@ =~= old(out)@ + Seq::<char>::empty());
    }
}

fn tags_text(out: &mut Vec<char>, r: &BlockReview)
    ensures
        final(out)@ == old(out)@ + tags_line(*r),
{
    if r.tags.len() > 0 {
        append_str(out, "- Tags: ");
        let mut cells: Vec<Vec<char>> = Vec::new();
        let mut i: usize = 0;
        while i < r.tags.len()
            invariant
                i <= r.tags@.len(),
                cells@.len() == i,
                forall|k: int| 0 <= k < i ==> (#[trigger] cells@[k])@ == r.tags@[k]@,
            decreases r.tags@.len() - i,
        {
            cells.push(chars_of(r.tags[i].as_str()));
            i = i + 1;
        }
        assert(cells@.map_values(|c: Vec<char>| c@) =~= r.tags@.map_values(|s: String| s@));
        let j = join_by(&cells, ", ");
        append(out, j.as_slice());
        append_str(out, "\n");
        assert(final(out)@ =~= old(out)@ + tags_line(*r));
    } else {
        assert(final(out)@ =~= old(out)@ + Seq::<char>::empty());
    }
}

fn review_text(out: &mut Vec<char>, r: &BlockReview)
    ensures
        final(out)@ == old(out)@ + review_lines(*r),
{
    let ghost start = out@;
    skipped_text(out, r);
    field_line(out, "- Doing: ", &r.doing);
    field_line(out, "- Output: ", &r.output);
    field_line(out, "- Next: ", &r.next);
    tags_text(out, r);
    assert(out@ =~= start + review_lines(*r));
}

fn markdown_section(out: &mut Vec<char>, b: &BlockSummary, tz_offset_seconds: i32)
    ensures
        final(out)@ == old(out)@ + markdown_block(*b, tz_offset_seconds as int),
{
    let ghost start = out@;
    let s = fmt_hhmm(b.start_ts.as_str(), tz_offset_seconds);
    let e = fmt_hhmm(b.end_ts.as_str(), tz_offset_seconds);
    append_str(out, "## ");
    append_str(out, s.as_str());
    append_str(out, "–");
    append_str(out, e.as_str());
    append_str(out, "\n");
    if b.top_items.len() > 0 {
        append_str(out, "Top: ");
        let mut cells: Vec<Vec<char>> = Vec::new();
        let mut i: usize = 0;
        while i < b.top_items.len()
            invariant
                i <= b.top_items@.len(),
                cells@.len() == i,
                forall|k: int| 0 <= k < i ==> (#[trigger] cells@[k])@ == top_entries(b.top_items@)[k],
            decreases b.top_items@.len() - i,
        {
            let it = &b.top_items[i];
            let mut c = top_label(it);
            append_str(&mut c, " ");
            let d = fmt_duration(it.seconds);
            append_str(&mut c, d.as_str());
            cells.push(c);
            i = i + 1;
        }
        assert(cells@.map_values(|c: Vec<char>| c@) =~= top_entries(b.top_items@));
        let j = join_by(&cells, " · ");
        append(out, j.as_slice());
        append_str(out, "\n");
    }
    match &b.review {
        Some(r) => review_text(out, r),
        None => {},
    }
    append_str(out, "\n");
    assert(out@ =~= start + markdown_block(*b, tz_offset_seconds as int));
}

/// The Markdown export of a day: `# <date>`, then one section per block with its local
/// clock times, its top items and the review fields that are present.
pub fn export_markdown(date: &str, blocks: &[BlockSummary], tz_offset_seconds: i32) -> (r: String)
    ensures
        r@ == "# "@ + date@ + "\n\n"@ + markdown_blocks(blocks@, tz_offset_seconds as int),
{
    let mut out: Vec<char> = Vec::new();
    append_str(&mut out, "# ");
    append_str(&mut out, date);
    append_str(&mut out, "\n\n");
    let ghost head = out@;
    let mut i: usize = 0;
    while i < blocks.len()
        invariant
            i <= blocks@.len(),
            out@ == head + markdown_blocks(blocks@.subrange(0, i as int), tz_offset_seconds as int),
        decreases blocks@.len() - i,
    {
        proof {
            assert(blocks@.subrange(0, i + 1).drop_last() =~= blocks@.subrange(0, i as int));
        }
        markdown_section(&mut out, &blocks[i], tz_offset_seconds);
        i = i + 1;
    }
    assert(blocks@.subrange(0, blocks@.len() as int) =~= blocks@);
    string_of(out.as_slice())
}

} // verus!
