//! Fixed-length blocks of attributed focus time with their top items, and the
//! background-audio overlay.
use vstd::prelude::*;
use vstd::multiset::Multiset;
use crate::attribution::{
    EntityKind, Attribution, FocusRegisters, span_gap, focus_cutoff, audio_cutoff, stream_ok,
    normalized_title_for_domain, domain_title_spec, empty_registers, next_ts_spec, span_of,
    focus_cutoff_ns, audio_cutoff_ns,
};
use crate::clock::{NANOS_PER_SECOND, instant_in_range, format_rfc3339, rfc3339_text};
use crate::events::{EventForBlocks, EventKind, event_kind, clone_opt, opt_eq, opt_view, sorted_by_ts, split_streams, stream_of};
use crate::review::BlockReview;
use crate::settings::Settings;

verus! {

/// How many items a block lists.
pub const TOP_ITEMS_MAX: usize = 5;

/// Time credited to one target within a block.
pub struct TopItem {
    pub kind: EntityKind,
    pub entity: String,
    pub title: Option<String>,
    pub seconds: i64,
}

/// A block: attributed focus time from `start` to `end` (nanoseconds since the epoch).
pub struct BlockSummary {
    /// The RFC 3339 text of the start.
    pub id: String,
    pub start_ts: String,
    pub end_ts: String,
    pub start: i128,
    pub end: i128,
    pub total_seconds: i64,
    pub top_items: Vec<TopItem>,
    pub background_top_items: Vec<TopItem>,
    pub background_seconds: Option<i64>,
    pub review: Option<BlockReview>,
}

/// Total seconds of a list of items.
pub open spec fn sum_seconds(s: Seq<TopItem>) -> int
    decreases s.len(),
{
    if s.len() == 0 {
        0
    } else {
        sum_seconds(s.drop_last()) + s.last().seconds
    }
}

/// Total of a list of second counts.
pub open spec fn sum_secs(s: Seq<i64>) -> int
    decreases s.len(),
{
    if s.len() == 0 {
        0
    } else {
        sum_secs(s.drop_last()) + s.last()
    }
}

pub open spec fn sorted_desc(s: Seq<TopItem>) -> bool {
    forall|i: int, j: int| 0 <= i < j < s.len() ==> s[i].seconds >= s[j].seconds
}

pub open spec fn all_positive(s: Seq<TopItem>) -> bool {
    forall|i: int| 0 <= i < s.len() ==> s[i].seconds > 0
}

proof fn lemma_sum_seconds_concat(a: Seq<TopItem>, b: Seq<TopItem>)
    ensures
        sum_seconds(a + b) == sum_seconds(a) + sum_seconds(b),
    decreases b.len(),
{
    if b.len() == 0 {
        assert(a + b =~= a);
    } else {
        lemma_sum_seconds_concat(a, b.drop_last());
        assert((a + b).drop_last() =~= a + b.drop_last());
    }
}

proof fn lemma_sum_seconds_insert(s: Seq<TopItem>, p: int, x: TopItem)
    requires
        0 <= p <= s.len(),
    ensures
        sum_seconds(s.insert(p, x)) == sum_seconds(s) + x.seconds,
{
    let a = s.subrange(0, p);
    let b = s.subrange(p, s.len() as int);
    assert(s =~= a + b);
    assert(s.insert(p, x) =~= a + (seq![x] + b));
    lemma_sum_seconds_concat(a, b);
    lemma_sum_seconds_concat(a, seq![x] + b);
    lemma_sum_seconds_concat(seq![x], b);
    lemma_sum_seconds_single(x);
}

proof fn lemma_sum_seconds_single(x: TopItem)
    ensures
        sum_seconds(seq![x]) == x.seconds,
{
    assert(seq![x].drop_last() =~= Seq::<TopItem>::empty());
    assert(sum_seconds(Seq::<TopItem>::empty()) == 0);
}

proof fn lemma_sum_seconds_prefix(s: Seq<TopItem>, n: int)
    requires
        0 <= n <= s.len(),
        all_positive(s),
    ensures
        sum_seconds(s.subrange(0, n)) <= sum_seconds(s),
    decreases s.len() - n,
{
    if n < s.len() {
        lemma_sum_seconds_prefix(s, n + 1);
        assert(s.subrange(0, n + 1).drop_last() =~= s.subrange(0, n));
    } else {
        assert(s.subrange(0, n) =~= s);
    }
}

proof fn lemma_sum_secs_update(s: Seq<i64>, k: int, v: i64)
    requires
        0 <= k < s.len(),
    ensures
        sum_secs(s.update(k, v)) == sum_secs(s) - s[k] + v,
    decreases s.len(),
{
    if k == s.len() - 1 {
        assert(s.update(k, v).drop_last() =~= s.drop_last());
    } else {
        lemma_sum_secs_update(s.drop_last(), k, v);
        assert(s.update(k, v).drop_last() =~= s.drop_last().update(k, v));
    }
}

proof fn lemma_sum_secs_bounds(s: Seq<i64>, k: int)
    requires
        0 <= k < s.len(),
        forall|i: int| 0 <= i < s.len() ==> s[i] > 0,
    ensures
        s[k] <= sum_secs(s),
        sum_secs(s) >= 0,
    decreases s.len(),
{
    assert(sum_secs(s) == sum_secs(s.drop_last()) + s.last());
    if k < s.len() - 1 {
        lemma_sum_secs_bounds(s.drop_last(), k);
        assert(s.drop_last()[k] == s[k]);
    } else if s.len() > 1 {
        lemma_sum_secs_bounds(s.drop_last(), 0);
    } else {
        assert(s.drop_last().len() == 0);
        assert(sum_secs(s.drop_last()) == 0);
    }
}

/// No two items share a key.
pub open spec fn distinct_keys(s: Seq<TopItem>) -> bool {
    forall|i: int, j: int| 0 <= i < j < s.len() ==> item_entry(s[i]).0 != item_entry(s[j]).0
}

/// Whether `x` is one of the items.
pub open spec fn among(x: TopItem, s: Seq<TopItem>) -> bool {
    exists|j: int| 0 <= j < s.len() && s[j] == x
}

/// The items in order of seconds, largest first (items with equal seconds stay in input
/// order).
pub fn sort_by_seconds_desc(items: Vec<TopItem>) -> (r: Vec<TopItem>)
    requires
        all_positive(items@),
    ensures
        sorted_desc(r@),
        all_positive(r@),
        r@.len() == items@.len(),
        sum_seconds(r@) == sum_seconds(items@),
        forall|i: int| 0 <= i < r@.len() ==> among(#[trigger] r@[i], items@),
        r@.to_multiset() == items@.to_multiset(),
        distinct_keys(items@) ==> distinct_keys(r@),
{
    broadcast use vstd::multiset::group_multiset_axioms, vstd::seq_lib::group_to_multiset_ensures;

    let ghost orig = items@;
    let mut items = items;
    let mut out: Vec<TopItem> = Vec::new();
    assert(out@.to_multiset() =~= Multiset::<TopItem>::empty());
    assert(out@.to_multiset().add(items@.to_multiset()) =~= orig.to_multiset());
    while items.len() > 0
        invariant
            sorted_desc(out@),
            all_positive(out@),
            all_positive(items@),
            out@.len() + items@.len() == orig.len(),
            sum_seconds(out@) + sum_seconds(items@) == sum_seconds(orig),
            forall|i: int| 0 <= i < out@.len() ==> among(#[trigger] out@[i], orig),
            forall|i: int| 0 <= i < items@.len() ==> among(#[trigger] items@[i], orig),
            out@.to_multiset().add(items@.to_multiset()) == orig.to_multiset(),
            distinct_keys(orig) ==> distinct_keys(out@) && distinct_keys(items@) && forall|a: int, b: int|
                0 <= a < out@.len() && 0 <= b < items@.len() ==> item_entry(out@[a]).0 != item_entry(items@[b]).0,
        decreases items@.len(),
    {
        let ghost before = items@;
        let ghost out_before = out@;
        let x = items.remove(0);
        proof {
            vstd::seq_lib::to_multiset_remove(before, 0);
        }
        assert(among(before[0], orig));
        assert forall|i: int| 0 <= i < items@.len() implies among(#[trigger] items@[i], orig) by {
            assert(items@[i] == before[i + 1]);
            assert(among(before[i + 1], orig));
        }
        proof {
            assert(before =~= seq![x] + items@);
            lemma_sum_seconds_concat(seq![x], items@);
            lemma_sum_seconds_single(x);
        }
        let mut p: usize = 0;
        while p < out.len() && out[p].seconds >= x.seconds
            invariant
                p <= out@.len(),
                forall|i: int| 0 <= i < p ==> out@[i].seconds >= x.seconds,
            decreases out@.len() - p,
        {
            p = p + 1;
        }
        let ghost prev = out@;
        proof {
            lemma_sum_seconds_insert(prev, p as int, x);
        }
        out.insert(p, x);
        proof {
            if distinct_keys(orig) {
                assert forall|a: int, b: int| 0 <= a < b < out@.len() implies item_entry(out@[a]).0 != item_entry(out@[b]).0 by {
                    if a < p && b < p {
                        assert(out@[a] == prev[a] && out@[b] == prev[b]);
                    } else if a < p && b == p {
                        assert(out@[a] == prev[a]);
                        assert(item_entry(prev[a]).0 != item_entry(before[0]).0);
                    } else if a < p {
                        assert(out@[a] == prev[a] && out@[b] == prev[b - 1]);
                    } else if a == p {
                        assert(out@[b] == prev[b - 1]);
                        assert(item_entry(prev[b - 1]).0 != item_entry(before[0]).0);
                    } else {
                        assert(out@[a] == prev[a - 1] && out@[b] == prev[b - 1]);
                    }
                }
                assert forall|a: int, b: int| 0 <= a < b < items@.len() implies item_entry(items@[a]).0 != item_entry(items@[b]).0 by {
                    assert(items@[a] == before[a + 1] && items@[b] == before[b + 1]);
                }
                assert forall|a: int, b: int| 0 <= a < out@.len() && 0 <= b < items@.len() implies item_entry(out@[a]).0 != item_entry(items@[b]).0 by {
                    assert(items@[b] == before[b + 1]);
                    if a < p {
                        assert(out@[a] == prev[a]);
                    } else if a == p {
                        assert(item_entry(before[0]).0 != item_entry(before[b + 1]).0);
                    } else {
                        assert(out@[a] == prev[a - 1]);
                    }
                }
            }
            vstd::seq_lib::to_multiset_insert(prev, p as int, x);
            vstd::seq_lib::to_multiset_insert(items@, 0, x);
            assert(before =~= items@.insert(0, x));
            assert(before.to_multiset() =~= items@.to_multiset().insert(x));
            assert(out@.to_multiset().add(items@.to_multiset()) =~= out_before.to_multiset().add(before.to_multiset()));
        }
        assert forall|i: int| 0 <= i < out@.len() implies among(#[trigger] out@[i], orig) by {
            if i < p {
                assert(out@[i] == prev[i]);
                assert(among(prev[i], orig));
            } else if i > p {
                assert(out@[i] == prev[i - 1]);
                assert(among(prev[i - 1], orig));
            }
        }
        assert forall|i: int, j: int| 0 <= i < j < out@.len() implies out@[i].seconds >= out@[j].seconds by {
            if j < p {
            } else if j == p {
            } else if i < p {
                assert(out@[j] == prev[j - 1]);
            } else if i == p {
                assert(out@[j] == prev[j - 1]);
                assert(prev[p as int].seconds < x.seconds);
                assert(prev[p as int].seconds >= prev[j - 1].seconds || p == j - 1);
            } else {
                assert(out@[j] == prev[j - 1]);
                assert(out@[i] == prev[i - 1]);
            }
        }
    }
    assert(items@.to_multiset() =~= Multiset::<TopItem>::empty());
    assert(out@.to_multiset() =~= out@.to_multiset().add(items@.to_multiset()));
    out
}

/// The first `TOP_ITEMS_MAX` items of a bucket, largest first.
pub fn top_of_bucket(items: Vec<TopItem>) -> (r: Vec<TopItem>)
    requires
        all_positive(items@),
    ensures
        sorted_desc(r@),
        all_positive(r@),
        r@.len() <= TOP_ITEMS_MAX,
        r@.len() == if items@.len() < TOP_ITEMS_MAX { items@.len() } else { TOP_ITEMS_MAX as nat },
        sum_seconds(r@) <= sum_seconds(items@),
        items@.len() <= TOP_ITEMS_MAX ==> sum_seconds(r@) == sum_seconds(items@),
        forall|i: int| 0 <= i < r@.len() ==> among(#[trigger] r@[i], items@),
        forall|j: int| 0 <= j < items@.len() ==> among(#[trigger] items@[j], r@) || (r@.len() == TOP_ITEMS_MAX && items@[j].seconds <= r@[TOP_ITEMS_MAX - 1].seconds),
        distinct_keys(items@) ==> distinct_keys(r@),
{
    let ghost orig = items@;
    let mut sorted = sort_by_seconds_desc(items);
    let ghost full = sorted@;
    sorted.truncate(TOP_ITEMS_MAX);
    proof {
        if full.len() > TOP_ITEMS_MAX {
            lemma_sum_seconds_prefix(full, TOP_ITEMS_MAX as int);
        } else {
            assert(full.subrange(0, full.len() as int) =~= full);
        }
        assert forall|i: int| 0 <= i < sorted@.len() implies among(#[trigger] sorted@[i], orig) by {
            assert(sorted@[i] == full[i]);
        }
        assert forall|j: int| 0 <= j < orig.len() implies among(#[trigger] orig[j], sorted@) || (sorted@.len() == TOP_ITEMS_MAX && orig[j].seconds <= sorted@[TOP_ITEMS_MAX - 1].seconds) by {
            let x = orig[j];
            assert(orig.contains(x));
            vstd::seq_lib::to_multiset_contains(orig, x);
            vstd::seq_lib::to_multiset_contains(full, x);
            assert(full.contains(x));
            let k = choose|k: int| 0 <= k < full.len() && full[k] == x;
            if k < sorted@.len() {
                assert(sorted@[k] == x);
            } else {
                assert(full[TOP_ITEMS_MAX - 1].seconds >= full[k].seconds);
                assert(sorted@[TOP_ITEMS_MAX - 1] == full[TOP_ITEMS_MAX - 1]);
            }
        }
    }
    sorted
}

/// What a bucket entry is keyed by: the kind, the entity and, for domains, the title.
pub struct BucketKey {
    pub kind: EntityKind,
    pub entity: String,
    pub title: Option<String>,
}

pub open spec fn same_key(a: BucketKey, b: BucketKey) -> bool {
    a.kind == b.kind && a.entity@ == b.entity@ && opt_view(a.title) == opt_view(b.title)
}

/// What a bucket key stands for: the kind, the entity and the title.
pub type EntryKey = (EntityKind, Seq<char>, Option<Seq<char>>);

pub open spec fn key_view(k: BucketKey) -> EntryKey {
    (k.kind, k.entity@, opt_view(k.title))
}

/// The entry that an item reports: its key and its seconds.
pub open spec fn item_entry(it: TopItem) -> (EntryKey, int) {
    ((it.kind, it.entity@, opt_view(it.title)), it.seconds as int)
}

/// The position of `k` among the entries, if it is there.
pub open spec fn entry_index(b: Seq<(EntryKey, int)>, k: EntryKey) -> Option<int>
    decreases b.len(),
{
    if b.len() == 0 {
        None
    } else if b.last().0 == k {
        Some(b.len() - 1)
    } else {
        entry_index(b.drop_last(), k)
    }
}

/// The entries after `s` seconds are credited to `k`: added to its entry, or a new entry
/// at the end.
pub open spec fn bucket_add(b: Seq<(EntryKey, int)>, k: EntryKey, s: int) -> Seq<(EntryKey, int)> {
    match entry_index(b, k) {
        Some(i) => b.update(i, (k, b[i].1 + s)),
        None => b.push((k, s)),
    }
}

proof fn lemma_entry_index(b: Seq<(EntryKey, int)>, k: EntryKey)
    ensures
        entry_index(b, k) matches Some(i) ==> 0 <= i < b.len() && b[i].0 == k,
        entry_index(b, k) is None ==> forall|j: int| 0 <= j < b.len() ==> b[j].0 != k,
    decreases b.len(),
{
    if b.len() > 0 && b.last().0 != k {
        lemma_entry_index(b.drop_last(), k);
        assert forall|j: int| 0 <= j < b.len() - 1 implies b[j] == b.drop_last()[j] by {}
    }
}

proof fn lemma_entry_index_unique(b: Seq<(EntryKey, int)>, k: EntryKey, i: int)
    requires
        0 <= i < b.len(),
        b[i].0 == k,
        forall|x: int, y: int| 0 <= x < y < b.len() ==> b[x].0 != b[y].0,
    ensures
        entry_index(b, k) == Some(i),
    decreases b.len(),
{
    if i < b.len() - 1 {
        assert(b.last().0 != k);
        lemma_entry_index_unique(b.drop_last(), k, i);
    }
}

/// Seconds per key, in order of first appearance.
pub struct Bucket {
    pub keys: Vec<BucketKey>,
    pub secs: Vec<i64>,
}

impl Bucket {
    pub open spec fn wf(&self) -> bool {
        &&& self.keys@.len() == self.secs@.len()
        &&& forall|i: int| 0 <= i < self.secs@.len() ==> self.secs@[i] > 0
        &&& forall|i: int, j: int|
            0 <= i < j < self.keys@.len() ==> !same_key(self.keys@[i], self.keys@[j])
        &&& self.titles_ok()
    }

    pub open spec fn total(&self) -> int {
        sum_secs(self.secs@)
    }

    /// The entries: each key with its seconds.
    pub open spec fn entries(&self) -> Seq<(EntryKey, int)> {
        Seq::new(self.keys@.len(), |i: int| (key_view(self.keys@[i]), self.secs@[i] as int))
    }

    /// App keys carry no title.
    pub open spec fn titles_ok(&self) -> bool {
        forall|i: int| 0 <= i < self.keys@.len() ==> (#[trigger] self.keys@[i]).kind == EntityKind::App ==> self.keys@[i].title is None
    }

    pub fn new() -> (r: Bucket)
        ensures
            r.wf(),
            r.total() == 0,
            r.keys@.len() == 0,
            r.entries() == Seq::<(EntryKey, int)>::empty(),
            r.titles_ok(),
    {
        Bucket { keys: Vec::new(), secs: Vec::new() }
    }

    /// Credits `s` seconds to `key`.
    pub fn add(&mut self, key: BucketKey, s: i64)
        requires
            old(self).wf(),
            old(self).titles_ok(),
            key.kind == EntityKind::App ==> key.title is None,
            s > 0,
            old(self).total() + s <= i64::MAX,
        ensures
            final(self).wf(),
            final(self).titles_ok(),
            final(self).total() == old(self).total() + s,
            final(self).entries() == bucket_add(old(self).entries(), key_view(key), s as int),
    {
        let n = self.keys.len();
        let mut i: usize = 0;
        while i < n
            invariant
                n == self.keys@.len(),
                self.wf(),
                self.keys@ == old(self).keys@,
                self.secs@ == old(self).secs@,
                old(self).titles_ok(),
                s > 0,
                old(self).total() + s <= i64::MAX,
                i <= n,
                forall|j: int| 0 <= j < i ==> !same_key(self.keys@[j], key),
            decreases n - i,
        {
            let k = &self.keys[i];
            if k.kind == key.kind && k.entity == key.entity && opt_eq(&k.title, &key.title) {
                proof {
                    lemma_sum_secs_bounds(self.secs@, i as int);
                    lemma_sum_secs_update(self.secs@, i as int, (self.secs@[i as int] + s) as i64);
                    let b = old(self).entries();
                    assert forall|x: int, y: int| 0 <= x < y < b.len() implies b[x].0 != b[y].0 by {
                        assert(!same_key(old(self).keys@[x], old(self).keys@[y]));
                    }
                    lemma_entry_index_unique(b, key_view(key), i as int);
                }
                let v = self.secs[i] + s;
                self.secs.set(i, v);
                assert(self.entries() =~= bucket_add(old(self).entries(), key_view(key), s as int));
                assert(self.keys@ == old(self).keys@);
                assert(self.titles_ok());
                assert forall|a: int, b: int| 0 <= a < b < self.keys@.len() implies !same_key(self.keys@[a], self.keys@[b]) by {
                    assert(self.keys@ == old(self).keys@);
                }
                return;
            }
            i = i + 1;
        }
        let ghost before = self.secs@;
        proof {
            let b = old(self).entries();
            lemma_entry_index(b, key_view(key));
            if entry_index(b, key_view(key)) is Some {
                let j = entry_index(b, key_view(key))->0;
                assert(same_key(self.keys@[j], key));
            }
        }
        let ghost kv = key_view(key);
        self.keys.push(key);
        self.secs.push(s);
        assert(self.entries() =~= bucket_add(old(self).entries(), kv, s as int));
        assert forall|j: int| 0 <= j < self.keys@.len() implies (#[trigger] self.keys@[j]).kind == EntityKind::App ==> self.keys@[j].title is None by {
            if j < self.keys@.len() - 1 {
                assert(self.keys@[j] == old(self).keys@[j]);
            }
        }
        assert(self.secs@.drop_last() =~= before);
        assert forall|a: int, b: int| 0 <= a < b < self.keys@.len() implies !same_key(self.keys@[a], self.keys@[b]) by {
            if b == self.keys@.len() - 1 {
                assert(self.keys@[b] == key);
                assert(!same_key(old(self).keys@[a], key));
            } else {
                assert(self.keys@[a] == old(self).keys@[a]);
            }
        }
    }

    /// The entries as items; a title is kept for domains only.
    pub fn items(&self) -> (r: Vec<TopItem>)
        requires
            self.wf(),
        ensures
            all_positive(r@),
            r@.len() == self.keys@.len(),
            sum_seconds(r@) == self.total(),
            forall|i: int| 0 <= i < r@.len() ==> item_entry(#[trigger] r@[i]) == self.entries()[i],
    {
        let mut out: Vec<TopItem> = Vec::new();
        let mut i: usize = 0;
        while i < self.keys.len()
            invariant
                self.wf(),
                i <= self.keys@.len(),
                out@.len() == i,
                all_positive(out@),
                sum_seconds(out@) == sum_secs(self.secs@.subrange(0, i as int)),
                forall|k: int| 0 <= k < i ==> item_entry(#[trigger] out@[k]) == self.entries()[k],
            decreases self.keys@.len() - i,
        {
            let k = &self.keys[i];
            let title = match k.kind {
                EntityKind::Domain => clone_opt(&k.title),
                EntityKind::App => None,
            };
            let ghost before = out@;
            out.push(TopItem { kind: k.kind, entity: k.entity.clone(), title, seconds: self.secs[i] });
            assert(out@.drop_last() =~= before);
            assert(self.secs@.subrange(0, i + 1).drop_last() =~= self.secs@.subrange(0, i as int));
            i = i + 1;
        }
        assert(self.secs@.subrange(0, self.secs@.len() as int) =~= self.secs@);
        out
    }
}

/// The bounds a finished focus block keeps.
pub open spec fn block_ok(b: BlockSummary, block_len_seconds: int) -> bool {
    &&& b.start <= b.end
    &&& 0 < b.total_seconds <= block_len_seconds
    &&& b.end - b.start >= b.total_seconds * NANOS_PER_SECOND
    &&& b.id@ == rfc3339_text(b.start)
    &&& b.start_ts@ == rfc3339_text(b.start)
    &&& b.end_ts@ == rfc3339_text(b.end)
    &&& sorted_desc(b.top_items@)
    &&& all_positive(b.top_items@)
    &&& b.top_items@.len() <= TOP_ITEMS_MAX
    &&& sum_seconds(b.top_items@) <= b.total_seconds
    &&& (b.top_items@.len() < TOP_ITEMS_MAX ==> sum_seconds(b.top_items@) == b.total_seconds)
    &&& b.review is None
}

/// A block just built: within bounds and without background figures yet.
pub open spec fn fresh_block(b: BlockSummary, block_len_seconds: int) -> bool {
    &&& block_ok(b, block_len_seconds)
    &&& b.background_top_items@.len() == 0
    &&& b.background_seconds is None
}

/// Blocks in time order: each ends no later than the next one starts.
pub open spec fn blocks_ordered(bs: Seq<BlockSummary>) -> bool {
    forall|k: int, l: int| 0 <= k < l < bs.len() ==> bs[k].end <= bs[l].start
}

/// The summary of a finished block.
pub fn finalize_block(start: i128, end: i128, bucket: &Bucket, total_seconds: i64) -> (r: BlockSummary)
    requires
        bucket.wf(),
        bucket.total() == total_seconds,
    ensures
        r.start == start && r.end == end && r.total_seconds == total_seconds,
        r.id@ == rfc3339_text(start),
        r.start_ts@ == rfc3339_text(start),
        r.end_ts@ == rfc3339_text(end),
        sorted_desc(r.top_items@),
        all_positive(r.top_items@),
        r.top_items@.len() <= TOP_ITEMS_MAX,
        sum_seconds(r.top_items@) <= total_seconds,
        r.top_items@.len() < TOP_ITEMS_MAX ==> sum_seconds(r.top_items@) == total_seconds,
        bucket.keys@.len() <= TOP_ITEMS_MAX ==> sum_seconds(r.top_items@) == total_seconds,
        r.top_items@.len() == if bucket.keys@.len() < TOP_ITEMS_MAX { bucket.keys@.len() } else { TOP_ITEMS_MAX as nat },
        forall|i: int| 0 <= i < r.top_items@.len() ==> bucket.entries().contains(item_entry(#[trigger] r.top_items@[i])),
        top_of(r.top_items@, bucket.entries()),
        forall|i: int, j: int| 0 <= i < j < r.top_items@.len() ==> item_entry(r.top_items@[i]).0 != item_entry(r.top_items@[j]).0,
        r.background_top_items@.len() == 0,
        r.background_seconds is None,
        r.review is None,
{
    let start_ts = format_rfc3339(start);
    let end_ts = format_rfc3339(end);
    let id = start_ts.clone();
    let items = bucket.items();
    let ghost all = items@;
    assert forall|i: int, j: int| 0 <= i < j < all.len() implies item_entry(all[i]).0 != item_entry(all[j]).0 by {
        assert(item_entry(all[i]) == bucket.entries()[i]);
        assert(item_entry(all[j]) == bucket.entries()[j]);
        assert(!same_key(bucket.keys@[i], bucket.keys@[j]));
    }
    let top = top_of_bucket(items);
    proof {
        if bucket.titles_ok() {
            assert forall|i: int| 0 <= i < top@.len() implies bucket.entries().contains(item_entry(#[trigger] top@[i])) by {
                assert(among(top@[i], all));
                let j = choose|j: int| 0 <= j < all.len() && all[j] == top@[i];
                assert(item_entry(all[j]) == bucket.entries()[j]);
            }
            assert forall|j: int| 0 <= j < bucket.entries().len() implies reported(top@, #[trigger] bucket.entries()[j]) || (top@.len() == TOP_ITEMS_MAX && bucket.entries()[j].1 <= top@[TOP_ITEMS_MAX - 1].seconds) by {
                assert(item_entry(all[j]) == bucket.entries()[j]);
                if among(all[j], top@) {
                    let i = choose|i: int| 0 <= i < top@.len() && top@[i] == all[j];
                    assert(item_entry(top@[i]) == bucket.entries()[j]);
                }
            }
        }
    }
    BlockSummary {
        id,
        start_ts,
        end_ts,
        start,
        end,
        total_seconds,
        top_items: top,
        background_top_items: Vec::new(),
        background_seconds: None,
        review: None,
    }
}

/// The block length in seconds: at least a minute.
pub open spec fn block_len_spec(block_seconds: i64) -> int {
    if block_seconds < 60 {
        60
    } else {
        block_seconds as int
    }
}

/// The registers of the block walk after event `e`: app focus sets the app, tab focus the
/// domain, its title and when it was seen; a tab audio stop clears the domain and an app
/// audio stop the app; any other event sets the app.
pub open spec fn block_registers(r: FocusRegisters, e: EventForBlocks) -> FocusRegisters {
    match e.kind() {
        EventKind::AppActive => FocusRegisters { app: Some(e.entity), ..r },
        EventKind::TabActive => FocusRegisters {
            domain: Some(e.entity),
            domain_title: e.title,
            domain_ts: Some(e.ts),
            ..r
        },
        EventKind::TabAudioStop => FocusRegisters { domain: None, domain_title: None, domain_ts: None, ..r },
        EventKind::AppAudioStop => FocusRegisters { app: None, ..r },
        _ => FocusRegisters { app: Some(e.entity), ..r },
    }
}

/// The bucket key of what the registers resolve to: domains with their kept title, apps
/// without one.
pub open spec fn key_spec(r: FocusRegisters, a: Attribution, store_titles: bool) -> Option<EntryKey> {
    match a {
        Attribution::ToDomain => match r.domain {
            Some(d) => Some((EntityKind::Domain, d@, domain_title_spec(d@, opt_view(r.domain_title), store_titles))),
            None => None,
        },
        Attribution::ToApp => match r.app {
            Some(x) => Some((EntityKind::App, x@, None)),
            None => None,
        },
        Attribution::Nothing => None,
    }
}

/// The register update of the block walk.
fn update_registers(regs: &mut FocusRegisters, cur: &EventForBlocks)
    requires
        instant_in_range(cur.ts),
        old(regs).domain_ts matches Some(t) ==> instant_in_range(t),
    ensures
        final(regs).domain_ts matches Some(t) ==> instant_in_range(t),
        *final(regs) == block_registers(*old(regs), *cur),
{
    match event_kind(cur.event.as_str()) {
        EventKind::AppActive => {
            regs.app = Some(cur.entity.clone());
        },
        EventKind::TabActive => {
            regs.domain = Some(cur.entity.clone());
            regs.domain_title = clone_opt(&cur.title);
            regs.domain_ts = Some(cur.ts);
        },
        EventKind::TabAudioStop => {
            regs.domain = None;
            regs.domain_title = None;
            regs.domain_ts = None;
        },
        EventKind::AppAudioStop => {
            regs.app = None;
        },
        _ => {
            regs.app = Some(cur.entity.clone());
        },
    }
}

/// The bucket key of what the registers resolve to.
fn key_for(regs: &FocusRegisters, a: Attribution, store_titles: bool) -> (r: Option<BucketKey>)
    ensures
        a == Attribution::Nothing ==> r is None,
        r matches Some(k) ==> (k.kind == EntityKind::App ==> k.title is None),
        match r {
            Some(k) => key_spec(*regs, a, store_titles) == Some(key_view(k)),
            None => key_spec(*regs, a, store_titles) is None,
        },
{
    match a {
        Attribution::ToDomain => match &regs.domain {
            Some(d) => {
                let t = match &regs.domain_title {
                    Some(t) => normalized_title_for_domain(d.as_str(), Some(t.as_str()), store_titles),
                    None => normalized_title_for_domain(d.as_str(), None, store_titles),
                };
                Some(BucketKey { kind: EntityKind::Domain, entity: d.clone(), title: t })
            },
            None => None,
        },
        Attribution::ToApp => match &regs.app {
            Some(app) => Some(BucketKey { kind: EntityKind::App, entity: app.clone(), title: None }),
            None => None,
        },
        Attribution::Nothing => None,
    }
}

fn next_instant(events: &[EventForBlocks], idx: &[usize], i: usize, now: i128) -> (r: i128)
    requires
        i < idx@.len(),
        stream_ok(events@, idx@, now),
    ensures
        instant_in_range(r),
        i + 1 < idx@.len() ==> r == events@[idx@[i + 1] as int].ts,
        i + 1 == idx@.len() ==> r == now,
{
    if i < idx.len() - 1 {
        events[idx[i + 1]].ts
    } else {
        now
    }
}

/// Appends the summary of the block `[start, end)` with `total` seconds in `bucket`.
fn close_block(
    blocks: &mut Vec<BlockSummary>,
    start: i128,
    end: i128,
    bucket: &Bucket,
    total: i64,
    block_len_seconds: i64,
)
    requires
        bucket.wf(),
        bucket.total() == total,
        0 < total <= block_len_seconds,
        start <= end,
        end - start >= total * NANOS_PER_SECOND,
        forall|k: int| 0 <= k < old(blocks)@.len() ==> fresh_block(#[trigger] old(blocks)@[k], block_len_seconds as int),
        blocks_ordered(old(blocks)@),
        forall|k: int| 0 <= k < old(blocks)@.len() ==> (#[trigger] old(blocks)@[k]).end <= start,
    ensures
        final(blocks)@.len() == old(blocks)@.len() + 1,
        forall|k: int| 0 <= k < old(blocks)@.len() ==> final(blocks)@[k] == old(blocks)@[k],
        final(blocks)@.last().start == start && final(blocks)@.last().end == end,
        summarizes(final(blocks)@.last(), (start as int, end as int, total as int, bucket.entries())),
        forall|k: int| 0 <= k < final(blocks)@.len() ==> fresh_block(#[trigger] final(blocks)@[k], block_len_seconds as int),
        blocks_ordered(final(blocks)@),
{
    let b = finalize_block(start, end, bucket, total);
    blocks.push(b);
    assert forall|k: int| 0 <= k < blocks@.len() implies fresh_block(#[trigger] blocks@[k], block_len_seconds as int) by {
        if k < blocks@.len() - 1 {
            assert(blocks@[k] == old(blocks)@[k]);
        }
    }
    assert forall|k: int, l: int| 0 <= k < l < blocks@.len() implies blocks@[k].end <= blocks@[l].start by {
        assert(blocks@[k] == old(blocks)@[k]);
        if l < blocks@.len() - 1 {
            assert(blocks@[l] == old(blocks)@[l]);
        }
    }
}

/// A block of the walk: start, end, attributed seconds and the entries of its bucket.
pub type BlockSpec = (int, int, int, Seq<(EntryKey, int)>);

/// The state of the block walk: the finished blocks, the current block's start and end,
/// its attributed seconds and its bucket.
pub type WalkState = (Seq<BlockSpec>, int, int, int, Seq<(EntryKey, int)>);

/// The current block finished; the next one starts where it ends.
pub open spec fn close_current(st: WalkState) -> WalkState {
    (st.0.push((st.1, st.2, st.3, st.4)), st.2, st.2, 0, Seq::empty())
}

/// The current block finished if it holds any time; the next one starts at `at`.
pub open spec fn close_idle(st: WalkState, at: int) -> WalkState {
    (
        if st.3 > 0 {
            st.0.push((st.1, st.2, st.3, st.4))
        } else {
            st.0
        },
        at,
        at,
        0,
        Seq::empty(),
    )
}

/// The blocks of a final walk state: the finished ones and the current one if it holds time.
pub open spec fn final_blocks(st: WalkState) -> Seq<BlockSpec> {
    close_idle(st, 0).0
}

/// The span `[at, at + seg)` cut into slices: each slice is the rest of the span or the
/// rest of the current block, whichever is shorter; its whole seconds go to what the
/// registers resolve to at its start (time that resolves to nothing is passed over), and
/// a block that reaches its length is finished. A slice shorter than a second ends the span.
pub open spec fn slices(st: WalkState, r: FocusRegisters, at: int, seg: int, block_len: int, store_titles: bool) -> WalkState
    decreases seg,
{
    if seg <= 0 {
        st
    } else {
        let remaining = block_len * NANOS_PER_SECOND - st.3 * NANOS_PER_SECOND;
        let take = if seg < remaining { seg } else { remaining };
        let take_s = take / (NANOS_PER_SECOND as int);
        if take_s <= 0 || take <= 0 {
            st
        } else {
            match key_spec(r, r.attribution_at(at), store_titles) {
                Some(k) => {
                    let st1 = (st.0, st.1, at + take, st.3 + take_s, bucket_add(st.4, k, take_s));
                    let st2 = if st1.3 >= block_len { close_current(st1) } else { st1 };
                    slices(st2, r, at + take, seg - take, block_len, store_titles)
                },
                None => {
                    let st2 = if st.3 >= block_len { close_current(st) } else { st };
                    slices(st2, r, at, seg - take, block_len, store_titles)
                },
            }
        }
    }
}

/// The block walk over the first `n` events of a stream, and the registers it leaves.
pub open spec fn block_walk_spec(
    events: Seq<EventForBlocks>,
    idx: Seq<usize>,
    cutoff: int,
    block_len: int,
    store_titles: bool,
    clamped: bool,
    now: i128,
    n: int,
) -> (WalkState, FocusRegisters)
    decreases n,
{
    if n <= 0 {
        let t = events[idx[0] as int].ts as int;
        ((Seq::empty(), t, t, 0, Seq::empty()), empty_registers())
    } else {
        let prev = block_walk_spec(events, idx, cutoff, block_len, store_titles, clamped, now, n - 1);
        let e = events[idx[n - 1] as int];
        let nt = next_ts_spec(events, idx, n - 1, now) as int;
        if nt <= e.ts {
            prev
        } else {
            let r = block_registers(prev.1, e);
            let st = slices(prev.0, r, e.ts as int, span_of(nt - e.ts, cutoff, clamped), block_len, store_titles);
            if nt - e.ts > cutoff {
                (close_idle(st, nt), empty_registers())
            } else {
                (st, r)
            }
        }
    }
}

/// Whether an entry is among the reported items.
pub open spec fn reported(top: Seq<TopItem>, e: (EntryKey, int)) -> bool {
    exists|i: int| 0 <= i < top.len() && item_entry(#[trigger] top[i]) == e
}

/// Every entry of the bucket is reported, or the list is full and the entry has no more
/// seconds than the last item reported.
pub open spec fn top_of(top: Seq<TopItem>, bucket: Seq<(EntryKey, int)>) -> bool {
    forall|j: int| 0 <= j < bucket.len() ==> reported(top, #[trigger] bucket[j]) || (top.len() == TOP_ITEMS_MAX && bucket[j].1 <= top[TOP_ITEMS_MAX - 1].seconds)
}

/// A block summary reports a block of the walk: its times and total, and as top items
/// (at most `TOP_ITEMS_MAX`) entries of its bucket.
pub open spec fn summarizes(b: BlockSummary, s: BlockSpec) -> bool {
    &&& b.start == s.0
    &&& b.end == s.1
    &&& b.total_seconds == s.2
    &&& b.top_items@.len() == if s.3.len() < TOP_ITEMS_MAX { s.3.len() } else { TOP_ITEMS_MAX as nat }
    &&& forall|i: int| 0 <= i < b.top_items@.len() ==> s.3.contains(item_entry(#[trigger] b.top_items@[i]))
    &&& top_of(b.top_items@, s.3)
    &&& (s.3.len() <= TOP_ITEMS_MAX ==> sum_seconds(b.top_items@) == b.total_seconds)
    &&& distinct_keys(b.top_items@)
}

/// The executable walk state stands for `st`.
pub open spec fn walk_matches(
    blocks: Seq<BlockSummary>,
    bucket: Bucket,
    start: i128,
    end: i128,
    active: i64,
    st: WalkState,
) -> bool {
    &&& blocks.len() == st.0.len()
    &&& forall|k: int| 0 <= k < blocks.len() ==> summarizes(#[trigger] blocks[k], st.0[k])
    &&& start == st.1
    &&& end == st.2
    &&& active == st.3
    &&& bucket.entries() == st.4
}

/// The block walk over one stream: the time credited by the focus walk is cut into
/// blocks of `block_len_seconds` seconds of attributed time; an idle break closes the
/// current block.
#[verifier::rlimit(50)]
pub fn block_walk(
    events: &[EventForBlocks],
    idx: &[usize],
    cutoff: i128,
    block_len_seconds: i64,
    store_titles: bool,
    clamped: bool,
    now: i128,
) -> (r: Vec<BlockSummary>)
    requires
        stream_ok(events@, idx@, now),
        idx@.len() > 0,
        10 * NANOS_PER_SECOND <= cutoff <= 10_000_000_000_000_000_000_000_000_000,
        60 <= block_len_seconds,
    ensures
        forall|k: int| 0 <= k < r@.len() ==> fresh_block(#[trigger] r@[k], block_len_seconds as int),
        blocks_ordered(r@),
        forall|k: int| 0 <= k < r@.len() ==> instant_in_range((#[trigger] r@[k]).start) && instant_in_range(r@[k].end),
        ({
            let fb = final_blocks(block_walk_spec(events@, idx@, cutoff as int, block_len_seconds as int, store_titles, clamped, now, idx@.len() as int).0);
            &&& r@.len() == fb.len()
            &&& forall|k: int| 0 <= k < r@.len() ==> summarizes(#[trigger] r@[k], fb[k])
        }),
{
    let block_len_ns: i128 = block_len_seconds as i128 * NANOS_PER_SECOND;
    let mut blocks: Vec<BlockSummary> = Vec::new();
    let mut current_start: i128 = events[idx[0]].ts;
    let mut current_end: i128 = current_start;
    let mut active: i64 = 0;
    let mut bucket = Bucket::new();
    let mut regs = FocusRegisters::empty();
    let mut i: usize = 0;
    while i < idx.len()
        invariant
            stream_ok(events@, idx@, now),
            10 * NANOS_PER_SECOND <= cutoff <= 10_000_000_000_000_000_000_000_000_000,
            60 <= block_len_seconds,
            block_len_ns == block_len_seconds * NANOS_PER_SECOND,
            i <= idx@.len(),
            bucket.wf(),
            bucket.titles_ok(),
            bucket.total() == active,
            0 <= active < block_len_seconds,
            current_start <= current_end,
            current_end - current_start >= active * NANOS_PER_SECOND,
            instant_in_range(current_start),
            instant_in_range(current_end),
            i < idx@.len() ==> current_end <= events@[idx@[i as int] as int].ts,
            forall|k: int| 0 <= k < blocks@.len() ==> fresh_block(#[trigger] blocks@[k], block_len_seconds as int),
            blocks_ordered(blocks@),
            forall|k: int| 0 <= k < blocks@.len() ==> (#[trigger] blocks@[k]).end <= current_start,
            forall|k: int| 0 <= k < blocks@.len() ==> instant_in_range((#[trigger] blocks@[k]).start) && instant_in_range(blocks@[k].end),
            regs.domain_ts matches Some(t) ==> instant_in_range(t),
            walk_matches(blocks@, bucket, current_start, current_end, active, block_walk_spec(events@, idx@, cutoff as int, block_len_seconds as int, store_titles, clamped, now, i as int).0),
            regs == block_walk_spec(events@, idx@, cutoff as int, block_len_seconds as int, store_titles, clamped, now, i as int).1,
        decreases idx@.len() - i,
    {
        let ghost prev = block_walk_spec(events@, idx@, cutoff as int, block_len_seconds as int, store_titles, clamped, now, i as int);
        let cur = &events[idx[i]];
        let nt = next_instant(events, idx, i, now);
        proof {
            if i + 1 < idx@.len() {
                assert(idx@[i as int] < idx@[i + 1]);
            }
        }
        if nt <= cur.ts {
            i = i + 1;
            continue;
        }
        update_registers(&mut regs, cur);
        let raw_gap = nt - cur.ts;
        let mut seg = span_gap(raw_gap, cutoff, clamped);
        let mut seg_start: i128 = cur.ts;
        let ghost target = slices(prev.0, regs, cur.ts as int, seg as int, block_len_seconds as int, store_titles);
        let ghost mut st = prev.0;
        while seg > 0
            invariant
                walk_matches(blocks@, bucket, current_start, current_end, active, st),
                slices(st, regs, seg_start as int, seg as int, block_len_seconds as int, store_titles) == target,
                10 * NANOS_PER_SECOND <= cutoff <= 10_000_000_000_000_000_000_000_000_000,
                60 <= block_len_seconds,
                block_len_ns == block_len_seconds * NANOS_PER_SECOND,
                bucket.wf(),
                bucket.titles_ok(),
                bucket.total() == active,
                0 <= active < block_len_seconds,
                current_start <= current_end,
                current_end - current_start >= active * NANOS_PER_SECOND,
                instant_in_range(current_start),
                instant_in_range(nt),
                instant_in_range(cur.ts),
                cur.ts <= seg_start,
                seg >= 0,
                seg_start + seg <= nt,
                current_end <= seg_start,
                forall|k: int| 0 <= k < blocks@.len() ==> fresh_block(#[trigger] blocks@[k], block_len_seconds as int),
                blocks_ordered(blocks@),
                forall|k: int| 0 <= k < blocks@.len() ==> (#[trigger] blocks@[k]).end <= current_start,
                forall|k: int| 0 <= k < blocks@.len() ==> instant_in_range((#[trigger] blocks@[k]).start) && instant_in_range(blocks@[k].end),
                regs.domain_ts matches Some(t) ==> instant_in_range(t),
            ensures
                st == target,
            decreases seg,
        {
            let ghost st0 = st;
            let ghost ss0 = seg_start as int;
            let ghost seg0 = seg as int;
            let a = regs.attribution(seg_start);
            let remaining: i128 = block_len_ns - active as i128 * NANOS_PER_SECOND;
            let take: i128 = if seg < remaining { seg } else { remaining };
            let take_s: i64 = (take / NANOS_PER_SECOND) as i64;
            if take_s > 0 {
                match key_for(&regs, a, store_titles) {
                    Some(key) => {
                        let ghost kv = key_view(key);
                        bucket.add(key, take_s);
                        active = active + take_s;
                        seg_start = seg_start + take;
                        current_end = seg_start;
                        proof {
                            st = (st.0, st.1, seg_start as int, st.3 + take_s, bucket_add(st.4, kv, take_s as int));
                        }
                    },
                    None => {},
                }
            } else {
                break;
            }
            seg = seg - take;
            if active >= block_len_seconds {
                let ghost before = blocks@;
                close_block(&mut blocks, current_start, current_end, &bucket, active, block_len_seconds);
                proof {
                    st = close_current(st);
                    assert forall|k: int| 0 <= k < blocks@.len() implies summarizes(#[trigger] blocks@[k], st.0[k]) by {
                        if k < before.len() {
                            assert(blocks@[k] == before[k]);
                        }
                    }
                }
                current_start = current_end;
                bucket = Bucket::new();
                active = 0;
            }
            proof {
                assert(slices(st0, regs, ss0, seg0, block_len_seconds as int, store_titles) == slices(st, regs, seg_start as int, seg as int, block_len_seconds as int, store_titles));
            }
        }
        let ghost st_after = st;
        if raw_gap > cutoff {
            let ghost before = blocks@;
            if active > 0 {
                close_block(&mut blocks, current_start, current_end, &bucket, active, block_len_seconds);
                proof {
                    assert forall|k: int| 0 <= k < blocks@.len() implies summarizes(#[trigger] blocks@[k], close_idle(st_after, nt as int).0[k]) by {
                        if k < before.len() {
                            assert(blocks@[k] == before[k]);
                        }
                    }
                }
            }
            current_start = nt;
            current_end = nt;
            bucket = Bucket::new();
            active = 0;
            regs = FocusRegisters::empty();
        }
        i = i + 1;
    }
    let ghost last = block_walk_spec(events@, idx@, cutoff as int, block_len_seconds as int, store_titles, clamped, now, idx@.len() as int).0;
    let ghost before = blocks@;
    if active > 0 {
        close_block(&mut blocks, current_start, current_end, &bucket, active, block_len_seconds);
        proof {
            assert forall|k: int| 0 <= k < blocks@.len() implies summarizes(#[trigger] blocks@[k], final_blocks(last)[k]) by {
                if k < before.len() {
                    assert(blocks@[k] == before[k]);
                }
            }
        }
    }
    blocks
}

/// The background-audio figures of a block: at most `TOP_ITEMS_MAX` items, largest first,
/// and a total that they make up.
pub open spec fn background_ok(b: BlockSummary) -> bool {
    &&& sorted_desc(b.background_top_items@)
    &&& all_positive(b.background_top_items@)
    &&& b.background_top_items@.len() <= TOP_ITEMS_MAX
    &&& (b.background_seconds matches Some(x) ==> x * NANOS_PER_SECOND <= b.end - b.start)
    &&& match b.background_seconds {
        None => b.background_top_items@.len() == 0,
        Some(x) => x > 0 && sum_seconds(b.background_top_items@) <= x && (
        b.background_top_items@.len() < TOP_ITEMS_MAX ==> sum_seconds(b.background_top_items@)
            == x),
    }
}

/// Everything but the background figures is the same.
pub open spec fn same_focus(a: BlockSummary, b: BlockSummary) -> bool {
    &&& a.id == b.id
    &&& a.start_ts == b.start_ts
    &&& a.end_ts == b.end_ts
    &&& a.start == b.start
    &&& a.end == b.end
    &&& a.total_seconds == b.total_seconds
    &&& a.top_items == b.top_items
    &&& a.review == b.review
}

fn max_i128(a: i128, b: i128) -> (r: i128)
    ensures
        r == if a >= b { a } else { b },
{
    if a >= b {
        a
    } else {
        b
    }
}

fn min_i128(a: i128, b: i128) -> (r: i128)
    ensures
        r == if a <= b { a } else { b },
{
    if a <= b {
        a
    } else {
        b
    }
}

/// Whole seconds of `[seg_start, seg_end)` that fall inside `[start, end)`.
pub open spec fn overlap_seconds(seg_start: int, seg_end: int, start: int, end: int) -> int {
    let os = if seg_start >= start { seg_start } else { start };
    let oe = if seg_end <= end { seg_end } else { end };
    if oe > os {
        (oe - os) / (NANOS_PER_SECOND as int)
    } else {
        0
    }
}

/// The bucket key of a background-audio event: the app of an audio heartbeat, otherwise
/// the domain with its kept title.
pub open spec fn background_key(e: EventForBlocks, store_titles: bool) -> EntryKey {
    (
        if e.kind() == EventKind::AppAudio { EntityKind::App } else { EntityKind::Domain },
        e.entity@,
        if e.kind() == EventKind::TabActive {
            domain_title_spec(e.entity@, opt_view(e.title), store_titles)
        } else {
            None
        },
    )
}

/// The background audio of the block `[start, end)` over the first `n` audio events: the
/// bucket entries and their total. Each event but a stop marker credits the whole seconds
/// of its attributed span that fall inside the block.
pub open spec fn background_walk(
    events: Seq<EventForBlocks>,
    idx: Seq<usize>,
    start: int,
    end: int,
    cutoff: int,
    store_titles: bool,
    now: i128,
    n: int,
) -> (Seq<(EntryKey, int)>, int)
    decreases n,
{
    if n <= 0 {
        (Seq::empty(), 0)
    } else {
        let acc = background_walk(events, idx, start, end, cutoff, store_titles, now, n - 1);
        let e = events[idx[n - 1] as int];
        let nt = next_ts_spec(events, idx, n - 1, now) as int;
        if nt <= e.ts || e.kind() == EventKind::TabAudioStop || e.kind() == EventKind::AppAudioStop {
            acc
        } else {
            let sec = overlap_seconds(e.ts as int, e.ts + span_of(nt - e.ts, cutoff, true), start, end);
            if sec > 0 {
                (bucket_add(acc.0, background_key(e, store_titles), sec), acc.1 + sec)
            } else {
                acc
            }
        }
    }
}

/// Background audio that overlaps the block `[start, end)`: each audible tab and audio
/// heartbeat credits the whole seconds of its segment that fall inside the block.
#[verifier::rlimit(40)]
fn background_bucket(
    events: &[EventForBlocks],
    idx: &[usize],
    start: i128,
    end: i128,
    cutoff: i128,
    store_titles: bool,
    now: i128,
) -> (r: (Bucket, i64))
    requires
        stream_ok(events@, idx@, now),
        instant_in_range(start),
        instant_in_range(end),
        start <= end,
        10 * NANOS_PER_SECOND <= cutoff <= 120 * NANOS_PER_SECOND,
    ensures
        r.0.wf(),
        r.0.titles_ok(),
        r.0.total() == r.1,
        r.1 >= 0,
        r.1 * NANOS_PER_SECOND <= end - start,
        (r.0.entries(), r.1 as int) == background_walk(events@, idx@, start as int, end as int, cutoff as int, store_titles, now, idx@.len() as int),
{
    let mut bucket = Bucket::new();
    let mut total: i64 = 0;
    let mut frontier: i128 = start;
    let mut i: usize = 0;
    while i < idx.len()
        invariant
            stream_ok(events@, idx@, now),
            instant_in_range(start),
            instant_in_range(end),
            start <= end,
            10 * NANOS_PER_SECOND <= cutoff <= 120 * NANOS_PER_SECOND,
            i <= idx@.len(),
            bucket.wf(),
            bucket.titles_ok(),
            bucket.total() == total,
            start <= frontier,
            instant_in_range(frontier),
            0 <= total,
            total * NANOS_PER_SECOND <= (if frontier <= end { frontier } else { end }) - start,
            i < idx@.len() ==> frontier <= start || frontier <= events@[idx@[i as int] as int].ts,
            (bucket.entries(), total as int) == background_walk(events@, idx@, start as int, end as int, cutoff as int, store_titles, now, i as int),
        decreases idx@.len() - i,
    {
        let cur = &events[idx[i]];
        let nt = next_instant(events, idx, i, now);
        proof {
            if i + 1 < idx@.len() {
                assert(idx@[i as int] < idx@[i + 1]);
            }
        }
        let kind = event_kind(cur.event.as_str());
        if nt <= cur.ts {
            i = i + 1;
            continue;
        }
        let ek = match kind {
            EventKind::AppAudio => EntityKind::App,
            EventKind::TabAudioStop | EventKind::AppAudioStop => {
                i = i + 1;
                continue;
            },
            _ => EntityKind::Domain,
        };
        let seg = span_gap(nt - cur.ts, cutoff, true);
        let seg_start = cur.ts;
        let seg_end = seg_start + seg;
        let os = max_i128(seg_start, start);
        let oe = min_i128(seg_end, end);
        if oe > os {
            let sec: i64 = ((oe - os) / NANOS_PER_SECOND) as i64;
            if sec > 0 {
                let title = match kind {
                    EventKind::TabActive => match &cur.title {
                        Some(t) => normalized_title_for_domain(cur.entity.as_str(), Some(t.as_str()), store_titles),
                        None => normalized_title_for_domain(cur.entity.as_str(), None, store_titles),
                    },
                    _ => None,
                };
                let key = BucketKey { kind: ek, entity: cur.entity.clone(), title };
                assert(key_view(key) == background_key(*cur, store_titles));
                bucket.add(key, sec);
                total = total + sec;
            }
        }
        frontier = max_i128(frontier, seg_end);
        i = i + 1;
    }
    (bucket, total)
}

/// The background figures of a block report a background walk: none when it credits no
/// time, else its total and, as items, the top entries of its bucket.
pub open spec fn background_of(b: BlockSummary, bg: (Seq<(EntryKey, int)>, int)) -> bool {
    match b.background_seconds {
        None => bg.1 == 0,
        Some(x) => x == bg.1 && top_of(b.background_top_items@, bg.0) && forall|i: int|
            0 <= i < b.background_top_items@.len() ==> bg.0.contains(item_entry(#[trigger] b.background_top_items@[i])),
    }
}

/// Attaches to every block the background audio that overlaps it.
pub fn attach_background_audio(
    blocks: Vec<BlockSummary>,
    events: &[EventForBlocks],
    audio_idx: &[usize],
    store_titles: bool,
    cutoff: i128,
    now: i128,
) -> (r: Vec<BlockSummary>)
    requires
        stream_ok(events@, audio_idx@, now),
        10 * NANOS_PER_SECOND <= cutoff <= 120 * NANOS_PER_SECOND,
        forall|k: int| 0 <= k < blocks@.len() ==> instant_in_range((#[trigger] blocks@[k]).start) && instant_in_range(blocks@[k].end) && blocks@[k].start <= blocks@[k].end,
        forall|k: int| 0 <= k < blocks@.len() ==> (#[trigger] blocks@[k]).background_top_items@.len() == 0 && blocks@[k].background_seconds is None,
    ensures
        r@.len() == blocks@.len(),
        forall|k: int| 0 <= k < r@.len() ==> same_focus(#[trigger] r@[k], blocks@[k]),
        forall|k: int| 0 <= k < r@.len() ==> background_ok(#[trigger] r@[k]),
        forall|k: int| 0 <= k < r@.len() ==> background_of(#[trigger] r@[k], background_walk(events@, audio_idx@, blocks@[k].start as int, blocks@[k].end as int, cutoff as int, store_titles, now, audio_idx@.len() as int)),
{
    let ghost orig = blocks@;
    let mut blocks = blocks;
    let mut out: Vec<BlockSummary> = Vec::new();
    while blocks.len() > 0
        invariant
            stream_ok(events@, audio_idx@, now),
            10 * NANOS_PER_SECOND <= cutoff <= 120 * NANOS_PER_SECOND,
            out@.len() + blocks@.len() == orig.len(),
            forall|k: int| 0 <= k < blocks@.len() ==> blocks@[k] == orig[out@.len() + k],
            forall|k: int| 0 <= k < out@.len() ==> same_focus(#[trigger] out@[k], orig[k]),
            forall|k: int| 0 <= k < out@.len() ==> background_ok(#[trigger] out@[k]),
            forall|k: int| 0 <= k < out@.len() ==> background_of(#[trigger] out@[k], background_walk(events@, audio_idx@, orig[k].start as int, orig[k].end as int, cutoff as int, store_titles, now, audio_idx@.len() as int)),
            forall|k: int| 0 <= k < orig.len() ==> instant_in_range((#[trigger] orig[k]).start) && instant_in_range(orig[k].end) && orig[k].start <= orig[k].end,
            forall|k: int| 0 <= k < orig.len() ==> (#[trigger] orig[k]).background_top_items@.len() == 0 && orig[k].background_seconds is None,
        decreases blocks@.len(),
    {
        let ghost before = blocks@;
        let mut b = blocks.remove(0);
        assert(b == orig[out@.len() as int]);
        assert forall|k: int| 0 <= k < blocks@.len() implies blocks@[k] == orig[out@.len() + 1 + k] by {
            assert(blocks@[k] == before[k + 1]);
        }
        let (bucket, total) = background_bucket(events, audio_idx, b.start, b.end, cutoff, store_titles, now);
        if total > 0 {
            let items = bucket.items();
            let ghost all = items@;
            let top = top_of_bucket(items);
            proof {
                assert forall|i: int| 0 <= i < top@.len() implies bucket.entries().contains(item_entry(#[trigger] top@[i])) by {
                    assert(among(top@[i], all));
                    let j = choose|j: int| 0 <= j < all.len() && all[j] == top@[i];
                    assert(item_entry(all[j]) == bucket.entries()[j]);
                }
                assert forall|j: int| 0 <= j < bucket.entries().len() implies reported(top@, #[trigger] bucket.entries()[j]) || (top@.len() == TOP_ITEMS_MAX && bucket.entries()[j].1 <= top@[TOP_ITEMS_MAX - 1].seconds) by {
                    assert(item_entry(all[j]) == bucket.entries()[j]);
                    if among(all[j], top@) {
                        let i = choose|i: int| 0 <= i < top@.len() && top@[i] == all[j];
                        assert(item_entry(top@[i]) == bucket.entries()[j]);
                    }
                }
            }
            b.background_seconds = Some(total);
            b.background_top_items = top;
        }
        let ghost prev = out@;
        out.push(b);
        assert forall|k: int| 0 <= k < out@.len() implies same_focus(#[trigger] out@[k], orig[k]) && background_ok(out@[k]) && background_of(out@[k], background_walk(events@, audio_idx@, orig[k].start as int, orig[k].end as int, cutoff as int, store_titles, now, audio_idx@.len() as int)) by {
            if k < prev.len() {
                assert(out@[k] == prev[k]);
            }
        }
    }
    out
}

/// The day's blocks: the focus stream cut into blocks of attributed time, with the
/// background audio that overlaps each; where there is no focus event at all, the audio
/// stream alone is cut into blocks, under the audio cutoff.
pub fn build_blocks(events: &[EventForBlocks], settings: Settings, now: i128) -> (r: Vec<BlockSummary>)
    requires
        sorted_by_ts(events@),
        forall|k: int| 0 <= k < events@.len() ==> instant_in_range(#[trigger] events@[k].ts),
        instant_in_range(now),
    ensures
        forall|k: int| 0 <= k < r@.len() ==> block_ok(#[trigger] r@[k], block_len_spec(settings.block_seconds)),
        forall|k: int| 0 <= k < r@.len() ==> background_ok(#[trigger] r@[k]),
        blocks_ordered(r@),
        events@.len() == 0 ==> r@.len() == 0,
        events@.len() > 0 ==> ({
            let fi = stream_of(events@, false, events@.len() as int);
            let ai = stream_of(events@, true, events@.len() as int);
            let len = block_len_spec(settings.block_seconds);
            let fb = if fi.len() > 0 {
                final_blocks(block_walk_spec(events@, fi, focus_cutoff_ns(settings.idle_cutoff_seconds), len, settings.store_titles, false, now, fi.len() as int).0)
            } else if ai.len() > 0 {
                final_blocks(block_walk_spec(events@, ai, audio_cutoff_ns(settings.idle_cutoff_seconds), len, settings.store_titles, true, now, ai.len() as int).0)
            } else {
                Seq::empty()
            };
            &&& r@.len() == fb.len()
            &&& forall|k: int| 0 <= k < r@.len() ==> summarizes(#[trigger] r@[k], fb[k])
            &&& fi.len() == 0 ==> forall|k: int| 0 <= k < r@.len() ==> (#[trigger] r@[k]).background_seconds is None && r@[k].background_top_items@.len() == 0
            &&& fi.len() > 0 ==> forall|k: int| 0 <= k < r@.len() ==> background_of(#[trigger] r@[k], background_walk(events@, ai, r@[k].start as int, r@[k].end as int, audio_cutoff_ns(settings.idle_cutoff_seconds), settings.store_titles, now, ai.len() as int))
        }),
{
    if events.len() == 0 {
        return Vec::new();
    }
    let (focus_idx, audio_idx) = split_streams(events);
    let block_len_seconds: i64 = if settings.block_seconds < 60 { 60 } else { settings.block_seconds };
    let fc = focus_cutoff(settings.idle_cutoff_seconds);
    let ac = audio_cutoff(settings.idle_cutoff_seconds);
    if focus_idx.len() == 0 {
        if audio_idx.len() == 0 {
            return Vec::new();
        }
        let bl = block_walk(events, audio_idx.as_slice(), ac, block_len_seconds, settings.store_titles, true, now);
        return bl;
    }
    let bl = block_walk(events, focus_idx.as_slice(), fc, block_len_seconds, settings.store_titles, false, now);
    if audio_idx.len() > 0 && bl.len() > 0 {
        let ghost focus_blocks = bl@;
        let r = attach_background_audio(bl, events, audio_idx.as_slice(), settings.store_titles, ac, now);
        assert forall|k: int| 0 <= k < r@.len() implies block_ok(#[trigger] r@[k], block_len_spec(settings.block_seconds)) by {
            assert(same_focus(r@[k], focus_blocks[k]));
            assert(fresh_block(focus_blocks[k], block_len_seconds as int));
        }
        assert forall|k: int, l: int| 0 <= k < l < r@.len() implies r@[k].end <= r@[l].start by {
            assert(same_focus(r@[k], focus_blocks[k]));
            assert(same_focus(r@[l], focus_blocks[l]));
        }
        assert forall|k: int| 0 <= k < r@.len() implies summarizes(#[trigger] r@[k], final_blocks(block_walk_spec(events@, focus_idx@, fc as int, block_len_seconds as int, settings.store_titles, false, now, focus_idx@.len() as int).0)[k]) by {
            assert(same_focus(r@[k], focus_blocks[k]));
        }
        assert forall|k: int| 0 <= k < r@.len() implies background_of(#[trigger] r@[k], background_walk(events@, audio_idx@, r@[k].start as int, r@[k].end as int, ac as int, settings.store_titles, now, audio_idx@.len() as int)) by {
            assert(same_focus(r@[k], focus_blocks[k]));
        }
        r
    } else {
        bl
    }
}

/// Two walk states with the same blocks in time: the same block boundaries and totals,
/// the same current block and the same attributed seconds in it.
pub open spec fn same_timing(a: WalkState, b: WalkState) -> bool {
    &&& a.0.len() == b.0.len()
    &&& forall|k: int| 0 <= k < a.0.len() ==> (#[trigger] a.0[k]).0 == b.0[k].0 && a.0[k].1 == b.0[k].1 && a.0[k].2 == b.0[k].2
    &&& a.1 == b.1
    &&& a.2 == b.2
    &&& a.3 == b.3
}

/// Two register sets that hold an app, a domain and a domain instant in the same places.
pub open spec fn same_presence(a: FocusRegisters, b: FocusRegisters) -> bool {
    &&& (a.app is Some) == (b.app is Some)
    &&& (a.domain is Some) == (b.domain is Some)
    &&& a.domain_ts == b.domain_ts
}

/// Two event sequences that differ at most in entities and titles (what masking changes).
pub open spec fn same_but_entities(a: Seq<EventForBlocks>, b: Seq<EventForBlocks>) -> bool {
    &&& a.len() == b.len()
    &&& forall|i: int| 0 <= i < a.len() ==> (#[trigger] a[i]).ts == b[i].ts && a[i].event == b[i].event && a[i].activity == b[i].activity
}

proof fn lemma_key_presence(r: FocusRegisters, at: int, store_titles: bool)
    ensures
        key_spec(r, r.attribution_at(at), store_titles) is Some <==> (r.app is Some || r.domain is Some),
{
}

proof fn lemma_slices_timing(
    a: WalkState,
    b: WalkState,
    ra: FocusRegisters,
    rb: FocusRegisters,
    at: int,
    seg: int,
    block_len: int,
    store_titles: bool,
)
    requires
        same_timing(a, b),
        same_presence(ra, rb),
    ensures
        same_timing(slices(a, ra, at, seg, block_len, store_titles), slices(b, rb, at, seg, block_len, store_titles)),
    decreases seg,
{
    if seg > 0 {
        let remaining = block_len * NANOS_PER_SECOND - a.3 * NANOS_PER_SECOND;
        let take = if seg < remaining { seg } else { remaining };
        let take_s = take / (NANOS_PER_SECOND as int);
        if !(take_s <= 0 || take <= 0) {
            lemma_key_presence(ra, at, store_titles);
            lemma_key_presence(rb, at, store_titles);
            let ka = key_spec(ra, ra.attribution_at(at), store_titles);
            let kb = key_spec(rb, rb.attribution_at(at), store_titles);
            if ka is Some {
                let a1 = (a.0, a.1, at + take, a.3 + take_s, bucket_add(a.4, ka->0, take_s));
                let b1 = (b.0, b.1, at + take, b.3 + take_s, bucket_add(b.4, kb->0, take_s));
                let a2 = if a1.3 >= block_len { close_current(a1) } else { a1 };
                let b2 = if b1.3 >= block_len { close_current(b1) } else { b1 };
                assert(same_timing(a2, b2)) by {
                    if a1.3 >= block_len {
                        assert forall|k: int| 0 <= k < a2.0.len() implies (#[trigger] a2.0[k]).0 == b2.0[k].0 && a2.0[k].1 == b2.0[k].1 && a2.0[k].2 == b2.0[k].2 by {
                            if k < a.0.len() {
                                assert(a2.0[k] == a.0[k] && b2.0[k] == b.0[k]);
                            }
                        }
                    }
                }
                lemma_slices_timing(a2, b2, ra, rb, at + take, seg - take, block_len, store_titles);
            } else {
                lemma_slices_timing(a, b, ra, rb, at, seg - take, block_len, store_titles);
            }
        }
    }
}

proof fn lemma_walk_timing(
    ea: Seq<EventForBlocks>,
    eb: Seq<EventForBlocks>,
    idx: Seq<usize>,
    cutoff: int,
    block_len: int,
    store_titles: bool,
    clamped: bool,
    now: i128,
    n: int,
)
    requires
        same_but_entities(ea, eb),
        idx.len() > 0,
        forall|k: int| 0 <= k < idx.len() ==> idx[k] < ea.len(),
        n <= idx.len(),
    ensures
        same_timing(
            block_walk_spec(ea, idx, cutoff, block_len, store_titles, clamped, now, n).0,
            block_walk_spec(eb, idx, cutoff, block_len, store_titles, clamped, now, n).0,
        ),
        same_presence(
            block_walk_spec(ea, idx, cutoff, block_len, store_titles, clamped, now, n).1,
            block_walk_spec(eb, idx, cutoff, block_len, store_titles, clamped, now, n).1,
        ),
    decreases n,
{
    assert(ea[idx[0] as int].ts == eb[idx[0] as int].ts);
    if n > 0 {
        lemma_walk_timing(ea, eb, idx, cutoff, block_len, store_titles, clamped, now, n - 1);
        let pa = block_walk_spec(ea, idx, cutoff, block_len, store_titles, clamped, now, n - 1);
        let pb = block_walk_spec(eb, idx, cutoff, block_len, store_titles, clamped, now, n - 1);
        let xa = ea[idx[n - 1] as int];
        let xb = eb[idx[n - 1] as int];
        assert(xa.ts == xb.ts && xa.event == xb.event);
        if n < idx.len() {
            assert(ea[idx[n] as int].ts == eb[idx[n] as int].ts);
        }
        let ra = block_registers(pa.1, xa);
        let rb = block_registers(pb.1, xb);
        assert(same_presence(ra, rb));
        let nt = next_ts_spec(ea, idx, n - 1, now) as int;
        assert(nt == next_ts_spec(eb, idx, n - 1, now) as int);
        lemma_slices_timing(pa.0, pb.0, ra, rb, xa.ts as int, span_of(nt - xa.ts, cutoff, clamped), block_len, store_titles);
        let sa = slices(pa.0, ra, xa.ts as int, span_of(nt - xa.ts, cutoff, clamped), block_len, store_titles);
        let sb = slices(pb.0, rb, xa.ts as int, span_of(nt - xa.ts, cutoff, clamped), block_len, store_titles);
        assert(same_timing(close_idle(sa, nt), close_idle(sb, nt))) by {
            let ca = close_idle(sa, nt);
            let cb = close_idle(sb, nt);
            assert forall|k: int| 0 <= k < ca.0.len() implies (#[trigger] ca.0[k]).0 == cb.0[k].0 && ca.0[k].1 == cb.0[k].1 && ca.0[k].2 == cb.0[k].2 by {
                if k < sa.0.len() {
                    assert(ca.0[k] == sa.0[k] && cb.0[k] == sb.0[k]);
                }
            }
        }
    }
}

/// Masking keeps timing in blocks: two event sequences that differ only in entities and
/// titles (as masking makes them) give blocks with the same boundaries and totals.
pub proof fn lemma_masking_keeps_block_timing(
    ea: Seq<EventForBlocks>,
    eb: Seq<EventForBlocks>,
    idx: Seq<usize>,
    cutoff: int,
    block_len: int,
    store_titles: bool,
    clamped: bool,
    now: i128,
)
    requires
        same_but_entities(ea, eb),
        idx.len() > 0,
        forall|k: int| 0 <= k < idx.len() ==> idx[k] < ea.len(),
    ensures
        ({
            let fa = final_blocks(block_walk_spec(ea, idx, cutoff, block_len, store_titles, clamped, now, idx.len() as int).0);
            let fb = final_blocks(block_walk_spec(eb, idx, cutoff, block_len, store_titles, clamped, now, idx.len() as int).0);
            &&& fa.len() == fb.len()
            &&& forall|k: int| 0 <= k < fa.len() ==> (#[trigger] fa[k]).0 == fb[k].0 && fa[k].1 == fb[k].1 && fa[k].2 == fb[k].2
        }),
{
    lemma_walk_timing(ea, eb, idx, cutoff, block_len, store_titles, clamped, now, idx.len() as int);
    let sa = block_walk_spec(ea, idx, cutoff, block_len, store_titles, clamped, now, idx.len() as int).0;
    let sb = block_walk_spec(eb, idx, cutoff, block_len, store_titles, clamped, now, idx.len() as int).0;
    let fa = final_blocks(sa);
    let fb = final_blocks(sb);
    assert forall|k: int| 0 <= k < fa.len() implies (#[trigger] fa[k]).0 == fb[k].0 && fa[k].1 == fb[k].1 && fa[k].2 == fb[k].2 by {
        if k < sa.0.len() {
            assert(fa[k] == sa.0[k] && fb[k] == sb.0[k]);
        }
    }
}

/// Masking changes neither stream: events that differ only in entities and titles are
/// split into focus and audio alike.
pub proof fn lemma_masking_keeps_streams(ea: Seq<EventForBlocks>, eb: Seq<EventForBlocks>, audio: bool, n: int)
    requires
        same_but_entities(ea, eb),
        n <= ea.len(),
    ensures
        stream_of(ea, audio, n) == stream_of(eb, audio, n),
    decreases n,
{
    if n > 0 {
        lemma_masking_keeps_streams(ea, eb, audio, n - 1);
        assert(ea[n - 1].event == eb[n - 1].event && ea[n - 1].activity == eb[n - 1].activity);
    }
}

} // verus!
