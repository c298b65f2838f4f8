//! Block reviews and the selection of the block that is due for review.
use vstd::prelude::*;
use crate::blocks::{BlockSummary, TopItem};
use crate::clock::{NANOS_PER_SECOND, instant_in_range};
use crate::events::clone_opt;
use crate::settings::{Settings, clamp_i64, clamp, REVIEW_MIN_SECONDS_MIN, REVIEW_MIN_SECONDS_MAX};
use crate::text::{blank, is_blank};

verus! {

/// How long after its end a still-short last block waits before it may become due.
pub const REVIEW_LAST_BLOCK_END_GRACE_SECONDS: i64 = 30;

/// A review of one block, keyed by the block's id.
pub struct BlockReview {
    pub skipped: bool,
    pub skip_reason: Option<String>,
    pub doing: Option<String>,
    pub output: Option<String>,
    pub next: Option<String>,
    pub tags: Vec<String>,
    pub updated_at: String,
}

/// A field that holds something other than white space.
pub open spec fn filled(f: Option<String>) -> bool {
    match f {
        Some(s) => !is_blank(s@),
        None => false,
    }
}

/// A review is done when it is skipped, when one of doing, output and next is filled in,
/// or when it has a tag.
pub open spec fn review_done(r: BlockReview) -> bool {
    ||| r.skipped
    ||| filled(r.doing)
    ||| filled(r.output)
    ||| filled(r.next)
    ||| r.tags@.len() > 0
}

fn is_filled(f: &Option<String>) -> (r: bool)
    ensures
        r == filled(*f),
{
    match f {
        Some(s) => !blank(s.as_str()),
        None => false,
    }
}

/// Whether a review counts as done.
pub fn block_is_reviewed(r: &BlockReview) -> (b: bool)
    ensures
        b == review_done(*r),
{
    if r.skipped {
        return true;
    }
    if is_filled(&r.doing) {
        return true;
    }
    if is_filled(&r.output) {
        return true;
    }
    if is_filled(&r.next) {
        return true;
    }
    r.tags.len() > 0
}

pub open spec fn summary_reviewed(b: BlockSummary) -> bool {
    match b.review {
        Some(r) => review_done(r),
        None => false,
    }
}

/// Whether a block carries a review that is done.
pub fn block_summary_is_reviewed(b: &BlockSummary) -> (r: bool)
    ensures
        r == summary_reviewed(*b),
{
    match &b.review {
        Some(r) => block_is_reviewed(r),
        None => false,
    }
}

/// A block may be surfaced for review when it is long enough and not reviewed, and it is
/// not a last block still growing: a newer block exists, or it is full, or it ended more
/// than the grace period before `now`.
pub open spec fn due_at(blocks: Seq<BlockSummary>, i: int, settings: Settings, now: i128) -> bool {
    let b = blocks[i];
    let min_seconds = clamp_i64(settings.review_min_seconds, REVIEW_MIN_SECONDS_MIN, REVIEW_MIN_SECONDS_MAX);
    let block_seconds = if settings.block_seconds < 60 { 60 } else { settings.block_seconds };
    &&& b.total_seconds >= min_seconds
    &&& !summary_reviewed(b)
    &&& (i < blocks.len() - 1 || b.total_seconds >= block_seconds || now - b.end
        > REVIEW_LAST_BLOCK_END_GRACE_SECONDS * NANOS_PER_SECOND)
}

/// The newest block among the first `n` that is due, if any.
pub open spec fn due_index(blocks: Seq<BlockSummary>, n: int, settings: Settings, now: i128) -> Option<int>
    decreases n,
{
    if n <= 0 {
        None
    } else if due_at(blocks, n - 1, settings, now) {
        Some(n - 1)
    } else {
        due_index(blocks, n - 1, settings, now)
    }
}

pub fn clone_items(items: &Vec<TopItem>) -> (r: Vec<TopItem>)
    ensures
        r@ == items@,
{
    let mut out: Vec<TopItem> = Vec::new();
    let mut i: usize = 0;
    while i < items.len()
        invariant
            i <= items@.len(),
            out@ == items@.subrange(0, i as int),
        decreases items@.len() - i,
    {
        let it = &items[i];
        out.push(TopItem { kind: it.kind, entity: it.entity.clone(), title: clone_opt(&it.title), seconds: it.seconds });
        i = i + 1;
    }
    assert(items@.subrange(0, items@.len() as int) =~= items@);
    out
}

pub fn clone_strings(v: &Vec<String>) -> (r: Vec<String>)
    ensures
        r@ == v@,
{
    let mut out: Vec<String> = Vec::new();
    let mut i: usize = 0;
    while i < v.len()
        invariant
            i <= v@.len(),
            out@ == v@.subrange(0, i as int),
        decreases v@.len() - i,
    {
        out.push(v[i].clone());
        i = i + 1;
    }
    assert(v@.subrange(0, v@.len() as int) =~= v@);
    out
}

/// Two reviews that hold the same values.
pub open spec fn same_review(a: BlockReview, b: BlockReview) -> bool {
    &&& a.skipped == b.skipped
    &&& a.skip_reason == b.skip_reason
    &&& a.doing == b.doing
    &&& a.output == b.output
    &&& a.next == b.next
    &&& a.tags@ == b.tags@
    &&& a.updated_at == b.updated_at
}

/// Two blocks that hold the same values.
pub open spec fn same_block(a: BlockSummary, b: BlockSummary) -> bool {
    &&& a.id == b.id
    &&& a.start_ts == b.start_ts
    &&& a.end_ts == b.end_ts
    &&& a.start == b.start
    &&& a.end == b.end
    &&& a.total_seconds == b.total_seconds
    &&& a.top_items@ == b.top_items@
    &&& a.background_top_items@ == b.background_top_items@
    &&& a.background_seconds == b.background_seconds
    &&& match (a.review, b.review) {
        (Some(x), Some(y)) => same_review(x, y),
        (None, None) => true,
        _ => false,
    }
}

pub fn clone_review(r: &BlockReview) -> (c: BlockReview)
    ensures
        same_review(c, *r),
{
    BlockReview {
        skipped: r.skipped,
        skip_reason: clone_opt(&r.skip_reason),
        doing: clone_opt(&r.doing),
        output: clone_opt(&r.output),
        next: clone_opt(&r.next),
        tags: clone_strings(&r.tags),
        updated_at: r.updated_at.clone(),
    }
}

/// A copy of a block.
pub fn clone_block(b: &BlockSummary) -> (c: BlockSummary)
    ensures
        same_block(c, *b),
{
    BlockSummary {
        id: b.id.clone(),
        start_ts: b.start_ts.clone(),
        end_ts: b.end_ts.clone(),
        start: b.start,
        end: b.end,
        total_seconds: b.total_seconds,
        top_items: clone_items(&b.top_items),
        background_top_items: clone_items(&b.background_top_items),
        background_seconds: b.background_seconds,
        review: match &b.review {
            Some(r) => Some(clone_review(r)),
            None => None,
        },
    }
}

/// The block that is due for review: the newest block that is due, if any.
pub fn find_due_block(blocks: &[BlockSummary], settings: Settings, now: i128) -> (r: Option<BlockSummary>)
    requires
        instant_in_range(now),
        forall|k: int| 0 <= k < blocks@.len() ==> instant_in_range(#[trigger] blocks@[k].end),
    ensures
        match due_index(blocks@, blocks@.len() as int, settings, now) {
            Some(i) => r matches Some(c) && same_block(c, blocks@[i]),
            None => r is None,
        },
{
    let min_seconds = clamp(settings.review_min_seconds, REVIEW_MIN_SECONDS_MIN, REVIEW_MIN_SECONDS_MAX);
    let block_seconds: i64 = if settings.block_seconds < 60 { 60 } else { settings.block_seconds };
    let n = blocks.len();
    let mut i: usize = n;
    while i > 0
        invariant
            i <= n,
            n == blocks@.len(),
            instant_in_range(now),
            forall|k: int| 0 <= k < blocks@.len() ==> instant_in_range(#[trigger] blocks@[k].end),
            min_seconds == clamp_i64(settings.review_min_seconds, REVIEW_MIN_SECONDS_MIN, REVIEW_MIN_SECONDS_MAX),
            block_seconds == if settings.block_seconds < 60 { 60 } else { settings.block_seconds },
            due_index(blocks@, n as int, settings, now) == due_index(blocks@, i as int, settings, now),
        decreases i,
    {
        let k = i - 1;
        let b = &blocks[k];
        let due = b.total_seconds >= min_seconds && !block_summary_is_reviewed(b) && (k < n - 1
            || b.total_seconds >= block_seconds || now - b.end > REVIEW_LAST_BLOCK_END_GRACE_SECONDS as i128
            * NANOS_PER_SECOND);
        assert(due == due_at(blocks@, k as int, settings, now));
        if due {
            return Some(clone_block(b));
        }
        i = k;
    }
    None
}

} // verus!
