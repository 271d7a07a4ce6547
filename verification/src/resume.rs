//! Resume bookkeeping: the byte ranges (segments) a file is fetched in, and the
//! sidecar state that lets an interrupted download pick up where it stopped.
use vstd::prelude::*;

use crate::text::{owned, push_all};

verus! {

/// One byte range `start..=end` of the file, of which `done` bytes are written.
#[derive(Debug, Clone, Copy, PartialEq, Eq)]
pub struct SegmentState {
    pub start: u64,
    /// Inclusive.
    pub end: u64,
    /// Bytes written for this segment.
    pub done: u64,
}

/// What the sidecar file records about a partial download.
#[derive(Debug, Clone)]
pub struct ResumeState {
    pub url: String,
    pub total_size: u64,
    pub etag: Option<String>,
    pub last_modified: Option<String>,
    pub segments: Vec<SegmentState>,
}

pub struct ResumeStateView {
    pub url: Seq<char>,
    pub total_size: u64,
    pub etag: Option<Seq<char>>,
    pub last_modified: Option<Seq<char>>,
    pub segments: Seq<SegmentState>,
}

pub open spec fn opt_str_view(o: Option<String>) -> Option<Seq<char>> {
    match o {
        Some(s) => Some(s@),
        None => None,
    }
}

impl View for ResumeState {
    type V = ResumeStateView;

    open spec fn view(&self) -> ResumeStateView {
        ResumeStateView {
            url: self.url@,
            total_size: self.total_size,
            etag: opt_str_view(self.etag),
            last_modified: opt_str_view(self.last_modified),
            segments: self.segments@,
        }
    }
}

/// The number of bytes in a segment: `end - start + 1`, saturating at the
/// ends of the `u64` range (a segment with `end < start` counts as one byte).
pub open spec fn seg_len(s: SegmentState) -> nat {
    let d: nat = if s.end >= s.start {
        (s.end - s.start) as nat
    } else {
        0
    };
    if d + 1 > u64::MAX {
        u64::MAX as nat
    } else {
        d + 1
    }
}

/// Bytes of a segment that count as written: `done`, capped at the segment length.
pub open spec fn seg_written(s: SegmentState) -> nat {
    if s.done < seg_len(s) {
        s.done as nat
    } else {
        seg_len(s)
    }
}

/// The written bytes of all segments together.
pub open spec fn sum_written(segs: Seq<SegmentState>) -> nat
    decreases segs.len(),
{
    if segs.len() == 0 {
        0
    } else {
        sum_written(segs.drop_last()) + seg_written(segs.last())
    }
}

/// The lengths of all segments together.
pub open spec fn sum_len(segs: Seq<SegmentState>) -> nat
    decreases segs.len(),
{
    if segs.len() == 0 {
        0
    } else {
        sum_len(segs.drop_last()) + seg_len(segs.last())
    }
}

impl SegmentState {
    pub fn len(&self) -> (r: u64)
        ensures
            r == seg_len(*self),
    {
        self.end.saturating_sub(self.start).saturating_add(1)
    }

    /// The first byte of the segment not yet written.
    pub fn remaining_start(&self) -> (r: u64)
        requires
            self.start + self.done <= u64::MAX,
        ensures
            r == self.start + self.done,
    {
        self.start + self.done
    }

    pub fn is_complete(&self) -> (r: bool)
        ensures
            r == (self.done >= seg_len(*self)),
    {
        self.done >= self.len()
    }
}

impl ResumeState {
    /// The bytes already written, over all segments.
    pub fn bytes_done(&self) -> (r: u64)
        requires
            sum_written(self.segments@) <= u64::MAX,
        ensures
            r == sum_written(self.segments@),
            r <= sum_len(self.segments@),
    {
        proof {
            lemma_written_within_len(self.segments@);
        }
        segments_written(&self.segments)
    }
}

/// No segment counts more bytes written than it holds, so neither do all of them.
pub proof fn lemma_written_within_len(segs: Seq<SegmentState>)
    ensures
        sum_written(segs) <= sum_len(segs),
    decreases segs.len(),
{
    if segs.len() > 0 {
        lemma_written_within_len(segs.drop_last());
    }
}

/// The bytes already written in `segs`.
pub fn segments_written(segs: &Vec<SegmentState>) -> (r: u64)
    requires
        sum_written(segs@) <= u64::MAX,
    ensures
        r == sum_written(segs@),
{
    match segments_written_checked(segs) {
        Some(r) => r,
        None => {
            assert(false);
            0
        },
    }
}

/// The bytes already written in `segs`, or `None` when the sum overflows a `u64`.
pub fn segments_written_checked(segs: &Vec<SegmentState>) -> (r: Option<u64>)
    ensures
        match r {
            Some(v) => v == sum_written(segs@),
            None => sum_written(segs@) > u64::MAX,
        },
{
    let mut acc: u64 = 0;
    let mut i: usize = 0;
    while i < segs.len()
        invariant
            i <= segs.len(),
            acc == sum_written(segs@.take(i as int)),
        decreases segs.len() - i,
    {
        assert(segs@.take(i + 1).drop_last() == segs@.take(i as int));
        let s = segs[i];
        let l = s.len();
        let w = if s.done < l {
            s.done
        } else {
            l
        };
        match acc.checked_add(w) {
            Some(a) => {
                acc = a;
            },
            None => {
                proof {
                    lemma_sum_written_prefix(segs@, i + 1);
                }
                return None;
            },
        }
        i += 1;
    }
    assert(segs@.take(segs.len() as int) == segs@);
    Some(acc)
}

proof fn lemma_sum_written_prefix(segs: Seq<SegmentState>, i: int)
    requires
        0 <= i <= segs.len(),
    ensures
        sum_written(segs.take(i)) <= sum_written(segs),
    decreases segs.len() - i,
{
    if i < segs.len() {
        lemma_sum_written_prefix(segs, i + 1);
        assert(segs.take(i + 1).drop_last() == segs.take(i));
    } else {
        assert(segs.take(i) == segs);
    }
}

/// The path of the partial file for a download to `final_path`.
pub open spec fn part_path_spec(final_path: Seq<char>) -> Seq<char> {
    final_path + ".junk.part"@
}

/// The path of the sidecar state file for a download to `final_path`.
pub open spec fn state_path_spec(final_path: Seq<char>) -> Seq<char> {
    final_path + ".junk.state.json"@
}

pub fn part_path(final_path: &str) -> (r: String)
    ensures
        r@ == part_path_spec(final_path@),
{
    let mut s = owned(final_path);
    push_all(&mut s, ".junk.part");
    s
}

pub fn state_path(final_path: &str) -> (r: String)
    ensures
        r@ == state_path_spec(final_path@),
{
    let mut s = owned(final_path);
    push_all(&mut s, ".junk.state.json");
    s
}

/// How many segments a file of `total` bytes is split into for `n` requested
/// connections: `n` clamped to `1..=total`, and at most 32.
pub open spec fn segment_count(total: u64, n: u32) -> nat
    recommends
        total > 0,
{
    let c: nat = if n < 1 {
        1
    } else if n > total {
        total as nat
    } else {
        n as nat
    };
    if c > 32 {
        32
    } else {
        c
    }
}

/// Segment `i` of the split of `total` bytes into `count` segments: equal
/// chunks of `total / count` bytes, the last one taking the remainder.
pub open spec fn split_segment(total: nat, count: nat, i: nat) -> SegmentState {
    let chunk = total / count;
    SegmentState {
        start: (i * chunk) as u64,
        end: (if i == count - 1 {
            total - 1
        } else {
            (i + 1) * chunk - 1
        }) as u64,
        done: 0,
    }
}

/// The segments that a fresh download of `total` bytes over `n` connections uses.
pub open spec fn split_spec(total: u64, n: u32) -> Seq<SegmentState> {
    if total == 0 {
        Seq::empty()
    } else {
        let count = segment_count(total, n);
        Seq::new(count, |i: int| split_segment(total as nat, count, i as nat))
    }
}

proof fn lemma_chunk_bounds(total: nat, count: nat, i: nat)
    by (nonlinear_arith)
    requires
        1 <= count <= total,
        i < count,
    ensures
        total / count >= 1,
        i * (total / count) + (total / count) <= total,
        (i + 1) * (total / count) == i * (total / count) + (total / count),
        count * (total / count) <= total,
        i * (total / count) <= (count - 1) * (total / count),
{
    let chunk = total / count;
    assert(count * chunk <= total);
    assert(i + 1 <= count);
    assert((i + 1) * chunk <= count * chunk);
}

/// Splits `total` bytes into segments for `n` connections.
pub fn split_segments(total: u64, n: u32) -> (r: Vec<SegmentState>)
    ensures
        r@ == split_spec(total, n),
{
    let mut segs: Vec<SegmentState> = Vec::new();
    if total == 0 {
        assert(segs@ == split_spec(total, n));
        return segs;
    }
    let mut count: u64 = n as u64;
    if count < 1 {
        count = 1;
    }
    if count > total {
        count = total;
    }
    if count > 32 {
        count = 32;
    }
    assert(count == segment_count(total, n));
    let chunk = total / count;
    let mut i: u64 = 0;
    while i < count
        invariant
            1 <= count <= total,
            count <= 32,
            count == segment_count(total, n),
            chunk == total / count,
            i <= count,
            segs@ == Seq::new(
                i as nat,
                |k: int| split_segment(total as nat, count as nat, k as nat),
            ),
        decreases count - i,
    {
        proof {
            lemma_chunk_bounds(total as nat, count as nat, i as nat);
        }
        let start = i * chunk;
        let end = if i == count - 1 {
            total - 1
        } else {
            (i + 1) * chunk - 1
        };
        segs.push(SegmentState { start, end, done: 0 });
        assert(segs@ == Seq::new(
            (i + 1) as nat,
            |k: int| split_segment(total as nat, count as nat, k as nat),
        ));
        i += 1;
    }
    segs
}

/// A sequence of segments that tiles `first..=last` in order, each segment
/// non-empty and starting right after the previous one ends.
pub open spec fn tiles(segs: Seq<SegmentState>, first: int, last: int) -> bool {
    &&& segs.len() > 0
    &&& segs[0].start == first
    &&& segs.last().end == last
    &&& forall|i: int| 0 <= i < segs.len() ==> #[trigger] segs[i].start <= segs[i].end
    &&& forall|i: int| 1 <= i < segs.len() ==> #[trigger] segs[i].start == segs[i - 1].end + 1
}

proof fn lemma_tiles_sum_len(segs: Seq<SegmentState>, first: int, last: int)
    requires
        tiles(segs, first, last),
        last < u64::MAX,
    ensures
        sum_len(segs) == last - first + 1,
    decreases segs.len(),
{
    if segs.len() == 1 {
        assert(segs.drop_last().len() == 0);
        assert(segs.last() == segs[0]);
        assert(segs[0].start <= segs[0].end);
        assert(sum_len(segs.drop_last()) == 0);
        assert(seg_len(segs[0]) == segs[0].end - segs[0].start + 1);
    } else {
        let init = segs.drop_last();
        let k = segs.len() - 1;
        assert(segs[k].start <= segs[k].end);
        assert(segs[k].start == segs[k - 1].end + 1);
        assert(segs.last() == segs[k]);
        assert(init.last() == segs[k - 1]);
        assert(tiles(init, first, init.last().end as int)) by {
            assert forall|i: int| 0 <= i < init.len() implies #[trigger] init[i].start
                <= init[i].end by {
                assert(init[i] == segs[i]);
            }
            assert forall|i: int| 1 <= i < init.len() implies #[trigger] init[i].start
                == init[i - 1].end + 1 by {
                assert(init[i] == segs[i]);
                assert(init[i - 1] == segs[i - 1]);
            }
            assert(init[0] == segs[0]);
        }
        lemma_tiles_sum_len(init, first, init.last().end as int);
        assert(seg_len(segs[k]) == segs[k].end - segs[k].start + 1);
        assert(sum_len(segs) == sum_len(init) + seg_len(segs.last()));
    }
}

/// Splitting a non-empty file yields segments that tile every byte `0..=total-1`
/// exactly once, none of them yet written: their lengths add up to `total`
/// and the written count of the split is zero.
pub proof fn lemma_split_covers(total: u64, n: u32)
    requires
        total > 0,
    ensures
        tiles(split_spec(total, n), 0, total - 1),
        sum_len(split_spec(total, n)) == total,
        sum_written(split_spec(total, n)) == 0,
        split_spec(total, n).len() == segment_count(total, n),
        1 <= split_spec(total, n).len() <= 32,
{
    let segs = split_spec(total, n);
    let count = segment_count(total, n);
    let chunk = (total as nat) / count;
    assert(1 <= count <= total);
    assert forall|i: int| 0 <= i < segs.len() implies #[trigger] segs[i].start <= segs[i].end by {
        lemma_chunk_bounds(total as nat, count, i as nat);
    }
    assert forall|i: int| 1 <= i < segs.len() implies #[trigger] segs[i].start == segs[i
        - 1].end + 1 by {
        lemma_chunk_bounds(total as nat, count, (i - 1) as nat);
        lemma_chunk_bounds(total as nat, count, i as nat);
    }
    lemma_chunk_bounds(total as nat, count, 0);
    assert(segs[0].start == 0) by (nonlinear_arith)
        requires
            segs[0].start == 0 * chunk,
    ;
    lemma_tiles_sum_len(segs, 0, total - 1);
    lemma_sum_written_zero(segs);
}

proof fn lemma_sum_written_zero(segs: Seq<SegmentState>)
    requires
        forall|i: int| 0 <= i < segs.len() ==> #[trigger] segs[i].done == 0,
    ensures
        sum_written(segs) == 0,
    decreases segs.len(),
{
    if segs.len() > 0 {
        let init = segs.drop_last();
        assert forall|i: int| 0 <= i < init.len() implies #[trigger] init[i].done == 0 by {
            assert(init[i] == segs[i]);
        }
        lemma_sum_written_zero(init);
        assert(segs.last() == segs[segs.len() - 1]);
    }
}

} // verus!
