//! Sample ranges and the range merger.
//!
//! A [`SampleRange`] is a half-open interval of absolute sample indices. The
//! merger turns an arbitrary list of ranges into a [`CensorshipPlan`]: the
//! unique list of non-empty, strictly separated, ascending ranges that covers
//! exactly the indices of the stream that the input covers.

use vstd::prelude::*;

verus! {

/// A half-open interval `[start_sample, end_sample)` of absolute sample
/// indices of the whole stream.
#[derive(Clone, Copy, Debug, PartialEq, Eq, Structural)]
pub struct SampleRange {
    /// First index of the interval.
    pub start_sample: u64,
    /// Index one past the last index of the interval.
    pub end_sample: u64,
}

impl SampleRange {
    /// The index lies inside the interval.
    pub open spec fn contains(self, index: int) -> bool {
        self.start_sample <= index < self.end_sample
    }

    /// The bounds are in order: the start does not lie behind the end.
    pub open spec fn is_ordered(self) -> bool {
        self.start_sample <= self.end_sample
    }

    /// Number of indices inside the interval.
    pub open spec fn spec_len(self) -> int {
        if self.start_sample <= self.end_sample {
            self.end_sample - self.start_sample
        } else {
            0
        }
    }

    /// The interval cut down to the stream `[0, stream_len)`.
    pub open spec fn clipped(self, stream_len: u64) -> SampleRange {
        SampleRange {
            start_sample: if self.start_sample <= stream_len {
                self.start_sample
            } else {
                stream_len
            },
            end_sample: if self.end_sample <= stream_len {
                self.end_sample
            } else {
                stream_len
            },
        }
    }

    /// Order of the merger's sort: by start, ties by end.
    pub open spec fn precedes(self, other: SampleRange) -> bool {
        self.start_sample < other.start_sample || (self.start_sample == other.start_sample
            && self.end_sample <= other.end_sample)
    }

    /// Builds a range, or nothing when the start lies behind the end.
    pub fn new(start_sample: u64, end_sample: u64) -> (r: Option<SampleRange>)
        ensures
            r == if start_sample <= end_sample {
                Some(SampleRange { start_sample, end_sample })
            } else {
                None
            },
    {
        if start_sample <= end_sample {
            Some(SampleRange { start_sample, end_sample })
        } else {
            None
        }
    }

    /// Number of indices inside the interval; zero when the bounds are out of
    /// order.
    pub fn len(&self) -> (n: u64)
        ensures
            n == self.spec_len(),
    {
        if self.start_sample <= self.end_sample {
            self.end_sample - self.start_sample
        } else {
            0
        }
    }

    /// Whether no index lies inside the interval.
    pub fn is_empty(&self) -> (b: bool)
        ensures
            b == (self.start_sample >= self.end_sample),
            b == forall|i: int| !self.contains(i),
    {
        if self.start_sample >= self.end_sample {
            true
        } else {
            assert(self.contains(self.start_sample as int));
            false
        }
    }

    /// Whether the index lies inside the interval.
    pub fn holds(&self, index: u64) -> (b: bool)
        ensures
            b == self.contains(index as int),
    {
        self.start_sample <= index && index < self.end_sample
    }

    /// Cuts the interval down to the stream `[0, stream_len)`.
    pub fn clip(&self, stream_len: u64) -> (r: SampleRange)
        ensures
            r == self.clipped(stream_len),
            forall|i: int| r.contains(i) <==> (self.contains(i) && i < stream_len),
    {
        SampleRange {
            start_sample: if self.start_sample <= stream_len {
                self.start_sample
            } else {
                stream_len
            },
            end_sample: if self.end_sample <= stream_len {
                self.end_sample
            } else {
                stream_len
            },
        }
    }

    /// Whether `self` sorts at or before `other`: by start, ties by end.
    pub fn sorts_before(&self, other: &SampleRange) -> (b: bool)
        ensures
            b == self.precedes(*other),
    {
        self.start_sample < other.start_sample || (self.start_sample == other.start_sample
            && self.end_sample <= other.end_sample)
    }
}

/// Some range of the list contains the index.
pub open spec fn covered(ranges: Seq<SampleRange>, index: int) -> bool {
    exists|k: int| 0 <= k < ranges.len() && (#[trigger] ranges[k]).contains(index)
}

/// Every range of the list is non-empty and ends at or before `stream_len`.
pub open spec fn within_stream(ranges: Seq<SampleRange>, stream_len: u64) -> bool {
    forall|k: int|
        0 <= k < ranges.len() ==> (#[trigger] ranges[k]).start_sample < ranges[k].end_sample
            <= stream_len
}

/// The list is in the merger's sort order.
pub open spec fn is_sorted(ranges: Seq<SampleRange>) -> bool {
    forall|j: int, k: int|
        0 <= j < k < ranges.len() ==> (#[trigger] ranges[j]).precedes(#[trigger] ranges[k])
}

/// The list is merged: every range is non-empty, and each range ends
/// strictly before every later one starts. Such a list is ascending, free of
/// overlaps, and no two of its ranges touch.
pub open spec fn is_merged(ranges: Seq<SampleRange>) -> bool {
    &&& forall|k: int|
        0 <= k < ranges.len() ==> (#[trigger] ranges[k]).start_sample < ranges[k].end_sample
    &&& forall|j: int, k: int|
        0 <= j < k < ranges.len() ==> (#[trigger] ranges[j]).end_sample < (
        #[trigger] ranges[k]).start_sample
}

/// The ranges of the list, each cut down to `[0, stream_len)`, without those
/// that are empty afterwards, in the order of the list.
pub open spec fn clipped_ranges(ranges: Seq<SampleRange>, stream_len: u64) -> Seq<SampleRange>
    decreases ranges.len(),
{
    if ranges.len() == 0 {
        Seq::empty()
    } else {
        let rest = clipped_ranges(ranges.drop_last(), stream_len);
        let c = ranges.last().clipped(stream_len);
        if c.start_sample < c.end_sample {
            rest.push(c)
        } else {
            rest
        }
    }
}

/// Appending a range adds exactly its indices to what a list covers.
pub proof fn lemma_covered_push(ranges: Seq<SampleRange>, r: SampleRange, index: int)
    ensures
        covered(ranges.push(r), index) <==> (covered(ranges, index) || r.contains(index)),
{
    let pushed = ranges.push(r);
    if covered(ranges, index) {
        let k = choose|k: int| 0 <= k < ranges.len() && (#[trigger] ranges[k]).contains(index);
        assert(pushed[k].contains(index));
    }
    if r.contains(index) {
        assert(pushed[ranges.len() as int].contains(index));
    }
    if covered(pushed, index) {
        let k = choose|k: int| 0 <= k < pushed.len() && (#[trigger] pushed[k]).contains(index);
        if k < ranges.len() {
            assert(ranges[k].contains(index));
        }
    }
}

/// The clipped list covers exactly the indices of the stream that the list
/// itself covers, and all its ranges are non-empty and inside the stream.
pub proof fn lemma_clipped_ranges_cover(ranges: Seq<SampleRange>, stream_len: u64)
    ensures
        within_stream(clipped_ranges(ranges, stream_len), stream_len),
        clipped_ranges(ranges, stream_len).len() <= ranges.len(),
        forall|i: int|
            covered(clipped_ranges(ranges, stream_len), i) <==> (0 <= i < stream_len && covered(
                ranges,
                i,
            )),
    decreases ranges.len(),
{
    let out = clipped_ranges(ranges, stream_len);
    if ranges.len() == 0 {
    } else {
        let front = ranges.drop_last();
        let rest = clipped_ranges(front, stream_len);
        let c = ranges.last().clipped(stream_len);
        lemma_clipped_ranges_cover(front, stream_len);
        assert(ranges =~= front.push(ranges.last()));
        assert forall|i: int|
            covered(out, i) <==> (0 <= i < stream_len && covered(ranges, i)) by {
            lemma_covered_push(front, ranges.last(), i);
            if c.start_sample < c.end_sample {
                lemma_covered_push(rest, c, i);
            }
        }
    }
}

/// Cuts every range down to `[0, stream_len)` and drops those that are empty
/// afterwards, among them every range whose bounds were out of order.
pub fn clip_ranges(ranges: &[SampleRange], stream_len: u64) -> (out: Vec<SampleRange>)
    ensures
        out@ == clipped_ranges(ranges@, stream_len),
        within_stream(out@, stream_len),
        forall|i: int| covered(out@, i) <==> (0 <= i < stream_len && covered(ranges@, i)),
{
    let mut out: Vec<SampleRange> = Vec::new();
    let mut n: usize = 0;
    while n < ranges.len()
        invariant
            n <= ranges.len(),
            out@ == clipped_ranges(ranges@.subrange(0, n as int), stream_len),
        decreases ranges.len() - n,
    {
        let c = ranges[n].clip(stream_len);
        assert(ranges@.subrange(0, n + 1).drop_last() =~= ranges@.subrange(0, n as int));
        if c.start_sample < c.end_sample {
            out.push(c);
        }
        n += 1;
    }
    assert(ranges@.subrange(0, n as int) =~= ranges@);
    proof {
        lemma_clipped_ranges_cover(ranges@, stream_len);
    }
    out
}

/// Inserting a range into a list adds exactly one occurrence of it.
proof fn lemma_insert_to_multiset(ranges: Seq<SampleRange>, at: int, r: SampleRange)
    requires
        0 <= at <= ranges.len(),
    ensures
        ranges.insert(at, r).to_multiset() == ranges.to_multiset().insert(r),
{
    broadcast use vstd::seq_lib::group_to_multiset_ensures;

    let grown = ranges.insert(at, r);
    assert(grown.remove(at) =~= ranges);
    assert(grown[at] == r);
    assert(grown.to_multiset().remove(r) =~= ranges.to_multiset());
    assert(grown.contains(r));
    assert(grown.to_multiset() =~= ranges.to_multiset().insert(r));
}

/// Two lists with the same ranges, each as often in one as in the other,
/// cover the same indices.
pub proof fn lemma_permutation_covers(a: Seq<SampleRange>, b: Seq<SampleRange>, index: int)
    requires
        a.to_multiset() == b.to_multiset(),
    ensures
        covered(a, index) <==> covered(b, index),
{
    a.to_multiset_ensures();
    b.to_multiset_ensures();
    if covered(a, index) {
        let k = choose|k: int| 0 <= k < a.len() && (#[trigger] a[k]).contains(index);
        assert(a.contains(a[k]));
        assert(a.to_multiset().count(a[k]) > 0);
        assert(b.to_multiset().count(a[k]) > 0);
        assert(b.contains(a[k]));
        let j = choose|j: int| 0 <= j < b.len() && b[j] == a[k];
        assert(b[j].contains(index));
    }
    if covered(b, index) {
        let k = choose|k: int| 0 <= k < b.len() && (#[trigger] b[k]).contains(index);
        assert(b.contains(b[k]));
        assert(b.to_multiset().count(b[k]) > 0);
        assert(a.to_multiset().count(b[k]) > 0);
        assert(a.contains(b[k]));
        let j = choose|j: int| 0 <= j < a.len() && a[j] == b[k];
        assert(a[j].contains(index));
    }
}

/// Sorts the ranges by start, ties by end. The result holds the same ranges,
/// each as often as the input does.
pub fn sort_ranges(ranges: &[SampleRange]) -> (out: Vec<SampleRange>)
    ensures
        is_sorted(out@),
        out@.to_multiset() == ranges@.to_multiset(),
        out@.len() == ranges@.len(),
{
    let mut out: Vec<SampleRange> = Vec::new();
    let mut n: usize = 0;
    assert(ranges@.subrange(0, 0) =~= out@);
    while n < ranges.len()
        invariant
            n <= ranges.len(),
            out@.len() == n,
            is_sorted(out@),
            out@.to_multiset() == ranges@.subrange(0, n as int).to_multiset(),
        decreases ranges.len() - n,
    {
        let r = ranges[n];
        let mut at: usize = out.len();
        while at > 0 && !out[at - 1].sorts_before(&r)
            invariant
                at <= out.len(),
                forall|k: int| at <= k < out.len() ==> !(#[trigger] out@[k]).precedes(r),
            decreases at,
        {
            at -= 1;
        }
        proof {
            let before = out@;
            let after = before.insert(at as int, r);
            assert forall|j: int, k: int| 0 <= j < k < after.len() implies (
            #[trigger] after[j]).precedes(#[trigger] after[k]) by {
                if k < at {
                    assert(before[j].precedes(before[k]));
                } else if k == at {
                    assert(before[j].precedes(before[at - 1]));
                } else if j < at {
                    assert(before[j].precedes(before[k - 1]));
                } else if j == at {
                    assert(!before[k - 1].precedes(r));
                } else {
                    assert(before[j - 1].precedes(before[k - 1]));
                }
            }
            lemma_insert_to_multiset(before, at as int, r);
            assert(ranges@.subrange(0, n + 1) =~= ranges@.subrange(0, n as int).push(r));
            vstd::seq_lib::to_multiset_build(ranges@.subrange(0, n as int), r);
        }
        out.insert(at, r);
        n += 1;
    }
    assert(ranges@.subrange(0, n as int) =~= ranges@);
    out
}

/// A merged list is sorted, and its starts and ends ascend strictly.
pub proof fn lemma_merged_is_sorted(ranges: Seq<SampleRange>)
    requires
        is_merged(ranges),
    ensures
        is_sorted(ranges),
        forall|j: int, k: int|
            0 <= j < k < ranges.len() ==> (#[trigger] ranges[j]).start_sample < (
            #[trigger] ranges[k]).start_sample && ranges[j].end_sample < ranges[k].end_sample,
{
    assert forall|j: int, k: int| 0 <= j < k < ranges.len() implies (
    #[trigger] ranges[j]).start_sample < (#[trigger] ranges[k]).start_sample && ranges[j].end_sample
        < ranges[k].end_sample by {
        assert(ranges[j].end_sample < ranges[k].start_sample);
    }
}

/// The first range of a merged list starts at the smallest covered index.
proof fn lemma_first_start(a: Seq<SampleRange>, b: Seq<SampleRange>)
    requires
        is_merged(a),
        is_merged(b),
        a.len() > 0,
        forall|i: int| covered(a, i) ==> covered(b, i),
    ensures
        b.len() > 0,
        b[0].start_sample <= a[0].start_sample,
{
    let i = a[0].start_sample as int;
    assert(a[0].contains(i));
    assert(covered(b, i));
    let k = choose|k: int| 0 <= k < b.len() && (#[trigger] b[k]).contains(i);
    if k > 0 {
        assert(b[0].end_sample < b[k].start_sample);
    }
}

/// The first range of a merged list ends at the first index behind its start
/// that is not covered.
proof fn lemma_first_end(a: Seq<SampleRange>, b: Seq<SampleRange>)
    requires
        is_merged(a),
        is_merged(b),
        a.len() > 0,
        b.len() > 0,
        a[0].start_sample == b[0].start_sample,
        forall|i: int| covered(a, i) ==> covered(b, i),
    ensures
        a[0].end_sample <= b[0].end_sample,
{
    if b[0].end_sample < a[0].end_sample {
        let i = b[0].end_sample as int;
        assert(a[0].contains(i));
        assert(covered(b, i));
        let k = choose|k: int| 0 <= k < b.len() && (#[trigger] b[k]).contains(i);
        if k > 0 {
            assert(b[0].end_sample < b[k].start_sample);
        }
    }
}

/// Without its first range a merged list is still merged, and covers what it
/// covered before but for the indices of that range.
proof fn lemma_merged_tail(a: Seq<SampleRange>)
    requires
        is_merged(a),
        a.len() > 0,
    ensures
        is_merged(a.drop_first()),
        forall|i: int| covered(a.drop_first(), i) <==> (covered(a, i) && !a[0].contains(i)),
{
    let tail = a.drop_first();
    assert forall|k: int| 0 <= k < tail.len() implies (#[trigger] tail[k]).start_sample
        < tail[k].end_sample by {
        assert(tail[k] == a[k + 1]);
    }
    assert forall|j: int, k: int| 0 <= j < k < tail.len() implies (#[trigger] tail[j]).end_sample
        < (#[trigger] tail[k]).start_sample by {
        assert(tail[j] == a[j + 1] && tail[k] == a[k + 1]);
    }
    assert forall|i: int| covered(tail, i) <==> (covered(a, i) && !a[0].contains(i)) by {
        if covered(tail, i) {
            let k = choose|k: int| 0 <= k < tail.len() && (#[trigger] tail[k]).contains(i);
            assert(tail[k] == a[k + 1]);
            assert(a[k + 1].contains(i));
            assert(a[0].end_sample < a[k + 1].start_sample);
        }
        if covered(a, i) && !a[0].contains(i) {
            let k = choose|k: int| 0 <= k < a.len() && (#[trigger] a[k]).contains(i);
            assert(tail[k - 1] == a[k]);
            assert(tail[k - 1].contains(i));
        }
    }
}

/// A set of indices has at most one merged list that covers exactly it: two
/// merged lists that cover the same indices are the same list.
pub proof fn lemma_merged_unique(a: Seq<SampleRange>, b: Seq<SampleRange>)
    requires
        is_merged(a),
        is_merged(b),
        forall|i: int| covered(a, i) <==> covered(b, i),
    ensures
        a == b,
    decreases a.len(),
{
    if a.len() == 0 {
        if b.len() > 0 {
            lemma_first_start(b, a);
        }
        assert(a =~= b);
    } else {
        lemma_first_start(a, b);
        lemma_first_start(b, a);
        lemma_first_end(a, b);
        lemma_first_end(b, a);
        lemma_merged_tail(a);
        lemma_merged_tail(b);
        assert(a[0] == b[0]);
        assert forall|i: int| covered(a.drop_first(), i) <==> covered(b.drop_first(), i) by {
            assert(covered(a.drop_first(), i) <==> (covered(a, i) && !a[0].contains(i)));
            assert(covered(b.drop_first(), i) <==> (covered(b, i) && !b[0].contains(i)));
        }
        lemma_merged_unique(a.drop_first(), b.drop_first());
        assert(a =~= seq![a[0]] + a.drop_first());
        assert(b =~= seq![b[0]] + b.drop_first());
    }
}

/// Scans a sorted list of non-empty ranges once and merges every range that
/// starts at or before the end of the merged range before it into that range.
fn merge_sorted(sorted: &Vec<SampleRange>) -> (out: Vec<SampleRange>)
    requires
        is_sorted(sorted@),
        forall|k: int|
            0 <= k < sorted@.len() ==> (#[trigger] sorted@[k]).start_sample
                < sorted@[k].end_sample,
    ensures
        is_merged(out@),
        forall|i: int| covered(out@, i) <==> covered(sorted@, i),
{
    let mut out: Vec<SampleRange> = Vec::new();
    let mut n: usize = 0;
    while n < sorted.len()
        invariant
            n <= sorted.len(),
            is_sorted(sorted@),
            forall|k: int|
                0 <= k < sorted@.len() ==> (#[trigger] sorted@[k]).start_sample
                    < sorted@[k].end_sample,
            is_merged(out@),
            forall|i: int| covered(out@, i) <==> covered(sorted@.subrange(0, n as int), i),
            n > 0 ==> out@.len() > 0,
            out@.len() > 0 ==> forall|k: int|
                n <= k < sorted@.len() ==> out@.last().start_sample <= (
                #[trigger] sorted@[k]).start_sample,
        decreases sorted.len() - n,
    {
        let r = sorted[n];
        let m = out.len();
        let ghost before = out@;
        let ghost seen = sorted@.subrange(0, n as int);
        assert(sorted@.subrange(0, n + 1) =~= seen.push(r));
        if m > 0 && r.start_sample <= out[m - 1].end_sample {
            let last = out[m - 1];
            if r.end_sample > last.end_sample {
                let grown = SampleRange {
                    start_sample: last.start_sample,
                    end_sample: r.end_sample,
                };
                out.set(m - 1, grown);
                proof {
                    assert forall|i: int| covered(out@, i) <==> covered(seen.push(r), i) by {
                        lemma_covered_push(seen, r, i);
                        if covered(out@, i) {
                            let k = choose|k: int|
                                0 <= k < out@.len() && (#[trigger] out@[k]).contains(i);
                            if k < m - 1 {
                                assert(before[k].contains(i));
                            } else if last.contains(i) {
                                assert(before[m - 1].contains(i));
                            }
                        }
                        if covered(before, i) {
                            let k = choose|k: int|
                                0 <= k < before.len() && (#[trigger] before[k]).contains(i);
                            if k < m - 1 {
                                assert(out@[k].contains(i));
                            } else {
                                assert(out@[m - 1].contains(i));
                            }
                        }
                        if r.contains(i) {
                            assert(out@[m - 1].contains(i));
                        }
                    }
                    assert(is_merged(out@)) by {
                        assert forall|j: int, k: int| 0 <= j < k < out@.len() implies (
                        #[trigger] out@[j]).end_sample < (#[trigger] out@[k]).start_sample by {
                            assert(before[j].end_sample < before[k].start_sample);
                        }
                    }
                }
            } else {
                proof {
                    assert forall|i: int| covered(out@, i) <==> covered(seen.push(r), i) by {
                        lemma_covered_push(seen, r, i);
                        if r.contains(i) {
                            assert(out@[m - 1].contains(i));
                        }
                    }
                }
            }
        } else {
            out.push(r);
            proof {
                assert forall|i: int| covered(out@, i) <==> covered(seen.push(r), i) by {
                    lemma_covered_push(seen, r, i);
                    lemma_covered_push(before, r, i);
                }
                assert forall|j: int, k: int| 0 <= j < k < out@.len() implies (
                #[trigger] out@[j]).end_sample < (#[trigger] out@[k]).start_sample by {
                    if k < m {
                        assert(before[j].end_sample < before[k].start_sample);
                    } else if j < m - 1 {
                        assert(before[j].end_sample < before[m - 1].start_sample);
                    }
                }
            }
        }
        proof {
            assert forall|k: int| n + 1 <= k < sorted@.len() implies out@.last().start_sample <= (
            #[trigger] sorted@[k]).start_sample by {
                assert(sorted@[n as int].precedes(sorted@[k]));
            }
        }
        n += 1;
    }
    assert(sorted@.subrange(0, n as int) =~= sorted@);
    out
}

/// `plan` is what merging `ranges` over a stream of `stream_len` samples
/// gives: a merged list inside the stream that covers exactly the indices of
/// the stream that `ranges` covers.
pub open spec fn is_merge_of(
    plan: Seq<SampleRange>,
    ranges: Seq<SampleRange>,
    stream_len: u64,
) -> bool {
    &&& is_merged(plan)
    &&& within_stream(plan, stream_len)
    &&& forall|i: int| covered(plan, i) <==> (0 <= i < stream_len && covered(ranges, i))
}

/// The plan that merging `ranges` over a stream of `stream_len` samples
/// gives.
pub open spec fn merged_plan(ranges: Seq<SampleRange>, stream_len: u64) -> Seq<SampleRange> {
    choose|plan: Seq<SampleRange>| is_merge_of(plan, ranges, stream_len)
}

/// Merging has one result: two lists that are each a merge of the same
/// ranges over the same stream are equal.
pub proof fn lemma_merge_unique(
    ranges: Seq<SampleRange>,
    stream_len: u64,
    p: Seq<SampleRange>,
    q: Seq<SampleRange>,
)
    requires
        is_merge_of(p, ranges, stream_len),
        is_merge_of(q, ranges, stream_len),
    ensures
        p == q,
{
    lemma_merged_unique(p, q);
}

/// A merged list inside the stream is its own merge.
pub proof fn lemma_merge_fixed_point(plan: Seq<SampleRange>, stream_len: u64)
    requires
        is_merged(plan),
        within_stream(plan, stream_len),
    ensures
        is_merge_of(plan, plan, stream_len),
{
    assert forall|i: int| covered(plan, i) implies 0 <= i < stream_len by {
        let k = choose|k: int| 0 <= k < plan.len() && (#[trigger] plan[k]).contains(i);
        assert(plan[k].end_sample <= stream_len);
    }
}

/// Merging is idempotent: merging the result of a merge over the same stream
/// gives that result again.
pub proof fn lemma_merge_idempotent(
    ranges: Seq<SampleRange>,
    stream_len: u64,
    once: Seq<SampleRange>,
    twice: Seq<SampleRange>,
)
    requires
        is_merge_of(once, ranges, stream_len),
        is_merge_of(twice, once, stream_len),
    ensures
        twice == once,
{
    lemma_merge_fixed_point(once, stream_len);
    lemma_merge_unique(once, stream_len, once, twice);
}

/// The merged, sorted, non-overlapping ranges to censor in one overlay pass
/// over a stream of a known length. A plan is frozen: it is made by
/// [`merge`] and never changed afterwards.
#[derive(Debug)]
pub struct CensorshipPlan {
    ranges: Vec<SampleRange>,
    stream_len: u64,
}

impl View for CensorshipPlan {
    type V = Seq<SampleRange>;

    closed spec fn view(&self) -> Seq<SampleRange> {
        self.ranges@
    }
}

impl CensorshipPlan {
    /// Length in samples of the stream that the plan was made for.
    pub closed spec fn spec_stream_len(&self) -> u64 {
        self.stream_len
    }

    /// What holds of every plan: its ranges are merged and lie inside the
    /// stream.
    #[verifier::type_invariant]
    pub closed spec fn is_frozen(&self) -> bool {
        is_merged(self.ranges@) && within_stream(self.ranges@, self.stream_len)
    }

    /// The ranges of the plan, ascending.
    pub fn ranges(&self) -> (r: &Vec<SampleRange>)
        ensures
            r@ == self@,
            is_merged(self@),
            within_stream(self@, self.spec_stream_len()),
    {
        proof {
            use_type_invariant(self);
        }
        &self.ranges
    }

    /// Length in samples of the stream that the plan was made for.
    pub fn stream_len(&self) -> (n: u64)
        ensures
            n == self.spec_stream_len(),
    {
        self.stream_len
    }

    /// Number of ranges in the plan.
    pub fn len(&self) -> (n: usize)
        ensures
            n == self@.len(),
    {
        self.ranges.len()
    }

    /// Whether the plan censors nothing.
    pub fn is_empty(&self) -> (b: bool)
        ensures
            b == (self@.len() == 0),
            b == forall|i: int| !covered(self@, i),
    {
        proof {
            use_type_invariant(self);
            if self.ranges@.len() > 0 {
                let first = self.ranges@[0];
                assert(first.contains(first.start_sample as int));
                assert(covered(self@, first.start_sample as int));
            }
        }
        self.ranges.len() == 0
    }
}

/// The range merger: clips every range to `[0, stream_len)`, drops the empty
/// ones, sorts by start (ties by end) and merges every range that overlaps or
/// touches the one before it. The plan is the one merged list that covers
/// exactly the indices below `stream_len` that `ranges` covers; merging a
/// list that is already merged and inside the stream gives it back.
pub fn merge(ranges: &[SampleRange], stream_len: u64) -> (plan: CensorshipPlan)
    ensures
        plan.spec_stream_len() == stream_len,
        is_merge_of(plan@, ranges@, stream_len),
        plan@ == merged_plan(ranges@, stream_len),
        is_merged(ranges@) && within_stream(ranges@, stream_len) ==> plan@ == ranges@,
{
    let clipped = clip_ranges(ranges, stream_len);
    let sorted = sort_ranges(clipped.as_slice());
    proof {
        sorted@.to_multiset_ensures();
        clipped@.to_multiset_ensures();
        assert forall|k: int| 0 <= k < sorted@.len() implies (#[trigger] sorted@[k]).start_sample
            < sorted@[k].end_sample <= stream_len by {
            let r = sorted@[k];
            assert(sorted@.contains(r));
            assert(sorted@.to_multiset().count(r) > 0);
            assert(clipped@.to_multiset().count(r) > 0);
            assert(clipped@.contains(r));
        }
    }
    let merged = merge_sorted(&sorted);
    proof {
        assert forall|i: int| covered(merged@, i) <==> (0 <= i < stream_len && covered(
            ranges@,
            i,
        )) by {
            lemma_permutation_covers(sorted@, clipped@, i);
        }
        assert forall|k: int| 0 <= k < merged@.len() implies (#[trigger] merged@[k]).start_sample
            < merged@[k].end_sample <= stream_len by {
            let i = merged@[k].end_sample - 1;
            assert(merged@[k].contains(i));
            assert(covered(merged@, i));
        }
        if is_merged(ranges@) && within_stream(ranges@, stream_len) {
            lemma_merge_fixed_point(ranges@, stream_len);
            lemma_merge_unique(ranges@, stream_len, ranges@, merged@);
        }
        assert(is_merge_of(merged@, ranges@, stream_len));
        lemma_merge_unique(ranges@, stream_len, merged@, merged_plan(ranges@, stream_len));
    }
    CensorshipPlan { ranges: merged, stream_len }
}

/// The ranges gathered while a stream is transcribed. Ranges are only ever
/// added; once the stream has ended the list is frozen into a plan.
#[derive(Debug)]
pub struct PlanBuilder {
    ranges: Vec<SampleRange>,
}

impl View for PlanBuilder {
    type V = Seq<SampleRange>;

    closed spec fn view(&self) -> Seq<SampleRange> {
        self.ranges@
    }
}

impl PlanBuilder {
    /// A builder without ranges.
    pub fn new() -> (builder: PlanBuilder)
        ensures
            builder@ == Seq::<SampleRange>::empty(),
    {
        PlanBuilder { ranges: Vec::new() }
    }

    /// Number of ranges gathered so far.
    pub fn len(&self) -> (n: usize)
        ensures
            n == self@.len(),
    {
        self.ranges.len()
    }

    /// Adds one range behind those gathered so far.
    pub fn push(&mut self, range: SampleRange)
        ensures
            final(self)@ == old(self)@.push(range),
    {
        self.ranges.push(range);
    }

    /// Adds a list of ranges, in its order, behind those gathered so far.
    pub fn add(&mut self, ranges: &[SampleRange])
        ensures
            final(self)@ == old(self)@ + ranges@,
    {
        let ghost before = self.ranges@;
        let mut k: usize = 0;
        while k < ranges.len()
            invariant
                k <= ranges@.len(),
                self.ranges@ == before + ranges@.subrange(0, k as int),
            decreases ranges@.len() - k,
        {
            self.ranges.push(ranges[k]);
            assert(before + ranges@.subrange(0, k + 1) =~= (before + ranges@.subrange(
                0,
                k as int,
            )).push(ranges@[k as int]));
            k += 1;
        }
        assert(ranges@.subrange(0, k as int) =~= ranges@);
    }

    /// Freezes the gathered ranges into the plan for a stream of
    /// `stream_len` samples, by [`merge`].
    pub fn freeze(self, stream_len: u64) -> (plan: CensorshipPlan)
        ensures
            plan.spec_stream_len() == stream_len,
            is_merge_of(plan@, self@, stream_len),
            plan@ == merged_plan(self@, stream_len),
    {
        merge(self.ranges.as_slice(), stream_len)
    }
}

} // verus!
