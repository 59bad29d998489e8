//! Counting the positions that a list of ranges covers.

use vstd::prelude::*;

use crate::chunk_iterator::ChunkRange;

verus! {

/// The sum of the lengths of `ranges`.
pub open spec fn total_len(ranges: Seq<ChunkRange>) -> int
    decreases ranges.len(),
{
    if ranges.len() == 0 {
        0
    } else {
        total_len(ranges.drop_last()) + ranges.last().length()
    }
}

/// How many of `ranges` have position `i`.
pub open spec fn coverage(ranges: Seq<ChunkRange>, i: int) -> int
    decreases ranges.len(),
{
    if ranges.len() == 0 {
        0
    } else {
        coverage(ranges.drop_last(), i) + hits(ranges.last(), i)
    }
}

/// One if `range` has position `i`, and zero otherwise.
pub open spec fn hits(range: ChunkRange, i: int) -> int {
    if range.has(i) {
        1
    } else {
        0
    }
}

/// Whether every one of `ranges` is valid and ends below `end`.
pub open spec fn all_below(ranges: Seq<ChunkRange>, end: int) -> bool {
    forall|k: int|
        0 <= k < ranges.len() ==> (#[trigger] ranges[k]).valid() && ranges[k].end < end
}

pub proof fn lemma_push(ranges: Seq<ChunkRange>, range: ChunkRange, i: int)
    ensures
        coverage(ranges.push(range), i) == coverage(ranges, i) + hits(range, i),
        total_len(ranges.push(range)) == total_len(ranges) + range.length(),
{
    assert(ranges.push(range).drop_last() =~= ranges);
}

pub proof fn lemma_concat(left: Seq<ChunkRange>, right: Seq<ChunkRange>, i: int)
    ensures
        coverage(left + right, i) == coverage(left, i) + coverage(right, i),
        total_len(left + right) == total_len(left) + total_len(right),
    decreases right.len(),
{
    if right.len() == 0 {
        assert(left + right =~= left);
    } else {
        lemma_concat(left, right.drop_last(), i);
        assert((left + right).drop_last() =~= left + right.drop_last());
    }
}

pub proof fn lemma_single(range: ChunkRange, i: int)
    ensures
        coverage(seq![range], i) == hits(range, i),
        total_len(seq![range]) == range.length(),
{
    assert(seq![range] =~= Seq::<ChunkRange>::empty().push(range));
    lemma_push(Seq::empty(), range, i);
}

pub proof fn lemma_remove(ranges: Seq<ChunkRange>, k: int, i: int)
    requires
        0 <= k < ranges.len(),
    ensures
        coverage(ranges, i) == coverage(ranges.remove(k), i) + hits(ranges[k], i),
        total_len(ranges) == total_len(ranges.remove(k)) + ranges[k].length(),
{
    let left = ranges.take(k);
    let right = ranges.skip(k + 1);
    assert(ranges =~= left + seq![ranges[k]] + right);
    assert(ranges.remove(k) =~= left + right);
    lemma_concat(left + seq![ranges[k]], right, i);
    lemma_concat(left, seq![ranges[k]], i);
    lemma_concat(left, right, i);
    lemma_single(ranges[k], i);
}

pub proof fn lemma_update(ranges: Seq<ChunkRange>, k: int, range: ChunkRange, i: int)
    requires
        0 <= k < ranges.len(),
    ensures
        coverage(ranges.update(k, range), i) == coverage(ranges, i) - hits(ranges[k], i) + hits(
            range,
            i,
        ),
        total_len(ranges.update(k, range)) == total_len(ranges) - ranges[k].length()
            + range.length(),
{
    lemma_remove(ranges, k, i);
    lemma_remove(ranges.update(k, range), k, i);
    assert(ranges.update(k, range).remove(k) =~= ranges.remove(k));
}

/// What ranges cover does not depend on their order.
pub proof fn lemma_reordered(left: Seq<ChunkRange>, right: Seq<ChunkRange>, i: int)
    requires
        left.to_multiset() == right.to_multiset(),
    ensures
        coverage(left, i) == coverage(right, i),
        total_len(left) == total_len(right),
    decreases left.len(),
{
    broadcast use vstd::seq_lib::group_to_multiset_ensures;

    assert(left.len() == left.to_multiset().len() == right.len());
    if left.len() > 0 {
        let last = left.len() - 1;
        let range = left[last];
        assert(left.to_multiset().contains(range));
        assert(right.contains(range));
        let k = right.index_of(range);
        assert(left.remove(last).to_multiset() =~= right.remove(k).to_multiset());
        lemma_reordered(left.remove(last), right.remove(k), i);
        lemma_remove(left, last, i);
        lemma_remove(right, k, i);
    }
}

pub proof fn lemma_coverage_bounds(ranges: Seq<ChunkRange>, i: int)
    ensures
        coverage(ranges, i) >= 0,
        coverage(ranges, i) > 0 <==> exists|k: int|
            0 <= k < ranges.len() && (#[trigger] ranges[k]).has(i),
    decreases ranges.len(),
{
    if ranges.len() > 0 {
        lemma_coverage_bounds(ranges.drop_last(), i);
        let last = ranges.len() - 1;
        if coverage(ranges, i) > 0 {
            if !ranges[last].has(i) {
                let k = choose|k: int|
                    0 <= k < ranges.drop_last().len() && (#[trigger] ranges.drop_last()[k]).has(i);
                assert(ranges[k].has(i));
            }
        }
        if exists|k: int| 0 <= k < ranges.len() && (#[trigger] ranges[k]).has(i) {
            let k = choose|k: int| 0 <= k < ranges.len() && (#[trigger] ranges[k]).has(i);
            if k < last {
                assert(ranges.drop_last()[k].has(i));
            }
        }
    }
}

/// Ranges of which each ends before the next starts do not overlap.
pub proof fn lemma_ordered_coverage(ranges: Seq<ChunkRange>, i: int)
    requires
        forall|j: int, k: int|
            0 <= j < k < ranges.len() ==> (#[trigger] ranges[j]).end < (#[trigger] ranges[k]).start,
    ensures
        coverage(ranges, i) <= 1,
    decreases ranges.len(),
{
    if ranges.len() > 0 {
        let front = ranges.drop_last();
        let last = ranges.len() - 1;
        lemma_ordered_coverage(front, i);
        lemma_coverage_bounds(front, i);
        if ranges[last].has(i) && coverage(front, i) > 0 {
            let j = choose|j: int| 0 <= j < front.len() && (#[trigger] front[j]).has(i);
            assert(ranges[j].end < ranges[last].start);
        }
    }
}

/// The sum of `coverage(ranges, i)` over the positions below `end`.
pub open spec fn covered_below(ranges: Seq<ChunkRange>, end: nat) -> int
    decreases end,
{
    if end == 0 {
        0
    } else {
        covered_below(ranges, (end - 1) as nat) + coverage(ranges, end - 1)
    }
}

proof fn lemma_covered_below_push(ranges: Seq<ChunkRange>, range: ChunkRange, end: nat)
    requires
        range.valid(),
    ensures
        covered_below(ranges.push(range), end) == covered_below(ranges, end) + (if end
            <= range.start {
            0
        } else if end <= range.end {
            end - range.start
        } else {
            range.length()
        }),
    decreases end,
{
    if end > 0 {
        lemma_covered_below_push(ranges, range, (end - 1) as nat);
        lemma_push(ranges, range, end - 1);
    }
}

/// Counting by position gives the same as adding up lengths.
pub proof fn lemma_covered_below_is_total_len(ranges: Seq<ChunkRange>, end: nat)
    requires
        all_below(ranges, end as int),
    ensures
        covered_below(ranges, end) == total_len(ranges),
    decreases ranges.len(),
{
    if ranges.len() == 0 {
        lemma_covered_below_empty(end);
        assert(ranges =~= Seq::empty());
    } else {
        lemma_covered_below_is_total_len(ranges.drop_last(), end);
        assert(ranges.drop_last().push(ranges.last()) =~= ranges);
        assert(ranges[ranges.len() - 1].valid());
        lemma_covered_below_push(ranges.drop_last(), ranges.last(), end);
    }
}

proof fn lemma_covered_below_empty(end: nat)
    ensures
        covered_below(Seq::empty(), end) == 0,
    decreases end,
{
    if end > 0 {
        lemma_covered_below_empty((end - 1) as nat);
    }
}

pub proof fn lemma_total_len_not_negative(ranges: Seq<ChunkRange>)
    requires
        forall|k: int| 0 <= k < ranges.len() ==> (#[trigger] ranges[k]).length() >= 0,
    ensures
        total_len(ranges) >= 0,
    decreases ranges.len(),
{
    if ranges.len() > 0 {
        lemma_total_len_not_negative(ranges.drop_last());
        assert(ranges[ranges.len() - 1].length() >= 0);
    }
}

/// Ranges below `end` that do not overlap are together no longer than `end`.
pub proof fn lemma_disjoint_fit(ranges: Seq<ChunkRange>, end: nat)
    requires
        all_below(ranges, end as int),
        forall|i: int| 0 <= i < end ==> #[trigger] coverage(ranges, i) <= 1,
    ensures
        total_len(ranges) <= end,
{
    lemma_covered_below_is_total_len(ranges, end);
    lemma_covered_below_at_most(ranges, end);
}

proof fn lemma_covered_below_at_most(ranges: Seq<ChunkRange>, end: nat)
    requires
        forall|i: int| 0 <= i < end ==> #[trigger] coverage(ranges, i) <= 1,
    ensures
        covered_below(ranges, end) <= end,
    decreases end,
{
    if end > 0 {
        lemma_covered_below_at_most(ranges, (end - 1) as nat);
        assert(coverage(ranges, end - 1) <= 1);
    }
}

} // verus!
