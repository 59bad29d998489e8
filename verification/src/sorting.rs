//! Sorting by the position at which things start.

use vstd::prelude::*;

use crate::chunk_item::ChunkItem;
use crate::chunk_iterator::ChunkRange;

verus! {

/// Something that starts at a position of the file.
pub trait Starts: Copy {
    /// The position.
    spec fn start_position(self) -> u64;

    /// The position.
    fn starts_at(&self) -> (r: u64)
        ensures
            r == self.start_position(),
    ;
}

impl Starts for ChunkRange {
    open spec fn start_position(self) -> u64 {
        self.start
    }

    fn starts_at(&self) -> (r: u64) {
        self.start
    }
}

impl Starts for ChunkItem {
    open spec fn start_position(self) -> u64 {
        self.chunk_info.range.start
    }

    fn starts_at(&self) -> (r: u64) {
        self.chunk_info.range.start
    }
}

/// Whether nothing in `items` starts before something that comes earlier.
pub open spec fn is_sorted<T: Starts>(items: Seq<T>) -> bool {
    forall|i: int, j: int|
        0 <= i < j < items.len() ==> (#[trigger] items[i]).start_position() <= (
        #[trigger] items[j]).start_position()
}

/// Those of `items` that start at `position`.
pub open spec fn starting_at<T: Starts>(items: Seq<T>, position: u64) -> Seq<T> {
    items.filter(|item: T| item.start_position() == position)
}

/// Whether `sorted` is `items` sorted by start, where things that start together keep their
/// order.
pub open spec fn is_stable_sort<T: Starts>(items: Seq<T>, sorted: Seq<T>) -> bool {
    &&& is_sorted(sorted)
    &&& sorted.to_multiset() == items.to_multiset()
    &&& forall|position: u64| #[trigger]
        starting_at(sorted, position) == starting_at(items, position)
}

/// Inserting behind all that start no later keeps order.
proof fn lemma_insert_sorted<T: Starts>(items: Seq<T>, sorted: Seq<T>, at: int, item: T)
    requires
        is_stable_sort(items, sorted),
        0 <= at <= sorted.len(),
        forall|j: int|
            0 <= j < at ==> (#[trigger] sorted[j]).start_position() <= item.start_position(),
        forall|j: int|
            at <= j < sorted.len() ==> (#[trigger] sorted[j]).start_position()
                > item.start_position(),
    ensures
        is_stable_sort(items.push(item), sorted.insert(at, item)),
{
    broadcast use vstd::seq_lib::group_to_multiset_ensures;

    let next = sorted.insert(at, item);
    let left = sorted.take(at);
    let right = sorted.skip(at);
    assert(sorted =~= left + right);
    assert(next =~= left + seq![item] + right);
    assert(next.to_multiset() =~= items.push(item).to_multiset());
    assert forall|position: u64| #[trigger]
        starting_at(next, position) == starting_at(items.push(item), position) by {
        let p = |x: T| x.start_position() == position;
        Seq::filter_distributes_over_add(left + seq![item], right, p);
        Seq::filter_distributes_over_add(left, seq![item], p);
        Seq::filter_distributes_over_add(left, right, p);
        Seq::filter_distributes_over_add(items, seq![item], p);
        assert(items.push(item) =~= items + seq![item]);
        assert(starting_at(sorted, position) == starting_at(items, position));
        if item.start_position() == position {
            assert forall|j: int| 0 <= j < right.len() implies !p(#[trigger] right[j]) by {
                assert(right[j] == sorted[at + j]);
            }
            right.lemma_all_neg_filter_empty(p);
            assert(right.filter(p) =~= Seq::empty());
            assert(left.filter(p) + seq![item].filter(p) + right.filter(p) =~= left.filter(p)
                + right.filter(p) + seq![item].filter(p));
        } else {
            seq![item].lemma_all_neg_filter_empty(p);
            assert(seq![item].filter(p) =~= Seq::empty());
            assert(left.filter(p) + seq![item].filter(p) + right.filter(p) =~= left.filter(p)
                + right.filter(p) + seq![item].filter(p));
        }
    }
}

/// `items` sorted by start: each is put behind those of the earlier that start no later.
pub open spec fn sorted<T: Starts>(items: Seq<T>) -> Seq<T>
    decreases items.len(),
{
    if items.len() == 0 {
        items
    } else {
        let front = sorted(items.drop_last());
        front.insert(count_up_to(front, items.last().start_position()), items.last())
    }
}

/// How many of the first of `items` start no later than `position`.
pub open spec fn count_up_to<T: Starts>(items: Seq<T>, position: u64) -> int
    decreases items.len(),
{
    if items.len() == 0 {
        0
    } else if items.last().start_position() <= position {
        items.len() as int
    } else {
        count_up_to(items.drop_last(), position)
    }
}

proof fn lemma_count_up_to<T: Starts>(items: Seq<T>, position: u64)
    requires
        is_sorted(items),
    ensures
        0 <= count_up_to(items, position) <= items.len(),
        forall|j: int|
            0 <= j < count_up_to(items, position) ==> (#[trigger] items[j]).start_position()
                <= position,
        forall|j: int|
            count_up_to(items, position) <= j < items.len() ==> (
            #[trigger] items[j]).start_position() > position,
    decreases items.len(),
{
    if items.len() > 0 && items.last().start_position() > position {
        let front = items.drop_last();
        lemma_count_up_to(front, position);
        assert forall|j: int| 0 <= j < count_up_to(items, position) implies (
        #[trigger] items[j]).start_position() <= position by {
            assert(front[j] == items[j]);
        }
        assert forall|j: int| count_up_to(items, position) <= j < items.len() implies (
        #[trigger] items[j]).start_position() > position by {
            if j < front.len() {
                assert(front[j] == items[j]);
            }
        }
    }
}

/// There is a way to sort.
pub proof fn lemma_sorted<T: Starts>(items: Seq<T>)
    ensures
        is_stable_sort(items, sorted(items)),
    decreases items.len(),
{
    if items.len() > 0 {
        let front = sorted(items.drop_last());
        lemma_sorted(items.drop_last());
        let position = items.last().start_position();
        lemma_count_up_to(front, position);
        lemma_insert_sorted(
            items.drop_last(),
            front,
            count_up_to(front, position),
            items.last(),
        );
        assert(items.drop_last().push(items.last()) =~= items);
    }
}

/// Sorts by start; things that start together keep their order.
pub fn sort_by_start<T: Starts>(items: &Vec<T>) -> (sorted: Vec<T>)
    ensures
        is_stable_sort(items@, sorted@),
{
    let mut sorted: Vec<T> = Vec::new();
    assert(items@.take(0) =~= sorted@);
    for k in 0..items.len()
        invariant
            is_stable_sort(items@.take(k as int), sorted@),
    {
        let item = items[k];
        let start: u64 = item.starts_at();
        let mut at: usize = sorted.len();
        while at > 0 && sorted[at - 1].starts_at() > start
            invariant
                at <= sorted@.len(),
                start == item.start_position(),
                is_sorted(sorted@),
                forall|j: int|
                    at <= j < sorted@.len() ==> (#[trigger] sorted@[j]).start_position() > start,
            decreases at,
        {
            at = at - 1;
        }
        proof {
            lemma_insert_sorted(items@.take(k as int), sorted@, at as int, item);
            assert(items@.take(k as int).push(item) =~= items@.take(k + 1));
        }
        sorted.insert(at, item);
    }
    assert(items@.take(items@.len() as int) =~= items@);
    sorted
}

} // verus!
