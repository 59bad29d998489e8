//! What a download keeps true while it goes on: every byte of the file is counted once, as left
//! to take, as being downloaded, or as finished.

use vstd::prelude::*;

use crate::chunk_item::ChunkItem;
use crate::chunk_iterator;
use crate::chunk_iterator::{ChunkData, ChunkDataView, ChunkInfo, ChunkRange};
use crate::chunk_manager;
use crate::chunk_manager::{ChunkEndStep, ChunkManagerView, DownloadRun};
use crate::downloader::DownloadingEndCause;
use crate::spans;

verus! {

/// The number of bytes that are still to come of the chunks in `downloading`.
pub open spec fn outstanding(downloading: Map<usize, ChunkItem>) -> int
    decreases downloading.dom().len(),
    when downloading.dom().finite()
{
    if downloading.dom().len() == 0 {
        0
    } else {
        let k = downloading.dom().choose();
        downloading[k].outstanding() + outstanding(downloading.remove(k))
    }
}

/// Any chunk may be counted first.
pub proof fn lemma_outstanding_remove(downloading: Map<usize, ChunkItem>, k: usize)
    requires
        downloading.dom().finite(),
        downloading.contains_key(k),
    ensures
        outstanding(downloading) == downloading[k].outstanding() + outstanding(
            downloading.remove(k),
        ),
    decreases downloading.dom().len(),
{
    let first = downloading.dom().choose();
    assert(downloading.dom().contains(first));
    if first != k {
        lemma_outstanding_remove(downloading.remove(first), k);
        lemma_outstanding_remove(downloading.remove(k), first);
        assert(downloading.remove(first).remove(k) =~= downloading.remove(k).remove(first));
    }
}

proof fn lemma_outstanding_insert(downloading: Map<usize, ChunkItem>, k: usize, item: ChunkItem)
    requires
        downloading.dom().finite(),
    ensures
        outstanding(downloading.insert(k, item)) == item.outstanding() + (
        if downloading.contains_key(k) {
            outstanding(downloading) - downloading[k].outstanding()
        } else {
            outstanding(downloading)
        }),
{
    let next = downloading.insert(k, item);
    lemma_outstanding_remove(next, k);
    if downloading.contains_key(k) {
        lemma_outstanding_remove(downloading, k);
        assert(next.remove(k) =~= downloading.remove(k));
    } else {
        assert(next.remove(k) =~= downloading);
    }
}

/// Whether what is left is laid out in the file without overlap.
pub open spec fn is_laid_out(data: ChunkDataView, content_length: int) -> bool {
    &&& 0 < content_length <= u64::MAX
    &&& data.chunk_size > 0
    &&& 0 <= data.iter_count <= usize::MAX
    &&& spans::all_below(data.ranges, content_length)
    &&& spans::all_below(chunk_iterator::ranges_of(data.incomplete), content_length)
    &&& forall|i: int| #[trigger] data.coverage(i) <= 1
    &&& forall|j: int|
        0 <= j < data.incomplete.len() ==> (#[trigger] data.incomplete[j]).range.length() > 0
            && data.incomplete[j].index <= data.iter_count
    &&& forall|i: int, j: int|
        0 <= i < j < data.incomplete.len() ==> (#[trigger] data.incomplete[i]).index != (
        #[trigger] data.incomplete[j]).index
}

/// Whether two ranges share a position.
pub open spec fn overlap(a: ChunkRange, b: ChunkRange) -> bool {
    a.length() > 0 && b.length() > 0 && a.start <= b.end && b.start <= a.end
}

/// Ranges have every position at most once if no two of them overlap, and only then.
proof fn lemma_no_overlap(ranges: Seq<ChunkRange>)
    requires
        chunk_iterator::all_valid(ranges),
    ensures
        (forall|i: int| #[trigger] spans::coverage(ranges, i) <= 1) <==> (forall|j: int, k: int|
            0 <= j < k < ranges.len() ==> !overlap(#[trigger] ranges[j], #[trigger] ranges[k])),
    decreases ranges.len(),
{
    if ranges.len() > 0 {
        let front = ranges.drop_last();
        let last = ranges.len() - 1;
        assert(chunk_iterator::all_valid(front));
        lemma_no_overlap(front);
        if forall|i: int| #[trigger] spans::coverage(ranges, i) <= 1 {
            assert forall|i: int| #[trigger] spans::coverage(front, i) <= 1 by {
                assert(spans::coverage(ranges, i) <= 1);
            }
            assert forall|j: int, k: int| 0 <= j < k < ranges.len() implies !overlap(
                #[trigger] ranges[j],
                #[trigger] ranges[k],
            ) by {
                if k < last {
                    assert(front[j] == ranges[j] && front[k] == ranges[k]);
                } else if overlap(ranges[j], ranges[last]) {
                    let i = if ranges[j].start >= ranges[last].start {
                        ranges[j].start as int
                    } else {
                        ranges[last].start as int
                    };
                    assert(front[j].has(i) && ranges[last].has(i));
                    spans::lemma_coverage_bounds(front, i);
                    assert(spans::coverage(ranges, i) <= 1);
                }
            }
        } else {
            let i = choose|i: int| #[trigger] spans::coverage(ranges, i) > 1;
            if spans::coverage(front, i) > 1 {
                let (j, k) = choose|j: int, k: int|
                    0 <= j < k < front.len() && overlap(#[trigger] front[j], #[trigger] front[k]);
                assert(overlap(ranges[j], ranges[k]));
            } else {
                spans::lemma_coverage_bounds(front, i);
                let j = choose|j: int| 0 <= j < front.len() && (#[trigger] front[j]).has(i);
                assert(ranges[j] == front[j]);
                assert(overlap(ranges[j], ranges[last]));
            }
        }
    }
}

/// Whether two ranges share a position.
fn ranges_overlap(a: &ChunkRange, b: &ChunkRange) -> (r: bool)
    ensures
        r == overlap(*a, *b),
{
    a.start <= a.end && b.start <= b.end && a.start <= b.end && b.start <= a.end
}

/// Whether every one of `ranges` is valid and ends below `end`.
fn ranges_are_below(ranges: &Vec<ChunkRange>, end: u64) -> (r: bool)
    ensures
        r == spans::all_below(ranges@, end as int),
{
    for k in 0..ranges.len()
        invariant
            forall|j: int|
                0 <= j < k ==> (#[trigger] ranges@[j]).valid() && ranges@[j].end < end,
    {
        let range = ranges[k];
        if range.end >= end || (range.start > range.end && range.start - range.end > 1) {
            assert(!(ranges@[k as int].valid() && ranges@[k as int].end < end));
            return false;
        }
    }
    true
}

/// Whether no two of `ranges` overlap.
fn no_ranges_overlap(ranges: &Vec<ChunkRange>) -> (r: bool)
    ensures
        r == (forall|j: int, k: int|
            0 <= j < k < ranges@.len() ==> !overlap(#[trigger] ranges@[j], #[trigger] ranges@[k])),
{
    for k in 0..ranges.len()
        invariant
            forall|i: int, j: int|
                0 <= i < j < k ==> !overlap(#[trigger] ranges@[i], #[trigger] ranges@[j]),
    {
        for j in 0..k
            invariant
                k < ranges@.len(),
                forall|i: int|
                    0 <= i < j ==> !overlap(#[trigger] ranges@[i], ranges@[k as int]),
        {
            if ranges_overlap(&ranges[j], &ranges[k]) {
                assert(overlap(ranges@[j as int], ranges@[k as int]));
                return false;
            }
        }
    }
    true
}

/// Whether the chunks are not empty, are numbered up to `iter_count`, and have different numbers.
fn are_numbered(chunks: &Vec<ChunkInfo>, iter_count: usize) -> (r: bool)
    ensures
        r == ((forall|j: int|
            0 <= j < chunks@.len() ==> (#[trigger] chunks@[j]).range.length() > 0
                && chunks@[j].index <= iter_count) && (forall|i: int, j: int|
            0 <= i < j < chunks@.len() ==> (#[trigger] chunks@[i]).index != (
            #[trigger] chunks@[j]).index)),
{
    for k in 0..chunks.len()
        invariant
            forall|j: int|
                0 <= j < k ==> (#[trigger] chunks@[j]).range.length() > 0 && chunks@[j].index
                    <= iter_count,
            forall|i: int, j: int|
                0 <= i < j < k ==> (#[trigger] chunks@[i]).index != (#[trigger] chunks@[j]).index,
    {
        let chunk = chunks[k];
        if chunk.range.start > chunk.range.end || chunk.index > iter_count {
            assert(!(chunks@[k as int].range.length() > 0 && chunks@[k as int].index
                <= iter_count));
            return false;
        }
        for j in 0..k
            invariant
                k < chunks@.len(),
                chunk == chunks@[k as int],
                forall|i: int| 0 <= i < j ==> (#[trigger] chunks@[i]).index != chunk.index,
        {
            if chunks[j].index == chunk.index {
                assert(chunks@[j as int].index == chunks@[k as int].index);
                return false;
            }
        }
    }
    true
}

/// Whether what is left is laid out in a file of `content_length` bytes without overlap.
///
/// An archive that says so can be gone on from.
pub fn fits_the_file(data: &ChunkData, content_length: u64) -> (r: bool)
    ensures
        r == is_laid_out(data@, content_length as int),
{
    let mut ranges: Vec<ChunkRange> = Vec::new();
    let ghost incomplete = chunk_iterator::ranges_of(data@.incomplete);
    for k in 0..data.last_incomplete_chunks.len()
        invariant
            incomplete == chunk_iterator::ranges_of(data.last_incomplete_chunks@),
            ranges@ == incomplete.take(k as int),
    {
        ranges.push(data.last_incomplete_chunks[k].range);
        assert(ranges@ =~= incomplete.take(k + 1));
    }
    assert(ranges@ =~= incomplete);
    if content_length == 0 || data.remaining.chunk_size == 0 || !ranges_are_below(
        &data.remaining.ranges,
        content_length,
    ) || !ranges_are_below(&ranges, content_length) || !are_numbered(
        &data.last_incomplete_chunks,
        data.iter_count,
    ) {
        return false;
    }
    let mut all = data.remaining.ranges.clone();
    assert(all@ =~= data@.ranges);
    all.append(&mut ranges);
    proof {
        assert(all@ =~= data@.ranges + incomplete);
        assert forall|k: int| 0 <= k < all@.len() implies (#[trigger] all@[k]).valid() by {
            if k < data@.ranges.len() {
                assert(data@.ranges[k].valid());
            } else {
                assert(incomplete[k - data@.ranges.len()].valid());
            }
        }
        lemma_no_overlap(all@);
        assert forall|i: int| #[trigger] data@.coverage(i) == spans::coverage(all@, i) by {
            spans::lemma_concat(data@.ranges, incomplete, i);
        }
        if forall|i: int| #[trigger] data@.coverage(i) <= 1 {
            assert forall|i: int| #[trigger] spans::coverage(all@, i) <= 1 by {
                assert(data@.coverage(i) <= 1);
            }
        }
    }
    no_ranges_overlap(&all)
}

/// Whether the chunks that are being downloaded are laid out in the file without overlap, apart
/// from what is left.
pub open spec fn is_consistent(m: ChunkManagerView) -> bool {
    &&& is_laid_out(m.data, m.content_length)
    &&& m.downloading.dom().finite()
    &&& chunk_manager::are_apart(m.downloading)
    &&& chunk_manager::end_below(m.downloading, m.content_length)
    &&& forall|k: usize| #[trigger]
        m.downloading.contains_key(k) ==> m.downloading[k].valid()
            && m.downloading[k].chunk_info.index == k && k <= m.data.iter_count
    &&& forall|k: usize, i: int|
        #![trigger m.downloading.contains_key(k), m.data.coverage(i)]
        m.downloading.contains_key(k) && m.downloading[k].chunk_info.range.has(i)
            ==> m.data.coverage(i) == 0
    &&& forall|j: int|
        0 <= j < m.data.incomplete.len() ==> !m.downloading.contains_key(
            (#[trigger] m.data.incomplete[j]).index,
        )
}

/// Whether the count of bytes that have come agrees with what is not left and not outstanding.
pub open spec fn is_accounted(m: ChunkManagerView) -> bool {
    m.downloaded_len == m.content_length - m.data.remaining_len() - outstanding(m.downloading)
}

/// Whether position `i` is left to take or being downloaded.
pub open spec fn is_pending(m: ChunkManagerView, i: int) -> bool {
    m.data.coverage(i) > 0 || is_downloading(m.downloading, i)
}

/// Whether position `i` is in a chunk that is being downloaded.
pub open spec fn is_downloading(downloading: Map<usize, ChunkItem>, i: int) -> bool {
    exists|k: usize| #[trigger]
        downloading.contains_key(k) && downloading[k].chunk_info.range.has(i)
}

/// Before any chunk is taken, the whole file is left, and nothing has come.
pub proof fn law_fresh_download(m: ChunkManagerView, chunk_size: nat, total_len: u64)
    requires
        chunk_size > 0,
        total_len > 0,
        m.content_length == total_len,
        m.data == chunk_iterator::fresh_data(chunk_size, total_len),
        m.downloading == Map::<usize, ChunkItem>::empty(),
        m.downloaded_len == 0,
    ensures
        is_consistent(m),
        is_accounted(m),
        forall|i: int| #[trigger] is_pending(m, i) <==> 0 <= i < total_len,
{
    let range = ChunkRange { start: 0, end: (total_len - 1) as u64 };
    assert(chunk_iterator::ranges_of(m.data.incomplete) =~= Seq::empty());
    assert forall|i: int| #[trigger] m.data.coverage(i) == spans::hits(range, i) by {
        spans::lemma_single(range, i);
    }
    spans::lemma_single(range, 0);
    assert forall|i: int| #[trigger] is_pending(m, i) <==> 0 <= i < total_len by {
        assert(m.data.coverage(i) == spans::hits(range, i));
    }
}

/// Taking a chunk keeps every byte counted once, and leaves the same bytes to come.
pub proof fn law_next_chunk(m: ChunkManagerView)
    requires
        is_consistent(m),
        m.data.can_draw(),
    ensures
        is_consistent(m.after_next_chunk()),
        is_accounted(m) ==> is_accounted(m.after_next_chunk()),
        forall|i: int| #[trigger] is_pending(m.after_next_chunk(), i) <==> is_pending(m, i),
        m.data.drawn() matches Some(chunk) ==> !m.downloading.contains_key(chunk.index)
            && chunk.range.length() > 0,
{
    let next = m.after_next_chunk();
    assert forall|k: int| 0 <= k < m.data.ranges.len() implies (
    #[trigger] m.data.ranges[k]).valid() by {}
    lemma_draw_is_laid_out(m.data, m.content_length);
    chunk_iterator::law_draw_moves_one_chunk(m.data, 0);
    match m.data.drawn() {
        Some(chunk) => {
            let item = ChunkItem { chunk_info: chunk, downloaded_len: 0 };
            assert(!m.downloading.contains_key(chunk.index)) by {
                if m.data.incomplete.len() > 0 {
                    assert(m.data.incomplete[m.data.incomplete.len() - 1] == chunk);
                }
            }
            lemma_outstanding_insert(m.downloading, chunk.index, item);
            assert forall|i: int| chunk.range.has(i) implies m.data.coverage(i) == 1 by {
                chunk_iterator::law_draw_moves_one_chunk(m.data, i);
                lemma_coverage_not_negative(next.data, i);
            }
            assert forall|k: usize| #[trigger] m.downloading.contains_key(k) implies
                m.downloading[k].chunk_info.range.end < chunk.range.start || chunk.range.end
                < m.downloading[k].chunk_info.range.start by {
                let range = m.downloading[k].chunk_info.range;
                if range.end >= chunk.range.start && chunk.range.end >= range.start {
                    let i = if range.start >= chunk.range.start {
                        range.start as int
                    } else {
                        chunk.range.start as int
                    };
                    assert(range.has(i) && chunk.range.has(i));
                    assert(m.data.coverage(i) == 0);
                }
            }
            assert forall|k: usize, i: int|
                #![trigger next.downloading.contains_key(k), next.data.coverage(i)]
                next.downloading.contains_key(k)
                    && next.downloading[k].chunk_info.range.has(i) implies next.data.coverage(i)
                == 0 by {
                chunk_iterator::law_draw_moves_one_chunk(m.data, i);
                lemma_coverage_not_negative(next.data, i);
                if k != chunk.index {
                    assert(m.downloading.contains_key(k));
                    assert(m.data.coverage(i) == 0);
                } else {
                    assert(m.data.coverage(i) == 1);
                }
            }
            assert forall|i: int| #[trigger] is_pending(next, i) <==> is_pending(m, i) by {
                chunk_iterator::law_draw_moves_one_chunk(m.data, i);
                lemma_coverage_not_negative(next.data, i);
                if is_downloading(m.downloading, i) {
                    let k = choose|k: usize| #[trigger]
                        m.downloading.contains_key(k) && m.downloading[k].chunk_info.range.has(i);
                    assert(next.downloading.contains_key(k));
                    assert(next.downloading[k].chunk_info.range.has(i));
                }
                if chunk.range.has(i) {
                    assert(next.downloading.contains_key(chunk.index));
                    assert(next.downloading[chunk.index].chunk_info.range.has(i));
                }
                if is_downloading(next.downloading, i) && !chunk.range.has(i) {
                    let k = choose|k: usize| #[trigger]
                        next.downloading.contains_key(k)
                            && next.downloading[k].chunk_info.range.has(i);
                    assert(m.downloading.contains_key(k));
                }
            }
            assert forall|j: int| 0 <= j < next.data.incomplete.len() implies
                !next.downloading.contains_key((#[trigger] next.data.incomplete[j]).index) by {
                assert(next.data.incomplete[j] == m.data.incomplete[j]);
                assert(m.data.incomplete[m.data.incomplete.len() - 1] == chunk);
            }
        },
        None => {
            assert forall|i: int| next.data.coverage(i) == 0 by {
                lemma_nothing_left(next.data, i);
            }
            assert forall|i: int| #[trigger] is_pending(next, i) <==> is_pending(m, i) by {
                chunk_iterator::law_draw_moves_one_chunk(m.data, i);
                assert(next.data.coverage(i) == 0);
            }
            lemma_nothing_left(next.data, 0);
        },
    }
}

proof fn lemma_coverage_not_negative(data: ChunkDataView, i: int)
    ensures
        data.coverage(i) >= 0,
{
    spans::lemma_coverage_bounds(data.ranges, i);
    spans::lemma_coverage_bounds(chunk_iterator::ranges_of(data.incomplete), i);
}

proof fn lemma_nothing_left(data: ChunkDataView, i: int)
    requires
        data.ranges.len() == 0,
        data.incomplete.len() == 0,
    ensures
        data.coverage(i) == 0,
        data.remaining_len() == 0,
{
    assert(chunk_iterator::ranges_of(data.incomplete).len() == 0);
}

/// Taking a chunk leaves the rest laid out.
proof fn lemma_draw_is_laid_out(data: ChunkDataView, content_length: int)
    requires
        is_laid_out(data, content_length),
        data.can_draw(),
    ensures
        is_laid_out(data.after_draw(), content_length),
        data.drawn() matches Some(chunk) ==> {
            &&& chunk.range.valid()
            &&& chunk.range.length() > 0
            &&& chunk.range.end < content_length
            &&& chunk.index <= data.after_draw().iter_count
            &&& data.incomplete.len() == 0 ==> chunk.index == data.iter_count + 1
        },
        data.drawn() is None ==> data.after_draw().ranges.len() == 0
            && data.after_draw().incomplete.len() == 0,
{
    let next = data.after_draw();
    assert forall|k: int| 0 <= k < data.ranges.len() implies (
    #[trigger] data.ranges[k]).valid() by {}
    assert forall|i: int| #[trigger] next.coverage(i) <= 1 by {
        chunk_iterator::law_draw_moves_one_chunk(data, i);
        if data.drawn() is None {
            chunk_iterator::law_first_chunk_is_moved(data.ranges, data.chunk_size, i);
            lemma_nothing_left(next, i);
        }
        assert(data.coverage(i) <= 1);
    }
    if data.incomplete.len() > 0 {
        let incomplete = chunk_iterator::ranges_of(data.incomplete);
        let last = data.incomplete.len() - 1;
        assert(incomplete[last] == data.incomplete[last].range);
        assert forall|k: int| 0 <= k < chunk_iterator::ranges_of(next.incomplete).len() implies (
        #[trigger] chunk_iterator::ranges_of(next.incomplete)[k]).valid()
            && chunk_iterator::ranges_of(next.incomplete)[k].end < content_length by {
            assert(incomplete[k] == chunk_iterator::ranges_of(next.incomplete)[k]);
        }
        assert(data.incomplete[last].range.length() > 0);
    } else {
        chunk_iterator::law_first_chunk_is_moved(data.ranges, data.chunk_size, 0);
        chunk_iterator::lemma_after_first_chunk_is_below(
            data.ranges,
            data.chunk_size,
            content_length,
        );
    }
}

/// Counting bytes that come keeps every byte counted once, and leaves the same bytes to come.
pub proof fn law_receive_len(m: ChunkManagerView, index: usize, len: usize)
    requires
        is_consistent(m),
        m.downloading.contains_key(index),
        m.downloading[index].outstanding() >= len,
    ensures
        ({
            let next = m.after_received(index, len);
            &&& is_consistent(next)
            &&& is_accounted(m) ==> is_accounted(next)
            &&& forall|i: int| #[trigger] is_pending(next, i) <==> is_pending(m, i)
        }),
{
    let item = ChunkItem {
        downloaded_len: (m.downloading[index].downloaded_len + len) as u64,
        ..m.downloading[index]
    };
    let next = m.after_received(index, len);
    lemma_outstanding_insert(m.downloading, index, item);
    assert forall|i: int| #[trigger] is_pending(next, i) <==> is_pending(m, i) by {
        if is_downloading(m.downloading, i) {
            let k = choose|k: usize| #[trigger]
                m.downloading.contains_key(k) && m.downloading[k].chunk_info.range.has(i);
            assert(next.downloading.contains_key(k));
        }
        if is_downloading(next.downloading, i) {
            let k = choose|k: usize| #[trigger]
                next.downloading.contains_key(k) && next.downloading[k].chunk_info.range.has(i);
            assert(m.downloading.contains_key(k));
        }
    }
    assert forall|k: usize, i: int|
        #![trigger next.downloading.contains_key(k), next.data.coverage(i)]
        next.downloading.contains_key(k) && next.downloading[k].chunk_info.range.has(i) implies
        next.data.coverage(i) == 0 by {
        assert(m.downloading.contains_key(k));
    }
    assert forall|j: usize, k: usize| #[trigger]
        next.downloading.contains_key(j) && #[trigger] next.downloading.contains_key(k) && j
            != k implies next.downloading[j].chunk_info.range.end
        < next.downloading[k].chunk_info.range.start || next.downloading[k].chunk_info.range.end
        < next.downloading[j].chunk_info.range.start by {
        assert(m.downloading.contains_key(j) && m.downloading.contains_key(k));
    }
}

/// A chunk of which all has come leaves the download: its bytes are to come no longer, and no
/// others.
pub proof fn law_chunk_finished(m: ChunkManagerView, index: usize)
    requires
        is_consistent(m),
        m.downloading.contains_key(index),
        m.downloading[index].outstanding() == 0,
    ensures
        ({
            let next = m.after_removal(index);
            &&& is_consistent(next)
            &&& is_accounted(m) ==> is_accounted(next)
            &&& forall|i: int| #[trigger]
                is_pending(next, i) <==> is_pending(m, i)
                    && !m.downloading[index].chunk_info.range.has(i)
        }),
{
    let next = m.after_removal(index);
    let range = m.downloading[index].chunk_info.range;
    lemma_outstanding_remove(m.downloading, index);
    assert forall|i: int| #[trigger] is_pending(next, i) <==> is_pending(m, i) && !range.has(i) by {
        lemma_coverage_not_negative(m.data, i);
        if is_downloading(m.downloading, i) && !range.has(i) {
            let k = choose|k: usize| #[trigger]
                m.downloading.contains_key(k) && m.downloading[k].chunk_info.range.has(i);
            assert(next.downloading.contains_key(k));
        }
        if range.has(i) {
            assert(m.data.coverage(i) == 0);
        }
        if is_downloading(next.downloading, i) {
            let k = choose|k: usize| #[trigger]
                next.downloading.contains_key(k) && next.downloading[k].chunk_info.range.has(i);
            assert(m.downloading.contains_key(k) && m.downloading.contains_key(index));
        }
    }
    assert forall|k: usize, i: int|
        #![trigger next.downloading.contains_key(k), next.data.coverage(i)]
        next.downloading.contains_key(k) && next.downloading[k].chunk_info.range.has(i) implies
        next.data.coverage(i) == 0 by {
        assert(m.downloading.contains_key(k));
    }
    assert forall|j: usize, k: usize| #[trigger]
        next.downloading.contains_key(j) && #[trigger] next.downloading.contains_key(k) && j
            != k implies next.downloading[j].chunk_info.range.end
        < next.downloading[k].chunk_info.range.start || next.downloading[k].chunk_info.range.end
        < next.downloading[j].chunk_info.range.start by {
        assert(m.downloading.contains_key(j) && m.downloading.contains_key(k));
    }
}

/// Bytes that come count for their chunk and for the download, as many as there are, and for
/// nothing else.
pub proof fn law_bytes_count_for_their_chunk(
    m: ChunkManagerView,
    index: usize,
    len: usize,
    other: usize,
)
    requires
        m.downloading.contains_key(index),
        m.downloading[index].downloaded_len + len <= u64::MAX,
        other != index,
    ensures
        ({
            let after = m.after_received(index, len);
            &&& after.downloading.contains_key(index)
            &&& after.downloading[index].downloaded_len - m.downloading[index].downloaded_len == len
            &&& after.downloading[index].chunk_info == m.downloading[index].chunk_info
            &&& after.downloading.contains_key(other) <==> m.downloading.contains_key(other)
            &&& m.downloading.contains_key(other) ==> after.downloading[other]
                == m.downloading[other]
            &&& after.downloaded_len - m.downloaded_len == len
            &&& after == (ChunkManagerView {
                downloading: after.downloading,
                downloaded_len: after.downloaded_len,
                ..m
            })
        }),
{
}

/// A chunk that is no longer counted leaves all others, and what is left to take, as they are.
pub proof fn law_removal_takes_one_chunk(m: ChunkManagerView, index: usize, other: usize)
    requires
        m.downloading.dom().finite(),
        other != index,
    ensures
        ({
            let after = m.after_removal(index);
            &&& !after.downloading.contains_key(index)
            &&& after.downloading.contains_key(other) <==> m.downloading.contains_key(other)
            &&& m.downloading.contains_key(other) ==> after.downloading[other]
                == m.downloading[other]
            &&& m.current_count() - after.current_count() == (if m.downloading.contains_key(index) {
                1int
            } else {
                0
            })
            &&& after == (ChunkManagerView { downloading: after.downloading, ..m })
        }),
{
}

/// When no chunk can be taken and none is being downloaded, no byte is to come, and the number
/// of bytes that have come is the length of the file.
pub proof fn law_finished_download_is_whole(m: ChunkManagerView)
    requires
        is_consistent(m),
        m.data.drawn() is None,
        m.current_count() == 0,
    ensures
        forall|i: int| !#[trigger] is_pending(m, i),
        is_accounted(m) ==> m.downloaded_len == m.content_length,
{
    assert forall|k: int| 0 <= k < m.data.ranges.len() implies (
    #[trigger] m.data.ranges[k]).valid() by {}
    assert forall|i: int| !#[trigger] is_pending(m, i) by {
        chunk_iterator::law_draw_moves_one_chunk(m.data, i);
        if is_downloading(m.downloading, i) {
            let k = choose|k: usize| #[trigger]
                m.downloading.contains_key(k) && m.downloading[k].chunk_info.range.has(i);
            assert(m.downloading.dom().contains(k));
        }
    }
    chunk_iterator::law_draw_moves_one_chunk(m.data, 0);
}

/// Taking several chunks keeps every byte counted once, and leaves the same bytes to come. Each
/// is counted among those that are being downloaded. If there are too few, none is left.
pub proof fn law_next_chunks(m: ChunkManagerView, n: nat)
    requires
        is_consistent(m),
        m.can_number(n),
    ensures
        is_consistent(m.after_next_chunks(n)),
        is_accounted(m) ==> is_accounted(m.after_next_chunks(n)),
        forall|i: int| #[trigger] is_pending(m.after_next_chunks(n), i) <==> is_pending(m, i),
        m.after_next_chunks(n).current_count() == m.current_count() + m.next_chunks(n).len(),
        m.next_chunks(n).len() <= n,
        m.runs_out(n) ==> m.after_next_chunks(n).data.drawn() is None,
        !m.runs_out(n) ==> m.next_chunks(n).len() == n,
        m.data.drawn() is None ==> m.after_next_chunks(n).data.drawn() is None,
        m.after_next_chunks(n).superfluities == m.superfluities,
        m.after_next_chunks(n).content_length == m.content_length,
        forall|k: int|
            0 <= k < m.next_chunks(n).len() ==> m.after_next_chunks(n).downloading.contains_key(
                (#[trigger] m.next_chunks(n)[k]).index,
            ) && m.after_next_chunks(n).downloading[m.next_chunks(n)[k].index] == (ChunkItem {
                chunk_info: m.next_chunks(n)[k],
                downloaded_len: 0,
            }),
        forall|k: usize| #[trigger]
            m.downloading.contains_key(k) ==> m.after_next_chunks(n).downloading.contains_key(k)
                && m.after_next_chunks(n).downloading[k] == m.downloading[k],
    decreases n,
{
    if n > 0 {
        let next = m.after_next_chunk();
        law_next_chunk(m);
        lemma_draw_is_laid_out(m.data, m.content_length);
        match m.data.drawn() {
            None => {
                assert(chunk_iterator::skip_empty(next.data.ranges).len() == 0);
            },
            Some(chunk) => {
                let rest = (n - 1) as nat;
                law_next_chunks(next, rest);
                assert(m.next_chunks(n) =~= seq![chunk] + next.next_chunks(rest));
                assert forall|k: int| 0 <= k < m.next_chunks(n).len() implies m.after_next_chunks(
                    n,
                ).downloading.contains_key((#[trigger] m.next_chunks(n)[k]).index)
                    && m.after_next_chunks(n).downloading[m.next_chunks(n)[k].index] == (
                ChunkItem { chunk_info: m.next_chunks(n)[k], downloaded_len: 0 }) by {
                    if k == 0 {
                        assert(next.downloading.contains_key(chunk.index));
                    } else {
                        assert(m.next_chunks(n)[k] == next.next_chunks(rest)[k - 1]);
                    }
                }
                assert forall|k: usize| #[trigger] m.downloading.contains_key(k) implies
                    m.after_next_chunks(n).downloading.contains_key(k) && m.after_next_chunks(
                    n,
                ).downloading[k] == m.downloading[k] by {
                    assert(next.downloading.contains_key(k));
                }
            },
        }
    }
}

/// The chunks that are taken are exactly those by which the chunks that are being downloaded grow,
/// each once. There are fewer than were asked for only if nothing is left, and that is known.
pub proof fn law_taken_chunks_are_handed_out(m: ChunkManagerView, n: nat)
    requires
        is_consistent(m),
        m.can_number(n),
    ensures
        ({
            let after = m.after_next_chunks(n);
            let chunks = m.next_chunks(n);
            &&& chunk_manager::grows_by(m.downloading, after.downloading, chunks)
            &&& after.current_count() == m.current_count() + chunks.len()
            &&& chunks.len() <= n
            &&& chunks.len() < n ==> !is_left(after.data)
            &&& m.runs_out(n) <==> chunks.len() < n
            &&& after == (ChunkManagerView {
                data: after.data,
                downloading: after.downloading,
                ..m
            })
        }),
    decreases n,
{
    law_next_chunks(m, n);
    let after = m.after_next_chunks(n);
    let chunks = m.next_chunks(n);
    if n > 0 {
        law_next_chunk(m);
        match m.data.drawn() {
            Some(chunk) => {
                let next = m.after_next_chunk();
                let rest = (n - 1) as nat;
                let later = next.next_chunks(rest);
                law_taken_chunks_are_handed_out(next, rest);
                assert(chunks =~= seq![chunk] + later);
                assert(next.downloading.contains_key(chunk.index));
                assert forall|k: int| 0 <= k < chunks.len() implies !m.downloading.contains_key(
                    (#[trigger] chunks[k]).index,
                ) by {
                    if k > 0 {
                        assert(chunks[k] == later[k - 1]);
                        assert(!next.downloading.contains_key(later[k - 1].index));
                    }
                }
                assert forall|i: int, j: int| 0 <= i < j < chunks.len() implies (
                #[trigger] chunks[i]).index != (#[trigger] chunks[j]).index by {
                    assert(chunks[j] == later[j - 1]);
                    assert(!next.downloading.contains_key(later[j - 1].index));
                    if i > 0 {
                        assert(chunks[i] == later[i - 1]);
                    }
                }
            },
            None => {
                assert(chunks =~= Seq::empty());
            },
        }
    } else {
        assert(chunks =~= Seq::empty());
    }
    chunk_manager::lemma_taken_chunks_are_new(m, n);
    if chunks.len() < n {
        lemma_left_is_drawn(after.data, after.content_length);
    }
}

/// Whether some position is left to take.
pub open spec fn is_left(data: ChunkDataView) -> bool {
    exists|i: int| #[trigger] data.coverage(i) > 0
}

/// There is a next chunk exactly if some position is left to take.
proof fn lemma_left_is_drawn(data: ChunkDataView, content_length: int)
    requires
        is_laid_out(data, content_length),
    ensures
        data.drawn() is Some <==> is_left(data),
{
    assert forall|k: int| 0 <= k < data.ranges.len() implies (
    #[trigger] data.ranges[k]).valid() by {}
    match data.drawn() {
        Some(chunk) => {
            let i = chunk.range.start as int;
            chunk_iterator::law_draw_moves_one_chunk(data, i);
            lemma_coverage_not_negative(data.after_draw(), i);
            if data.incomplete.len() > 0 {
                assert(data.incomplete[data.incomplete.len() - 1].range.length() > 0);
            } else {
                chunk_iterator::law_first_chunk_is_moved(data.ranges, data.chunk_size, i);
            }
            assert(data.coverage(i) > 0);
        },
        None => {
            assert forall|i: int| #[trigger] data.coverage(i) == 0 by {
                chunk_iterator::law_draw_moves_one_chunk(data, i);
            }
        },
    }
}

/// When there are to be `count` connections, the chunks that are to be downloaded too are exactly
/// those by which the chunks that are being downloaded grow, each once: as many as there are
/// connections missing, unless nothing is left. If there are too many connections, they are
/// counted, and none is to be downloaded too. At zero nothing changes but that no more changes are
/// listened for.
pub proof fn law_missing_connections_get_a_chunk_each<E>(
    m: ChunkManagerView,
    run: DownloadRun<E>,
    count: int,
)
    requires
        is_consistent(m),
        0 <= count,
        m.can_number_for(count),
    ensures
        ({
            let after = m.after_connection_count(count);
            let chunks = m.chunks_for(count);
            let run_after = run.after_connection_count(m, count);
            &&& chunk_manager::grows_by(m.downloading, after.downloading, chunks)
            &&& after.current_count() == m.current_count() + chunks.len()
            &&& count == 0 ==> after == m && chunks.len() == 0
            &&& count > 0 && m.current_count() > count ==> {
                &&& chunks.len() == 0
                &&& after.superfluities == m.current_count() - count
            }
            &&& count > 0 && m.current_count() <= count ==> {
                &&& chunks.len() == count - m.current_count() || chunks.len() < count
                    - m.current_count() && !is_left(after.data)
                &&& after.superfluities == 0
            }
            &&& after == (ChunkManagerView {
                data: after.data,
                downloading: after.downloading,
                superfluities: after.superfluities,
                ..m
            })
            &&& run_after.is_listening <==> run.is_listening && count > 0
            &&& run_after.is_iter_finished <==> run.is_iter_finished || count
                > after.current_count()
            &&& run_after.result == run.result
        }),
{
    let chunks = m.chunks_for(count);
    if count > 0 && m.current_count() <= count {
        law_taken_chunks_are_handed_out(m, (count - m.current_count()) as nat);
    } else {
        assert(chunks =~= Seq::empty());
    }
}

/// When a chunk is finished, its connection is given another chunk exactly if the chunks that are
/// being downloaded grow, namely by that one. So it is, unless there are too many connections or
/// nothing is left. The download is finished when nothing more can be taken and no other chunk
/// is being downloaded.
pub proof fn law_connection_of_a_finished_chunk<E>(
    m: ChunkManagerView,
    run: DownloadRun<E>,
    left: int,
)
    requires
        is_consistent(m),
        m.data.can_draw(),
        0 <= m.superfluities,
    ensures
        ({
            let after = m.after_chunk_finished(run.is_iter_finished);
            let step = m.finished_step(run.is_iter_finished, left);
            let run_after = run.after_chunk_finished(m);
            let is_over = run.is_iter_finished || m.superfluities == 0 && !is_left(m.data);
            &&& chunk_manager::grows_by(
                m.downloading,
                after.downloading,
                match step {
                    ChunkEndStep::Start(chunk) => seq![chunk],
                    _ => Seq::empty(),
                },
            )
            &&& step is Start <==> !is_over && m.superfluities == 0
            &&& step is Finish <==> is_over && left == 0
            &&& after.superfluities == (if !run.is_iter_finished && m.superfluities > 0 {
                m.superfluities - 1
            } else {
                m.superfluities
            })
            &&& step matches ChunkEndStep::Start(chunk) ==> forall|i: int| #[trigger]
                m.data.coverage(i) == after.data.coverage(i) + spans::hits(chunk.range, i)
            &&& !(step is Start) ==> forall|i: int| #[trigger]
                m.data.coverage(i) == after.data.coverage(i)
            &&& after == (ChunkManagerView {
                data: after.data,
                downloading: after.downloading,
                superfluities: after.superfluities,
                ..m
            })
            &&& run_after.is_iter_finished == is_over
            &&& run_after.is_listening == run.is_listening
            &&& run_after.result == run.result
        }),
{
    let after = m.after_chunk_finished(run.is_iter_finished);
    let step = m.finished_step(run.is_iter_finished, left);
    lemma_left_is_drawn(m.data, m.content_length);
    law_next_chunk(m);
    assert forall|k: int| 0 <= k < m.data.ranges.len() implies (
    #[trigger] m.data.ranges[k]).valid() by {}
    match step {
        ChunkEndStep::Start(chunk) => {
            let chunks = seq![chunk];
            assert(chunks[0] == chunk);
            assert(chunk_manager::has_number(chunks, chunk.index));
            assert forall|i: int| #[trigger] m.data.coverage(i) == after.data.coverage(i)
                + spans::hits(chunk.range, i) by {
                chunk_iterator::law_draw_moves_one_chunk(m.data, i);
            }
        },
        _ => {
            if !run.is_iter_finished && m.superfluities == 0 {
                assert forall|i: int| #[trigger] m.data.coverage(i) == after.data.coverage(i) by {
                    chunk_iterator::law_draw_moves_one_chunk(m.data, i);
                    lemma_draw_is_laid_out(m.data, m.content_length);
                    lemma_nothing_left(after.data, i);
                }
            }
        },
    }
}

/// Something that happens while a download is not disturbed.
pub enum RunStep {
    /// These many bytes of a chunk came.
    Received { index: usize, len: usize },
    /// A chunk of which all has come was written.
    Finished { index: usize },
    /// There are to be these many connections.
    ConnectionCount { count: u8 },
    /// Chunks are to have this size.
    ChunkSize { chunk_size: usize },
}

/// How far a download has come.
pub struct RunState {
    pub manager: ChunkManagerView,
    pub run: DownloadRun<()>,
}

impl RunState {
    /// Whether the step can be met: no more bytes come than are outstanding, a chunk is finished
    /// when none is, and the chunks do not run out of numbers.
    pub open spec fn can_take(self, step: RunStep) -> bool {
        let m = self.manager;
        match step {
            RunStep::Received { index, len } => m.downloading.contains_key(index)
                && m.downloading[index].outstanding() >= len,
            RunStep::Finished { index } => {
                &&& m.downloading.contains_key(index)
                &&& m.downloading[index].outstanding() == 0
                &&& m.after_removal(index).data.can_draw()
            },
            RunStep::ConnectionCount { count } => m.can_number_for(count as int),
            RunStep::ChunkSize { chunk_size } => chunk_size > 0,
        }
    }

    /// The state after the step.
    pub open spec fn after(self, step: RunStep) -> RunState {
        let m = self.manager;
        match step {
            RunStep::Received { index, len } => RunState {
                manager: m.after_received(index, len),
                ..self
            },
            RunStep::Finished { index } => RunState {
                manager: m.after_removal(index).after_chunk_finished(self.run.is_iter_finished),
                run: self.run.after_chunk_finished(m.after_removal(index)),
            },
            RunStep::ConnectionCount { count } => RunState {
                manager: m.after_connection_count(count as int),
                run: self.run.after_connection_count(m, count as int),
            },
            RunStep::ChunkSize { chunk_size } => RunState {
                manager: ChunkManagerView {
                    data: ChunkDataView { chunk_size: chunk_size as nat, ..m.data },
                    ..m
                },
                ..self
            },
        }
    }

    /// Whether the download is finished with the step.
    pub open spec fn finishes_with(self, step: RunStep) -> bool {
        step matches RunStep::Finished { index } && {
            let m = self.manager.after_removal(index);
            m.finished_step(self.run.is_iter_finished, m.current_count()) is Finish
        }
    }

    /// How many chunks with position `i` the step finishes.
    pub open spec fn finishes(self, step: RunStep, i: int) -> int {
        match step {
            RunStep::Finished { index } => spans::hits(
                self.manager.downloading[index].chunk_info.range,
                i,
            ),
            _ => 0,
        }
    }

    /// Whether every byte is counted once, and the download goes on: some chunk is being
    /// downloaded, more than there are connections too many, or else it is known that none is
    /// left to take.
    pub open spec fn goes_on(self) -> bool {
        let m = self.manager;
        &&& is_consistent(m)
        &&& is_accounted(m)
        &&& 0 <= m.superfluities
        &&& 1 <= m.current_count() <= u8::MAX
        &&& self.run.is_iter_finished ==> m.data.drawn() is None
        &&& !self.run.is_iter_finished ==> m.current_count() > m.superfluities
    }

    /// Whether all has come: nothing is left to take or being downloaded, and as many bytes were
    /// counted as the file has.
    pub open spec fn is_whole(self) -> bool {
        let m = self.manager;
        &&& m.current_count() == 0
        &&& m.downloaded_len == m.content_length
        &&& forall|i: int| !#[trigger] is_pending(m, i)
    }
}

/// One if position `i` is left to take or being downloaded, and otherwise zero.
pub open spec fn pending_count(m: ChunkManagerView, i: int) -> int {
    if is_pending(m, i) {
        1
    } else {
        0
    }
}

/// A download that has begun with what is left in `m`.
pub open spec fn begun(m: ChunkManagerView) -> RunState {
    RunState {
        manager: m.after_next_chunks(m.connection_count as nat),
        run: DownloadRun {
            is_iter_finished: m.runs_out(m.connection_count as nat),
            is_listening: true,
            result: Ok(DownloadingEndCause::DownloadFinished),
        },
    }
}

/// A download that begins with at least one chunk goes on.
pub proof fn law_begun_download_goes_on(m: ChunkManagerView)
    requires
        is_consistent(m),
        is_accounted(m),
        m.superfluities == 0,
        m.downloading == Map::<usize, ChunkItem>::empty(),
        0 < m.connection_count <= u8::MAX,
        m.can_number(m.connection_count as nat),
        m.data.drawn() is Some,
    ensures
        begun(m).goes_on(),
        forall|i: int| #[trigger]
            is_pending(m.after_next_chunks(m.connection_count as nat), i) <==> is_pending(m, i),
{
    law_next_chunks(m, m.connection_count as nat);
    assert(m.next_chunks(m.connection_count as nat).len() >= 1);
}

/// A download that is not disturbed goes on after every step, or it is finished and whole.
///
/// So it never waits for nothing, there are never more chunks than the largest number of
/// connections, and the count of bytes reaches the length of the file exactly at the end.
pub proof fn law_download_goes_on_until_whole(state: RunState, step: RunStep)
    requires
        state.goes_on(),
        state.can_take(step),
    ensures
        if state.finishes_with(step) {
            state.after(step).is_whole()
        } else {
            state.after(step).goes_on()
        },
        state.after(step).manager.content_length == state.manager.content_length,
        forall|i: int| #[trigger]
            pending_count(state.after(step).manager, i) == pending_count(state.manager, i)
                - state.finishes(step, i),
{
    let m = state.manager;
    let next = state.after(step).manager;
    match step {
        RunStep::Received { index, len } => {
            law_receive_len(m, index, len);
            assert(next.downloading.dom() =~= m.downloading.dom());
        },
        RunStep::Finished { index } => {
            law_chunk_finished(m, index);
            let removed = m.after_removal(index);
            assert(removed.current_count() == m.current_count() - 1);
            assert forall|i: int| #[trigger] pending_count(removed, i) == pending_count(m, i)
                - state.finishes(step, i) by {
                if m.downloading[index].chunk_info.range.has(i) {
                    assert(is_downloading(m.downloading, i));
                }
            }
            if !state.run.is_iter_finished && removed.superfluities == 0 {
                law_next_chunk(removed);
                lemma_draw_is_laid_out(removed.data, removed.content_length);
                if removed.data.drawn() is None {
                    assert(chunk_iterator::skip_empty(next.data.ranges).len() == 0);
                }
            }
            if state.finishes_with(step) {
                law_finished_download_is_whole(next);
            }
            assert forall|i: int| #[trigger] pending_count(next, i) == pending_count(m, i)
                - state.finishes(step, i) by {
                assert(pending_count(removed, i) == pending_count(m, i) - state.finishes(step, i));
                if !state.run.is_iter_finished && removed.superfluities == 0 {
                    assert(is_pending(next, i) <==> is_pending(removed, i));
                } else {
                    assert(next.data == removed.data);
                    assert(next.downloading == removed.downloading);
                }
            }
        },
        RunStep::ConnectionCount { count } => {
            if count > 0 && m.current_count() <= count {
                let missing = (count - m.current_count()) as nat;
                law_next_chunks(m, missing);
                let taken = m.after_next_chunks(missing);
                assert forall|i: int| #[trigger] is_pending(next, i) <==> is_pending(m, i) by {
                    assert(is_pending(taken, i) <==> is_pending(m, i));
                }
            } else {
                assert forall|i: int| #[trigger] is_pending(next, i) <==> is_pending(m, i) by {}
            }
        },
        RunStep::ChunkSize { chunk_size } => {
            assert forall|i: int| #[trigger] next.data.coverage(i) == m.data.coverage(i) by {}
            assert forall|i: int| #[trigger] is_pending(next, i) <==> is_pending(m, i) by {}
        },
    }
}

/// The number of chunks that are being downloaded, without those after which a connection ends
/// because there are too many.
pub open spec fn lasting_connections(m: ChunkManagerView) -> int {
    m.current_count() - m.superfluities
}

/// Once there are to be `count` connections, as many last, unless no chunk is left for some of
/// them. No other step changes how many last, unless no chunk is left.
pub proof fn law_connections_follow_the_count(state: RunState, step: RunStep)
    requires
        state.goes_on(),
        state.can_take(step),
    ensures
        ({
            let before = lasting_connections(state.manager);
            let after = lasting_connections(state.after(step).manager);
            match step {
                RunStep::ConnectionCount { count } if count > 0 => {
                    &&& after <= count
                    &&& after < count ==> state.after(step).run.is_iter_finished
                },
                RunStep::Finished { .. } => {
                    &&& before - 1 <= after <= before
                    &&& after < before ==> state.after(step).run.is_iter_finished
                },
                _ => after == before,
            }
        }),
{
    let m = state.manager;
    match step {
        RunStep::Received { index, len } => {
            assert(m.after_received(index, len).downloading.dom() =~= m.downloading.dom());
        },
        RunStep::Finished { index } => {
            law_chunk_finished(m, index);
            let removed = m.after_removal(index);
            assert(removed.current_count() == m.current_count() - 1);
            law_next_chunk(removed);
        },
        RunStep::ConnectionCount { count } => {
            if count > 0 && m.current_count() <= count {
                law_next_chunks(m, (count - m.current_count()) as nat);
            }
        },
        RunStep::ChunkSize { .. } => {},
    }
}

/// The state after `steps`.
pub open spec fn after_steps(state: RunState, steps: Seq<RunStep>) -> RunState
    decreases steps.len(),
{
    if steps.len() == 0 {
        state
    } else {
        after_steps(state, steps.drop_last()).after(steps.last())
    }
}

/// Whether the steps can be met one after the other, and no step but the last finishes the
/// download.
pub open spec fn can_take_steps(state: RunState, steps: Seq<RunStep>) -> bool
    decreases steps.len(),
{
    steps.len() > 0 ==> {
        let front = steps.drop_last();
        &&& can_take_steps(state, front)
        &&& after_steps(state, front).can_take(steps.last())
        &&& !ends_with_finish(state, front)
    }
}

/// Whether the last of the steps finishes the download.
pub open spec fn ends_with_finish(state: RunState, steps: Seq<RunStep>) -> bool {
    steps.len() > 0 && after_steps(state, steps.drop_last()).finishes_with(steps.last())
}

/// How many chunks with position `i` the steps finish.
pub open spec fn finished_count(state: RunState, steps: Seq<RunStep>, i: int) -> int
    decreases steps.len(),
{
    if steps.len() == 0 {
        0
    } else {
        finished_count(state, steps.drop_last(), i) + after_steps(
            state,
            steps.drop_last(),
        ).finishes(steps.last(), i)
    }
}

/// Where there are `n` chunks to take, as many of `count` are taken as there are.
proof fn lemma_taken_count(m: ChunkManagerView, n: nat, count: nat)
    requires
        !m.runs_out(n),
        m.runs_out(n + 1),
    ensures
        m.next_chunks(count).len() == (if count <= n {
            count
        } else {
            n
        }),
        m.runs_out(count) <==> count > n,
    decreases count,
{
    reveal_with_fuel(ChunkManagerView::runs_out, 2);
    if count > 0 && n > 0 {
        lemma_taken_count(m.after_next_chunk(), (n - 1) as nat, (count - 1) as nat);
    }
}

/// A download begins with a chunk for each connection at once, or with all chunks if there are
/// fewer; with none if there is none.
pub proof fn law_download_begins_in_parallel(m: ChunkManagerView, n: nat)
    requires
        is_consistent(m),
        m.downloading == Map::<usize, ChunkItem>::empty(),
        m.connection_count > 0,
        m.can_number(m.connection_count as nat),
        !m.runs_out(n),
        m.runs_out(n + 1),
    ensures
        ({
            let started = if m.connection_count <= n {
                m.connection_count
            } else {
                n as int
            };
            &&& m.next_chunks(m.connection_count as nat).len() == started
            &&& m.after_next_chunks(m.connection_count as nat).current_count() == started
        }),
{
    lemma_taken_count(m, n, m.connection_count as nat);
    law_next_chunks(m, m.connection_count as nat);
}

/// Whether the step leaves the number of connections that there are to be.
pub open spec fn keeps_count(step: RunStep) -> bool {
    step matches RunStep::ConnectionCount { count } ==> count == 0
}

/// While the number of connections is not changed, never more chunks are being downloaded than
/// before.
pub proof fn law_chunks_never_rise(state: RunState, step: RunStep)
    requires
        state.goes_on(),
        state.can_take(step),
        keeps_count(step),
    ensures
        state.after(step).manager.current_count() <= state.manager.current_count(),
{
    let m = state.manager;
    match step {
        RunStep::Received { index, len } => {
            assert(m.after_received(index, len).downloading.dom() =~= m.downloading.dom());
        },
        RunStep::Finished { index } => {
            let removed = m.after_removal(index);
            assert(removed.current_count() == m.current_count() - 1);
        },
        _ => {},
    }
}

/// While the number of connections is not changed, never more chunks are being downloaded than
/// there are connections, however the download goes on.
pub proof fn law_never_more_chunks_than_connections(m: ChunkManagerView, steps: Seq<RunStep>)
    requires
        is_consistent(m),
        is_accounted(m),
        m.superfluities == 0,
        m.downloading == Map::<usize, ChunkItem>::empty(),
        0 < m.connection_count <= u8::MAX,
        m.can_number(m.connection_count as nat),
        m.data.drawn() is Some,
        can_take_steps(begun(m), steps),
        forall|k: int| 0 <= k < steps.len() ==> keeps_count(#[trigger] steps[k]),
    ensures
        after_steps(begun(m), steps).manager.current_count() <= m.connection_count,
    decreases steps.len(),
{
    law_begun_download_goes_on(m);
    law_next_chunks(m, m.connection_count as nat);
    if steps.len() > 0 {
        let front = steps.drop_last();
        assert forall|k: int| 0 <= k < front.len() implies keeps_count(#[trigger] front[k]) by {
            assert(front[k] == steps[k]);
        }
        law_never_more_chunks_than_connections(m, front);
        law_every_byte_comes_once(begun(m), front);
        assert(keeps_count(steps[steps.len() - 1]));
        law_chunks_never_rise(after_steps(begun(m), front), steps.last());
    }
}

/// However a download goes on, each position that was to come is in exactly one chunk: one that
/// was finished, one that is being downloaded, or one that is left to take. When the download
/// is finished, each was in exactly one chunk that was finished, and the count of bytes is the
/// length of the file.
pub proof fn law_every_byte_comes_once(state: RunState, steps: Seq<RunStep>)
    requires
        state.goes_on(),
        can_take_steps(state, steps),
    ensures
        forall|i: int| #[trigger]
            finished_count(state, steps, i) + pending_count(after_steps(state, steps).manager, i)
                == pending_count(state.manager, i),
        if ends_with_finish(state, steps) {
            &&& after_steps(state, steps).is_whole()
            &&& forall|i: int| #[trigger]
                finished_count(state, steps, i) == pending_count(state.manager, i)
        } else {
            after_steps(state, steps).goes_on()
        },
        after_steps(state, steps).manager.content_length == state.manager.content_length,
    decreases steps.len(),
{
    if steps.len() > 0 {
        let front = steps.drop_last();
        let before = after_steps(state, front);
        law_every_byte_comes_once(state, front);
        law_download_goes_on_until_whole(before, steps.last());
        assert forall|i: int| #[trigger] finished_count(state, steps, i) + pending_count(
            after_steps(state, steps).manager,
            i,
        ) == pending_count(state.manager, i) by {
            assert(finished_count(state, front, i) + pending_count(before.manager, i)
                == pending_count(state.manager, i));
            assert(pending_count(before.after(steps.last()).manager, i) == pending_count(
                before.manager,
                i,
            ) - before.finishes(steps.last(), i));
        }
        if ends_with_finish(state, steps) {
            assert forall|i: int| #[trigger] finished_count(state, steps, i) == pending_count(
                state.manager,
                i,
            ) by {
                assert(!is_pending(after_steps(state, steps).manager, i));
                assert(finished_count(state, steps, i) + pending_count(
                    after_steps(state, steps).manager,
                    i,
                ) == pending_count(state.manager, i));
            }
        }
    }
}

/// What disturbs a download first decides how it ends, whatever disturbs it later.
pub proof fn law_first_disturbance_counts<E>(
    run: DownloadRun<E>,
    first: Result<DownloadingEndCause, E>,
    second: Result<DownloadingEndCause, E>,
)
    requires
        run.undisturbed(),
        first != Ok::<DownloadingEndCause, E>(DownloadingEndCause::DownloadFinished),
    ensures
        run.after_disturbance(first).result == first,
        !run.after_disturbance(first).undisturbed(),
        run.after_disturbance(first).is_iter_finished == run.is_iter_finished,
        run.after_disturbance(first).is_listening == run.is_listening,
        run.after_disturbance(first).after_disturbance(second) == run.after_disturbance(first),
{
}

} // verus!
