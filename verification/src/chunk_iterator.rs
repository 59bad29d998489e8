//! How a file is cut into chunks: the byte ranges that nobody downloads yet, and the order in
//! which chunks are taken from them.

use vstd::prelude::*;

use crate::header_fields;
use crate::spans;

verus! {

/// An inclusive range of byte positions.
///
/// A range whose `end` lies one below its `start` is empty.
#[derive(Debug, Copy, Clone)]
pub struct ChunkRange {
    pub start: u64,
    pub end: u64,
}

impl ChunkRange {
    /// The number of positions in the range.
    pub open spec fn length(self) -> int {
        self.end - self.start + 1
    }

    /// Whether the range is not inverted, and ends below the largest 64-bit position, as every
    /// range in a file whose length fits in 64 bits does.
    pub open spec fn valid(self) -> bool {
        self.start <= self.end + 1 <= u64::MAX
    }

    /// Whether position `i` lies in the range.
    pub open spec fn has(self, i: int) -> bool {
        self.start <= i <= self.end
    }

    /// Creates the range from `start` to `end`, both included.
    pub fn new(start: u64, end: u64) -> (r: Self)
        requires
            start <= end,
        ensures
            r == (ChunkRange { start, end }),
    {
        Self { start, end }
    }

    /// The number of positions in the range.
    pub fn len(&self) -> (n: u64)
        requires
            0 <= self.length() <= u64::MAX,
        ensures
            n == self.length(),
    {
        if self.end < self.start {
            0
        } else {
            (self.end - self.start) + 1
        }
    }

    /// The value of a `Range` field that asks for the range.
    pub fn to_range_header(&self) -> (r: String)
        ensures
            r@ == header_fields::range_text(self.start, self.end),
    {
        header_fields::range_value(self.start, self.end)
    }

    /// Creates the range of `len` positions that begins at `start`.
    pub fn from_len(start: u64, len: u64) -> (r: Self)
        requires
            1 <= start + len <= u64::MAX,
        ensures
            r.start == start,
            r.length() == len,
    {
        Self { start, end: start + len - 1 }
    }
}

/// A chunk: its number, and the range that it covers.
#[derive(Debug, Copy, Clone)]
pub struct ChunkInfo {
    pub index: usize,
    pub range: ChunkRange,
}

/// The ranges that no chunk was taken from yet, and the size of the chunks to take.
#[derive(Debug)]
pub struct RemainingChunks {
    pub chunk_size: usize,
    pub ranges: Vec<ChunkRange>,
}

/// A change of one entry of the remaining ranges.
enum ChunkHandle {
    Update { index: usize, range: ChunkRange },
    Split { index: usize, left: ChunkRange, right: ChunkRange },
    Remove { index: usize },
    Error,
}

impl ChunkHandle {
    /// Whether the change names an entry of `ranges`.
    spec fn applies_to(self, ranges: Seq<ChunkRange>) -> bool {
        match self {
            ChunkHandle::Update { index, .. } => index < ranges.len(),
            ChunkHandle::Split { index, .. } => index < ranges.len(),
            ChunkHandle::Remove { index } => index < ranges.len(),
            ChunkHandle::Error => true,
        }
    }

    /// What `ranges` become.
    spec fn applied(self, ranges: Seq<ChunkRange>) -> Seq<ChunkRange> {
        match self {
            ChunkHandle::Update { index, range } => ranges.update(index as int, range),
            ChunkHandle::Split { index, left, right } => {
                ranges.update(index as int, right).insert(index as int, left)
            },
            ChunkHandle::Remove { index } => ranges.remove(index as int),
            ChunkHandle::Error => ranges,
        }
    }
}

/// `ranges` without the empty ranges at its front.
pub open spec fn skip_empty(ranges: Seq<ChunkRange>) -> Seq<ChunkRange>
    decreases ranges.len(),
{
    if ranges.len() > 0 && ranges[0].length() == 0 {
        skip_empty(ranges.drop_first())
    } else {
        ranges
    }
}

/// The chunk at the front of `ranges`: the first `chunk_size` positions of the first range that
/// is not empty, or all of that range if it is shorter.
pub open spec fn first_chunk(ranges: Seq<ChunkRange>, chunk_size: nat) -> Option<ChunkRange> {
    let rest = skip_empty(ranges);
    if rest.len() == 0 {
        None
    } else if rest[0].length() <= chunk_size {
        Some(rest[0])
    } else {
        Some(ChunkRange { start: rest[0].start, end: (rest[0].start + chunk_size - 1) as u64 })
    }
}

/// What is left of `ranges` once the chunk at the front is taken.
pub open spec fn after_first_chunk(ranges: Seq<ChunkRange>, chunk_size: nat) -> Seq<ChunkRange> {
    let rest = skip_empty(ranges);
    if rest.len() == 0 {
        rest
    } else if rest[0].length() <= chunk_size {
        rest.drop_first()
    } else {
        rest.update(
            0,
            ChunkRange { start: (rest[0].start + chunk_size) as u64, end: rest[0].end },
        )
    }
}

/// Whether none of `ranges` is inverted.
pub open spec fn all_valid(ranges: Seq<ChunkRange>) -> bool {
    forall|k: int| 0 <= k < ranges.len() ==> (#[trigger] ranges[k]).valid()
}

impl RemainingChunks {
    /// Whether chunks have a size, and no range is inverted.
    pub open spec fn valid(self) -> bool {
        self.chunk_size > 0 && all_valid(self.ranges@)
    }

    /// All of a file of `total_len` bytes, to be taken in chunks of `chunk_size`.
    pub fn new(chunk_size: usize, total_len: u64) -> (r: Self)
        requires
            chunk_size > 0,
            total_len > 0,
        ensures
            r.chunk_size == chunk_size,
            r.ranges@ == seq![ChunkRange { start: 0, end: (total_len - 1) as u64 }],
            r.valid(),
    {
        Self { chunk_size, ranges: vec![ChunkRange::from_len(0, total_len)] }
    }

    /// Takes the chunk at the front, dropping the empty ranges before it.
    pub fn take_first(&mut self) -> (r: Option<ChunkRange>)
        requires
            old(self).valid(),
        ensures
            r == first_chunk(old(self).ranges@, old(self).chunk_size as nat),
            final(self).ranges@ == after_first_chunk(
                old(self).ranges@,
                old(self).chunk_size as nat,
            ),
            final(self).chunk_size == old(self).chunk_size,
            final(self).valid(),
        decreases old(self).ranges@.len(),
    {
        let chunk_size: u64 = self.chunk_size as u64;
        if self.ranges.len() == 0 {
            return None;
        }
        let range = self.ranges[0];
        let len: u64 = range.len();
        if len == 0 {
            self.handle(ChunkHandle::Remove { index: 0 });
            assert(self.ranges@ =~= old(self).ranges@.drop_first());
            return self.take_first();
        }
        let taken: u64 = if len <= chunk_size {
            self.handle(ChunkHandle::Remove { index: 0 });
            assert(self.ranges@ =~= old(self).ranges@.drop_first());
            len
        } else {
            self.handle(
                ChunkHandle::Update {
                    index: 0,
                    range: ChunkRange::new(range.start + chunk_size, range.end),
                },
            );
            chunk_size
        };
        Some(ChunkRange::from_len(range.start, taken))
    }

    /// Applies a change of one entry, and says whether there was one.
    fn handle(&mut self, handle: ChunkHandle) -> (changed: bool)
        requires
            handle.applies_to(old(self).ranges@),
        ensures
            final(self).ranges@ == handle.applied(old(self).ranges@),
            final(self).chunk_size == old(self).chunk_size,
            changed == !(handle is Error),
    {
        match handle {
            ChunkHandle::Update { index, range } => {
                self.ranges[index] = range;
            },
            ChunkHandle::Split { index, left, right } => {
                self.ranges[index] = right;
                self.ranges.insert(index, left);
            },
            ChunkHandle::Remove { index } => {
                self.ranges.remove(index);
            },
            ChunkHandle::Error => {
                return false;
            },
        }
        true
    }
}

impl Clone for RemainingChunks {
    /// The same ranges, to be taken in chunks of the same size.
    fn clone(&self) -> (r: Self)
        ensures
            r.chunk_size == self.chunk_size,
            r.ranges@ == self.ranges@,
    {
        let ranges = self.ranges.clone();
        assert(ranges@ =~= self.ranges@);
        Self { chunk_size: self.chunk_size, ranges }
    }
}

/// The plain values of [`ChunkData`].
#[verifier::ext_equal]
pub struct ChunkDataView {
    pub iter_count: int,
    pub chunk_size: nat,
    pub ranges: Seq<ChunkRange>,
    pub incomplete: Seq<ChunkInfo>,
}

/// The ranges of `chunks`.
pub open spec fn ranges_of(chunks: Seq<ChunkInfo>) -> Seq<ChunkRange> {
    chunks.map_values(|c: ChunkInfo| c.range)
}

impl ChunkDataView {
    /// The chunk that is taken next: the last incomplete chunk if there is one, and otherwise a
    /// new chunk at the front of the ranges, numbered one above the last number given.
    pub open spec fn drawn(self) -> Option<ChunkInfo> {
        if self.incomplete.len() > 0 {
            Some(self.incomplete.last())
        } else {
            match first_chunk(self.ranges, self.chunk_size) {
                Some(range) => Some(ChunkInfo { index: (self.iter_count + 1) as usize, range }),
                None => None,
            }
        }
    }

    /// Whether there is a number for that chunk.
    pub open spec fn can_draw(self) -> bool {
        ||| self.incomplete.len() > 0
        ||| first_chunk(self.ranges, self.chunk_size) is None
        ||| self.iter_count < usize::MAX
    }

    /// What is left once that chunk is taken.
    pub open spec fn after_draw(self) -> ChunkDataView {
        if self.incomplete.len() > 0 {
            ChunkDataView { incomplete: self.incomplete.drop_last(), ..self }
        } else {
            ChunkDataView {
                iter_count: if first_chunk(self.ranges, self.chunk_size) is Some {
                    self.iter_count + 1
                } else {
                    self.iter_count
                },
                ranges: after_first_chunk(self.ranges, self.chunk_size),
                ..self
            }
        }
    }

    /// The number of bytes in the ranges and in the incomplete chunks.
    pub open spec fn remaining_len(self) -> int {
        spans::total_len(self.ranges) + spans::total_len(ranges_of(self.incomplete))
    }

    /// How many of the ranges and of the incomplete chunks have position `i`.
    pub open spec fn coverage(self, i: int) -> int {
        spans::coverage(self.ranges, i) + spans::coverage(ranges_of(self.incomplete), i)
    }
}

/// What is left to download: the ranges that no chunk was taken from, and the chunks that an
/// earlier download took and did not finish.
#[derive(Debug)]
pub struct ChunkData {
    pub iter_count: usize,
    pub remaining: RemainingChunks,
    pub last_incomplete_chunks: Vec<ChunkInfo>,
}

impl View for ChunkData {
    type V = ChunkDataView;

    open spec fn view(&self) -> ChunkDataView {
        ChunkDataView {
            iter_count: self.iter_count as int,
            chunk_size: self.remaining.chunk_size as nat,
            ranges: self.remaining.ranges@,
            incomplete: self.last_incomplete_chunks@,
        }
    }
}

impl Clone for ChunkData {
    /// The same is left.
    fn clone(&self) -> (r: Self)
        ensures
            r@ == self@,
    {
        let last_incomplete_chunks = self.last_incomplete_chunks.clone();
        assert(last_incomplete_chunks@ =~= self.last_incomplete_chunks@);
        Self {
            iter_count: self.iter_count,
            remaining: self.remaining.clone(),
            last_incomplete_chunks,
        }
    }
}

impl ChunkData {
    /// The number of bytes that are left.
    pub fn remaining_len(&self) -> (len: u64)
        requires
            forall|k: int|
                0 <= k < self@.ranges.len() ==> (#[trigger] self@.ranges[k]).length() >= 0,
            forall|k: int|
                0 <= k < self@.incomplete.len() ==> (
                #[trigger] self@.incomplete[k]).range.length() >= 0,
            self@.remaining_len() <= u64::MAX,
        ensures
            len == self@.remaining_len(),
    {
        let mut len: u64 = 0;
        let ghost ranges = self@.ranges;
        let ghost incomplete = ranges_of(self@.incomplete);
        proof {
            assert(ranges.take(0) =~= Seq::<ChunkRange>::empty());
            assert(incomplete.take(0) =~= Seq::<ChunkRange>::empty());
            assert forall|k: int| 0 <= k < incomplete.len() implies (
            #[trigger] incomplete[k]).length() >= 0 by {
                assert(self@.incomplete[k].range.length() >= 0);
            }
            spans::lemma_total_len_not_negative(incomplete);
        }
        for k in 0..self.remaining.ranges.len()
            invariant
                ranges == self.remaining.ranges@,
                len == spans::total_len(ranges.take(k as int)),
                forall|j: int| 0 <= j < ranges.len() ==> (#[trigger] ranges[j]).length() >= 0,
                spans::total_len(ranges) <= u64::MAX,
        {
            proof {
                lemma_prefix_total_len(ranges, k as int);
            }
            len = len + self.remaining.ranges[k].len();
        }
        assert(ranges.take(ranges.len() as int) =~= ranges);
        let ghost first: int = len as int;
        for k in 0..self.last_incomplete_chunks.len()
            invariant
                incomplete == ranges_of(self.last_incomplete_chunks@),
                first >= 0,
                len == first + spans::total_len(incomplete.take(k as int)),
                forall|j: int|
                    0 <= j < incomplete.len() ==> (#[trigger] incomplete[j]).length() >= 0,
                first + spans::total_len(incomplete) <= u64::MAX,
        {
            proof {
                lemma_prefix_total_len(incomplete, k as int);
                assert(incomplete[k as int] == self.last_incomplete_chunks@[k as int].range);
            }
            len = len + self.last_incomplete_chunks[k].range.len();
        }
        assert(incomplete.take(incomplete.len() as int) =~= incomplete);
        len
    }

    /// Whether no range is left to take chunks from.
    pub fn no_chunk_remaining(&self) -> (b: bool)
        ensures
            b == (self@.ranges.len() == 0),
    {
        self.remaining.ranges.is_empty()
    }

    /// Takes the next chunk to download.
    pub fn next_chunk_range(&mut self) -> (r: Option<ChunkInfo>)
        requires
            old(self).remaining.valid(),
            old(self)@.can_draw(),
        ensures
            r == old(self)@.drawn(),
            final(self)@ == old(self)@.after_draw(),
            final(self).remaining.valid(),
    {
        if let Some(chunk) = self.last_incomplete_chunks.pop() {
            return Some(chunk);
        }
        let range = self.remaining.take_first();
        if let Some(range) = range {
            self.iter_count = self.iter_count + 1;
            let result = ChunkInfo { index: self.iter_count, range };
            Some(result)
        } else {
            None
        }
    }
}

/// The prefixes of `ranges` grow by one length at a time.
proof fn lemma_prefix_total_len(ranges: Seq<ChunkRange>, k: int)
    requires
        0 <= k < ranges.len(),
        forall|j: int| 0 <= j < ranges.len() ==> (#[trigger] ranges[j]).length() >= 0,
    ensures
        0 <= spans::total_len(ranges.take(k)),
        spans::total_len(ranges.take(k)) + ranges[k].length() == spans::total_len(
            ranges.take(k + 1),
        ),
        spans::total_len(ranges.take(k + 1)) <= spans::total_len(ranges),
    decreases ranges.len(),
{
    let front = ranges.drop_last();
    assert(ranges[ranges.len() - 1].length() >= 0);
    if k < front.len() {
        lemma_prefix_total_len(front, k);
        assert(ranges.take(k) =~= front.take(k));
        assert(ranges.take(k + 1) =~= front.take(k + 1));
    } else {
        assert(ranges.take(k) =~= front);
        assert(ranges.take(k + 1) =~= ranges);
        spans::lemma_total_len_not_negative(front);
    }
}

proof fn lemma_skip_empty(ranges: Seq<ChunkRange>, i: int)
    requires
        forall|k: int| 0 <= k < ranges.len() ==> (#[trigger] ranges[k]).valid(),
    ensures
        forall|k: int|
            0 <= k < skip_empty(ranges).len() ==> (#[trigger] skip_empty(ranges)[k]).valid()
                && ranges.contains(skip_empty(ranges)[k]),
        skip_empty(ranges).len() > 0 ==> skip_empty(ranges)[0].length() > 0,
        spans::coverage(skip_empty(ranges), i) == spans::coverage(ranges, i),
        spans::total_len(skip_empty(ranges)) == spans::total_len(ranges),
    decreases ranges.len(),
{
    if ranges.len() > 0 && ranges[0].length() == 0 {
        let rest = ranges.drop_first();
        lemma_skip_empty(rest, i);
        spans::lemma_remove(ranges, 0, i);
        assert(ranges.remove(0) =~= rest);
        assert forall|k: int| 0 <= k < skip_empty(rest).len() implies ranges.contains(
            #[trigger] skip_empty(rest)[k],
        ) by {
            let j = rest.index_of(skip_empty(rest)[k]);
            assert(ranges[j + 1] == skip_empty(rest)[k]);
        }
    } else if ranges.len() > 0 {
        assert(ranges[0].valid());
    }
}

/// Taking the chunk at the front moves its positions out of the ranges, and no others.
///
/// The chunk has at least one position and at most `chunk_size`. There is none only if no
/// position is left.
pub proof fn law_first_chunk_is_moved(ranges: Seq<ChunkRange>, chunk_size: nat, i: int)
    requires
        chunk_size > 0,
        forall|k: int| 0 <= k < ranges.len() ==> (#[trigger] ranges[k]).valid(),
    ensures
        match first_chunk(ranges, chunk_size) {
            Some(chunk) => {
                &&& 1 <= chunk.length() <= chunk_size
                &&& chunk.valid()
                &&& exists|k: int|
                    0 <= k < ranges.len() && (#[trigger] ranges[k]).start == chunk.start
                        && chunk.end <= ranges[k].end
                &&& spans::coverage(ranges, i) == spans::coverage(
                    after_first_chunk(ranges, chunk_size),
                    i,
                ) + spans::hits(chunk, i)
                &&& spans::total_len(ranges) == spans::total_len(
                    after_first_chunk(ranges, chunk_size),
                ) + chunk.length()
            },
            None => {
                &&& after_first_chunk(ranges, chunk_size).len() == 0
                &&& spans::coverage(ranges, i) == 0
                &&& spans::total_len(ranges) == 0
            },
        },
{
    lemma_skip_empty(ranges, i);
    let rest = skip_empty(ranges);
    if rest.len() > 0 {
        assert(rest[0].valid());
        assert(ranges.contains(rest[0]));
        let k = ranges.index_of(rest[0]);
        assert(ranges[k] == rest[0]);
        if rest[0].length() <= chunk_size {
            spans::lemma_remove(rest, 0, i);
            assert(rest.remove(0) =~= rest.drop_first());
        } else {
            spans::lemma_update(
                rest,
                0,
                ChunkRange { start: (rest[0].start + chunk_size) as u64, end: rest[0].end },
                i,
            );
        }
    }
}

/// What is left stays below `end`, as does the chunk at the front.
pub proof fn lemma_after_first_chunk_is_below(
    ranges: Seq<ChunkRange>,
    chunk_size: nat,
    end: int,
)
    requires
        chunk_size > 0,
        spans::all_below(ranges, end),
    ensures
        spans::all_below(after_first_chunk(ranges, chunk_size), end),
        first_chunk(ranges, chunk_size) matches Some(chunk) ==> chunk.end < end,
{
    lemma_skip_empty(ranges, 0);
    let rest = skip_empty(ranges);
    assert forall|k: int| 0 <= k < rest.len() implies (#[trigger] rest[k]).valid() && rest[k].end
        < end by {
        assert(ranges.contains(rest[k]));
        let j = ranges.index_of(rest[k]);
        assert(ranges[j] == rest[k]);
    }
    if rest.len() > 0 {
        assert(rest[0].valid() && rest[0].end < end);
    }
}

/// Taking the next chunk moves its positions out of what is left, and no others, and lowers the
/// number of bytes that are left by its length. There is no next chunk only if nothing is left.
pub proof fn law_draw_moves_one_chunk(data: ChunkDataView, i: int)
    requires
        data.chunk_size > 0,
        forall|k: int| 0 <= k < data.ranges.len() ==> (#[trigger] data.ranges[k]).valid(),
    ensures
        match data.drawn() {
            Some(chunk) => {
                &&& data.coverage(i) == data.after_draw().coverage(i) + spans::hits(chunk.range, i)
                &&& data.remaining_len() == data.after_draw().remaining_len()
                    + chunk.range.length()
            },
            None => data.coverage(i) == 0 && data.remaining_len() == 0,
        },
{
    if data.incomplete.len() > 0 {
        let chunks = ranges_of(data.incomplete);
        let last = chunks.len() - 1;
        spans::lemma_remove(chunks, last, i);
        assert(chunks.remove(last) =~= ranges_of(data.incomplete.drop_last()));
    } else {
        law_first_chunk_is_moved(data.ranges, data.chunk_size, i);
    }
}

/// Whether `chunk` is as much as fits in `chunk_size` from the front of the entry `k` of `ranges`,
/// which is the first that is not empty, and `rest` is what comes behind it.
pub open spec fn is_front_of(
    ranges: Seq<ChunkRange>,
    chunk_size: nat,
    k: int,
    chunk: ChunkRange,
    rest: Seq<ChunkRange>,
) -> bool {
    &&& 0 <= k < ranges.len()
    &&& forall|j: int| 0 <= j < k ==> (#[trigger] ranges[j]).length() == 0
    &&& chunk.start == ranges[k].start
    &&& chunk.length() <= chunk_size
    &&& chunk.length() == chunk_size || chunk.end == ranges[k].end
    &&& if chunk.end == ranges[k].end {
        rest == ranges.skip(k + 1)
    } else {
        &&& chunk.end < ranges[k].end
        &&& rest == ranges.skip(k).update(
            0,
            ChunkRange { start: (chunk.end + 1) as u64, end: ranges[k].end },
        )
    }
}

/// The chunk at the front is as large as it may be, and comes from the first range that has a
/// position; the ranges behind it stay as they are.
pub proof fn law_first_chunk_is_as_large_as_may_be(ranges: Seq<ChunkRange>, chunk_size: nat)
    requires
        chunk_size > 0,
        forall|k: int| 0 <= k < ranges.len() ==> (#[trigger] ranges[k]).valid(),
    ensures
        match first_chunk(ranges, chunk_size) {
            Some(chunk) => chunk.length() > 0 && exists|k: int|
                #[trigger] is_front_of(
                    ranges,
                    chunk_size,
                    k,
                    chunk,
                    after_first_chunk(ranges, chunk_size),
                ),
            None => forall|k: int| 0 <= k < ranges.len() ==> (#[trigger] ranges[k]).length() == 0,
        },
    decreases ranges.len(),
{
    if ranges.len() > 0 {
        assert(ranges[0].valid());
        if ranges[0].length() == 0 {
            let rest = ranges.drop_first();
            law_first_chunk_is_as_large_as_may_be(rest, chunk_size);
            match first_chunk(ranges, chunk_size) {
                Some(chunk) => {
                    let left = after_first_chunk(ranges, chunk_size);
                    let k = choose|k: int|
                        #[trigger] is_front_of(rest, chunk_size, k, chunk, left);
                    assert(rest[k] == ranges[k + 1]);
                    assert forall|j: int| 0 <= j < k + 1 implies (
                    #[trigger] ranges[j]).length() == 0 by {
                        if j > 0 {
                            assert(rest[j - 1].length() == 0);
                        }
                    }
                    assert(rest.skip(k) =~= ranges.skip(k + 1));
                    assert(rest.skip(k + 1) =~= ranges.skip(k + 2));
                    assert(is_front_of(ranges, chunk_size, k + 1, chunk, left));
                },
                None => {
                    assert forall|k: int| 0 <= k < ranges.len() implies (
                    #[trigger] ranges[k]).length() == 0 by {
                        if k > 0 {
                            assert(rest[k - 1].length() == 0);
                        }
                    }
                },
            }
        } else {
            let chunk = first_chunk(ranges, chunk_size)->Some_0;
            let left = after_first_chunk(ranges, chunk_size);
            assert(ranges.drop_first() =~= ranges.skip(1));
            assert(ranges.skip(0) =~= ranges);
            assert(is_front_of(ranges, chunk_size, 0, chunk, left));
        }
    }
}

/// A chunk that an earlier download did not finish is taken before any other, the last one first,
/// with the number that it had. A new chunk is taken only when there is none of these, and has the
/// next number.
pub proof fn law_incomplete_chunks_come_first(data: ChunkDataView)
    ensures
        ({
            let after = data.after_draw();
            &&& after.chunk_size == data.chunk_size
            &&& match data.drawn() {
                Some(chunk) => if data.incomplete.len() > 0 {
                    &&& data.incomplete == after.incomplete.push(chunk)
                    &&& after.ranges == data.ranges
                    &&& after.iter_count == data.iter_count
                } else {
                    &&& after.incomplete.len() == 0
                    &&& after.iter_count == data.iter_count + 1
                    &&& 0 <= data.iter_count < usize::MAX ==> chunk.index == after.iter_count
                    &&& first_chunk(data.ranges, data.chunk_size) == Some(chunk.range)
                    &&& after.ranges == after_first_chunk(data.ranges, data.chunk_size)
                },
                None => {
                    &&& data.incomplete.len() == 0
                    &&& after.incomplete.len() == 0
                    &&& after.iter_count == data.iter_count
                    &&& first_chunk(data.ranges, data.chunk_size) is None
                },
            }
        }),
{
    if data.incomplete.len() > 0 {
        assert(data.incomplete =~= data.after_draw().incomplete.push(data.incomplete.last()));
    }
}

/// All of a file of `total_len` bytes, before any chunk is taken.
pub open spec fn fresh_data(chunk_size: nat, total_len: u64) -> ChunkDataView {
    ChunkDataView {
        iter_count: 0,
        chunk_size,
        ranges: seq![ChunkRange { start: 0, end: (total_len - 1) as u64 }],
        incomplete: Seq::empty(),
    }
}

/// What is left of `data` once `n` chunks are taken.
pub open spec fn after_draws(data: ChunkDataView, n: nat) -> ChunkDataView
    decreases n,
{
    if n == 0 {
        data
    } else {
        after_draws(data, (n - 1) as nat).after_draw()
    }
}

/// The chunks of a file, in the order in which they are taken, are numbered from one and follow
/// each other without a gap; all have `chunk_size` bytes but the last, which has what is left.
pub proof fn law_fresh_chunks_tile_the_file(chunk_size: nat, total_len: u64, n: nat)
    requires
        0 < chunk_size,
        0 < total_len,
        n < usize::MAX,
    ensures
        n * chunk_size < total_len ==> after_draws(fresh_data(chunk_size, total_len), n).drawn()
            == Some(fresh_chunk(chunk_size, total_len, n)),
        n * chunk_size >= total_len ==> after_draws(
            fresh_data(chunk_size, total_len),
            n,
        ).drawn() is None,
{
    lemma_after_draws_of_fresh(chunk_size, total_len, n);
    let data = after_draws(fresh_data(chunk_size, total_len), n);
    assert((n + 1) * chunk_size == n * chunk_size + chunk_size) by (nonlinear_arith);
    reveal_with_fuel(skip_empty, 2);
    assert(n * chunk_size >= total_len ==> data.ranges =~= Seq::empty());
}

proof fn lemma_after_draws_of_fresh(chunk_size: nat, total_len: u64, n: nat)
    requires
        0 < chunk_size,
        0 < total_len,
        n < usize::MAX,
    ensures
        ({
            let data = after_draws(fresh_data(chunk_size, total_len), n);
            &&& data.chunk_size == chunk_size
            &&& data.incomplete == Seq::<ChunkInfo>::empty()
            &&& n * chunk_size < total_len ==> data.iter_count == n && data.ranges == seq![
                ChunkRange { start: (n * chunk_size) as u64, end: (total_len - 1) as u64 },
            ]
            &&& n * chunk_size >= total_len ==> data.ranges.len() == 0
        }),
    decreases n,
{
    assert(0 * chunk_size == 0);
    if n > 0 {
        let m = (n - 1) as nat;
        lemma_after_draws_of_fresh(chunk_size, total_len, m);
        assert(n * chunk_size == m * chunk_size + chunk_size) by (nonlinear_arith)
            requires
                n == m + 1,
        ;
        assert(m * chunk_size >= 0) by (nonlinear_arith);
        let before = after_draws(fresh_data(chunk_size, total_len), m);
        reveal_with_fuel(skip_empty, 2);
        if m * chunk_size < total_len {
            let front = ChunkRange {
                start: (m * chunk_size) as u64,
                end: (total_len - 1) as u64,
            };
            assert(before.ranges[0] == front);
            assert(skip_empty(before.ranges) == before.ranges);
            if n * chunk_size < total_len {
                assert(before.after_draw().ranges =~= seq![
                    ChunkRange { start: (n * chunk_size) as u64, end: (total_len - 1) as u64 },
                ]);
            }
        }
    }
}

/// The chunk of a file that is taken as the `k`th, counted from zero.
pub open spec fn fresh_chunk(chunk_size: nat, total_len: u64, k: nat) -> ChunkInfo {
    ChunkInfo {
        index: (k + 1) as usize,
        range: ChunkRange {
            start: (k * chunk_size) as u64,
            end: (if (k + 1) * chunk_size <= total_len {
                (k + 1) * chunk_size - 1
            } else {
                total_len - 1
            }) as u64,
        },
    }
}

/// The chunks that one of several callers gets, where `callers` says who takes a chunk, one after
/// the other.
pub open spec fn drawn_by(data: ChunkDataView, callers: Seq<nat>, who: nat) -> Seq<ChunkInfo>
    decreases callers.len(),
{
    if callers.len() == 0 {
        Seq::empty()
    } else {
        let front = callers.drop_last();
        let before = drawn_by(data, front, who);
        match after_draws(data, front.len()).drawn() {
            Some(chunk) => if callers.last() == who {
                before.push(chunk)
            } else {
                before
            },
            None => before,
        }
    }
}

/// However many take the chunks of a file, and in whatever order they do so, each chunk goes to
/// exactly one of them, once, and nothing else goes to anyone. Once someone got none, nothing is
/// left.
pub proof fn law_each_chunk_goes_to_one_caller(
    chunk_size: nat,
    total_len: u64,
    callers: Seq<nat>,
    who: nat,
)
    requires
        0 < chunk_size,
        0 < total_len,
        callers.len() < usize::MAX,
    ensures
        ({
            let data = fresh_data(chunk_size, total_len);
            let got = drawn_by(data, callers, who);
            &&& forall|k: int|
                0 <= k < callers.len() && k * chunk_size < total_len ==> got.to_multiset().count(
                    #[trigger] fresh_chunk(chunk_size, total_len, k as nat),
                ) == (if callers[k] == who {
                    1nat
                } else {
                    0
                })
            &&& forall|chunk: ChunkInfo| #[trigger]
                got.contains(chunk) ==> exists|k: int|
                    0 <= k < callers.len() && k * chunk_size < total_len && callers[k] == who
                        && chunk == #[trigger] fresh_chunk(chunk_size, total_len, k as nat)
            &&& after_draws(data, callers.len()).drawn() is None ==> {
                &&& callers.len() * chunk_size >= total_len
                &&& after_draws(data, callers.len()).remaining_len() == 0
            }
        }),
    decreases callers.len(),
{
    broadcast use vstd::seq_lib::group_to_multiset_ensures;

    let data = fresh_data(chunk_size, total_len);
    let got = drawn_by(data, callers, who);
    law_fresh_chunks_tile_the_file(chunk_size, total_len, callers.len());
    lemma_after_draws_of_fresh(chunk_size, total_len, callers.len());
    if after_draws(data, callers.len()).drawn() is None {
        let rest = after_draws(data, callers.len());
        assert(ranges_of(rest.incomplete) =~= Seq::empty());
    }
    if callers.len() > 0 {
        let front = callers.drop_last();
        let n = front.len();
        let before = drawn_by(data, front, who);
        law_each_chunk_goes_to_one_caller(chunk_size, total_len, front, who);
        law_fresh_chunks_tile_the_file(chunk_size, total_len, n);
        let last = fresh_chunk(chunk_size, total_len, n);
        let is_last = n * chunk_size < total_len;
        assert(is_last ==> after_draws(data, n).drawn() == Some(last));
        assert(got == if is_last && callers[n as int] == who {
            before.push(last)
        } else {
            before
        });
        assert(!before.contains(last)) by {
            if before.contains(last) {
                let k = choose|k: int|
                    0 <= k < front.len() && k * chunk_size < total_len && front[k] == who && last
                        == #[trigger] fresh_chunk(chunk_size, total_len, k as nat);
                assert(last.index == n + 1);
            }
        }
        assert(before.to_multiset().count(last) == 0) by {
            if before.to_multiset().count(last) > 0 {
                assert(before.to_multiset().contains(last));
            }
        }
        assert forall|k: int| 0 <= k < callers.len() && k * chunk_size < total_len implies
            got.to_multiset().count(#[trigger] fresh_chunk(chunk_size, total_len, k as nat)) == (
        if callers[k] == who {
            1nat
        } else {
            0
        }) by {
            let chunk = fresh_chunk(chunk_size, total_len, k as nat);
            if k < n {
                assert(front[k] == callers[k]);
                assert(chunk.index != last.index);
                assert(before.to_multiset().count(chunk) == (if front[k] == who {
                    1nat
                } else {
                    0
                }));
            }
        }
        assert forall|chunk: ChunkInfo| #[trigger] got.contains(chunk) implies exists|k: int|
            0 <= k < callers.len() && k * chunk_size < total_len && callers[k] == who && chunk
                == #[trigger] fresh_chunk(chunk_size, total_len, k as nat) by {
            if before.contains(chunk) {
                let k = choose|k: int|
                    0 <= k < front.len() && k * chunk_size < total_len && front[k] == who && chunk
                        == #[trigger] fresh_chunk(chunk_size, total_len, k as nat);
                assert(callers[k] == who);
            } else {
                let j = got.index_of(chunk);
                assert(got[j] == chunk);
                assert(chunk == last);
                assert(callers[n as int] == who);
            }
        }
    }
}

/// Hands out the chunks of a file of `content_length` bytes.
#[derive(Debug)]
pub struct ChunkIterator {
    pub content_length: u64,
    pub data: ChunkData,
}

impl ChunkIterator {
    /// Hands out what `data` says is left.
    pub fn new(content_length: u64, data: ChunkData) -> (r: Self)
        ensures
            r.content_length == content_length,
            r.data == data,
    {
        Self { content_length, data }
    }

    /// Takes the next chunk to download.
    pub fn next(&mut self) -> (r: Option<ChunkInfo>)
        requires
            old(self).data.remaining.valid(),
            old(self).data@.can_draw(),
        ensures
            r == old(self).data@.drawn(),
            final(self).data@ == old(self).data@.after_draw(),
            final(self).data.remaining.valid(),
            final(self).content_length == old(self).content_length,
    {
        self.data.next_chunk_range()
    }
}

} // verus!
