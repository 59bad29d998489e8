//! The download of a file by several connections, each fetching one chunk at a time.

use vstd::prelude::*;
use std::collections::HashMap;

use crate::chunk_item::{ChunkItem, DownloadedLenChangeNotify};
use crate::chunk_iterator::{ChunkDataView, ChunkInfo, ChunkIterator, ChunkRange};
use crate::downloader::DownloadingEndCause;
use crate::header_fields;
use crate::header_fields::{ETag, HttpRequest};
use crate::sorting;
use crate::spans;

verus! {

broadcast use vstd::std_specs::hash::group_hash_axioms;

/// The plain values of [`ChunkManager`].
#[verifier::ext_equal]
pub struct ChunkManagerView {
    pub content_length: int,
    pub data: ChunkDataView,
    pub downloading: Map<usize, ChunkItem>,
    pub connection_count: int,
    pub superfluities: int,
    pub downloaded_len: int,
    pub etag: Option<Seq<u8>>,
    pub retry_count: int,
}

impl ChunkManagerView {
    /// The state once the next chunk is taken, if there is one.
    pub open spec fn after_next_chunk(self) -> ChunkManagerView {
        ChunkManagerView {
            data: self.data.after_draw(),
            downloading: match self.data.drawn() {
                Some(chunk) => self.downloading.insert(
                    chunk.index,
                    ChunkItem { chunk_info: chunk, downloaded_len: 0 },
                ),
                None => self.downloading,
            },
            ..self
        }
    }

    /// The next `n` chunks, or as many as there are.
    pub open spec fn next_chunks(self, n: nat) -> Seq<ChunkInfo>
        decreases n,
    {
        match self.data.drawn() {
            Some(chunk) => if n == 0 {
                Seq::empty()
            } else {
                seq![chunk] + self.after_next_chunk().next_chunks((n - 1) as nat)
            },
            None => Seq::empty(),
        }
    }

    /// The state once the next `n` chunks are taken, or as many as there are.
    pub open spec fn after_next_chunks(self, n: nat) -> ChunkManagerView
        decreases n,
    {
        if n == 0 {
            self
        } else if self.data.drawn() is None {
            self.after_next_chunk()
        } else {
            self.after_next_chunk().after_next_chunks((n - 1) as nat)
        }
    }

    /// Whether there are fewer than `n` chunks.
    pub open spec fn runs_out(self, n: nat) -> bool
        decreases n,
    {
        n > 0 && (self.data.drawn() is None || self.after_next_chunk().runs_out((n - 1) as nat))
    }

    /// Whether there are numbers for the next `n` chunks, or for as many as there are.
    pub open spec fn can_number(self, n: nat) -> bool
        decreases n,
    {
        n > 0 ==> {
            &&& self.data.can_draw()
            &&& self.data.drawn() is Some ==> self.after_next_chunk().can_number((n - 1) as nat)
        }
    }

    /// Whether there are numbers for the chunks that are to be downloaded too when there are to be
    /// `count` connections.
    pub open spec fn can_number_for(self, count: int) -> bool {
        count > 0 && self.current_count() <= count ==> self.can_number(
            (count - self.current_count()) as nat,
        )
    }

    /// The number of chunks that are being downloaded.
    pub open spec fn current_count(self) -> int {
        self.downloading.dom().len() as int
    }

    /// The chunks that are to be downloaded too when there are to be `count` connections.
    pub open spec fn chunks_for(self, count: int) -> Seq<ChunkInfo> {
        if count == 0 || self.current_count() > count {
            Seq::empty()
        } else {
            self.next_chunks((count - self.current_count()) as nat)
        }
    }

    /// The state once there are to be `count` connections: those that are missing get a chunk
    /// each, those that are too many are counted. At zero nothing changes.
    pub open spec fn after_connection_count(self, count: int) -> ChunkManagerView {
        if count == 0 {
            self
        } else if self.current_count() <= count {
            ChunkManagerView {
                superfluities: 0,
                ..self.after_next_chunks((count - self.current_count()) as nat)
            }
        } else {
            ChunkManagerView { superfluities: self.current_count() - count, ..self }
        }
    }

    /// The state once the chunk `index` is no longer counted among those that are being
    /// downloaded.
    pub open spec fn after_removal(self, index: usize) -> ChunkManagerView {
        ChunkManagerView { downloading: self.downloading.remove(index), ..self }
    }

    /// The state once `len` more bytes of the chunk `index` have come.
    pub open spec fn after_received(self, index: usize, len: usize) -> ChunkManagerView {
        ChunkManagerView {
            downloading: self.downloading.insert(
                index,
                ChunkItem {
                    downloaded_len: (self.downloading[index].downloaded_len + len) as u64,
                    ..self.downloading[index]
                },
            ),
            downloaded_len: self.downloaded_len + len,
            ..self
        }
    }

    /// The state once the connection of a finished chunk goes on, or ends because there are too
    /// many.
    pub open spec fn after_chunk_finished(self, is_iter_finished: bool) -> ChunkManagerView {
        if is_iter_finished {
            self
        } else if self.superfluities == 0 {
            self.after_next_chunk()
        } else {
            ChunkManagerView { superfluities: self.superfluities - 1, ..self }
        }
    }

    /// What that connection does next, where `left` other chunks are being downloaded.
    pub open spec fn finished_step(self, is_iter_finished: bool, left: int) -> ChunkEndStep {
        let end = if left == 0 {
            ChunkEndStep::Finish
        } else {
            ChunkEndStep::Wait
        };
        if is_iter_finished {
            end
        } else if self.superfluities == 0 {
            match self.data.drawn() {
                Some(chunk) => ChunkEndStep::Start(chunk),
                None => end,
            }
        } else {
            ChunkEndStep::Wait
        }
    }
}

/// There are numbers for `n` chunks if that many are left.
pub proof fn lemma_can_number(m: ChunkManagerView, n: nat)
    requires
        m.data.iter_count + n <= usize::MAX,
    ensures
        m.can_number(n),
    decreases n,
{
    if n > 0 && m.data.drawn() is Some {
        lemma_can_number(m.after_next_chunk(), (n - 1) as nat);
    }
}

/// Whether one of `chunks` has the number `index`.
pub open spec fn has_number(chunks: Seq<ChunkInfo>, index: usize) -> bool {
    exists|j: int| 0 <= j < chunks.len() && (#[trigger] chunks[j]).index == index
}

/// Whether the chunks that are being downloaded grow from `before` to `after` by exactly `chunks`:
/// each of these is new, has a number of its own, and nothing has come of it; no other chunk is
/// new, and those that were there stay as they are.
pub open spec fn grows_by(
    before: Map<usize, ChunkItem>,
    after: Map<usize, ChunkItem>,
    chunks: Seq<ChunkInfo>,
) -> bool {
    &&& forall|j: int|
        0 <= j < chunks.len() ==> {
            let chunk = #[trigger] chunks[j];
            &&& !before.contains_key(chunk.index)
            &&& after.contains_key(chunk.index)
            &&& after[chunk.index] == (ChunkItem { chunk_info: chunk, downloaded_len: 0 })
        }
    &&& forall|i: int, j: int|
        0 <= i < j < chunks.len() ==> (#[trigger] chunks[i]).index != (#[trigger] chunks[j]).index
    &&& forall|k: usize| #[trigger]
        before.contains_key(k) ==> after.contains_key(k) && after[k] == before[k]
    &&& forall|k: usize| #[trigger]
        after.contains_key(k) ==> before.contains_key(k) || has_number(chunks, k)
}

/// The numbers of the chunks that are being downloaded grow by those of the chunks that are taken,
/// and there are fewer than `n` of these exactly if there are fewer than `n` chunks.
proof fn lemma_taken_numbers(m: ChunkManagerView, n: nat)
    ensures
        forall|k: usize| #[trigger]
            m.after_next_chunks(n).downloading.contains_key(k) <==> m.downloading.contains_key(k)
                || has_number(m.next_chunks(n), k),
        m.next_chunks(n).len() <= n,
        m.runs_out(n) <==> m.next_chunks(n).len() < n,
    decreases n,
{
    if n > 0 && m.data.drawn() is Some {
        let chunk = m.data.drawn()->Some_0;
        let next = m.after_next_chunk();
        let rest = (n - 1) as nat;
        lemma_taken_numbers(next, rest);
        let chunks = m.next_chunks(n);
        let later = next.next_chunks(rest);
        assert(chunks =~= seq![chunk] + later);
        assert forall|k: usize| #[trigger] has_number(chunks, k) <==> k == chunk.index
            || has_number(later, k) by {
            assert(chunks[0] == chunk);
            if has_number(later, k) {
                let j = choose|j: int| 0 <= j < later.len() && (#[trigger] later[j]).index == k;
                assert(chunks[j + 1].index == k);
            }
            if has_number(chunks, k) && k != chunk.index {
                let j = choose|j: int| 0 <= j < chunks.len() && (#[trigger] chunks[j]).index == k;
                assert(later[j - 1].index == k);
            }
        }
        assert forall|k: usize| #[trigger]
            m.after_next_chunks(n).downloading.contains_key(k) <==> m.downloading.contains_key(k)
                || has_number(chunks, k) by {
            assert(has_number(chunks, k) <==> k == chunk.index || has_number(later, k));
            assert(next.after_next_chunks(rest).downloading.contains_key(k)
                <==> next.downloading.contains_key(k) || has_number(later, k));
        }
    } else {
        assert(m.next_chunks(n) =~= Seq::empty());
    }
}

/// Taking chunks makes the chunks that are being downloaded grow by exactly those that are taken,
/// where each has a new number.
pub proof fn lemma_taken_chunks_are_new(m: ChunkManagerView, n: nat)
    requires
        forall|k: int|
            0 <= k < m.next_chunks(n).len() ==> {
                let chunk = #[trigger] m.next_chunks(n)[k];
                &&& !m.downloading.contains_key(chunk.index)
                &&& m.after_next_chunks(n).downloading.contains_key(chunk.index)
                &&& m.after_next_chunks(n).downloading[chunk.index] == (ChunkItem {
                    chunk_info: chunk,
                    downloaded_len: 0,
                })
            },
        forall|i: int, j: int|
            0 <= i < j < m.next_chunks(n).len() ==> (#[trigger] m.next_chunks(n)[i]).index != (
            #[trigger] m.next_chunks(n)[j]).index,
        forall|k: usize| #[trigger]
            m.downloading.contains_key(k) ==> m.after_next_chunks(n).downloading.contains_key(k)
                && m.after_next_chunks(n).downloading[k] == m.downloading[k],
    ensures
        grows_by(m.downloading, m.after_next_chunks(n).downloading, m.next_chunks(n)),
        m.next_chunks(n).len() <= n,
        m.runs_out(n) <==> m.next_chunks(n).len() < n,
{
    lemma_taken_numbers(m, n);
}

/// Whether `chunks` are those in `downloading`, each once, sorted by start.
pub open spec fn is_listing(chunks: Seq<ChunkItem>, downloading: Map<usize, ChunkItem>) -> bool {
    &&& sorting::is_sorted(chunks)
    &&& chunks.len() == downloading.dom().len()
    &&& chunks.no_duplicates()
    &&& forall|j: int|
        0 <= j < chunks.len() ==> downloading.contains_key(
            (#[trigger] chunks[j]).chunk_info.index,
        ) && downloading[chunks[j].chunk_info.index] == chunks[j]
    &&& forall|k: usize| #[trigger]
        downloading.contains_key(k) ==> chunks.contains(downloading[k])
}

/// The ranges of `chunks`.
pub open spec fn ranges_of_items(chunks: Seq<ChunkItem>) -> Seq<ChunkRange> {
    chunks.map_values(|c: ChunkItem| c.chunk_info.range)
}

/// Whether the chunks in `downloading` end below `content_length`.
pub open spec fn end_below(downloading: Map<usize, ChunkItem>, content_length: int) -> bool {
    forall|k: usize| #[trigger]
        downloading.contains_key(k) ==> downloading[k].chunk_info.range.end < content_length
}

/// Whether the chunks in `downloading` are not empty and do not overlap.
pub open spec fn are_apart(downloading: Map<usize, ChunkItem>) -> bool {
    &&& forall|k: usize| #[trigger]
        downloading.contains_key(k) ==> downloading[k].chunk_info.range.length() > 0
    &&& forall|j: usize, k: usize| #[trigger]
        downloading.contains_key(j) && #[trigger] downloading.contains_key(k) && j != k
            ==> downloading[j].chunk_info.range.end < downloading[k].chunk_info.range.start
            || downloading[k].chunk_info.range.end < downloading[j].chunk_info.range.start
}

/// The chunks of all keys, sorted, are a listing.
proof fn lemma_sorted_is_listing(
    keys: Seq<usize>,
    chunks: Seq<ChunkItem>,
    downloading: Map<usize, ChunkItem>,
)
    requires
        keys.no_duplicates(),
        keys.len() == downloading.dom().len(),
        downloading.dom().finite(),
        forall|j: int| 0 <= j < keys.len() ==> downloading.contains_key(#[trigger] keys[j]),
        forall|k: usize| #[trigger]
            downloading.contains_key(k) ==> downloading[k].chunk_info.index == k,
        sorting::is_stable_sort(keys.map_values(|k: usize| downloading[k]), chunks),
    ensures
        is_listing(chunks, downloading),
{
    broadcast use vstd::seq_lib::group_to_multiset_ensures;

    let found = keys.map_values(|k: usize| downloading[k]);
    assert(chunks.len() == chunks.to_multiset().len() == found.to_multiset().len());
    keys.unique_seq_to_set();
    assert(keys.to_set().subset_of(downloading.dom()));
    vstd::set_lib::lemma_subset_equality(keys.to_set(), downloading.dom());
    assert forall|i: int, j: int| 0 <= i < j < found.len() implies found[i] != found[j] by {
        assert(keys[i] != keys[j]);
        assert(downloading.contains_key(keys[i]) && downloading.contains_key(keys[j]));
    }
    found.lemma_multiset_has_no_duplicates();
    assert(chunks.no_duplicates()) by {
        chunks.lemma_multiset_has_no_duplicates_conv();
    }
    assert forall|j: int| 0 <= j < chunks.len() implies downloading.contains_key(
        (#[trigger] chunks[j]).chunk_info.index,
    ) && downloading[chunks[j].chunk_info.index] == chunks[j] by {
        assert(chunks.to_multiset().contains(chunks[j]));
        assert(found.contains(chunks[j]));
        let i = found.index_of(chunks[j]);
        assert(downloading.contains_key(keys[i]));
    }
    assert forall|k: usize| #[trigger] downloading.contains_key(k) implies chunks.contains(
        downloading[k],
    ) by {
        assert(keys.to_set().contains(k));
        let i = keys.index_of(k);
        assert(found[i] == downloading[k]);
        assert(found.to_multiset().contains(downloading[k]));
    }
}

/// A listing of chunks that do not overlap has each end before the next starts.
pub proof fn lemma_listing_is_apart(
    chunks: Seq<ChunkItem>,
    downloading: Map<usize, ChunkItem>,
)
    requires
        is_listing(chunks, downloading),
        are_apart(downloading),
    ensures
        forall|i: int| 0 <= i < chunks.len() ==> (#[trigger] chunks[i]).chunk_info.range.length() > 0,
        forall|i: int, j: int|
            0 <= i < j < chunks.len() ==> (#[trigger] chunks[i]).chunk_info.range.end < (
            #[trigger] chunks[j]).chunk_info.range.start,
{
    assert forall|i: int, j: int| 0 <= i < j < chunks.len() implies (
    #[trigger] chunks[i]).chunk_info.range.end < (
    #[trigger] chunks[j]).chunk_info.range.start by {
        let a = chunks[i].chunk_info.index;
        let b = chunks[j].chunk_info.index;
        assert(downloading.contains_key(a) && downloading.contains_key(b));
        assert(chunks[i] != chunks[j]);
    }
}

/// The ranges between neighbours among `chunks`.
pub open spec fn gaps_between(chunks: Seq<ChunkItem>) -> Seq<ChunkRange>
    decreases chunks.len(),
{
    if chunks.len() < 2 {
        Seq::empty()
    } else {
        let end = chunks[chunks.len() - 2].chunk_info.range.end;
        let start = chunks.last().chunk_info.range.start;
        let earlier = gaps_between(chunks.drop_last());
        if start - end == 1 {
            earlier
        } else {
            earlier.push(ChunkRange { start: (end + 1) as u64, end: (start - 1) as u64 })
        }
    }
}

/// The ranges around `chunks`: before the first, between neighbours and, if nothing remains to
/// be taken, behind the last.
pub open spec fn finished_around(
    chunks: Seq<ChunkItem>,
    content_length: int,
    no_chunk_remaining: bool,
) -> Seq<ChunkRange> {
    if chunks.len() == 0 {
        Seq::empty()
    } else {
        let first_start = chunks[0].chunk_info.range.start;
        let last_end = chunks.last().chunk_info.range.end;
        let front = if first_start == 0 {
            Seq::empty()
        } else {
            seq![ChunkRange { start: 0, end: (first_start - 1) as u64 }]
        };
        let back = if no_chunk_remaining && last_end != content_length - 1 {
            seq![
                ChunkRange { start: (last_end + 1) as u64, end: (content_length - 1) as u64 },
            ]
        } else {
            Seq::empty()
        };
        front + gaps_between(chunks) + back
    }
}

/// Hands out chunks to connections, and keeps count of what they fetch.
#[derive(Debug)]
pub struct ChunkManager {
    pub downloaded_len: u64,
    pub chunk_iterator: ChunkIterator,
    pub downloading_chunks: HashMap<usize, ChunkItem>,
    pub download_connection_count: u8,
    pub superfluities_connection_count: u8,
    pub etag: Option<ETag>,
    pub retry_count: u8,
}

impl View for ChunkManager {
    type V = ChunkManagerView;

    open spec fn view(&self) -> ChunkManagerView {
        ChunkManagerView {
            content_length: self.chunk_iterator.content_length as int,
            data: self.chunk_iterator.data@,
            downloading: self.downloading_chunks@,
            connection_count: self.download_connection_count as int,
            superfluities: self.superfluities_connection_count as int,
            downloaded_len: self.downloaded_len as int,
            etag: header_fields::tag_bytes(self.etag),
            retry_count: self.retry_count as int,
        }
    }
}

/// How far the download has come, over and above what the manager holds.
///
/// `E` is what goes wrong with a chunk.
#[derive(Debug)]
pub struct DownloadRun<E> {
    /// Whether there was no chunk left when one was looked for.
    pub is_iter_finished: bool,
    /// Whether changes of the number of connections are still listened for.
    pub is_listening: bool,
    /// How the download ends, as far as that is known.
    pub result: Result<DownloadingEndCause, E>,
}

impl<E> DownloadRun<E> {
    /// Whether nothing went wrong and nothing was cancelled so far.
    pub open spec fn undisturbed(self) -> bool {
        self.result == Ok::<DownloadingEndCause, E>(DownloadingEndCause::DownloadFinished)
    }

    /// How far the download has come once there are to be `count` connections.
    pub open spec fn after_connection_count(
        self,
        manager: ChunkManagerView,
        count: int,
    ) -> DownloadRun<E> {
        if count == 0 {
            DownloadRun { is_listening: false, ..self }
        } else if manager.current_count() <= count {
            DownloadRun {
                is_iter_finished: self.is_iter_finished || manager.runs_out(
                    (count - manager.current_count()) as nat,
                ),
                ..self
            }
        } else {
            self
        }
    }

    /// How far the download has come once a chunk is finished.
    pub open spec fn after_chunk_finished(self, manager: ChunkManagerView) -> DownloadRun<E> {
        DownloadRun {
            is_iter_finished: self.is_iter_finished || (manager.superfluities == 0
                && manager.data.drawn() is None),
            ..self
        }
    }

    /// How the download ends if it is disturbed like this: only the first disturbance counts.
    pub open spec fn after_disturbance(
        self,
        result: Result<DownloadingEndCause, E>,
    ) -> DownloadRun<E> {
        if self.undisturbed() {
            DownloadRun { result, ..self }
        } else {
            self
        }
    }
}

/// What to do once a chunk is finished.
#[derive(Debug, Copy, Clone)]
pub enum ChunkEndStep {
    /// The download is finished.
    Finish,
    /// Download this chunk too.
    Start(ChunkInfo),
    /// Wait for the other chunks.
    Wait,
}

/// What a file looks like while it is downloaded.
#[derive(Debug)]
pub struct ChunksInfo {
    pub finished_chunks: Vec<ChunkRange>,
    pub downloading_chunks: Vec<ChunkItem>,
    pub no_chunk_remaining: bool,
}

impl ChunkManager {
    /// Whether chunks can be taken, and those that are being downloaded are found by their number.
    pub open spec fn valid(self) -> bool {
        &&& self.chunk_iterator.data.remaining.valid()
        &&& self@.downloading.dom().finite()
        &&& forall|k: usize| #[trigger]
            self@.downloading.contains_key(k) ==> self@.downloading[k].chunk_info.index == k
    }

    /// Starts with `download_connection_count` connections and nothing being downloaded.
    pub fn new(
        download_connection_count: u8,
        downloaded_len: u64,
        chunk_iterator: ChunkIterator,
        etag: Option<ETag>,
        retry_count: u8,
    ) -> (r: Self)
        requires
            download_connection_count > 0,
        ensures
            r@ == (ChunkManagerView {
                content_length: chunk_iterator.content_length as int,
                data: chunk_iterator.data@,
                downloading: Map::empty(),
                connection_count: download_connection_count as int,
                superfluities: 0,
                downloaded_len: downloaded_len as int,
                etag: header_fields::tag_bytes(etag),
                retry_count: retry_count as int,
            }),
            chunk_iterator.data.remaining.valid() ==> r.valid(),
    {
        Self {
            downloaded_len,
            chunk_iterator,
            downloading_chunks: HashMap::new(),
            download_connection_count,
            superfluities_connection_count: 0,
            etag,
            retry_count,
        }
    }

    /// Sets the number of connections that the download is to have.
    pub fn change_connection_count(&mut self, connection_count: u8)
        requires
            connection_count > 0,
        ensures
            final(self)@ == (ChunkManagerView {
                connection_count: connection_count as int,
                ..old(self)@
            }),
            old(self).valid() ==> final(self).valid(),
    {
        self.download_connection_count = connection_count;
    }

    /// Sets the size of the chunks that are taken from now on.
    pub fn change_chunk_size(&mut self, chunk_size: usize)
        requires
            chunk_size > 0,
        ensures
            final(self)@ == (ChunkManagerView {
                data: ChunkDataView { chunk_size: chunk_size as nat, ..old(self)@.data },
                ..old(self)@
            }),
            old(self).valid() ==> final(self).valid(),
    {
        self.chunk_iterator.data.remaining.chunk_size = chunk_size;
    }

    /// The number of bytes that have come.
    pub fn downloaded_len(&self) -> (r: u64)
        ensures
            r == self@.downloaded_len,
    {
        self.downloaded_len
    }

    /// The number of connections that the download is to have.
    pub fn connection_count(&self) -> (r: u8)
        ensures
            r == self@.connection_count,
    {
        self.download_connection_count
    }

    /// A copy of a request.
    pub fn clone_request(request: &HttpRequest) -> (r: HttpRequest)
        ensures
            r.agrees_with(*request),
            header_fields::fields(r.headers) == header_fields::fields(request.headers),
    {
        HttpRequest {
            method: request.method.clone(),
            url: request.url.clone(),
            version: request.version,
            headers: header_fields::clone_fields(&request.headers),
            timeout: request.timeout,
        }
    }

    /// Counts a chunk among those that are being downloaded.
    fn insert_chunk(&mut self, item: ChunkItem)
        requires
            old(self).valid(),
        ensures
            final(self)@ == (ChunkManagerView {
                downloading: old(self)@.downloading.insert(item.chunk_info.index, item),
                ..old(self)@
            }),
            final(self).valid(),
    {
        self.downloading_chunks.insert(item.chunk_info.index, item);
    }

    /// Counts a chunk no longer among those that are being downloaded, and says how many are left.
    pub fn remove_chunk(&mut self, index: usize) -> (r: (usize, Option<ChunkItem>))
        requires
            old(self).valid(),
        ensures
            final(self)@ == old(self)@.after_removal(index),
            final(self).valid(),
            r.0 == old(self)@.after_removal(index).current_count(),
            r.1 == (if old(self)@.downloading.contains_key(index) {
                Some(old(self)@.downloading[index])
            } else {
                None
            }),
    {
        let removed = self.downloading_chunks.remove(&index);
        (self.downloading_chunks.len(), removed)
    }

    /// Takes the next chunk, and counts it among those that are being downloaded.
    pub fn download_next_chunk(&mut self) -> (r: Option<ChunkInfo>)
        requires
            old(self).valid(),
            old(self)@.data.can_draw(),
        ensures
            r == old(self)@.data.drawn(),
            final(self)@ == old(self)@.after_next_chunk(),
            final(self).valid(),
    {
        if let Some(chunk_info) = self.chunk_iterator.next() {
            self.insert_chunk(ChunkItem::new(chunk_info));
            Some(chunk_info)
        } else {
            None
        }
    }

    /// Takes the next `n` chunks, or as many as there are, and says whether there were fewer.
    fn download_next_chunks(&mut self, n: usize) -> (r: (Vec<ChunkInfo>, bool))
        requires
            old(self).valid(),
            old(self)@.can_number(n as nat),
        ensures
            r.0@ == old(self)@.next_chunks(n as nat),
            r.1 == old(self)@.runs_out(n as nat),
            final(self)@ == old(self)@.after_next_chunks(n as nat),
            final(self).valid(),
    {
        let mut chunks: Vec<ChunkInfo> = Vec::new();
        let mut left: usize = n;
        while left > 0
            invariant
                self.valid(),
                self@.can_number(left as nat),
                chunks@ + self@.next_chunks(left as nat) == old(self)@.next_chunks(n as nat),
                self@.after_next_chunks(left as nat) == old(self)@.after_next_chunks(n as nat),
                self@.runs_out(left as nat) == old(self)@.runs_out(n as nat),
            decreases left,
        {
            let ghost before = self@;
            match self.download_next_chunk() {
                Some(chunk) => {
                    assert(chunks@ + before.next_chunks(left as nat) =~= chunks@.push(chunk)
                        + self@.next_chunks((left - 1) as nat));
                    chunks.push(chunk);
                    left = left - 1;
                },
                None => {
                    assert(chunks@ + before.next_chunks(left as nat) =~= chunks@);
                    return (chunks, true);
                },
            }
        }
        assert(chunks@ + self@.next_chunks(0) =~= chunks@);
        (chunks, false)
    }

    /// Begins the download with as many chunks as there are to be connections, or as there are.
    ///
    /// If there is none, the download has ended.
    pub fn start_download<E>(&mut self) -> (r: (Vec<ChunkInfo>, DownloadRun<E>))
        requires
            old(self).valid(),
            old(self)@.connection_count > 0,
            old(self)@.can_number(old(self)@.connection_count as nat),
        ensures
            r.0@ == old(self)@.next_chunks(old(self)@.connection_count as nat),
            r.1 == (DownloadRun::<E> {
                is_iter_finished: old(self)@.runs_out(old(self)@.connection_count as nat),
                is_listening: true,
                result: Ok(DownloadingEndCause::DownloadFinished),
            }),
            final(self)@ == old(self)@.after_next_chunks(old(self)@.connection_count as nat),
            final(self).valid(),
            forall|k: usize| #[trigger]
                final(self)@.downloading.contains_key(k) <==> old(
                    self,
                )@.downloading.contains_key(k) || has_number(r.0@, k),
            r.0@.len() <= old(self)@.connection_count,
            r.1.is_iter_finished <==> r.0@.len() < old(self)@.connection_count,
    {
        let connection_count: usize = self.download_connection_count as usize;
        proof {
            lemma_taken_numbers(self@, connection_count as nat);
        }
        let (chunks, is_iter_finished) = self.download_next_chunks(connection_count);
        let run = DownloadRun {
            is_iter_finished,
            is_listening: true,
            result: Ok(DownloadingEndCause::DownloadFinished),
        };
        (chunks, run)
    }

    /// Meets a change of the number of connections, and says which chunks to download too.
    ///
    /// Connections that are missing get a chunk each. Those that are too many are counted, and
    /// end with the chunk that they are fetching. At zero, no more changes are listened for.
    pub fn meet_connection_count<E>(
        &mut self,
        run: &mut DownloadRun<E>,
        download_connection_count: u8,
    ) -> (chunks: Vec<ChunkInfo>)
        requires
            old(self).valid(),
            old(self)@.current_count() <= i16::MAX,
            old(self)@.current_count() <= download_connection_count + u8::MAX,
            old(self)@.can_number_for(download_connection_count as int),
        ensures
            final(self).valid(),
            chunks@ == old(self)@.chunks_for(download_connection_count as int),
            final(self)@ == old(self)@.after_connection_count(download_connection_count as int),
            *final(run) == old(run).after_connection_count(
                old(self)@,
                download_connection_count as int,
            ),
            forall|k: usize| #[trigger]
                final(self)@.downloading.contains_key(k) <==> old(
                    self,
                )@.downloading.contains_key(k) || has_number(chunks@, k),
            0 < download_connection_count && old(self)@.current_count() <= download_connection_count
                && !final(run).is_iter_finished ==> old(self)@.current_count() + chunks@.len()
                == download_connection_count,
    {
        if download_connection_count == 0 {
            run.is_listening = false;
            return Vec::new();
        }
        let current_count: usize = self.downloading_chunks.len();
        let diff: i16 = download_connection_count as i16 - current_count as i16;
        if diff >= 0 {
            proof {
                lemma_taken_numbers(self@, diff as nat);
            }
            let (chunks, is_iter_finished) = self.download_next_chunks(diff as usize);
            self.superfluities_connection_count = 0;
            if is_iter_finished {
                run.is_iter_finished = true;
            }
            chunks
        } else {
            self.superfluities_connection_count = (current_count - download_connection_count as usize) as u8;
            Vec::new()
        }
    }

    /// Meets the end of a chunk that is finished and no longer counted, where
    /// `downloading_chunk_count` others are, and says what to do next.
    ///
    /// Its connection goes on with another chunk, unless there are too many connections.
    pub fn meet_chunk_finished<E>(
        &mut self,
        run: &mut DownloadRun<E>,
        downloading_chunk_count: usize,
    ) -> (step: ChunkEndStep)
        requires
            old(self).valid(),
            old(self)@.data.can_draw(),
        ensures
            final(self).valid(),
            final(self)@ == old(self)@.after_chunk_finished(old(run).is_iter_finished),
            *final(run) == old(run).after_chunk_finished(old(self)@),
            step == old(self)@.finished_step(
                old(run).is_iter_finished,
                downloading_chunk_count as int,
            ),
            final(self)@.downloading == (match step {
                ChunkEndStep::Start(chunk) => old(self)@.downloading.insert(
                    chunk.index,
                    ChunkItem { chunk_info: chunk, downloaded_len: 0 },
                ),
                _ => old(self)@.downloading,
            }),
    {
        if run.is_iter_finished {
            if downloading_chunk_count == 0 {
                ChunkEndStep::Finish
            } else {
                ChunkEndStep::Wait
            }
        } else if self.superfluities_connection_count == 0 {
            match self.download_next_chunk() {
                None => {
                    run.is_iter_finished = true;
                    if downloading_chunk_count == 0 {
                        ChunkEndStep::Finish
                    } else {
                        ChunkEndStep::Wait
                    }
                },
                Some(chunk) => ChunkEndStep::Start(chunk),
            }
        } else {
            self.superfluities_connection_count = self.superfluities_connection_count - 1;
            ChunkEndStep::Wait
        }
    }

    /// Meets the end of a chunk that went wrong, and says whether to cancel the others.
    ///
    /// Only what went wrong first is kept; from then on the download is to have no connection.
    pub fn meet_chunk_failed<E>(&mut self, run: &mut DownloadRun<E>, err: E) -> (cancel: bool)
        ensures
            old(self).valid() ==> final(self).valid(),
            cancel == old(run).undisturbed(),
            final(self)@ == (if cancel {
                ChunkManagerView { connection_count: 0, ..old(self)@ }
            } else {
                old(self)@
            }),
            *final(run) == old(run).after_disturbance(Err(err)),
    {
        if Self::is_undisturbed(run) {
            run.result = Err(err);
            self.download_connection_count = 0;
            true
        } else {
            false
        }
    }

    /// Meets the end of a chunk that was cancelled.
    ///
    /// The first such end counts if nothing went wrong before; from then on the download is to
    /// have no connection.
    pub fn meet_chunk_cancelled<E>(&mut self, run: &mut DownloadRun<E>)
        ensures
            old(self).valid() ==> final(self).valid(),
            final(self)@ == (if old(run).undisturbed() {
                ChunkManagerView { connection_count: 0, ..old(self)@ }
            } else {
                old(self)@
            }),
            *final(run) == old(run).after_disturbance(Ok(DownloadingEndCause::Cancelled)),
    {
        if Self::is_undisturbed(run) {
            run.result = Ok(DownloadingEndCause::Cancelled);
            self.download_connection_count = 0;
        }
    }

    /// Whether nothing went wrong and nothing was cancelled so far.
    ///
    /// A download that ends otherwise saves how far it came.
    pub fn is_undisturbed<E>(run: &DownloadRun<E>) -> (b: bool)
        ensures
            b == run.undisturbed(),
    {
        match &run.result {
            Ok(DownloadingEndCause::DownloadFinished) => true,
            _ => false,
        }
    }

    /// Counts `len` more bytes of the chunk `index`.
    pub fn receive_len(&mut self, index: usize, len: usize)
        requires
            old(self).valid(),
            old(self)@.downloading.contains_key(index),
            old(self)@.downloading[index].valid(),
            old(self)@.downloading[index].outstanding() >= len,
            old(self)@.downloaded_len + len <= u64::MAX,
        ensures
            final(self).valid(),
            final(self)@ == old(self)@.after_received(index, len),
    {
        if let Some(item) = self.downloading_chunks.get(&index) {
            let mut item = *item;
            item.add_downloaded_len(len);
            self.insert_chunk(item);
        }
        self.downloaded_len = self.downloaded_len + len as u64;
    }

    /// The chunks that are being downloaded, sorted by start.
    pub fn get_chunks(&self) -> (chunks: Vec<ChunkItem>)
        requires
            self.valid(),
        ensures
            is_listing(chunks@, self@.downloading),
    {
        let mut found: Vec<ChunkItem> = Vec::new();
        let ghost downloading = self@.downloading;
        let ghost mut order: Seq<usize> = Seq::empty();
        for key in keys: self.downloading_chunks.keys()
            invariant
                self.valid(),
                downloading == self.downloading_chunks@,
                keys.seq().unref().to_set() == downloading.dom(),
                keys.seq().no_duplicates(),
                keys.seq().len() == downloading.dom().len(),
                order.len() == keys.index(),
                order.no_duplicates(),
                forall|j: int| 0 <= j < order.len() ==> #[trigger] order[j] == *keys.seq()[j],
                forall|j: int|
                    0 <= j < order.len() ==> downloading.contains_key(#[trigger] order[j]),
                found@ == order.map_values(|k: usize| downloading[k]),
        {
            assert(keys.seq().unref()[keys.index()] == *key);
            assert(keys.seq().unref().to_set().contains(*key));
            if let Some(item) = self.downloading_chunks.get(key) {
                assert(order.push(*key).map_values(|k: usize| downloading[k]) =~= found@.push(
                    *item,
                ));
                found.push(*item);
                proof {
                    order = order.push(*key);
                }
            }
        }
        let chunks = sorting::sort_by_start(&found);
        proof {
            lemma_sorted_is_listing(order, chunks@, downloading);
        }
        chunks
    }

    /// What the file looks like: the chunks that are being downloaded, and the ranges around them.
    pub fn get_chunks_info(&self) -> (r: ChunksInfo)
        requires
            self.valid(),
            are_apart(self@.downloading),
            self@.data.ranges.len() == 0 ==> end_below(self@.downloading, self@.content_length),
        ensures
            r.no_chunk_remaining == (self@.data.ranges.len() == 0),
            is_listing(r.downloading_chunks@, self@.downloading),
            r.finished_chunks@ == finished_around(
                r.downloading_chunks@,
                self@.content_length,
                r.no_chunk_remaining,
            ),
    {
        let downloading_chunks = self.get_chunks();
        let no_chunk_remaining = self.chunk_iterator.data.no_chunk_remaining();
        proof {
            lemma_listing_is_apart(downloading_chunks@, self@.downloading);
            assert forall|j: int| no_chunk_remaining && 0 <= j < downloading_chunks@.len() implies (
            #[trigger] downloading_chunks@[j]).chunk_info.range.end < self@.content_length by {
                assert(self@.downloading.contains_key(downloading_chunks@[j].chunk_info.index));
            }
        }
        let finished_chunks = find_finished(
            &downloading_chunks,
            self.chunk_iterator.content_length,
            no_chunk_remaining,
        );
        ChunksInfo { finished_chunks, downloading_chunks, no_chunk_remaining }
    }
}

/// Counts what comes, and hands it on.
#[derive(Debug)]
pub struct LenChangedNotify<N> {
    pub downloaded_len: u64,
    pub notify: Option<N>,
}

impl<N: DownloadedLenChangeNotify> DownloadedLenChangeNotify for LenChangedNotify<N> {
    type Wait = N::Wait;

    open spec fn can_receive(&self, len: usize) -> bool {
        &&& self.downloaded_len + len <= u64::MAX
        &&& self.notify matches Some(notify) ==> notify.can_receive(len)
    }

    /// The same length is handed on once, and what there is to wait for is said by the one who gets
    /// it.
    open spec fn receives(before: Self, len: usize, after: Self, wait: Option<N::Wait>) -> bool {
        &&& after.downloaded_len == before.downloaded_len + len
        &&& match (before.notify, after.notify) {
            (Some(notify), Some(told)) => N::receives(notify, len, told, wait),
            (None, None) => wait is None,
            _ => false,
        }
    }

    fn receive_len(&mut self, len: usize) -> (wait: Option<N::Wait>) {
        self.downloaded_len = self.downloaded_len + len as u64;
        match &mut self.notify {
            Some(notify) => notify.receive_len(len),
            None => None,
        }
    }
}

/// Finds the ranges around chunks of which each ends before the next starts.
#[verifier::rlimit(40)]
fn find_finished(
    downloading_chunks: &Vec<ChunkItem>,
    content_length: u64,
    no_chunk_remaining: bool,
) -> (r: Vec<ChunkRange>)
    requires
        forall|i: int, j: int|
            0 <= i < j < downloading_chunks@.len() ==> (
            #[trigger] downloading_chunks@[i]).chunk_info.range.end < (
            #[trigger] downloading_chunks@[j]).chunk_info.range.start,
        forall|j: int|
            no_chunk_remaining && 0 <= j < downloading_chunks@.len() ==> (
            #[trigger] downloading_chunks@[j]).chunk_info.range.end < content_length,
    ensures
        r@ == finished_around(downloading_chunks@, content_length as int, no_chunk_remaining),
{
    let mut finished_chunks: Vec<ChunkRange> = Vec::new();
    let ghost chunks = downloading_chunks@;
    let len: usize = downloading_chunks.len();
    if len == 0 {
        assert(finished_chunks@ =~= Seq::empty());
        return finished_chunks;
    }
    let first_start: u64 = downloading_chunks[0].chunk_info.range.start;
    if first_start != 0 {
        finished_chunks.push(ChunkRange::new(0, first_start - 1));
    }
    let ghost front = finished_chunks@;
    assert(gaps_between(chunks.take(1)) =~= Seq::empty());
    assert(front + gaps_between(chunks.take(1)) =~= front);
    for index in 0..len - 1
        invariant
            len == chunks.len() > 0,
            chunks == downloading_chunks@,
            finished_chunks@ == front + gaps_between(chunks.take(index + 1)),
            forall|i: int, j: int|
                0 <= i < j < chunks.len() ==> (#[trigger] chunks[i]).chunk_info.range.end < (
                #[trigger] chunks[j]).chunk_info.range.start,
    {
        let start: u64 = downloading_chunks[index].chunk_info.range.end;
        let end: u64 = downloading_chunks[index + 1].chunk_info.range.start;
        assert(chunks[index as int].chunk_info.range.end < chunks[index
            + 1].chunk_info.range.start);
        let ghost taken = chunks.take(index + 2);
        assert(taken.drop_last() =~= chunks.take(index + 1));
        if (end - start) != 1 {
            finished_chunks.push(ChunkRange::new(start + 1, end - 1));
            assert(finished_chunks@ =~= front + gaps_between(taken));
        }
    }
    assert(chunks.take(len as int) =~= chunks);
    if no_chunk_remaining {
        let last = downloading_chunks[len - 1];
        assert(chunks[len - 1].chunk_info.range.end < content_length);
        if last.chunk_info.range.end != content_length - 1 {
            finished_chunks.push(
                ChunkRange::new(last.chunk_info.range.end + 1, content_length - 1),
            );
        }
    }
    assert(finished_chunks@ =~= finished_around(
        chunks,
        content_length as int,
        no_chunk_remaining,
    ));
    finished_chunks
}

/// The chunks that are being downloaded and the ranges around them have every position once: up
/// to the end of the last chunk, or of the file if nothing remains to be taken.
pub proof fn law_chunks_info_covers_once(
    chunks: Seq<ChunkItem>,
    downloading: Map<usize, ChunkItem>,
    content_length: int,
    no_chunk_remaining: bool,
    i: int,
)
    requires
        is_listing(chunks, downloading),
        are_apart(downloading),
        end_below(downloading, content_length),
        content_length <= u64::MAX,
        chunks.len() > 0,
    ensures
        spans::coverage(finished_around(chunks, content_length, no_chunk_remaining), i)
            + spans::coverage(ranges_of_items(chunks), i) == (if 0 <= i < (
        if no_chunk_remaining {
            content_length
        } else {
            chunks.last().chunk_info.range.end + 1
        }) {
            1int
        } else {
            0
        }),
{
    lemma_listing_is_apart(chunks, downloading);
    lemma_gaps_coverage(chunks, i);
    let last = chunks.len() - 1;
    assert(downloading.contains_key(chunks[last].chunk_info.index));
    assert(chunks[0].chunk_info.range.length() > 0);
    let first_start = chunks[0].chunk_info.range.start;
    let last_end = chunks[last].chunk_info.range.end;
    assert(first_start <= last_end) by {
        if last > 0 {
            assert(chunks[0].chunk_info.range.end < chunks[last].chunk_info.range.start);
            assert(chunks[last].chunk_info.range.length() > 0);
        }
    }
    let around = finished_around(chunks, content_length, no_chunk_remaining);
    let before = ChunkRange { start: 0, end: (first_start - 1) as u64 };
    let behind = ChunkRange { start: (last_end + 1) as u64, end: (content_length - 1) as u64 };
    let front = if first_start == 0 {
        Seq::empty()
    } else {
        seq![before]
    };
    let back = if no_chunk_remaining && last_end != content_length - 1 {
        seq![behind]
    } else {
        Seq::empty()
    };
    assert(around == front + gaps_between(chunks) + back);
    spans::lemma_concat(front + gaps_between(chunks), back, i);
    spans::lemma_concat(front, gaps_between(chunks), i);
    spans::lemma_single(before, i);
    spans::lemma_single(behind, i);
}

proof fn lemma_gaps_coverage(chunks: Seq<ChunkItem>, i: int)
    requires
        chunks.len() > 0,
        forall|i: int|
            0 <= i < chunks.len() ==> (#[trigger] chunks[i]).chunk_info.range.length() > 0,
        forall|i: int, j: int|
            0 <= i < j < chunks.len() ==> (#[trigger] chunks[i]).chunk_info.range.end < (
            #[trigger] chunks[j]).chunk_info.range.start,
    ensures
        spans::coverage(gaps_between(chunks), i) + spans::coverage(ranges_of_items(chunks), i)
            == (if chunks[0].chunk_info.range.start <= i <= chunks.last().chunk_info.range.end {
            1int
        } else {
            0
        }),
    decreases chunks.len(),
{
    let ranges = ranges_of_items(chunks);
    let last = chunks.len() - 1;
    let front = chunks.drop_last();
    assert(ranges_of_items(front) =~= ranges.drop_last());
    assert(chunks[last].chunk_info.range.length() > 0);
    if last > 0 {
        lemma_gaps_coverage(front, i);
        assert(front[0] == chunks[0]);
        assert(front.last() == chunks[last - 1]);
        assert(chunks[last - 1].chunk_info.range.end < chunks[last].chunk_info.range.start);
        assert(chunks[last - 1].chunk_info.range.length() > 0);
        assert(chunks[0].chunk_info.range.start <= chunks[last - 1].chunk_info.range.end) by {
            if last > 1 {
                assert(chunks[0].chunk_info.range.length() > 0);
                assert(chunks[0].chunk_info.range.end < chunks[last - 1].chunk_info.range.start);
            }
        }
        let end = chunks[last - 1].chunk_info.range.end;
        let start = chunks[last].chunk_info.range.start;
        spans::lemma_push(
            gaps_between(front),
            ChunkRange { start: (end + 1) as u64, end: (start - 1) as u64 },
            i,
        );
    } else {
        assert(ranges.drop_last() =~= Seq::empty());
        assert(gaps_between(chunks) =~= Seq::empty());
    }
}

/// The ranges around chunks are not empty, and come in order; between any two of them lies at least
/// one position of a chunk, so that none of them could be larger.
pub proof fn law_finished_ranges_are_whole(
    chunks: Seq<ChunkItem>,
    downloading: Map<usize, ChunkItem>,
    content_length: int,
    no_chunk_remaining: bool,
)
    requires
        is_listing(chunks, downloading),
        are_apart(downloading),
        end_below(downloading, content_length),
        content_length <= u64::MAX,
        chunks.len() > 0,
    ensures
        ({
            let around = finished_around(chunks, content_length, no_chunk_remaining);
            &&& forall|k: int| 0 <= k < around.len() ==> (#[trigger] around[k]).length() > 0
            &&& forall|j: int, k: int|
                0 <= j < k < around.len() ==> (#[trigger] around[j]).end + 1 < (
                #[trigger] around[k]).start
        }),
{
    lemma_listing_is_apart(chunks, downloading);
    lemma_gaps_are_apart(chunks);
    let last = chunks.len() - 1;
    assert(downloading.contains_key(chunks[last].chunk_info.index));
    assert(chunks[0].chunk_info.range.length() > 0);
    assert(chunks[last].chunk_info.range.length() > 0);
    if last > 0 {
        assert(chunks[0].chunk_info.range.end < chunks[last].chunk_info.range.start);
    }
    let around = finished_around(chunks, content_length, no_chunk_remaining);
    let gaps = gaps_between(chunks);
    let front = if chunks[0].chunk_info.range.start == 0 {
        0int
    } else {
        1
    };
    assert forall|k: int| front <= k < front + gaps.len() implies #[trigger] around[k] == gaps[k
        - front] by {}
}

proof fn lemma_gaps_are_apart(chunks: Seq<ChunkItem>)
    requires
        chunks.len() > 0,
        forall|i: int|
            0 <= i < chunks.len() ==> (#[trigger] chunks[i]).chunk_info.range.length() > 0,
        forall|i: int, j: int|
            0 <= i < j < chunks.len() ==> (#[trigger] chunks[i]).chunk_info.range.end < (
            #[trigger] chunks[j]).chunk_info.range.start,
    ensures
        forall|k: int|
            0 <= k < gaps_between(chunks).len() ==> {
                let gap = #[trigger] gaps_between(chunks)[k];
                &&& gap.length() > 0
                &&& chunks[0].chunk_info.range.end < gap.start
                &&& gap.end < chunks.last().chunk_info.range.start
            },
        forall|j: int, k: int|
            0 <= j < k < gaps_between(chunks).len() ==> (#[trigger] gaps_between(chunks)[j]).end + 1
                < (#[trigger] gaps_between(chunks)[k]).start,
    decreases chunks.len(),
{
    if chunks.len() >= 2 {
        let front = chunks.drop_last();
        let last = chunks.len() - 1;
        assert(front.last() == chunks[last - 1]);
        assert(front[0] == chunks[0]);
        lemma_gaps_are_apart(front);
        let earlier = gaps_between(front);
        let gaps = gaps_between(chunks);
        assert(chunks[last - 1].chunk_info.range.end < chunks[last].chunk_info.range.start);
        assert(chunks[last - 1].chunk_info.range.length() > 0);
        assert(chunks[0].chunk_info.range.end <= chunks[last - 1].chunk_info.range.end) by {
            if last > 1 {
                assert(chunks[0].chunk_info.range.end < chunks[last - 1].chunk_info.range.start);
            }
        }
        assert forall|k: int| 0 <= k < earlier.len() implies #[trigger] gaps[k]
            == earlier[k] by {}
        assert forall|k: int| 0 <= k < gaps.len() implies {
            let gap = #[trigger] gaps[k];
            &&& gap.length() > 0
            &&& chunks[0].chunk_info.range.end < gap.start
            &&& gap.end < chunks.last().chunk_info.range.start
        } by {
            if k < earlier.len() {
                assert(earlier[k].length() > 0);
            }
        }
        assert forall|j: int, k: int| 0 <= j < k < gaps.len() implies (#[trigger] gaps[j]).end + 1
            < (#[trigger] gaps[k]).start by {
            assert(earlier[j].end < front.last().chunk_info.range.start);
        }
    }
}

/// Bytes that come are counted, and the same number is handed on once; nothing else is waited for
/// than what the one who gets it says.
pub proof fn law_same_length_is_handed_on<N: DownloadedLenChangeNotify>(
    before: LenChangedNotify<N>,
    len: usize,
    after: LenChangedNotify<N>,
    wait: Option<N::Wait>,
)
    requires
        LenChangedNotify::<N>::receives(before, len, after, wait),
    ensures
        after.downloaded_len - before.downloaded_len == len,
        after.notify is Some <==> before.notify is Some,
        before.notify is Some ==> N::receives(
            before.notify->Some_0,
            len,
            after.notify->Some_0,
            wait,
        ),
        before.notify is None ==> wait is None,
{
}

} // verus!
