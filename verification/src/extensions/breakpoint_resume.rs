//! Going on with a download that was broken off.

use std::sync::Arc;
use vstd::prelude::*;

use crate::chunk_item::ChunkItem;
use crate::chunk_iterator;
use crate::chunk_iterator::{ChunkDataView, ChunkInfo, ChunkRange};
use crate::chunk_manager;
use crate::chunk_manager::{ChunkManager, ChunkManagerView};
use crate::download_way::{DownloadWay, DownloadWayView};
use crate::downloader;
use crate::downloader::{DownloadingState, ResponseInfo};
use crate::downloader_builder::HttpDownloadConfig;
use crate::extensions::DownloadArchiveData;
use crate::paths;
use crate::progress;
use crate::sorting;
use crate::spans;

verus! {

/// Where a file is saved that belongs to another.
#[derive(Debug)]
pub enum FileSave {
    /// At this path.
    AbsolutePath(String),
    /// Beside the other, with this suffix.
    OriginPathWithSuffix(String),
}

impl FileSave {
    /// Whether a suffix has no separator.
    pub open spec fn valid(self) -> bool {
        self matches FileSave::OriginPathWithSuffix(suffix) ==> paths::has_no_separator(suffix@)
    }

    /// The path of the file that belongs to `origin_file`.
    pub fn get_file_path(&self, origin_file: &str) -> (r: String)
        requires
            self.valid(),
        ensures
            match *self {
                FileSave::AbsolutePath(path) => r@ == path@,
                FileSave::OriginPathWithSuffix(suffix) => paths::is_suffixed(
                    origin_file@,
                    suffix@,
                    r@,
                ),
            },
    {
        match self {
            FileSave::AbsolutePath(path) => path.clone(),
            FileSave::OriginPathWithSuffix(suffix) => {
                paths::path_with_suffix(origin_file, suffix.as_str())
            },
        }
    }
}

/// Something that makes the archiver of a download.
///
/// Of what it makes, only that is known which it says itself.
pub trait DownloadDataArchiverBuilder: Sized {
    type DownloadDataArchiver;

    /// Whether it can.
    open spec fn can_build(self) -> bool {
        true
    }

    /// Whether it may make this one.
    open spec fn builds(
        self,
        config: HttpDownloadConfig,
        archiver: Self::DownloadDataArchiver,
    ) -> bool {
        true
    }

    /// Makes it.
    fn build(self, config: &HttpDownloadConfig) -> (r: Self::DownloadDataArchiver)
        requires
            self.can_build(),
        ensures
            self.builds(*config, r),
    ;
}

/// Adds an archive to a download.
#[derive(Debug)]
pub struct DownloadBreakpointResumeExtension<T: DownloadDataArchiverBuilder> {
    pub download_archiver_builder: T,
}

impl<T: DownloadDataArchiverBuilder> DownloadBreakpointResumeExtension<T> {
    /// An archive by the archiver that this makes.
    pub fn new(download_archiver_builder: T) -> (r: Self)
        ensures
            r.download_archiver_builder == download_archiver_builder,
    {
        Self { download_archiver_builder }
    }

    /// The archiver of this download, for the download and for its user.
    pub fn build(self, config: &HttpDownloadConfig) -> (r: (
        DownloadBreakpointResumeDownloaderWrapper<T>,
        DownloadBreakpointResumeState<T>,
    ))
        requires
            self.download_archiver_builder.can_build(),
        ensures
            self.download_archiver_builder.builds(*config, *r.0.download_archiver),
            r.1.download_archiver == r.0.download_archiver,
    {
        let download_archiver = Arc::new(self.download_archiver_builder.build(config));
        (
            DownloadBreakpointResumeDownloaderWrapper {
                download_archiver: download_archiver.clone(),
            },
            DownloadBreakpointResumeState { download_archiver },
        )
    }
}

/// What the user of a downloader with an archive gets.
#[derive(Debug)]
pub struct DownloadBreakpointResumeState<T: DownloadDataArchiverBuilder> {
    pub download_archiver: Arc<T::DownloadDataArchiver>,
}

/// Keeps how far downloads came.
#[derive(Debug)]
pub struct DownloadBreakpointResumeDownloaderWrapper<T: DownloadDataArchiverBuilder> {
    pub download_archiver: Arc<T::DownloadDataArchiver>,
}

impl<T: DownloadDataArchiverBuilder> DownloadBreakpointResumeDownloaderWrapper<T> {
    /// What the archiver is to save of a download that began this many seconds ago, if it is by
    /// chunks; other downloads cannot go on later.
    pub fn download(&self, state: &DownloadingState, is_cancelled: bool, elapsed_secs: u64) -> (r:
        Option<DownloadArchiveData>)
        requires
            state.download_way.valid(),
            can_archive_download(*state, is_cancelled, elapsed_secs),
        ensures
            is_archive_of_download(*state, is_cancelled, elapsed_secs, r),
    {
        archive_download(state, is_cancelled, elapsed_secs)
    }
}

/// What is still to come of a chunk.
pub open spec fn tail_of(chunk: ChunkItem) -> ChunkInfo {
    ChunkInfo {
        index: chunk.chunk_info.index,
        range: ChunkRange {
            start: (chunk.chunk_info.range.start + chunk.downloaded_len) as u64,
            end: chunk.chunk_info.range.end,
        },
    }
}

/// What is still to come of those of `chunks` of which something is.
pub open spec fn tails_of(chunks: Seq<ChunkItem>) -> Seq<ChunkInfo>
    decreases chunks.len(),
{
    if chunks.len() == 0 {
        Seq::empty()
    } else if chunks.last().outstanding() == 0 {
        tails_of(chunks.drop_last())
    } else {
        tails_of(chunks.drop_last()).push(tail_of(chunks.last()))
    }
}

/// Whether `archived` keeps what is left in `data`, and what is to come of `chunks`.
///
/// If the download was cancelled, the rest of a chunk is kept as an incomplete chunk: what has come
/// of it is written when its download ends, unless that ends because the file on the server has
/// changed. Otherwise nothing of it need be in the file, and all of its range is left again.
pub open spec fn is_archive_of(
    archived: ChunkDataView,
    data: ChunkDataView,
    chunks: Seq<ChunkItem>,
    is_cancelled: bool,
) -> bool {
    &&& archived.iter_count == data.iter_count
    &&& archived.chunk_size == data.chunk_size
    &&& if is_cancelled {
        &&& archived.ranges == data.ranges
        &&& archived.incomplete == data.incomplete + tails_of(chunks)
    } else {
        &&& sorting::is_stable_sort(data.ranges + chunk_manager::ranges_of_items(chunks), archived.ranges)
        &&& archived.incomplete == data.incomplete
    }
}

/// The number of bytes that such an archive says are left.
pub open spec fn archived_len(
    data: ChunkDataView,
    chunks: Seq<ChunkItem>,
    is_cancelled: bool,
) -> int {
    data.remaining_len() + (if is_cancelled {
        spans::total_len(chunk_iterator::ranges_of(tails_of(chunks)))
    } else {
        spans::total_len(chunk_manager::ranges_of_items(chunks))
    })
}

/// Whether an archive can be made: no range is inverted, no more has come of a chunk than it
/// has, and no more is left than the file has.
pub open spec fn can_archive(m: ChunkManagerView, is_cancelled: bool) -> bool {
    &&& forall|k: int| 0 <= k < m.data.ranges.len() ==> (#[trigger] m.data.ranges[k]).valid()
    &&& forall|k: int|
        0 <= k < m.data.incomplete.len() ==> (#[trigger] m.data.incomplete[k]).range.valid()
    &&& forall|k: usize| #[trigger]
        m.downloading.contains_key(k) ==> m.downloading[k].valid()
    &&& forall|chunks: Seq<ChunkItem>| #[trigger]
        chunk_manager::is_listing(chunks, m.downloading) ==> archived_len(
            m.data,
            chunks,
            is_cancelled,
        ) <= m.content_length
}

/// The tails of chunks of which no more has come than they have are not empty.
proof fn lemma_tails_are_valid(chunks: Seq<ChunkItem>)
    requires
        forall|k: int| 0 <= k < chunks.len() ==> (#[trigger] chunks[k]).valid(),
    ensures
        forall|k: int|
            0 <= k < tails_of(chunks).len() ==> (#[trigger] tails_of(chunks)[k]).range.valid()
                && tails_of(chunks)[k].range.length() > 0 && exists|j: int|
                0 <= j < chunks.len() && tails_of(chunks)[k] == tail_of(#[trigger] chunks[j]),
    decreases chunks.len(),
{
    if chunks.len() > 0 {
        let front = chunks.drop_last();
        lemma_tails_are_valid(front);
        assert forall|k: int| 0 <= k < tails_of(chunks).len() implies (
        #[trigger] tails_of(chunks)[k]).range.valid() && tails_of(chunks)[k].range.length() > 0
            && exists|j: int|
            0 <= j < chunks.len() && tails_of(chunks)[k] == tail_of(#[trigger] chunks[j]) by {
            if k < tails_of(front).len() {
                assert(tails_of(chunks)[k] == tails_of(front)[k]);
                let j = choose|j: int|
                    0 <= j < front.len() && tails_of(front)[k] == tail_of(#[trigger] front[j]);
                assert(chunks[j] == front[j]);
            } else {
                assert(chunks[chunks.len() - 1].valid());
                assert(tails_of(chunks)[k] == tail_of(chunks[chunks.len() - 1]));
            }
        }
    }
}

/// Keeps how far a download came.
pub fn archive_data(
    chunk_manager: &ChunkManager,
    is_cancelled: bool,
    downloading_duration: u32,
) -> (r: DownloadArchiveData)
    requires
        chunk_manager.valid(),
        can_archive(chunk_manager@, is_cancelled),
    ensures
        r.downloading_duration == downloading_duration,
        r.chunk_data is Some,
        exists|chunks: Seq<ChunkItem>|
            {
                &&& #[trigger] chunk_manager::is_listing(chunks, chunk_manager@.downloading)
                &&& is_archive_of(r.chunk_data->Some_0@, chunk_manager@.data, chunks, is_cancelled)
            },
        r.downloaded_len == chunk_manager@.content_length - r.chunk_data->Some_0@.remaining_len(),
{
    let mut data = chunk_manager.chunk_iterator.data.clone();
    let downloading_chunks = chunk_manager.get_chunks();
    let ghost m = chunk_manager@;
    let ghost chunks = downloading_chunks@;
    assert forall|k: int| 0 <= k < chunks.len() implies (#[trigger] chunks[k]).valid() by {
        assert(m.downloading.contains_key(chunks[k].chunk_info.index));
    }
    if is_cancelled {
        assert(m.data.incomplete + tails_of(chunks.take(0)) =~= m.data.incomplete);
        for k in 0..downloading_chunks.len()
            invariant
                chunks == downloading_chunks@,
                forall|k: int| 0 <= k < chunks.len() ==> (#[trigger] chunks[k]).valid(),
                data@ == (ChunkDataView {
                    incomplete: m.data.incomplete + tails_of(chunks.take(k as int)),
                    ..m.data
                }),
        {
            let chunk = downloading_chunks[k];
            assert(chunks[k as int].valid());
            assert(chunks.take(k + 1).drop_last() =~= chunks.take(k as int));
            if chunk.downloaded_len != chunk.chunk_info.range.len() {
                let start: u64 = chunk.chunk_info.range.start + chunk.downloaded_len;
                let end: u64 = chunk.chunk_info.range.end;
                let range = ChunkRange::new(start, end);
                data.last_incomplete_chunks.push(
                    ChunkInfo { index: chunk.chunk_info.index, range },
                );
                assert(data@.incomplete =~= m.data.incomplete + tails_of(chunks.take(k + 1)));
            }
        }
        assert(chunks.take(chunks.len() as int) =~= chunks);
        proof {
            lemma_tails_are_valid(chunks);
        }
    } else {
        assert(m.data.ranges + chunk_manager::ranges_of_items(chunks.take(0)) =~= m.data.ranges);
        for k in 0..downloading_chunks.len()
            invariant
                chunks == downloading_chunks@,
                data@ == (ChunkDataView {
                    ranges: m.data.ranges + chunk_manager::ranges_of_items(chunks.take(k as int)),
                    ..m.data
                }),
        {
            data.remaining.ranges.push(downloading_chunks[k].chunk_info.range);
            assert(data@.ranges =~= m.data.ranges + chunk_manager::ranges_of_items(chunks.take(k + 1)));
        }
        assert(chunks.take(chunks.len() as int) =~= chunks);
        data.remaining.ranges = sorting::sort_by_start(&data.remaining.ranges);
    }
    proof {
        lemma_archive_len(data@, m.data, chunks, is_cancelled);
        lemma_archive_is_valid(data@, m.data, chunks, is_cancelled);
    }
    let remaining_len: u64 = data.remaining_len();
    DownloadArchiveData {
        downloaded_len: chunk_manager.chunk_iterator.content_length - remaining_len,
        downloading_duration,
        chunk_data: Some(data),
    }
}

/// Whether an archive can be made of a download that began this many seconds ago.
pub open spec fn can_archive_download(
    state: DownloadingState,
    is_cancelled: bool,
    elapsed_secs: u64,
) -> bool {
    state.download_way@ matches DownloadWayView::Ranges(m) ==> can_archive(m, is_cancelled)
        && state.downloading_duration + elapsed_secs % 0x1_0000_0000 <= u32::MAX
}

/// Whether `archive` keeps how far a download came that began this many seconds ago: what is left,
/// and as come the rest of the file. There is one only of downloads by chunks.
pub open spec fn is_archive_of_download(
    state: DownloadingState,
    is_cancelled: bool,
    elapsed_secs: u64,
    archive: Option<DownloadArchiveData>,
) -> bool {
    match state.download_way@ {
        DownloadWayView::Ranges(m) => {
            &&& archive matches Some(archive)
            &&& archive.downloading_duration == state.downloading_duration + elapsed_secs
                % 0x1_0000_0000
            &&& archive.chunk_data matches Some(data)
            &&& exists|chunks: Seq<ChunkItem>|
                {
                    &&& #[trigger] chunk_manager::is_listing(chunks, m.downloading)
                    &&& is_archive_of(data@, m.data, chunks, is_cancelled)
                }
            &&& archive.downloaded_len + data@.remaining_len() == m.content_length
        },
        DownloadWayView::Single(_) => archive is None,
    }
}

/// Whatever is saved of a download whose bytes to come are laid out in the file counts as come
/// exactly the bytes that it does not leave to come, so that a download that goes on from it asks
/// for exactly the others: as many as were not counted, each once.
pub proof fn law_archive_and_rest_are_the_file(
    state: DownloadingState,
    is_cancelled: bool,
    elapsed_secs: u64,
    archive: DownloadArchiveData,
)
    requires
        state.download_way@ matches DownloadWayView::Ranges(m) && progress::is_consistent(m),
        is_archive_of_download(state, is_cancelled, elapsed_secs, Some(archive)),
    ensures
        ({
            let m = state.download_way@->Ranges_0;
            &&& archive.chunk_data matches Some(data)
            &&& archive.downloaded_len + data@.remaining_len() == m.content_length
            &&& progress::is_laid_out(data@, m.content_length)
            &&& forall|i: int| #[trigger] data@.coverage(i) <= 1
            &&& forall|i: int| #[trigger] data@.coverage(i) > 0 ==> 0 <= i < m.content_length
        }),
{
    let m = state.download_way@->Ranges_0;
    let data = archive.chunk_data->Some_0;
    let chunks = choose|chunks: Seq<ChunkItem>|
        {
            &&& #[trigger] chunk_manager::is_listing(chunks, m.downloading)
            &&& is_archive_of(data@, m.data, chunks, is_cancelled)
        };
    law_archive_keeps_what_is_to_come(m, chunks, data@, is_cancelled);
    assert forall|i: int| #[trigger] data@.coverage(i) > 0 implies 0 <= i < m.content_length by {
        let ranges = data@.ranges;
        let incomplete = chunk_iterator::ranges_of(data@.incomplete);
        spans::lemma_coverage_bounds(ranges, i);
        spans::lemma_coverage_bounds(incomplete, i);
        if spans::coverage(ranges, i) > 0 {
            let k = choose|k: int| 0 <= k < ranges.len() && (#[trigger] ranges[k]).has(i);
            assert(ranges[k].end < m.content_length);
        } else {
            let k = choose|k: int| 0 <= k < incomplete.len() && (#[trigger] incomplete[k]).has(i);
            assert(incomplete[k].end < m.content_length);
        }
    }
}

/// Keeps how far a download came that began this many seconds ago, if it is by chunks; other
/// downloads cannot go on later.
pub fn archive_download(
    state: &DownloadingState,
    is_cancelled: bool,
    elapsed_secs: u64,
) -> (r: Option<DownloadArchiveData>)
    requires
        state.download_way.valid(),
        can_archive_download(*state, is_cancelled, elapsed_secs),
    ensures
        is_archive_of_download(*state, is_cancelled, elapsed_secs, r),
{
    match &state.download_way {
        DownloadWay::Ranges(chunk_manager) => {
            let downloading_duration: u32 = state.get_current_downloading_duration(elapsed_secs);
            Some(archive_data(chunk_manager, is_cancelled, downloading_duration))
        },
        DownloadWay::Single(_) => None,
    }
}

/// An archive says that as many bytes are left as are left or to come.
proof fn lemma_archive_len(
    archived: ChunkDataView,
    data: ChunkDataView,
    chunks: Seq<ChunkItem>,
    is_cancelled: bool,
)
    requires
        is_archive_of(archived, data, chunks, is_cancelled),
    ensures
        archived.remaining_len() == archived_len(data, chunks, is_cancelled),
{
    if is_cancelled {
        let tails = chunk_iterator::ranges_of(tails_of(chunks));
        spans::lemma_concat(chunk_iterator::ranges_of(data.incomplete), tails, 0);
        assert(chunk_iterator::ranges_of(archived.incomplete) =~= chunk_iterator::ranges_of(
            data.incomplete,
        ) + tails);
    } else {
        let all = data.ranges + chunk_manager::ranges_of_items(chunks);
        spans::lemma_concat(data.ranges, chunk_manager::ranges_of_items(chunks), 0);
        spans::lemma_reordered(archived.ranges, all, 0);
    }
}

proof fn lemma_archive_is_valid(
    archived: ChunkDataView,
    data: ChunkDataView,
    chunks: Seq<ChunkItem>,
    is_cancelled: bool,
)
    requires
        is_archive_of(archived, data, chunks, is_cancelled),
        forall|k: int| 0 <= k < data.ranges.len() ==> (#[trigger] data.ranges[k]).valid(),
        forall|k: int|
            0 <= k < data.incomplete.len() ==> (#[trigger] data.incomplete[k]).range.valid(),
        forall|k: int| 0 <= k < chunks.len() ==> (#[trigger] chunks[k]).valid(),
    ensures
        forall|k: int| 0 <= k < archived.ranges.len() ==> (#[trigger] archived.ranges[k]).valid(),
        forall|k: int|
            0 <= k < archived.incomplete.len() ==> (
            #[trigger] archived.incomplete[k]).range.valid(),
{
    broadcast use vstd::seq_lib::group_to_multiset_ensures;

    lemma_tails_are_valid(chunks);
    if !is_cancelled {
        let all = data.ranges + chunk_manager::ranges_of_items(chunks);
        assert forall|k: int| 0 <= k < archived.ranges.len() implies (
        #[trigger] archived.ranges[k]).valid() by {
            assert(archived.ranges.to_multiset().contains(archived.ranges[k]));
            assert(all.contains(archived.ranges[k]));
            let j = all.index_of(archived.ranges[k]);
            if j < data.ranges.len() {
                assert(data.ranges[j].valid());
            } else {
                assert(chunks[j - data.ranges.len()].valid());
            }
        }
    } else {
        assert forall|k: int| 0 <= k < archived.incomplete.len() implies (
        #[trigger] archived.incomplete[k]).range.valid() by {
            if k >= data.incomplete.len() {
                assert(archived.incomplete[k] == tails_of(chunks)[k - data.incomplete.len()]);
            }
        }
    }
}

/// Whether position `i` is among the bytes that have come of a chunk that is being downloaded.
pub open spec fn has_come(downloading: Map<usize, ChunkItem>, i: int) -> bool {
    exists|k: usize| #[trigger]
        downloading.contains_key(k) && downloading[k].chunk_info.range.start <= i
            < downloading[k].chunk_info.range.start + downloading[k].downloaded_len
}

/// The chunks in a listing have the positions that are being downloaded, each once.
proof fn lemma_listing_coverage(
    chunks: Seq<ChunkItem>,
    downloading: Map<usize, ChunkItem>,
    i: int,
)
    requires
        chunk_manager::is_listing(chunks, downloading),
        chunk_manager::are_apart(downloading),
    ensures
        spans::coverage(chunk_manager::ranges_of_items(chunks), i) == (if progress::is_downloading(
            downloading,
            i,
        ) {
            1int
        } else {
            0
        }),
{
    let ranges = chunk_manager::ranges_of_items(chunks);
    chunk_manager::lemma_listing_is_apart(chunks, downloading);
    spans::lemma_coverage_bounds(ranges, i);
    assert forall|j: int, k: int| 0 <= j < k < ranges.len() implies (#[trigger] ranges[j]).end < (
    #[trigger] ranges[k]).start by {
        assert(chunks[j].chunk_info.range.end < chunks[k].chunk_info.range.start);
    }
    spans::lemma_ordered_coverage(ranges, i);
    if spans::coverage(ranges, i) > 0 {
        let j = choose|j: int| 0 <= j < ranges.len() && (#[trigger] ranges[j]).has(i);
        assert(downloading.contains_key(chunks[j].chunk_info.index));
    }
    if progress::is_downloading(downloading, i) {
        let k = choose|k: usize| #[trigger]
            downloading.contains_key(k) && downloading[k].chunk_info.range.has(i);
        assert(chunks.contains(downloading[k]));
        let j = chunks.index_of(downloading[k]);
        assert(ranges[j].has(i));
    }
}

/// The tails of ordered chunks have a position once if it is still to come of one of them.
proof fn lemma_tails_coverage(chunks: Seq<ChunkItem>, i: int)
    requires
        forall|k: int| 0 <= k < chunks.len() ==> (#[trigger] chunks[k]).valid(),
        forall|j: int, k: int|
            0 <= j < k < chunks.len() ==> (#[trigger] chunks[j]).chunk_info.range.end < (
            #[trigger] chunks[k]).chunk_info.range.start,
    ensures
        spans::coverage(chunk_iterator::ranges_of(tails_of(chunks)), i) == (if exists|j: int|
            0 <= j < chunks.len() && tail_of(#[trigger] chunks[j]).range.has(i) {
            1int
        } else {
            0
        }),
    decreases chunks.len(),
{
    if chunks.len() > 0 {
        let front = chunks.drop_last();
        let last = chunks.len() - 1;
        lemma_tails_coverage(front, i);
        assert(chunks[last].valid());
        if chunks[last].outstanding() != 0 {
            spans::lemma_push(
                chunk_iterator::ranges_of(tails_of(front)),
                tail_of(chunks[last]).range,
                i,
            );
            assert(chunk_iterator::ranges_of(tails_of(chunks)) =~= chunk_iterator::ranges_of(
                tails_of(front),
            ).push(tail_of(chunks[last]).range));
        }
        if exists|j: int| 0 <= j < front.len() && tail_of(#[trigger] front[j]).range.has(i) {
            let j = choose|j: int|
                0 <= j < front.len() && tail_of(#[trigger] front[j]).range.has(i);
            assert(chunks[j] == front[j]);
            assert(tail_of(chunks[j]).range.has(i));
            assert(chunks[j].chunk_info.range.end < chunks[last].chunk_info.range.start);
        } else if exists|j: int|
            0 <= j < chunks.len() && tail_of(#[trigger] chunks[j]).range.has(i) {
            let j = choose|j: int|
                0 <= j < chunks.len() && tail_of(#[trigger] chunks[j]).range.has(i);
            if j < last {
                assert(front[j] == chunks[j]);
            }
            assert(tail_of(chunks[last]).range.has(i));
        }
    } else {
        assert(chunk_iterator::ranges_of(tails_of(chunks)) =~= Seq::empty());
    }
}

/// The tails of chunks with different numbers have different numbers, all among theirs.
proof fn lemma_tails_are_distinct(chunks: Seq<ChunkItem>)
    requires
        forall|k: int| 0 <= k < chunks.len() ==> (#[trigger] chunks[k]).valid(),
        forall|j: int, k: int|
            0 <= j < k < chunks.len() ==> (#[trigger] chunks[j]).chunk_info.index != (
            #[trigger] chunks[k]).chunk_info.index,
    ensures
        forall|j: int, k: int|
            0 <= j < k < tails_of(chunks).len() ==> (#[trigger] tails_of(chunks)[j]).index != (
            #[trigger] tails_of(chunks)[k]).index,
    decreases chunks.len(),
{
    if chunks.len() > 0 {
        let front = chunks.drop_last();
        let tails = tails_of(chunks);
        lemma_tails_are_distinct(front);
        lemma_tails_are_valid(front);
        assert forall|j: int, k: int| 0 <= j < k < tails.len() implies (#[trigger] tails[j]).index
            != (#[trigger] tails[k]).index by {
            assert(tails[j] == tails_of(front)[j]);
            if k < tails_of(front).len() {
                assert(tails[k] == tails_of(front)[k]);
            } else {
                let n = choose|n: int|
                    0 <= n < front.len() && tails_of(front)[j] == tail_of(#[trigger] front[n]);
                assert(chunks[n] == front[n]);
                assert(chunks[n].chunk_info.index != chunks[chunks.len()
                    - 1].chunk_info.index);
            }
        }
    }
}

/// A listing says what is outstanding.
proof fn lemma_listing_outstanding(chunks: Seq<ChunkItem>, downloading: Map<usize, ChunkItem>)
    requires
        chunk_manager::is_listing(chunks, downloading),
        downloading.dom().finite(),
        forall|k: usize| #[trigger]
            downloading.contains_key(k) ==> downloading[k].chunk_info.index == k,
        forall|k: int| 0 <= k < chunks.len() ==> (#[trigger] chunks[k]).valid(),
    ensures
        progress::outstanding(downloading) == spans::total_len(
            chunk_iterator::ranges_of(tails_of(chunks)),
        ),
    decreases chunks.len(),
{
    let tails = chunk_iterator::ranges_of(tails_of(chunks));
    if chunks.len() == 0 {
        assert(tails =~= Seq::empty());
    } else {
        let last = chunks.len() - 1;
        let front = chunks.drop_last();
        let key = chunks[last].chunk_info.index;
        let rest = downloading.remove(key);
        assert(chunks[last].valid());
        assert(downloading.contains_key(key));
        assert forall|j: int| 0 <= j < front.len() implies rest.contains_key(
            (#[trigger] front[j]).chunk_info.index,
        ) && rest[front[j].chunk_info.index] == front[j] by {
            assert(chunks[j] == front[j]);
            assert(chunks[j] != chunks[last]);
        }
        assert forall|k: usize| #[trigger] rest.contains_key(k) implies front.contains(rest[k]) by {
            assert(downloading.contains_key(k));
            let j = chunks.index_of(downloading[k]);
            assert(chunks[j] == downloading[k]);
            assert(front[j] == rest[k]);
        }
        lemma_listing_outstanding(front, rest);
        progress::lemma_outstanding_remove(downloading, key);
        let earlier = chunk_iterator::ranges_of(tails_of(front));
        if chunks[last].outstanding() == 0 {
            assert(tails =~= earlier);
        } else {
            spans::lemma_push(earlier, tail_of(chunks[last]).range, 0);
            assert(tails =~= earlier.push(tail_of(chunks[last]).range));
        }
    }
}

/// What is left and what is being downloaded fits in the file.
proof fn lemma_archive_coverage(
    m: ChunkManagerView,
    chunks: Seq<ChunkItem>,
    archived: ChunkDataView,
    is_cancelled: bool,
    i: int,
)
    requires
        progress::is_consistent(m),
        chunk_manager::is_listing(chunks, m.downloading),
        is_archive_of(archived, m.data, chunks, is_cancelled),
    ensures
        archived.coverage(i) == (if progress::is_pending(m, i) && !(is_cancelled && has_come(
            m.downloading,
            i,
        )) {
            1int
        } else {
            0
        }),
{
    let data = m.data;
    chunk_manager::lemma_listing_is_apart(chunks, m.downloading);
    lemma_listing_coverage(chunks, m.downloading, i);
    assert forall|k: int| 0 <= k < chunks.len() implies (#[trigger] chunks[k]).valid() by {
        assert(m.downloading.contains_key(chunks[k].chunk_info.index));
    }
    assert(data.coverage(i) <= 1);
    spans::lemma_coverage_bounds(data.ranges, i);
    spans::lemma_coverage_bounds(chunk_iterator::ranges_of(data.incomplete), i);
    if progress::is_downloading(m.downloading, i) {
        let k = choose|k: usize| #[trigger]
            m.downloading.contains_key(k) && m.downloading[k].chunk_info.range.has(i);
        assert(data.coverage(i) == 0);
    }
    if is_cancelled {
        let tails = chunk_iterator::ranges_of(tails_of(chunks));
        lemma_tails_coverage(chunks, i);
        spans::lemma_concat(chunk_iterator::ranges_of(data.incomplete), tails, i);
        assert(chunk_iterator::ranges_of(archived.incomplete) =~= chunk_iterator::ranges_of(
            data.incomplete,
        ) + tails);
        if exists|j: int| 0 <= j < chunks.len() && tail_of(#[trigger] chunks[j]).range.has(i) {
            let j = choose|j: int|
                0 <= j < chunks.len() && tail_of(#[trigger] chunks[j]).range.has(i);
            let key = chunks[j].chunk_info.index;
            assert(chunks[j].valid());
            assert(m.downloading.contains_key(key));
            assert(m.downloading[key].chunk_info.range.has(i));
            if has_come(m.downloading, i) {
                let k = choose|k: usize| #[trigger]
                    m.downloading.contains_key(k) && m.downloading[k].chunk_info.range.start <= i
                        < m.downloading[k].chunk_info.range.start
                        + m.downloading[k].downloaded_len;
                assert(m.downloading[k].valid());
                assert(k == key);
            }
        } else if progress::is_downloading(m.downloading, i) {
            let k = choose|k: usize| #[trigger]
                m.downloading.contains_key(k) && m.downloading[k].chunk_info.range.has(i);
            assert(m.downloading[k].valid());
            let j = chunks.index_of(m.downloading[k]);
            assert(chunks[j] == m.downloading[k]);
            assert(!tail_of(chunks[j]).range.has(i));
            assert(has_come(m.downloading, i));
        } else if has_come(m.downloading, i) {
            let k = choose|k: usize| #[trigger]
                m.downloading.contains_key(k) && m.downloading[k].chunk_info.range.start <= i
                    < m.downloading[k].chunk_info.range.start + m.downloading[k].downloaded_len;
            assert(m.downloading[k].valid());
            assert(m.downloading[k].chunk_info.range.has(i));
        }
    } else {
        let all = data.ranges + chunk_manager::ranges_of_items(chunks);
        spans::lemma_concat(data.ranges, chunk_manager::ranges_of_items(chunks), i);
        spans::lemma_reordered(archived.ranges, all, i);
    }
}

/// An archive keeps every position that is to come, once, and no other: if the download was
/// cancelled, those that have not come, and otherwise also those that have come of chunks that
/// are not finished.
///
/// What is left in it is laid out in the file as what was left before. If the download was
/// cancelled, the archive counts as many bytes as have come.
pub proof fn law_archive_keeps_what_is_to_come(
    m: ChunkManagerView,
    chunks: Seq<ChunkItem>,
    archived: ChunkDataView,
    is_cancelled: bool,
)
    requires
        progress::is_consistent(m),
        chunk_manager::is_listing(chunks, m.downloading),
        is_archive_of(archived, m.data, chunks, is_cancelled),
    ensures
        progress::is_laid_out(archived, m.content_length),
        forall|i: int| #[trigger]
            archived.coverage(i) == (if progress::is_pending(m, i) && !(is_cancelled && has_come(
                m.downloading,
                i,
            )) {
                1int
            } else {
                0
            }),
        0 <= archived.remaining_len() <= m.content_length,
        is_cancelled && progress::is_accounted(m) ==> m.content_length - archived.remaining_len()
            == m.downloaded_len,
{
    let data = m.data;
    assert forall|k: int| 0 <= k < chunks.len() implies (#[trigger] chunks[k]).valid()
        && chunks[k].chunk_info.range.end < m.content_length && chunks[k].chunk_info.index
        <= data.iter_count by {
        assert(m.downloading.contains_key(chunks[k].chunk_info.index));
    }
    assert forall|j: int, k: int| 0 <= j < k < chunks.len() implies (
    #[trigger] chunks[j]).chunk_info.index != (#[trigger] chunks[k]).chunk_info.index by {
        assert(chunks[j] != chunks[k]);
    }
    assert forall|i: int| #[trigger]
        archived.coverage(i) == (if progress::is_pending(m, i) && !(is_cancelled && has_come(
            m.downloading,
            i,
        )) {
            1int
        } else {
            0
        }) by {
        lemma_archive_coverage(m, chunks, archived, is_cancelled, i);
    }
    lemma_archive_len(archived, data, chunks, is_cancelled);
    lemma_archive_is_below(m, chunks, archived, is_cancelled);
    lemma_tails_are_valid(chunks);
    lemma_tails_are_distinct(chunks);
    lemma_listing_outstanding(chunks, m.downloading);
    assert forall|j: int| 0 <= j < archived.incomplete.len() implies (
    #[trigger] archived.incomplete[j]).range.length() > 0 && archived.incomplete[j].index
        <= data.iter_count by {
        if j >= data.incomplete.len() {
            let n = j - data.incomplete.len();
            assert(archived.incomplete[j] == tails_of(chunks)[n]);
            let c = choose|c: int|
                0 <= c < chunks.len() && tails_of(chunks)[n] == tail_of(#[trigger] chunks[c]);
            assert(chunks[c].valid());
        } else {
            assert(archived.incomplete[j] == data.incomplete[j]);
        }
    }
    assert forall|i: int, j: int| 0 <= i < j < archived.incomplete.len() implies (
    #[trigger] archived.incomplete[i]).index != (#[trigger] archived.incomplete[j]).index by {
        if j >= data.incomplete.len() {
            let n = j - data.incomplete.len();
            assert(archived.incomplete[j] == tails_of(chunks)[n]);
            let c = choose|c: int|
                0 <= c < chunks.len() && tails_of(chunks)[n] == tail_of(#[trigger] chunks[c]);
            assert(m.downloading.contains_key(chunks[c].chunk_info.index));
            if i >= data.incomplete.len() {
                assert(archived.incomplete[i] == tails_of(chunks)[i - data.incomplete.len()]);
            } else {
                assert(archived.incomplete[i] == data.incomplete[i]);
            }
        } else {
            assert(archived.incomplete[i] == data.incomplete[i]);
            assert(archived.incomplete[j] == data.incomplete[j]);
        }
    }
    let all = archived.ranges + chunk_iterator::ranges_of(archived.incomplete);
    spans::lemma_concat(archived.ranges, chunk_iterator::ranges_of(archived.incomplete), 0);
    assert forall|i: int| 0 <= i < m.content_length implies #[trigger] spans::coverage(all, i)
        <= 1 by {
        spans::lemma_concat(archived.ranges, chunk_iterator::ranges_of(archived.incomplete), i);
        assert(archived.coverage(i) <= 1);
    }
    spans::lemma_disjoint_fit(all, m.content_length as nat);
    spans::lemma_total_len_not_negative(all);
}

proof fn lemma_archive_is_below(
    m: ChunkManagerView,
    chunks: Seq<ChunkItem>,
    archived: ChunkDataView,
    is_cancelled: bool,
)
    requires
        progress::is_consistent(m),
        chunk_manager::is_listing(chunks, m.downloading),
        is_archive_of(archived, m.data, chunks, is_cancelled),
    ensures
        spans::all_below(archived.ranges, m.content_length),
        spans::all_below(chunk_iterator::ranges_of(archived.incomplete), m.content_length),
{
    broadcast use vstd::seq_lib::group_to_multiset_ensures;

    let data = m.data;
    let end = m.content_length;
    assert forall|k: int| 0 <= k < chunks.len() implies (#[trigger] chunks[k]).valid()
        && chunks[k].chunk_info.range.end < end by {
        assert(m.downloading.contains_key(chunks[k].chunk_info.index));
    }
    lemma_tails_are_valid(chunks);
    if is_cancelled {
        let ranges = chunk_iterator::ranges_of(archived.incomplete);
        assert forall|k: int| 0 <= k < ranges.len() implies (#[trigger] ranges[k]).valid()
            && ranges[k].end < end by {
            if k < data.incomplete.len() {
                assert(ranges[k] == chunk_iterator::ranges_of(data.incomplete)[k]);
            } else {
                let n = k - data.incomplete.len();
                assert(archived.incomplete[k] == tails_of(chunks)[n]);
                let c = choose|c: int|
                    0 <= c < chunks.len() && tails_of(chunks)[n] == tail_of(#[trigger] chunks[c]);
                assert(chunks[c].valid());
            }
        }
    } else {
        let all = data.ranges + chunk_manager::ranges_of_items(chunks);
        assert forall|k: int| 0 <= k < archived.ranges.len() implies (
        #[trigger] archived.ranges[k]).valid() && archived.ranges[k].end < end by {
            assert(archived.ranges.to_multiset().contains(archived.ranges[k]));
            assert(all.contains(archived.ranges[k]));
            let j = all.index_of(archived.ranges[k]);
            if j < data.ranges.len() {
                assert(data.ranges[j].valid());
            } else {
                assert(chunks[j - data.ranges.len()].valid());
            }
        }
    }
}

/// While every byte is counted once, an archive can be made at any time.
pub proof fn law_archive_can_be_made(m: ChunkManagerView, is_cancelled: bool)
    requires
        progress::is_consistent(m),
    ensures
        can_archive(m, is_cancelled),
{
    assert forall|k: int| 0 <= k < m.data.incomplete.len() implies (
    #[trigger] m.data.incomplete[k]).range.valid() by {
        assert(chunk_iterator::ranges_of(m.data.incomplete)[k] == m.data.incomplete[k].range);
    }
    assert forall|chunks: Seq<ChunkItem>| #[trigger]
        chunk_manager::is_listing(chunks, m.downloading) implies archived_len(
        m.data,
        chunks,
        is_cancelled,
    ) <= m.content_length by {
        let data = m.data;
        let archived = if is_cancelled {
            ChunkDataView { incomplete: data.incomplete + tails_of(chunks), ..data }
        } else {
            ChunkDataView {
                ranges: sorting::sorted(data.ranges + chunk_manager::ranges_of_items(chunks)),
                ..data
            }
        };
        sorting::lemma_sorted(data.ranges + chunk_manager::ranges_of_items(chunks));
        lemma_archive_len(archived, data, chunks, is_cancelled);
        law_archive_keeps_what_is_to_come(m, chunks, archived, is_cancelled);
    }
}

/// A download that goes on from an archive has to come what the archive says is left, each
/// position once, and counts the rest as come.
pub proof fn law_download_goes_on_from_archive(
    m: ChunkManagerView,
    archived: ChunkDataView,
    content_length: int,
)
    requires
        progress::is_laid_out(archived, content_length),
        m.content_length == content_length,
        m.data.chunk_size > 0,
        m.data == (ChunkDataView { chunk_size: m.data.chunk_size, ..archived }),
        m.downloading == Map::<usize, ChunkItem>::empty(),
        m.downloaded_len == content_length - archived.remaining_len(),
    ensures
        progress::is_consistent(m),
        progress::is_accounted(m),
        forall|i: int| #[trigger] progress::is_pending(m, i) <==> archived.coverage(i) > 0,
{
    assert forall|i: int| #[trigger] m.data.coverage(i) == archived.coverage(i) by {}
    assert forall|i: int| #[trigger] progress::is_pending(m, i) <==> archived.coverage(i) > 0 by {
        assert(m.data.coverage(i) == archived.coverage(i));
    }
}

/// A download that begins without an archive has the whole file to come, and has counted nothing.
pub proof fn law_download_begins_with_the_whole_file(
    config: HttpDownloadConfig,
    response: ResponseInfo,
)
    requires
        config.valid(),
        response.serves_ranges,
        response.content_length matches Some(content_length) && content_length > 0,
    ensures
        downloader::way_to_begin(config, 0, response, None) matches DownloadWayView::Ranges(m) && {
            &&& progress::is_consistent(m)
            &&& progress::is_accounted(m)
            &&& m.downloaded_len == 0
            &&& forall|i: int| #[trigger]
                progress::is_pending(m, i) <==> 0 <= i < response.content_length->Some_0
        },
{
    let m = downloader::way_to_begin(config, 0, response, None)->Ranges_0;
    progress::law_fresh_download(m, config.chunk_size as nat, response.content_length->Some_0);
}

/// A download by chunks that was broken off goes on from its archive where it was: the positions
/// to come are those that were to come, each once, whatever the size of the chunks is then.
///
/// If it was cancelled, those that had come do not come again, and as many bytes are counted as
/// had come. Otherwise the chunks that were not finished come again as a whole.
pub proof fn law_broken_off_download_goes_on(
    m: ChunkManagerView,
    chunks: Seq<ChunkItem>,
    is_cancelled: bool,
    archive: DownloadArchiveData,
    config: HttpDownloadConfig,
    response: ResponseInfo,
)
    requires
        progress::is_consistent(m),
        chunk_manager::is_listing(chunks, m.downloading),
        archive.chunk_data matches Some(data) && is_archive_of(
            data@,
            m.data,
            chunks,
            is_cancelled,
        ) && archive.downloaded_len == m.content_length - data@.remaining_len(),
        config.valid(),
        response.serves_ranges,
        response.content_length matches Some(content_length) && content_length == m.content_length,
    ensures
        downloader::way_to_begin(config, 0, response, Some(archive)) matches DownloadWayView::Ranges(
            next,
        ) && {
            &&& progress::is_consistent(next)
            &&& progress::is_accounted(next)
            &&& next.content_length == m.content_length
            &&& is_cancelled && progress::is_accounted(m) ==> next.downloaded_len
                == m.downloaded_len
            &&& forall|i: int| #[trigger]
                progress::is_pending(next, i) <==> progress::is_pending(m, i) && !(is_cancelled
                    && has_come(m.downloading, i))
        },
{
    let next = downloader::way_to_begin(config, 0, response, Some(archive))->Ranges_0;
    let archived = archive.chunk_data->Some_0@;
    law_archive_keeps_what_is_to_come(m, chunks, archived, is_cancelled);
    law_download_goes_on_from_archive(next, archived, m.content_length);
    assert forall|i: int| #[trigger]
        progress::is_pending(next, i) <==> progress::is_pending(m, i) && !(is_cancelled
            && has_come(m.downloading, i)) by {
        assert(progress::is_pending(next, i) <==> archived.coverage(i) > 0);
    }
}

/// Of chunks that come in order, the tails do so too, and every chunk of which something is to come
/// has one.
proof fn lemma_tails_in_order(chunks: Seq<ChunkItem>)
    requires
        forall|k: int| 0 <= k < chunks.len() ==> (#[trigger] chunks[k]).valid(),
        forall|j: int, k: int|
            0 <= j < k < chunks.len() ==> (#[trigger] chunks[j]).chunk_info.range.end < (
            #[trigger] chunks[k]).chunk_info.range.start,
    ensures
        forall|j: int, k: int|
            0 <= j < k < tails_of(chunks).len() ==> (#[trigger] tails_of(chunks)[j]).range.end < (
            #[trigger] tails_of(chunks)[k]).range.start,
        forall|k: int|
            0 <= k < chunks.len() && (#[trigger] chunks[k]).outstanding() > 0 ==> tails_of(
                chunks,
            ).contains(tail_of(chunks[k])),
    decreases chunks.len(),
{
    if chunks.len() > 0 {
        let front = chunks.drop_last();
        let last = chunks.len() - 1;
        let tails = tails_of(chunks);
        let earlier = tails_of(front);
        lemma_tails_in_order(front);
        lemma_tails_are_valid(front);
        assert(chunks[last].valid());
        assert forall|j: int, k: int| 0 <= j < k < tails.len() implies (
        #[trigger] tails[j]).range.end < (#[trigger] tails[k]).range.start by {
            assert(tails[j] == earlier[j]);
            if k < earlier.len() {
                assert(tails[k] == earlier[k]);
            } else {
                let n = choose|n: int|
                    0 <= n < front.len() && earlier[j] == tail_of(#[trigger] front[n]);
                assert(chunks[n] == front[n]);
                assert(chunks[n].chunk_info.range.end < chunks[last].chunk_info.range.start);
            }
        }
        assert forall|k: int| 0 <= k < chunks.len() && (
        #[trigger] chunks[k]).outstanding() > 0 implies tails.contains(tail_of(chunks[k])) by {
            if k < last {
                assert(front[k] == chunks[k]);
                let n = earlier.index_of(tail_of(chunks[k]));
                assert(earlier[n] == tail_of(chunks[k]));
                assert(tails[n] == earlier[n]);
            } else {
                assert(tails[tails.len() - 1] == tail_of(chunks[last]));
            }
        }
    }
}

/// Whether `archived` has, of the chunks in `downloading`, exactly those of which something is to
/// come, behind the first `n` chunks: each once, under its number, from the first byte that has not
/// come to its end.
pub open spec fn has_tails(
    archived: Seq<ChunkInfo>,
    n: nat,
    downloading: Map<usize, ChunkItem>,
) -> bool {
    &&& forall|j: int|
        n <= j < archived.len() ==> {
            let tail = #[trigger] archived[j];
            let chunk = downloading[tail.index];
            &&& downloading.contains_key(tail.index)
            &&& tail.range.start == chunk.chunk_info.range.start + chunk.downloaded_len
            &&& tail.range.end == chunk.chunk_info.range.end
            &&& tail.range.length() > 0
        }
    &&& forall|i: int, j: int|
        n <= i < j < archived.len() ==> (#[trigger] archived[i]).range.end < (
        #[trigger] archived[j]).range.start
    &&& forall|k: usize| #[trigger]
        downloading.contains_key(k) && downloading[k].outstanding() > 0 ==> exists|j: int|
            n <= j < archived.len() && (#[trigger] archived[j]).index == k
}

/// An archive of a cancelled download keeps of each chunk the bytes that have not come, under its
/// number and in order, behind the chunks that were incomplete before. Otherwise it keeps each
/// chunk as a whole range, and all ranges in order.
pub proof fn law_archive_keeps_each_chunk(
    m: ChunkManagerView,
    chunks: Seq<ChunkItem>,
    archived: ChunkDataView,
    is_cancelled: bool,
)
    requires
        progress::is_consistent(m),
        chunk_manager::is_listing(chunks, m.downloading),
        is_archive_of(archived, m.data, chunks, is_cancelled),
    ensures
        archived.iter_count == m.data.iter_count,
        archived.chunk_size == m.data.chunk_size,
        is_cancelled ==> {
            &&& archived.ranges == m.data.ranges
            &&& m.data.incomplete.len() <= archived.incomplete.len()
            &&& archived.incomplete.take(m.data.incomplete.len() as int) == m.data.incomplete
            &&& has_tails(archived.incomplete, m.data.incomplete.len(), m.downloading)
        },
        !is_cancelled ==> {
            &&& archived.incomplete == m.data.incomplete
            &&& archived.ranges.len() == m.data.ranges.len() + m.current_count()
            &&& forall|i: int, j: int|
                0 <= i < j < archived.ranges.len() ==> (#[trigger] archived.ranges[i]).start <= (
                #[trigger] archived.ranges[j]).start
            &&& forall|k: usize| #[trigger]
                m.downloading.contains_key(k) ==> archived.ranges.contains(
                    m.downloading[k].chunk_info.range,
                )
            &&& forall|k: int|
                0 <= k < m.data.ranges.len() ==> archived.ranges.contains(
                    #[trigger] m.data.ranges[k],
                )
        },
{
    broadcast use vstd::seq_lib::group_to_multiset_ensures;

    let data = m.data;
    let n = data.incomplete.len();
    chunk_manager::lemma_listing_is_apart(chunks, m.downloading);
    assert forall|k: int| 0 <= k < chunks.len() implies (#[trigger] chunks[k]).valid() by {
        assert(m.downloading.contains_key(chunks[k].chunk_info.index));
    }
    if is_cancelled {
        let tails = tails_of(chunks);
        lemma_tails_in_order(chunks);
        lemma_tails_are_valid(chunks);
        assert(archived.incomplete.take(n as int) =~= data.incomplete);
        assert forall|j: int| n <= j < archived.incomplete.len() implies {
            let tail = #[trigger] archived.incomplete[j];
            let chunk = m.downloading[tail.index];
            &&& m.downloading.contains_key(tail.index)
            &&& tail.range.start == chunk.chunk_info.range.start + chunk.downloaded_len
            &&& tail.range.end == chunk.chunk_info.range.end
            &&& tail.range.length() > 0
        } by {
            assert(archived.incomplete[j] == tails[j - n]);
            let c = choose|c: int|
                0 <= c < chunks.len() && tails[j - n] == tail_of(#[trigger] chunks[c]);
            assert(chunks[c].valid());
            assert(m.downloading.contains_key(chunks[c].chunk_info.index));
        }
        assert forall|i: int, j: int| n <= i < j < archived.incomplete.len() implies (
        #[trigger] archived.incomplete[i]).range.end < (
        #[trigger] archived.incomplete[j]).range.start by {
            assert(archived.incomplete[i] == tails[i - n]);
            assert(archived.incomplete[j] == tails[j - n]);
        }
        assert forall|k: usize| #[trigger]
            m.downloading.contains_key(k) && m.downloading[k].outstanding() > 0 implies exists|
            j: int,
        |
            n <= j < archived.incomplete.len() && (#[trigger] archived.incomplete[j]).index
                == k by {
            let c = chunks.index_of(m.downloading[k]);
            assert(chunks[c] == m.downloading[k]);
            let t = tails.index_of(tail_of(chunks[c]));
            assert(tails[t] == tail_of(chunks[c]));
            assert(archived.incomplete[n + t] == tails[t]);
        }
    } else {
        let all = data.ranges + chunk_manager::ranges_of_items(chunks);
        assert(archived.ranges.len() == archived.ranges.to_multiset().len());
        assert(all.len() == all.to_multiset().len());
        assert forall|k: int| 0 <= k < all.len() implies archived.ranges.contains(
            #[trigger] all[k],
        ) by {
            assert(all.to_multiset().contains(all[k]));
            assert(archived.ranges.to_multiset().contains(all[k]));
        }
        assert forall|k: usize| #[trigger] m.downloading.contains_key(k) implies
            archived.ranges.contains(m.downloading[k].chunk_info.range) by {
            let c = chunks.index_of(m.downloading[k]);
            assert(chunks[c] == m.downloading[k]);
            assert(all[data.ranges.len() + c] == m.downloading[k].chunk_info.range);
        }
        assert forall|k: int| 0 <= k < data.ranges.len() implies archived.ranges.contains(
            #[trigger] data.ranges[k],
        ) by {
            assert(all[k] == data.ranges[k]);
        }
        assert forall|i: int, j: int| 0 <= i < j < archived.ranges.len() implies (
        #[trigger] archived.ranges[i]).start <= (#[trigger] archived.ranges[j]).start by {
            assert(sorting::is_sorted(archived.ranges));
        }
    }
}

/// What is saved of a download by chunks tells for how long it went on, that before and that since
/// it began; and nothing is saved of another download.
pub proof fn law_archive_tells_how_long_it_went_on(
    state: DownloadingState,
    is_cancelled: bool,
    elapsed_secs: u64,
    archive: Option<DownloadArchiveData>,
)
    requires
        is_archive_of_download(state, is_cancelled, elapsed_secs, archive),
    ensures
        archive is Some <==> state.download_way is Ranges,
        elapsed_secs <= u32::MAX ==> (archive matches Some(archive)
            ==> archive.downloading_duration - state.downloading_duration == elapsed_secs),
        archive matches Some(archive) ==> archive.downloading_duration
            == downloader::duration_to_begin_with(Some(archive)),
{
}

} // verus!
