//! What is answered when chunks are handed out, fetched and counted.

use headers::HeaderMap;
use vstd::prelude::*;

use crate::chunk_item::{ChunkAction, ChunkDownload, ChunkEvent, ChunkItem};
use crate::chunk_iterator;
use crate::chunk_iterator::{ChunkData, ChunkInfo, ChunkIterator, ChunkRange, RemainingChunks};
use crate::chunk_manager;
use crate::chunk_manager::{ChunkEndStep, ChunkManager, ChunkManagerView, ChunksInfo, DownloadRun};
use crate::downloader::DownloadingEndCause;
use crate::header_fields;
use crate::header_fields::{ETag, HttpRequest};
use crate::progress;
use crate::sorting;
use crate::spans;

verus! {

/// The chunk that is started by a step, if one is.
pub open spec fn started(step: ChunkEndStep) -> Seq<ChunkInfo> {
    match step {
        ChunkEndStep::Start(chunk) => seq![chunk],
        _ => Seq::empty(),
    }
}

/// When a chunk is finished, every chunk that becomes counted as being downloaded is handed out,
/// with its number and its range, and none is handed out that does not. One is, if there are not
/// too many connections and something is left.
pub proof fn law_finished_chunk_is_followed_by_the_next<E>(
    manager: &mut ChunkManager,
    run: &mut DownloadRun<E>,
    left: usize,
    step: ChunkEndStep,
)
    requires
        progress::is_consistent(old(manager)@),
        old(manager)@.data.can_draw(),
        call_ensures(ChunkManager::meet_chunk_finished::<E>, (manager, run, left), step),
    ensures
        chunk_manager::grows_by(
            old(manager)@.downloading,
            final(manager)@.downloading,
            started(step),
        ),
        step is Start <==> !old(run).is_iter_finished && old(manager)@.superfluities == 0
            && progress::is_left(old(manager)@.data),
        step is Finish <==> left == 0 && (old(run).is_iter_finished
            || old(manager)@.superfluities == 0 && !progress::is_left(old(manager)@.data)),
        final(run).is_iter_finished <==> old(run).is_iter_finished
            || old(manager)@.superfluities == 0 && !progress::is_left(old(manager)@.data),
        !old(run).is_iter_finished && old(manager)@.superfluities > 0
            ==> final(manager)@.superfluities == old(manager)@.superfluities - 1,
        final(manager)@.connection_count == old(manager)@.connection_count,
        final(manager)@.downloaded_len == old(manager)@.downloaded_len,
        forall|i: int| #[trigger]
            progress::is_pending(final(manager)@, i) <==> progress::is_pending(old(manager)@, i),
{
    let m = old(manager)@;
    progress::law_connection_of_a_finished_chunk(m, *old(run), left as int);
    progress::law_next_chunk(m);
    if !(!old(run).is_iter_finished && m.superfluities == 0) {
        assert forall|i: int| #[trigger]
            progress::is_pending(final(manager)@, i) <==> progress::is_pending(m, i) by {
            assert(final(manager)@.data == m.data);
            assert(final(manager)@.downloading == m.downloading);
        }
    }
}

/// When the number of connections changes, the chunks that are handed out are exactly those by
/// which the chunks that are being downloaded grow, each once with its range: as many as
/// connections are missing, unless nothing is left.
pub proof fn law_changed_count_hands_out_the_missing<E>(
    manager: &mut ChunkManager,
    run: &mut DownloadRun<E>,
    count: u8,
    chunks: Vec<ChunkInfo>,
)
    requires
        progress::is_consistent(old(manager)@),
        old(manager)@.can_number_for(count as int),
        call_ensures(ChunkManager::meet_connection_count::<E>, (manager, run, count), chunks),
    ensures
        chunk_manager::grows_by(
            old(manager)@.downloading,
            final(manager)@.downloading,
            chunks@,
        ),
        count > 0 && old(manager)@.current_count() <= count ==> {
            &&& chunks@.len() <= count - old(manager)@.current_count()
            &&& chunks@.len() < count - old(manager)@.current_count() ==> !progress::is_left(
                final(manager)@.data,
            ) && final(run).is_iter_finished
            &&& chunks@.len() == count - old(manager)@.current_count()
                ==> final(run).is_iter_finished == old(run).is_iter_finished
            &&& final(manager)@.superfluities == 0
        },
        count == 0 || old(manager)@.current_count() > count ==> chunks@.len() == 0
            && final(manager)@.data == old(manager)@.data && final(run).is_iter_finished == old(
            run,
        ).is_iter_finished,
        count > 0 && old(manager)@.current_count() > count ==> final(manager)@.superfluities == old(
            manager,
        )@.current_count() - count,
        count == 0 ==> final(manager)@.superfluities == old(manager)@.superfluities,
        final(run).is_listening <==> old(run).is_listening && count > 0,
        final(run).result == old(run).result,
        forall|i: int| #[trigger]
            progress::is_pending(final(manager)@, i) <==> progress::is_pending(old(manager)@, i),
{
    let m = old(manager)@;
    let after = final(manager)@;
    progress::law_missing_connections_get_a_chunk_each(m, *old(run), count as int);
    if count > 0 && m.current_count() <= count {
        let missing = (count - m.current_count()) as nat;
        progress::law_next_chunks(m, missing);
        let taken = m.after_next_chunks(missing);
        assert forall|i: int| #[trigger]
            progress::is_pending(after, i) <==> progress::is_pending(m, i) by {
            assert(progress::is_pending(taken, i) <==> progress::is_pending(m, i));
            assert(after.data == taken.data && after.downloading == taken.downloading);
        }
    } else {
        assert forall|i: int| #[trigger]
            progress::is_pending(after, i) <==> progress::is_pending(m, i) by {
            assert(after.data == m.data && after.downloading == m.downloading);
        }
    }
}

/// A download begins with a chunk for each connection, or with all if there are fewer; these are
/// the chunks that are then being downloaded.
pub proof fn law_start_hands_out_a_chunk_per_connection<E>(
    manager: &mut ChunkManager,
    chunks: Vec<ChunkInfo>,
    run: DownloadRun<E>,
)
    requires
        progress::is_consistent(old(manager)@),
        old(manager)@.connection_count > 0,
        old(manager)@.can_number(old(manager)@.connection_count as nat),
        call_ensures(ChunkManager::start_download::<E>, (manager,), (chunks, run)),
    ensures
        chunk_manager::grows_by(
            old(manager)@.downloading,
            final(manager)@.downloading,
            chunks@,
        ),
        chunks@.len() <= old(manager)@.connection_count,
        chunks@.len() < old(manager)@.connection_count ==> !progress::is_left(
            final(manager)@.data,
        ),
        run.is_iter_finished <==> chunks@.len() < old(manager)@.connection_count,
        run.is_listening,
        run.undisturbed(),
        final(manager)@.connection_count == old(manager)@.connection_count,
        final(manager)@.superfluities == old(manager)@.superfluities,
        final(manager)@.downloaded_len == old(manager)@.downloaded_len,
        forall|i: int| #[trigger]
            progress::is_pending(final(manager)@, i) <==> progress::is_pending(old(manager)@, i),
{
    let m = old(manager)@;
    progress::law_taken_chunks_are_handed_out(m, m.connection_count as nat);
    progress::law_next_chunks(m, m.connection_count as nat);
}

/// The next chunk is one by which the chunks that are being downloaded grow. There is one exactly
/// if something is left.
pub proof fn law_next_chunk_is_being_downloaded(
    manager: &mut ChunkManager,
    chunk: Option<ChunkInfo>,
)
    requires
        progress::is_consistent(old(manager)@),
        old(manager)@.data.can_draw(),
        call_ensures(ChunkManager::download_next_chunk, (manager,), chunk),
    ensures
        chunk is Some <==> progress::is_left(old(manager)@.data),
        chunk_manager::grows_by(
            old(manager)@.downloading,
            final(manager)@.downloading,
            match chunk {
                Some(chunk) => seq![chunk],
                None => Seq::empty(),
            },
        ),
        forall|i: int| #[trigger]
            progress::is_pending(final(manager)@, i) <==> progress::is_pending(old(manager)@, i),
{
    let m = old(manager)@;
    let run = DownloadRun::<()> {
        is_iter_finished: false,
        is_listening: true,
        result: Ok(DownloadingEndCause::DownloadFinished),
    };
    let free = ChunkManagerView { superfluities: 0, ..m };
    progress::law_next_chunk(m);
    progress::law_connection_of_a_finished_chunk(free, run, 0);
}

/// Removing a chunk gives back what was counted of it, and says how many others there are, which
/// stay.
pub proof fn law_removed_chunk_is_given_back(
    manager: &mut ChunkManager,
    index: usize,
    count: usize,
    item: Option<ChunkItem>,
    other: usize,
)
    requires
        old(manager).valid(),
        other != index,
        call_ensures(ChunkManager::remove_chunk, (manager, index), (count, item)),
    ensures
        match item {
            Some(item) => old(manager)@.downloading.contains_key(index) && item == old(
                manager,
            )@.downloading[index] && count == old(manager)@.current_count() - 1,
            None => !old(manager)@.downloading.contains_key(index) && count == old(
                manager,
            )@.current_count(),
        },
        !final(manager)@.downloading.contains_key(index),
        final(manager)@.downloading.contains_key(other) <==> old(
            manager,
        )@.downloading.contains_key(other),
        old(manager)@.downloading.contains_key(other) ==> final(manager)@.downloading[other] == old(
            manager,
        )@.downloading[other],
        final(manager)@.current_count() == count,
        final(manager)@.data == old(manager)@.data,
        final(manager)@.downloaded_len == old(manager)@.downloaded_len,
        final(manager)@.superfluities == old(manager)@.superfluities,
        final(manager)@.connection_count == old(manager)@.connection_count,
{
    progress::law_removal_takes_one_chunk(old(manager)@, index, other);
}

/// Bytes that come count for their chunk and for the download, as many as there are, and for
/// nothing else.
pub proof fn law_received_bytes_are_counted(
    manager: &mut ChunkManager,
    index: usize,
    len: usize,
    other: usize,
)
    requires
        old(manager).valid(),
        old(manager)@.downloading.contains_key(index),
        old(manager)@.downloading[index].downloaded_len + len <= u64::MAX,
        other != index,
        call_ensures(ChunkManager::receive_len, (manager, index, len), ()),
    ensures
        final(manager)@.downloaded_len == old(manager)@.downloaded_len + len,
        final(manager)@.downloading.contains_key(index),
        final(manager)@.downloading[index].downloaded_len == old(
            manager,
        )@.downloading[index].downloaded_len + len,
        final(manager)@.downloading[index].chunk_info == old(
            manager,
        )@.downloading[index].chunk_info,
        final(manager)@.downloading.contains_key(other) <==> old(
            manager,
        )@.downloading.contains_key(other),
        old(manager)@.downloading.contains_key(other) ==> final(manager)@.downloading[other] == old(
            manager,
        )@.downloading[other],
        final(manager)@.data == old(manager)@.data,
        final(manager)@.superfluities == old(manager)@.superfluities,
        final(manager)@.connection_count == old(manager)@.connection_count,
{
    progress::law_bytes_count_for_their_chunk(old(manager)@, index, len, other);
}

/// The first chunk that goes wrong has the others cancelled, and decides how the download ends;
/// from then on there is to be no connection. What goes wrong later changes nothing.
pub proof fn law_first_failure_cancels_the_rest<E>(
    manager: &mut ChunkManager,
    run: &mut DownloadRun<E>,
    err: E,
    cancel: bool,
)
    requires
        call_ensures(ChunkManager::meet_chunk_failed::<E>, (manager, run, err), cancel),
    ensures
        cancel <==> old(run).result == Ok::<DownloadingEndCause, E>(
            DownloadingEndCause::DownloadFinished,
        ),
        cancel ==> final(run).result == Err::<DownloadingEndCause, E>(err)
            && final(manager)@.connection_count == 0,
        !cancel ==> final(run).result == old(run).result && final(manager)@ == old(manager)@,
        final(manager)@ == (ChunkManagerView {
            connection_count: final(manager)@.connection_count,
            ..old(manager)@
        }),
        final(run).is_iter_finished == old(run).is_iter_finished,
        final(run).is_listening == old(run).is_listening,
{
}

/// The first chunk that is cancelled decides that the download ends as cancelled, unless something
/// was wrong before; from then on there is to be no connection.
pub proof fn law_first_cancelled_chunk_counts<E>(
    manager: &mut ChunkManager,
    run: &mut DownloadRun<E>,
)
    requires
        call_ensures(ChunkManager::meet_chunk_cancelled::<E>, (manager, run), ()),
    ensures
        old(run).result == Ok::<DownloadingEndCause, E>(DownloadingEndCause::DownloadFinished) ==> {
            &&& final(run).result == Ok::<DownloadingEndCause, E>(DownloadingEndCause::Cancelled)
            &&& final(manager)@.connection_count == 0
        },
        old(run).result != Ok::<DownloadingEndCause, E>(DownloadingEndCause::DownloadFinished) ==> {
            &&& final(run).result == old(run).result
            &&& final(manager)@ == old(manager)@
        },
        final(manager)@ == (ChunkManagerView {
            connection_count: final(manager)@.connection_count,
            ..old(manager)@
        }),
        final(run).is_iter_finished == old(run).is_iter_finished,
        final(run).is_listening == old(run).is_listening,
{
}

/// The number of connections and the size of the chunks are those that were set last, and setting
/// them changes nothing else.
pub proof fn law_set_numbers_are_kept(
    counted: &mut ChunkManager,
    count: u8,
    sized: &mut ChunkManager,
    chunk_size: usize,
    after: ChunkManager,
    r: u8,
)
    requires
        call_ensures(ChunkManager::change_connection_count, (counted, count), ()),
        call_ensures(ChunkManager::change_chunk_size, (sized, chunk_size), ()),
        after == *final(counted),
        call_ensures(ChunkManager::connection_count, (&after,), r),
    ensures
        r == count,
        old(counted)@ == (ChunkManagerView {
            connection_count: old(counted)@.connection_count,
            ..final(counted)@
        }),
        final(sized)@.data.chunk_size == chunk_size,
        final(sized)@.data.ranges == old(sized)@.data.ranges,
        final(sized)@.data.incomplete == old(sized)@.data.incomplete,
        final(sized)@.data.iter_count == old(sized)@.data.iter_count,
        old(sized)@ == (ChunkManagerView { data: old(sized)@.data, ..final(sized)@ }),
{
}

/// The chunks that are listed are those that are being downloaded, each once, in the order of the
/// file.
pub proof fn law_listed_chunks_are_those_being_downloaded(
    manager: ChunkManager,
    chunks: Vec<ChunkItem>,
    index: usize,
)
    requires
        manager.valid(),
        call_ensures(ChunkManager::get_chunks, (&manager,), chunks),
    ensures
        chunks@.len() == manager@.current_count(),
        manager@.downloading.contains_key(index) <==> exists|j: int|
            0 <= j < chunks@.len() && (#[trigger] chunks@[j]).chunk_info.index == index,
        forall|j: int|
            0 <= j < chunks@.len() ==> manager@.downloading[(
            #[trigger] chunks@[j]).chunk_info.index] == chunks@[j],
        forall|i: int, j: int|
            0 <= i < j < chunks@.len() ==> (#[trigger] chunks@[i]).chunk_info.range.start <= (
            #[trigger] chunks@[j]).chunk_info.range.start,
{
    let downloading = manager@.downloading;
    if downloading.contains_key(index) {
        let j = chunks@.index_of(downloading[index]);
        assert(chunks@[j].chunk_info.index == index);
    }
    assert forall|i: int, j: int| 0 <= i < j < chunks@.len() implies (
    #[trigger] chunks@[i]).chunk_info.range.start <= (
    #[trigger] chunks@[j]).chunk_info.range.start by {
        assert(sorting::is_sorted(chunks@));
    }
}

/// The chunks that are being downloaded and the finished ranges, as they are told, have every
/// position once, up to the end of the last chunk, or of the file if nothing remains to be taken.
/// No finished range is empty, and no two of them touch.
pub proof fn law_told_chunks_and_ranges_are_the_file(
    manager: ChunkManager,
    info: ChunksInfo,
    i: int,
)
    requires
        manager.valid(),
        progress::is_consistent(manager@),
        manager@.current_count() > 0,
        call_ensures(ChunkManager::get_chunks_info, (&manager,), info),
    ensures
        ({
            let chunks = info.downloading_chunks@;
            let finished = info.finished_chunks@;
            let end = if manager@.data.ranges.len() == 0 {
                manager@.content_length
            } else {
                chunks.last().chunk_info.range.end + 1
            };
            &&& info.no_chunk_remaining <==> manager@.data.ranges.len() == 0
            &&& chunk_manager::is_listing(chunks, manager@.downloading)
            &&& spans::coverage(finished, i) + spans::coverage(
                chunk_manager::ranges_of_items(chunks),
                i,
            ) == (if 0 <= i < end {
                1int
            } else {
                0
            })
            &&& forall|k: int| 0 <= k < finished.len() ==> (#[trigger] finished[k]).length() > 0
            &&& forall|j: int, k: int|
                0 <= j < k < finished.len() ==> (#[trigger] finished[j]).end + 1 < (
                #[trigger] finished[k]).start
        }),
{
    let chunks = info.downloading_chunks@;
    chunk_manager::law_chunks_info_covers_once(
        chunks,
        manager@.downloading,
        manager@.content_length,
        info.no_chunk_remaining,
        i,
    );
    chunk_manager::law_finished_ranges_are_whole(
        chunks,
        manager@.downloading,
        manager@.content_length,
        info.no_chunk_remaining,
    );
}

/// A copy of a request is the same request.
pub proof fn law_cloned_request_is_the_same(request: HttpRequest, copy: HttpRequest)
    requires
        call_ensures(ChunkManager::clone_request, (&request,), copy),
    ensures
        copy.method@ == request.method@,
        copy.url@ == request.url@,
        copy.version == request.version,
        copy.timeout == request.timeout,
        forall|name: Seq<char>| #[trigger]
            header_fields::field_values(copy.headers, name) == header_fields::field_values(
                request.headers,
                name,
            ),
{
}

/// A range made of its start and length has that start and that length, and one made of its ends
/// has these.
pub proof fn law_range_has_its_start_and_length(
    start: u64,
    len: u64,
    by_len: ChunkRange,
    end: u64,
    by_ends: ChunkRange,
    n: u64,
)
    requires
        1 <= start + len <= u64::MAX,
        call_ensures(ChunkRange::from_len, (start, len), by_len),
        call_ensures(ChunkRange::len, (&by_len,), n),
        call_ensures(ChunkRange::new, (start, end), by_ends),
    ensures
        n == len,
        by_len.start == start,
        forall|i: int| #[trigger] by_len.has(i) <==> start <= i < start + len,
        forall|i: int| #[trigger] by_ends.has(i) <==> start <= i <= end,
{
}

/// Taking the first chunk of the ranges moves its positions out of them: as many as a chunk has, or
/// as the first range that is not empty has.
pub proof fn law_taken_chunk_leaves_the_rest(
    remaining: &mut RemainingChunks,
    chunk: Option<ChunkRange>,
    i: int,
)
    requires
        old(remaining).valid(),
        call_ensures(RemainingChunks::take_first, (remaining,), chunk),
    ensures
        final(remaining).chunk_size == old(remaining).chunk_size,
        match chunk {
            Some(chunk) => {
                &&& spans::coverage(old(remaining).ranges@, i) == spans::coverage(
                    final(remaining).ranges@,
                    i,
                ) + spans::hits(chunk, i)
                &&& chunk.length() > 0
                &&& exists|k: int| #[trigger]
                    chunk_iterator::is_front_of(
                        old(remaining).ranges@,
                        old(remaining).chunk_size as nat,
                        k,
                        chunk,
                        final(remaining).ranges@,
                    )
            },
            None => spans::coverage(old(remaining).ranges@, i) == 0
                && final(remaining).ranges@.len() == 0,
        },
{
    let ranges = old(remaining).ranges@;
    let chunk_size = old(remaining).chunk_size as nat;
    chunk_iterator::law_first_chunk_is_moved(ranges, chunk_size, i);
    chunk_iterator::law_first_chunk_is_as_large_as_may_be(ranges, chunk_size);
}

/// A chunk that an earlier download did not finish is taken before any other, the last one first.
/// Otherwise the next chunk is new, with the next number, and comes from the front of the ranges.
pub proof fn law_next_range_is_incomplete_or_new(data: &mut ChunkData, chunk: Option<ChunkInfo>)
    requires
        old(data).remaining.valid(),
        old(data)@.can_draw(),
        call_ensures(ChunkData::next_chunk_range, (data,), chunk),
    ensures
        final(data)@.chunk_size == old(data)@.chunk_size,
        old(data)@.incomplete.len() > 0 ==> {
            &&& chunk is Some
            &&& old(data)@.incomplete == final(data)@.incomplete.push(chunk->Some_0)
            &&& final(data)@.ranges == old(data)@.ranges
            &&& final(data)@.iter_count == old(data)@.iter_count
        },
        old(data)@.incomplete.len() == 0 ==> match chunk {
            Some(chunk) => {
                &&& chunk.index == old(data)@.iter_count + 1
                &&& final(data)@.iter_count == chunk.index
                &&& final(data)@.incomplete.len() == 0
                &&& exists|k: int| #[trigger]
                    chunk_iterator::is_front_of(
                        old(data)@.ranges,
                        old(data)@.chunk_size,
                        k,
                        chunk.range,
                        final(data)@.ranges,
                    )
            },
            None => {
                &&& final(data)@.iter_count == old(data)@.iter_count
                &&& forall|k: int|
                    0 <= k < old(data)@.ranges.len() ==> (
                    #[trigger] old(data)@.ranges[k]).length() == 0
            },
        },
{
    chunk_iterator::law_incomplete_chunks_come_first(old(data)@);
    chunk_iterator::law_first_chunk_is_as_large_as_may_be(
        old(data)@.ranges,
        old(data)@.chunk_size,
    );
}

/// What is left of a file of which nothing was taken is all of it.
pub proof fn law_new_ranges_are_the_file(
    chunk_size: usize,
    total_len: u64,
    remaining: RemainingChunks,
    i: int,
)
    requires
        total_len > 0,
        call_ensures(RemainingChunks::new, (chunk_size, total_len), remaining),
    ensures
        remaining.chunk_size == chunk_size,
        spans::coverage(remaining.ranges@, i) == (if 0 <= i < total_len {
            1int
        } else {
            0
        }),
{
    spans::lemma_single(ChunkRange { start: 0, end: (total_len - 1) as u64 }, i);
}

/// A response with another tag than the expected one, or without one, ends the download of a chunk;
/// any other is read. What has come stays, and all earlier failures are made up for.
pub proof fn law_response_with_another_tag_ends_the_chunk(
    download: &mut ChunkDownload,
    headers: HeaderMap,
    action: ChunkAction,
)
    requires
        old(download)@.chunk.range.valid(),
        call_ensures(ChunkDownload::meet_response, (download, &headers), action),
    ensures
        ({
            let tag = header_fields::etag_of(header_fields::field_values(headers, "etag"@));
            match old(download)@.etag {
                Some(expected) => if tag == Some(expected) {
                    action is ReadBody
                } else {
                    action is FailServerFileChanged
                },
                None => action is ReadBody,
            }
        }),
        final(download)@.bytes == old(download)@.bytes,
        final(download)@.chunk == old(download)@.chunk,
        final(download)@.etag == old(download)@.etag,
        final(download)@.retry_count == old(download)@.retry_count,
        final(download)@.failures == 0,
{
}

/// What happens to the request for a chunk is answered for what it is: bytes are kept behind those
/// that have come and counted, a failure is answered by a request for exactly the rest while tries
/// are left, and the end of the body and a cancelled download have all that has come written at the
/// start of the chunk.
pub proof fn law_chunk_events_are_answered(
    download: &mut ChunkDownload,
    event: ChunkEvent,
    action: ChunkAction,
)
    requires
        old(download)@.chunk.range.valid(),
        old(download)@.can_meet(event),
        call_ensures(ChunkDownload::download_chunk, (download, &event), action),
    ensures
        ({
            let before = old(download)@;
            let after = final(download)@;
            let start = before.chunk.range.start;
            &&& after.chunk == before.chunk
            &&& after.etag == before.etag
            &&& after.retry_count == before.retry_count
            &&& match event {
                ChunkEvent::Response { etag } => {
                    &&& after.bytes == before.bytes
                    &&& after.failures == 0
                    &&& action is ReadBody <==> before.etag is None || header_fields::tag_bytes(
                        etag,
                    ) == before.etag
                    &&& !(action is ReadBody) ==> action is FailServerFileChanged
                },
                ChunkEvent::Bytes(bytes) => {
                    &&& after.bytes == before.bytes + bytes@
                    &&& after.failures == 0
                    &&& bytes@.len() <= usize::MAX ==> (
                    action matches ChunkAction::CountAndReadBody(len) && len == bytes@.len())
                },
                ChunkEvent::RequestFailed | ChunkEvent::BodyFailed => {
                    &&& after.bytes == before.bytes
                    &&& after.failures == before.failures + 1
                    &&& if before.failures < before.retry_count {
                        action matches ChunkAction::Request(range) && range.start == start
                            + before.bytes.len() && range.end == before.chunk.range.end
                    } else {
                        action == ChunkAction::WriteAndFailRequest(start)
                    }
                },
                ChunkEvent::BodyEnded => after == before && action == ChunkAction::WriteAndEnd(
                    start,
                    DownloadingEndCause::DownloadFinished,
                ),
                ChunkEvent::Cancelled => after == before && action == ChunkAction::WriteAndEnd(
                    start,
                    DownloadingEndCause::Cancelled,
                ),
            }
        }),
{
}

/// A chunk begins with nothing come, no failure, and all of it missing.
pub proof fn law_new_chunk_misses_all(
    chunk: ChunkInfo,
    etag: Option<ETag>,
    retry_count: u8,
    download: ChunkDownload,
    missing: ChunkRange,
)
    requires
        0 < chunk.range.length() <= isize::MAX,
        chunk.range.valid(),
        call_ensures(ChunkDownload::new, (chunk, etag, retry_count), download),
        call_ensures(ChunkDownload::missing_range, (&download,), missing),
    ensures
        missing == chunk.range,
        download@.bytes.len() == 0,
        download@.failures == 0,
        download@.retry_count == retry_count,
        download@.etag == header_fields::tag_bytes(etag),
{
}

/// The request for the rest of a chunk asks for exactly the positions that have not come, and is
/// otherwise the same.
pub proof fn law_request_asks_for_the_rest(
    download: ChunkDownload,
    request: &mut HttpRequest,
    name: Seq<char>,
)
    requires
        download@.chunk.range.valid(),
        download@.bytes.len() < download@.chunk.range.length(),
        header_fields::has_room(header_fields::fields(old(request).headers).dom()),
        call_ensures(ChunkDownload::ask_for_missing, (&download, request), ()),
        name != "range"@,
    ensures
        final(request).method@ == old(request).method@,
        final(request).url@ == old(request).url@,
        final(request).version == old(request).version,
        final(request).timeout == old(request).timeout,
        header_fields::field_values(final(request).headers, name) == header_fields::field_values(
            old(request).headers,
            name,
        ),
        ({
            let first = download@.chunk.range.start + download@.bytes.len();
            let last = download@.chunk.range.end;
            header_fields::field_values(final(request).headers, "range"@) == seq![
                header_fields::ascii_bytes(header_fields::range_text(first as u64, last)),
            ]
        }),
{
}

/// Taking the next chunk lowers the number of bytes that are left by its length. There is no next
/// chunk exactly if none is left.
pub proof fn law_taken_chunk_lowers_what_is_left(
    before: ChunkData,
    len: u64,
    data: &mut ChunkData,
    chunk: Option<ChunkInfo>,
    after: ChunkData,
    rest: u64,
    content_length: int,
)
    requires
        before == *old(data),
        after == *final(data),
        before.remaining.valid(),
        progress::is_laid_out(before@, content_length),
        before@.can_draw(),
        call_ensures(ChunkData::remaining_len, (&before,), len),
        call_ensures(ChunkData::next_chunk_range, (data,), chunk),
        call_ensures(ChunkData::remaining_len, (&after,), rest),
    ensures
        match chunk {
            Some(chunk) => len - rest == chunk.range.length() && len > rest,
            None => len == 0 && rest == 0,
        },
{
    chunk_iterator::law_draw_moves_one_chunk(before@, 0);
    if before@.incomplete.len() > 0 {
        assert(before@.incomplete[before@.incomplete.len() - 1].range.length() > 0);
    } else {
        chunk_iterator::law_first_chunk_is_moved(before@.ranges, before@.chunk_size, 0);
        assert(chunk is None ==> chunk_iterator::ranges_of(after@.incomplete) =~= Seq::empty());
    }
}

/// An iterator hands out the chunks of what it was given, as that does itself, and knows whether
/// ranges remain.
pub proof fn law_iterator_hands_out_what_it_was_given(
    content_length: u64,
    data: ChunkData,
    new: ChunkIterator,
    iterator: &mut ChunkIterator,
    chunk: Option<ChunkInfo>,
    is_over: bool,
)
    requires
        call_ensures(ChunkIterator::new, (content_length, data), new),
        new == *old(iterator),
        data.remaining.valid(),
        data@.can_draw(),
        call_ensures(ChunkIterator::next, (iterator,), chunk),
        call_ensures(ChunkData::no_chunk_remaining, (&data,), is_over),
    ensures
        final(iterator).content_length == content_length,
        is_over <==> data@.ranges.len() == 0,
        data@.incomplete.len() > 0 ==> chunk is Some && data@.incomplete
            == final(iterator).data@.incomplete.push(chunk->Some_0),
        data@.incomplete.len() == 0 && chunk is Some ==> exists|k: int| #[trigger]
            chunk_iterator::is_front_of(
                data@.ranges,
                data@.chunk_size,
                k,
                chunk->Some_0.range,
                final(iterator).data@.ranges,
            ),
        chunk is None ==> forall|k: int|
            0 <= k < data@.ranges.len() ==> (#[trigger] data@.ranges[k]).length() == 0,
{
    chunk_iterator::law_incomplete_chunks_come_first(data@);
    chunk_iterator::law_first_chunk_is_as_large_as_may_be(data@.ranges, data@.chunk_size);
}

/// A new manager downloads nothing yet, and keeps what it was given.
pub proof fn law_new_manager_keeps_what_it_was_given(
    count: u8,
    downloaded_len: u64,
    iterator: ChunkIterator,
    etag: Option<ETag>,
    retry_count: u8,
    manager: ChunkManager,
    read_len: u64,
    read_count: u8,
)
    requires
        call_ensures(
            ChunkManager::new,
            (count, downloaded_len, iterator, etag, retry_count),
            manager,
        ),
        call_ensures(ChunkManager::downloaded_len, (&manager,), read_len),
        call_ensures(ChunkManager::connection_count, (&manager,), read_count),
    ensures
        read_len == downloaded_len,
        read_count == count,
        manager@.current_count() == 0,
        manager@.superfluities == 0,
        manager@.content_length == iterator.content_length,
        manager@.data == iterator.data@,
        manager@.etag == header_fields::tag_bytes(etag),
        manager@.retry_count == retry_count,
{
}

/// Of a new chunk nothing has come, and what comes of it is added.
pub proof fn law_chunk_counts_what_comes(
    chunk: ChunkInfo,
    new: ChunkItem,
    item: &mut ChunkItem,
    len: usize,
)
    requires
        call_ensures(ChunkItem::new, (chunk,), new),
        call_ensures(ChunkItem::add_downloaded_len, (item, len), ()),
    ensures
        new.chunk_info == chunk,
        new.downloaded_len == 0,
        final(item).downloaded_len == old(item).downloaded_len + len,
        final(item).chunk_info == old(item).chunk_info,
{
}

/// A download is undisturbed exactly while it is to end as finished.
pub proof fn law_undisturbed_is_to_finish<E>(run: DownloadRun<E>, r: bool)
    requires
        call_ensures(ChunkManager::is_undisturbed::<E>, (&run,), r),
    ensures
        r <==> (run.result matches Ok(cause) && cause == DownloadingEndCause::DownloadFinished),
{
}

/// Sorting puts the same things in the order of their starts.
pub proof fn law_sorting_keeps_all(ranges: Vec<ChunkRange>, sorted: Vec<ChunkRange>)
    requires
        call_ensures(sorting::sort_by_start::<ChunkRange>, (&ranges,), sorted),
    ensures
        sorted@.len() == ranges@.len(),
        forall|range: ChunkRange| #[trigger]
            sorted@.to_multiset().count(range) == ranges@.to_multiset().count(range),
        forall|i: int, j: int|
            0 <= i < j < sorted@.len() ==> (#[trigger] sorted@[i]).start <= (
            #[trigger] sorted@[j]).start,
{
    broadcast use vstd::seq_lib::group_to_multiset_ensures;

    assert(sorted@.len() == sorted@.to_multiset().len());
    assert(ranges@.len() == ranges@.to_multiset().len());
    assert forall|i: int, j: int| 0 <= i < j < sorted@.len() implies (
    #[trigger] sorted@[i]).start <= (#[trigger] sorted@[j]).start by {
        assert(sorting::is_sorted(sorted@));
    }
}

/// What fits a file has each position at most once, and none that the file has not. What is left of
/// a file from which nothing was taken fits it.
pub proof fn law_fitting_data_is_in_the_file(
    data: ChunkData,
    content_length: u64,
    r: bool,
    i: int,
)
    requires
        call_ensures(progress::fits_the_file, (&data, content_length), r),
    ensures
        r ==> 0 <= data@.coverage(i) <= 1,
        r && !(0 <= i < content_length) ==> data@.coverage(i) == 0,
        r ==> content_length > 0 && data@.chunk_size > 0,
        content_length > 0 && data@.chunk_size > 0 && data@ == chunk_iterator::fresh_data(
            data@.chunk_size,
            content_length,
        ) ==> r,
{
    let ranges = data@.ranges;
    let incomplete = chunk_iterator::ranges_of(data@.incomplete);
    spans::lemma_coverage_bounds(ranges, i);
    spans::lemma_coverage_bounds(incomplete, i);
    if r && spans::coverage(ranges, i) > 0 {
        let k = choose|k: int| 0 <= k < ranges.len() && (#[trigger] ranges[k]).has(i);
        assert(ranges[k].end < content_length);
    }
    if r && spans::coverage(incomplete, i) > 0 {
        let k = choose|k: int| 0 <= k < incomplete.len() && (#[trigger] incomplete[k]).has(i);
        assert(incomplete[k].end < content_length);
    }
    if r {
        assert(data@.coverage(i) <= 1);
    }
    if content_length > 0 && data@.chunk_size > 0 && data@ == chunk_iterator::fresh_data(
        data@.chunk_size,
        content_length,
    ) {
        let m = ChunkManagerView {
            content_length: content_length as int,
            data: data@,
            downloading: Map::empty(),
            connection_count: 1,
            superfluities: 0,
            downloaded_len: 0,
            etag: None,
            retry_count: 0,
        };
        progress::law_fresh_download(m, data@.chunk_size, content_length);
    }
}

} // verus!
