//! What is answered when a download is set up, requested, begun and ended.

use headers::HeaderMap;
use vstd::prelude::*;

use crate::chunk_item::ChunkItem;
use crate::chunk_iterator;
use crate::chunk_iterator::ChunkRange;
use crate::download_way;
use crate::download_way::{
    DownloadWay, DownloadWayView, SingleAction, SingleBuffer, SingleDownload, SingleEvent,
};
use crate::downloader;
use crate::downloader::{
    ChangeChunkSizeError, ChangeConnectionCountError, DirectoryStep, DownloadError,
    DownloadStartError, DownloadingEndCause, DownloadingState, ExtendedHttpFileDownloader,
    HttpFileDownloader, HttpResponseInvalidCause, RequestState, RequestStep, ResponseInfo,
};
use crate::downloader_builder;
use crate::downloader_builder::{
    HttpDownloadConfig, HttpDownloaderBuilder, HttpRedirectionHandle, RequestError, UrlFileName,
};
use crate::exclusive::Exclusive;
use crate::extensions::{DownloadArchiveData, DownloadExtensionBuilder};
use crate::header_fields;
use crate::header_fields::{ETag, HttpRequest, HttpVersion};
use crate::spans;

verus! {

/// Where the `Content-Length` fields of a response write a number, it is the length that is
/// reported and the size that is known from then on. The response is refused exactly if a tag is
/// expected and it has another or none.
pub proof fn law_response_gives_the_written_length(
    downloader: &mut HttpFileDownloader,
    headers: HeaderMap,
    r: Result<ResponseInfo, DownloadError>,
    n: u64,
)
    requires
        n > 0,
        downloader::length_is_written(headers, n),
        call_ensures(HttpFileDownloader::meet_response, (downloader, &headers), r),
    ensures
        ({
            let expected = header_fields::tag_bytes(old(downloader).config.etag);
            let tag = header_fields::etag_of(header_fields::field_values(headers, "etag"@));
            match r {
                Ok(info) => {
                    &&& expected is Some ==> tag == expected
                    &&& header_fields::tag_bytes(info.etag) == expected
                    &&& info.content_length == Some(n)
                    &&& final(downloader)@.total_size() == Some(n)
                    &&& final(downloader)@.is_total_size_known == old(
                        downloader,
                    )@.is_total_size_known
                },
                Err(err) => {
                    &&& err == DownloadError::ServerFileAlreadyChanged
                    &&& expected is Some && tag != expected
                    &&& final(downloader)@.content_length == old(downloader)@.content_length
                    &&& final(downloader)@.is_total_size_known
                },
            }
        }),
        final(downloader).config == old(downloader).config,
        final(downloader)@.downloading == old(downloader)@.downloading,
        final(downloader)@.last_downloaded_len == old(downloader)@.last_downloaded_len,
{
    header_fields::law_content_length_is_what_is_written(
        header_fields::field_values(headers, "content-length"@),
        n,
    );
    downloader::law_kept_length_is_the_total_size(final(downloader)@);
}

/// The decimal digits of a length are a field that writes it.
pub proof fn law_digits_of_the_length_write_it(headers: HeaderMap, n: u64)
    requires
        header_fields::field_values(headers, "content-length"@) == seq![
            header_fields::ascii_bytes(header_fields::decimal(n as nat)),
        ],
    ensures
        downloader::length_is_written(headers, n),
{
    header_fields::law_decimal_digits_write_the_number(n as nat);
}

/// A response without a length, or with one of zero, leaves the length of the file unknown. Ranges
/// are asked for where the response says `bytes`, and where it says nothing unless that is checked
/// strictly.
pub proof fn law_response_without_a_length_leaves_it_unknown(
    downloader: &mut HttpFileDownloader,
    headers: HeaderMap,
    r: Result<ResponseInfo, DownloadError>,
)
    requires
        call_ensures(HttpFileDownloader::meet_response, (downloader, &headers), r),
        r is Ok,
    ensures
        header_fields::field_values(headers, "content-length"@).len() == 0
            || downloader::length_is_written(headers, 0) ==> r->Ok_0.content_length is None
            && final(downloader)@.total_size() is None,
        ({
            let values = header_fields::field_values(headers, "accept-ranges"@);
            let strict = old(downloader).config.strict_check_accept_ranges;
            &&& values.len() == 0 ==> (r->Ok_0.serves_ranges <==> !strict)
            &&& values.len() == 1 ==> (r->Ok_0.serves_ranges <==> values[0] == seq![
                98u8,
                121u8,
                116u8,
                101u8,
                115u8,
            ])
            &&& values.len() > 1 ==> !r->Ok_0.serves_ranges
        }),
{
    if downloader::length_is_written(headers, 0) {
        header_fields::law_content_length_is_what_is_written(
            header_fields::field_values(headers, "content-length"@),
            0,
        );
    }
    downloader::law_kept_length_is_the_total_size(final(downloader)@);
    downloader::law_ranges_are_asked_for_where_they_are_served(
        header_fields::field_values(headers, "accept-ranges"@),
        old(downloader).config.strict_check_accept_ranges,
    );
}

/// A request that fails is sent again, with one try fewer, while tries are left; and else given up.
/// Where the request goes does not change by that.
pub proof fn law_failed_request_uses_up_a_try(
    downloader: &mut HttpFileDownloader,
    state: &mut RequestState,
    step: RequestStep,
)
    requires
        call_ensures(HttpFileDownloader::meet_request_failed, (downloader, state), step),
    ensures
        old(state).retry_count < old(downloader).config.request_retry_count ==> step
            == RequestStep::Send && final(state).retry_count == old(state).retry_count + 1,
        old(state).retry_count >= old(downloader).config.request_retry_count ==> step
            == RequestStep::Fail(DownloadError::HttpRequestFailed)
            && final(downloader)@.is_total_size_known,
        downloader::location_text(final(state).location) == downloader::location_text(
            old(state).location,
        ),
        final(state).redirection_times == old(state).redirection_times,
        final(downloader)@.content_length == old(downloader)@.content_length,
        final(downloader)@.downloading == old(downloader)@.downloading,
        final(downloader).config == old(downloader).config,
{
}

/// A response is taken exactly if its status is a success. One that points elsewhere is followed to
/// where its first field says, if that is to be done and is not the one too many, with all tries
/// again. Any other is a failure.
pub proof fn law_response_is_taken_followed_or_refused(
    downloader: &mut HttpFileDownloader,
    state: &mut RequestState,
    status: u16,
    headers: HeaderMap,
    step: RequestStep,
)
    requires
        old(state).redirection_times < usize::MAX,
        call_ensures(
            HttpFileDownloader::meet_request_response,
            (downloader, state, status, &headers),
            step,
        ),
    ensures
        step is Accept <==> status / 100 == 2,
        ({
            let values = header_fields::field_values(headers, "location"@);
            let says = values.len() > 0 && header_fields::is_visible(values[0]);
            match old(downloader).config.handle_redirection {
                HttpRedirectionHandle::RequestNewLocation { max_times } if status / 100 == 3 => {
                    &&& says ==> {
                        &&& final(state).location matches Some(location)
                            && header_fields::ascii_bytes(location@) == values[0]
                        &&& final(state).redirection_times == old(state).redirection_times + 1
                        &&& final(state).retry_count == 0
                        &&& step is Send <==> final(state).redirection_times < max_times
                        &&& !(step is Send) ==> step == RequestStep::Fail(
                            DownloadError::RedirectionTimesTooMany,
                        )
                    }
                    &&& !says ==> *final(state) == *old(state) && step == RequestStep::Fail(
                        DownloadError::HttpRequestResponseInvalid(
                            HttpResponseInvalidCause::RedirectionNoLocation,
                        ),
                    )
                },
                _ => {
                    &&& *final(state) == *old(state)
                    &&& status / 100 != 2 ==> step == RequestStep::Fail(
                        DownloadError::HttpRequestResponseInvalid(
                            HttpResponseInvalidCause::StatusCodeUnsuccessful,
                        ),
                    )
                },
            }
        }),
        final(downloader)@.is_total_size_known <==> old(downloader)@.is_total_size_known
            || step is Fail,
        final(downloader)@.content_length == old(downloader)@.content_length,
        final(downloader)@.downloading == old(downloader)@.downloading,
        final(downloader).config == old(downloader).config,
{
    downloader::law_location_is_what_the_field_says(
        header_fields::field_values(headers, "location"@),
    );
}

/// The first request goes to the URL that was set up, with all tries, unless not even one place may
/// be requested.
pub proof fn law_first_request_is_sent(
    downloader: &mut HttpFileDownloader,
    state: RequestState,
    step: RequestStep,
)
    requires
        call_ensures(HttpFileDownloader::start_download, (downloader,), (state, step)),
    ensures
        state.location is None,
        state.redirection_times == 0,
        state.retry_count == 0,
        match old(downloader).config.handle_redirection {
            HttpRedirectionHandle::RequestNewLocation { max_times } => step is Send
                <==> max_times > 0,
            HttpRedirectionHandle::Invalid => step is Send,
        },
        !(step is Send) ==> step == RequestStep::Fail(DownloadError::RedirectionTimesTooMany)
            && final(downloader)@.is_total_size_known,
        final(downloader).config == old(downloader).config,
        final(downloader)@.downloading == old(downloader)@.downloading,
{
}

/// A place that is none ends the first request for that reason.
pub proof fn law_invalid_place_ends_the_request(
    downloader: &mut HttpFileDownloader,
    step: RequestStep,
)
    requires
        call_ensures(HttpFileDownloader::meet_location_invalid, (downloader,), step),
    ensures
        step == RequestStep::Fail(
            DownloadError::HttpRequestResponseInvalid(
                HttpResponseInvalidCause::RedirectionNoLocation,
            ),
        ),
        final(downloader)@.is_total_size_known,
        final(downloader)@.content_length == old(downloader)@.content_length,
        final(downloader)@.downloading == old(downloader)@.downloading,
{
}

/// The wish to download is refused exactly while a download goes on. Either way no byte counts as
/// come from then on.
pub proof fn law_one_download_goes_on(
    downloader: &mut HttpFileDownloader,
    r: Result<DirectoryStep, DownloadStartError>,
)
    requires
        call_ensures(HttpFileDownloader::download, (downloader,), r),
    ensures
        match r {
            Ok(step) => {
                &&& old(downloader).downloading_state is None
                &&& step is Create <==> old(downloader).config.create_dir
            },
            Err(err) => old(downloader).downloading_state is Some && err
                == DownloadStartError::AlreadyDownloading,
        },
        final(downloader)@.downloaded_len() == 0,
        final(downloader)@.content_length == old(downloader)@.content_length,
        final(downloader)@.is_total_size_known == old(downloader)@.is_total_size_known,
        final(downloader)@.downloading is Some <==> old(downloader)@.downloading is Some,
        final(downloader).config == old(downloader).config,
{
    downloader::law_one_download_at_a_time(old(downloader)@);
    downloader::law_wish_is_refused_while_a_download_goes_on(
        old(downloader)@,
        old(downloader).config.create_dir,
    );
}

/// What became of the directory decides whether the download can begin, and for which reason not.
pub proof fn law_directory_has_to_be_there(
    step: DirectoryStep,
    succeeded: bool,
    r: Result<(), DownloadStartError>,
)
    requires
        call_ensures(HttpFileDownloader::meet_directory, (step, succeeded), r),
    ensures
        r is Ok <==> succeeded,
        r matches Err(err) ==> match step {
            DirectoryStep::Create => err == DownloadStartError::FileCrateFailed,
            DirectoryStep::Check => err == DownloadStartError::DirectoryDoesNotExist,
        },
{
}

/// A download begins by chunks exactly if ranges can be asked for and the length is known. It has
/// to come what its archive leaves, or else the whole file; and it is done as it was set up.
pub proof fn law_begun_download_is_as_set_up(
    downloader: &mut HttpFileDownloader,
    response: ResponseInfo,
    archive: Option<DownloadArchiveData>,
)
    requires
        old(downloader).config.valid(),
        response.content_length != Some(0u64),
        call_ensures(HttpFileDownloader::begin_download, (downloader, response, archive), ()),
    ensures
        final(downloader).config == old(downloader).config,
        final(downloader)@.is_total_size_known,
        final(downloader)@.content_length == old(downloader)@.content_length,
        ({
            let config = old(downloader).config;
            match final(downloader)@.downloading {
                Some((duration, DownloadWayView::Ranges(m))) => {
                    &&& response.serves_ranges
                    &&& response.content_length matches Some(length) && m.content_length == length
                    &&& m.connection_count == config.download_connection_count
                    &&& m.retry_count == config.request_retry_count
                    &&& m.data.chunk_size == config.chunk_size
                    &&& m.etag == header_fields::tag_bytes(response.etag)
                    &&& m.current_count() == 0
                    &&& m.superfluities == 0
                    &&& match archive {
                        Some(archive) => m.downloaded_len == archive.downloaded_len && duration
                            == archive.downloading_duration,
                        None => m.downloaded_len == old(downloader)@.downloaded_len() && duration
                            == 0,
                    }
                    &&& match archive {
                        Some(DownloadArchiveData { chunk_data: Some(data), .. }) => {
                            &&& m.data.ranges == data@.ranges
                            &&& m.data.incomplete == data@.incomplete
                            &&& m.data.iter_count == data@.iter_count
                        },
                        _ => {
                            &&& m.data.iter_count == 0
                            &&& forall|i: int| #[trigger]
                                m.data.coverage(i) == (if 0 <= i < m.content_length {
                                    1int
                                } else {
                                    0
                                })
                        },
                    }
                },
                Some((duration, DownloadWayView::Single(single))) => {
                    &&& !response.serves_ranges || response.content_length is None
                    &&& single.content_length == response.content_length
                    &&& single.downloaded_len == old(downloader)@.downloaded_len()
                    &&& match archive {
                        Some(archive) => duration == archive.downloading_duration,
                        None => duration == 0,
                    }
                },
                None => false,
            }
        }),
{
    if let Some((_, DownloadWayView::Ranges(m))) = final(downloader)@.downloading {
        let range = ChunkRange { start: 0, end: (m.content_length - 1) as u64 };
        if m.data.ranges == seq![range] && m.data.incomplete.len() == 0 {
            assert(chunk_iterator::ranges_of(m.data.incomplete) =~= Seq::empty());
            assert forall|i: int| #[trigger] m.data.coverage(i) == (if 0 <= i < m.content_length {
                1int
            } else {
                0
            }) by {
                spans::lemma_single(range, i);
            }
        }
    }
}

/// The end of a download, however it comes, leaves none, and keeps how many bytes had come.
pub proof fn law_ended_download_keeps_its_count(
    finished: &mut HttpFileDownloader,
    taken: &mut HttpFileDownloader,
    taken_state: Option<DownloadingState>,
    cancelled: &mut HttpFileDownloader,
    cancelled_state: Option<DownloadingState>,
)
    requires
        call_ensures(HttpFileDownloader::finish_download, (finished,), ()),
        call_ensures(HttpFileDownloader::take_downloading_state, (taken,), taken_state),
        call_ensures(HttpFileDownloader::cancel, (cancelled,), cancelled_state),
        0 <= old(finished)@.downloaded_len() <= u64::MAX,
        0 <= old(taken)@.downloaded_len() <= u64::MAX,
        0 <= old(cancelled)@.downloaded_len() <= u64::MAX,
    ensures
        final(finished)@.downloading is None,
        final(finished)@.downloaded_len() == old(finished)@.downloaded_len(),
        final(finished)@.content_length == old(finished)@.content_length,
        final(taken)@.downloading is None,
        final(taken)@.downloaded_len() == old(taken)@.downloaded_len(),
        final(taken)@.content_length == old(taken)@.content_length,
        taken_state == old(taken).downloading_state,
        final(cancelled)@.downloading is None,
        final(cancelled)@.downloaded_len() == old(cancelled)@.downloaded_len(),
        final(cancelled)@.content_length == old(cancelled)@.content_length,
        cancelled_state == old(cancelled).downloading_state,
{
    downloader::law_one_download_at_a_time(old(finished)@);
    downloader::law_one_download_at_a_time(old(taken)@);
    downloader::law_one_download_at_a_time(old(cancelled)@);
}

/// The number of connections of a download can be changed exactly while it is by chunks; then it is
/// changed to what was asked for.
pub proof fn law_connection_count_is_changed(
    downloader: &mut HttpFileDownloader,
    connection_count: u8,
    r: Result<(), ChangeConnectionCountError>,
)
    requires
        connection_count > 0,
        call_ensures(
            HttpFileDownloader::change_connection_count,
            (downloader, connection_count),
            r,
        ),
    ensures
        r is Ok <==> old(downloader)@.manager() is Some,
        r is Ok ==> final(downloader)@.manager() is Some
            && final(downloader)@.manager()->Some_0.connection_count == connection_count
            && final(downloader)@.manager()->Some_0.data == old(
            downloader,
        )@.manager()->Some_0.data && final(downloader)@.manager()->Some_0.downloading == old(
            downloader,
        )@.manager()->Some_0.downloading,
        r matches Err(err) ==> final(downloader)@ == old(downloader)@ && (err is NoStart <==> old(
            downloader,
        )@.downloading is None) && !(err is SendError),
        final(downloader)@.downloaded_len() == old(downloader)@.downloaded_len(),
        final(downloader)@.content_length == old(downloader)@.content_length,
        final(downloader).config == old(downloader).config,
{
    downloader::law_changes_reach_a_download_by_chunks(old(downloader)@, connection_count, 0);
}

/// The size of the chunks of a download can be changed exactly while it is by chunks; then it is
/// changed to what was asked for.
pub proof fn law_chunk_size_is_changed(
    downloader: &mut HttpFileDownloader,
    chunk_size: usize,
    r: Result<(), ChangeChunkSizeError>,
)
    requires
        chunk_size > 0,
        call_ensures(HttpFileDownloader::change_chunk_size, (downloader, chunk_size), r),
    ensures
        r is Ok <==> old(downloader)@.manager() is Some,
        r is Ok ==> final(downloader)@.manager() is Some
            && final(downloader)@.manager()->Some_0.data.chunk_size == chunk_size
            && final(downloader)@.manager()->Some_0.data.ranges == old(
            downloader,
        )@.manager()->Some_0.data.ranges && final(downloader)@.manager()->Some_0.downloading == old(
            downloader,
        )@.manager()->Some_0.downloading,
        r matches Err(err) ==> final(downloader)@ == old(downloader)@ && (err is NoStart <==> old(
            downloader,
        )@.downloading is None),
        final(downloader)@.downloaded_len() == old(downloader)@.downloaded_len(),
        final(downloader)@.content_length == old(downloader)@.content_length,
        final(downloader).config == old(downloader).config,
{
    downloader::law_changes_reach_a_download_by_chunks(old(downloader)@, 1, chunk_size);
}

/// A downloader tells what it holds: whether a download goes on, how many bytes have come, and how
/// long the file is if that is known.
pub proof fn law_downloader_tells_what_it_holds(
    downloader: HttpFileDownloader,
    is_downloading: bool,
    len: u64,
    size: Option<u64>,
    in_advance: Option<u64>,
    content_length: u64,
)
    requires
        call_ensures(HttpFileDownloader::is_downloading, (&downloader,), is_downloading),
        call_ensures(HttpFileDownloader::downloaded_len, (&downloader,), len),
        call_ensures(HttpFileDownloader::current_total_size, (&downloader,), size),
        call_ensures(
            HttpFileDownloader::len_in_advance,
            (&downloader, Some(content_length)),
            in_advance,
        ),
    ensures
        is_downloading <==> downloader.downloading_state is Some,
        match downloader.downloading_state {
            Some(DownloadingState { download_way: DownloadWay::Ranges(m), .. }) => len
                == m.downloaded_len,
            Some(DownloadingState { download_way: DownloadWay::Single(single), .. }) => len
                == single.downloaded_len,
            None => len == downloader.last_downloaded_len,
        },
        size is Some <==> downloader.content_length > 0,
        size matches Some(size) ==> size == downloader.content_length,
        in_advance is Some <==> downloader.config.set_len_in_advance,
        in_advance matches Some(in_advance) ==> in_advance == content_length,
{
}

/// For how long a download went on is for how long it did before, and since it began.
pub proof fn law_durations_add_up(state: DownloadingState, elapsed_secs: u64, r: u32)
    requires
        elapsed_secs <= u32::MAX,
        call_ensures(
            DownloadingState::get_current_downloading_duration,
            (&state, elapsed_secs),
            r,
        ),
    ensures
        r - state.downloading_duration == elapsed_secs,
{
}

/// A body that is written as it comes loses nothing: what is written and what the buffer then holds
/// is what it held and what came. Every piece that comes is counted and reported.
pub proof fn law_pieces_of_a_body_are_written_or_kept(
    single: &mut SingleDownload,
    buffer: &mut SingleBuffer,
    event: SingleEvent,
    capacity: usize,
    action: SingleAction,
)
    requires
        call_ensures(SingleDownload::meet_event, (single, buffer, &event, capacity), action),
    ensures
        ({
            let bytes = download_way::event_bytes(event);
            &&& action.written() + final(buffer)@ == old(buffer)@ + bytes
            &&& final(single).downloaded_len == old(single).downloaded_len + bytes.len()
            &&& event is Bytes ==> {
                &&& action.reported() matches Some(len) && len == bytes.len()
                &&& old(buffer)@.len() + bytes.len() <= capacity ==> action.written().len() == 0
                &&& old(buffer)@.len() + bytes.len() > capacity ==> action.written() == old(
                    buffer,
                )@
            }
            &&& !(event is Bytes) ==> action.reported() is None
            &&& event is BodyEnded ==> final(buffer)@.len() == 0 && (
            action matches SingleAction::WriteAndEnd(_, cause) && cause
                == DownloadingEndCause::DownloadFinished)
            &&& event is BodyFailed ==> action is FailRequest && final(buffer)@ == old(buffer)@
            &&& event is Cancelled ==> final(buffer)@ == old(buffer)@ && (
            action matches SingleAction::End(cause) && cause == DownloadingEndCause::Cancelled)
        }),
        final(single).content_length == old(single).content_length,
        final(buffer).size() == old(buffer).size(),
{
    let after = final(buffer)@;
    assert(action.written() + after =~= old(buffer)@ + download_way::event_bytes(event));
}

/// Nothing of a body is written while what came fits in the buffer as it was made.
pub proof fn law_nothing_is_written_that_fits(
    single: &mut SingleDownload,
    buffer: &mut SingleBuffer,
    event: SingleEvent,
    action: SingleAction,
)
    requires
        call_ensures(SingleDownload::download, (single, buffer, &event), action),
    ensures
        ({
            let bytes = download_way::event_bytes(event);
            &&& action.written() + final(buffer)@ == old(buffer)@ + bytes
            &&& final(single).downloaded_len == old(single).downloaded_len + bytes.len()
            &&& event is Bytes && old(buffer)@.len() + bytes.len() <= old(buffer).size()
                ==> action.written().len() == 0
            &&& event is Bytes && old(buffer)@.len() + bytes.len() > old(buffer).size()
                && action.written().len() == 0 ==> final(buffer)@ == old(buffer)@ + bytes
            &&& event is BodyEnded ==> final(buffer)@.len() == 0
        }),
        final(buffer).size() == old(buffer).size(),
{
    let capacity = choose|capacity: usize|
        {
            &&& capacity >= old(buffer).size()
            &&& capacity >= old(buffer)@.len()
            &&& #[trigger] download_way::is_action(old(buffer)@, event, capacity, action)
            &&& final(buffer)@ == download_way::buffered_after(old(buffer)@, event, capacity)
        };
    let after = final(buffer)@;
    assert(action.written() + after =~= old(buffer)@ + download_way::event_bytes(event));
}

/// The count of a download is the one that was set last.
pub proof fn law_set_count_is_read_back(
    way: &mut DownloadWay,
    downloaded_len: u64,
    after: DownloadWay,
    r: u64,
)
    requires
        call_ensures(DownloadWay::set_downloaded_len, (way, downloaded_len), ()),
        after == *final(way),
        call_ensures(DownloadWay::downloaded_len, (&after,), r),
        0 <= old(way)@.downloaded_len() <= u64::MAX,
    ensures
        r == downloaded_len,
        final(way)@.with_downloaded_len(old(way)@.downloaded_len() as u64) == old(way)@,
{
    download_way::law_count_is_set_alone(
        old(way)@,
        downloaded_len,
        old(way)@.downloaded_len() as u64,
    );
}

/// A request for the file goes to the URL that was set up, or where a response pointed, and there
/// is none exactly if that is nowhere.
pub proof fn law_request_goes_where_it_should(
    config: HttpDownloadConfig,
    location: Option<&str>,
    r: Option<HttpRequest>,
)
    requires
        call_ensures(HttpDownloadConfig::create_http_request, (&config, location), r),
    ensures
        match r {
            Some(request) => {
                &&& location is None ==> request.url@ == config.url@
                &&& location matches Some(location) ==> downloader_builder::url_joined(
                    config.url@,
                    location@,
                ) == Some(request.url@)
                &&& request.method@ == "GET"@
                &&& request.version == HttpVersion::Http11
                &&& request.timeout is None
                &&& forall|name: Seq<char>|
                    header_fields::field_values(config.header_map, name).len() > 0 ==> (
                    #[trigger] header_fields::field_values(request.headers, name)) == seq![
                        header_fields::field_values(config.header_map, name).last(),
                    ]
            },
            None => location matches Some(location) && downloader_builder::url_joined(
                config.url@,
                location@,
            ) is None,
        },
{
    if let Some(request) = r {
        downloader_builder::law_request_gets_the_file(config, location, request);
    }
}

/// A new download is set up for the URL and the directory, with one connection at least, and takes
/// its name from the URL.
pub proof fn law_new_download_is_for_its_url(
    url: String,
    save_dir: String,
    builder: HttpDownloaderBuilder,
)
    requires
        call_ensures(HttpDownloaderBuilder::new, (url, save_dir), builder),
    ensures
        builder.url@ == url@,
        builder.save_dir@ == save_dir@,
        builder.file_name is None,
        builder.etag is None,
        builder.chunk_size == 4 * 1024 * 1024,
        builder.download_connection_count == 3,
        builder.request_retry_count == 3,
        builder.create_dir,
        builder.strict_check_accept_ranges,
        !builder.set_len_in_advance,
        !builder.handle_zero_content,
        builder.handle_redirection is Invalid,
        builder.downloaded_len_send_interval == Some(300_000_000u128),
        builder.chunks_send_interval == Some(300_000_000u128),
{
}

/// Two tags are the same if they have the same bytes or both are absent, and a copy of a tag is the
/// same tag.
pub proof fn law_same_tag_is_the_same_bytes(
    left: Option<ETag>,
    right: Option<ETag>,
    same: bool,
    copy: Option<ETag>,
)
    requires
        call_ensures(header_fields::same_tag, (&left, &right), same),
        call_ensures(header_fields::copy_tag, (&left,), copy),
    ensures
        match (left, right) {
            (Some(left), Some(right)) => same <==> left.value@ == right.value@,
            (None, None) => same,
            _ => !same,
        },
        match (left, copy) {
            (Some(left), Some(copy)) => copy.value@ == left.value@,
            (None, None) => true,
            _ => false,
        },
{
}

/// What is set of how the file is fetched and saved is set as it is given, and nothing else
/// changes.
pub proof fn law_setting_of_the_file_changes_that_alone(
    builder: HttpDownloaderBuilder,
    create_dir: bool,
    with_create_dir: HttpDownloaderBuilder,
    set_len_in_advance: bool,
    with_set_len_in_advance: HttpDownloaderBuilder,
    downloaded_len_send_interval: Option<u128>,
    with_downloaded_len_send_interval: HttpDownloaderBuilder,
    chunks_send_interval: Option<u128>,
    with_chunks_send_interval: HttpDownloaderBuilder,
    file_name: Option<String>,
    with_file_name: HttpDownloaderBuilder,
    chunk_size: usize,
    with_chunk_size: HttpDownloaderBuilder,
    download_connection_count: u8,
    with_download_connection_count: HttpDownloaderBuilder,
)
    requires
        call_ensures(
            HttpDownloaderBuilder::create_dir,
            (builder, create_dir),
            with_create_dir,
        ),
        call_ensures(
            HttpDownloaderBuilder::set_len_in_advance,
            (builder, set_len_in_advance),
            with_set_len_in_advance,
        ),
        call_ensures(
            HttpDownloaderBuilder::downloaded_len_send_interval,
            (builder, downloaded_len_send_interval),
            with_downloaded_len_send_interval,
        ),
        call_ensures(
            HttpDownloaderBuilder::chunks_send_interval,
            (builder, chunks_send_interval),
            with_chunks_send_interval,
        ),
        call_ensures(
            HttpDownloaderBuilder::file_name,
            (builder, file_name),
            with_file_name,
        ),
        call_ensures(
            HttpDownloaderBuilder::chunk_size,
            (builder, chunk_size),
            with_chunk_size,
        ),
        call_ensures(
            HttpDownloaderBuilder::download_connection_count,
            (builder, download_connection_count),
            with_download_connection_count,
        ),
    ensures
        with_create_dir == (HttpDownloaderBuilder { create_dir, ..builder }),
        with_set_len_in_advance == (HttpDownloaderBuilder { set_len_in_advance, ..builder }),
        with_downloaded_len_send_interval == (HttpDownloaderBuilder { downloaded_len_send_interval, ..builder }),
        with_chunks_send_interval == (HttpDownloaderBuilder { chunks_send_interval, ..builder }),
        with_file_name == (HttpDownloaderBuilder { file_name, ..builder }),
        with_chunk_size == (HttpDownloaderBuilder { chunk_size, ..builder }),
        with_download_connection_count == (HttpDownloaderBuilder { download_connection_count, ..builder }),
{
}

/// What is set of the requests is set as it is given, and nothing else changes.
pub proof fn law_setting_of_the_request_changes_that_alone(
    builder: HttpDownloaderBuilder,
    request_retry_count: u8,
    with_request_retry_count: HttpDownloaderBuilder,
    header_map: HeaderMap,
    with_header_map: HttpDownloaderBuilder,
    etag: Option<ETag>,
    with_etag: HttpDownloaderBuilder,
    handle_zero_content: bool,
    with_handle_zero_content: HttpDownloaderBuilder,
    strict_check_accept_ranges: bool,
    with_strict_check_accept_ranges: HttpDownloaderBuilder,
    handle_redirection: HttpRedirectionHandle,
    with_handle_redirection: HttpDownloaderBuilder,
)
    requires
        call_ensures(
            HttpDownloaderBuilder::request_retry_count,
            (builder, request_retry_count),
            with_request_retry_count,
        ),
        call_ensures(
            HttpDownloaderBuilder::header_map,
            (builder, header_map),
            with_header_map,
        ),
        call_ensures(
            HttpDownloaderBuilder::etag,
            (builder, etag),
            with_etag,
        ),
        call_ensures(
            HttpDownloaderBuilder::handle_zero_content,
            (builder, handle_zero_content),
            with_handle_zero_content,
        ),
        call_ensures(
            HttpDownloaderBuilder::strict_check_accept_ranges,
            (builder, strict_check_accept_ranges),
            with_strict_check_accept_ranges,
        ),
        call_ensures(
            HttpDownloaderBuilder::handle_redirection,
            (builder, handle_redirection),
            with_handle_redirection,
        ),
    ensures
        with_request_retry_count == (HttpDownloaderBuilder { request_retry_count, ..builder }),
        with_header_map == (HttpDownloaderBuilder { header_map, ..builder }),
        with_etag == (HttpDownloaderBuilder { etag, ..builder }),
        with_handle_zero_content == (HttpDownloaderBuilder { handle_zero_content, ..builder }),
        with_strict_check_accept_ranges == (HttpDownloaderBuilder { strict_check_accept_ranges, ..builder }),
        with_handle_redirection == (HttpDownloaderBuilder { handle_redirection, ..builder }),
{
}

/// A downloader that is built without anything added is set up as was asked for, and has begun
/// nothing. Its file has the name that was given, or else that of the last part of the URL.
pub proof fn law_built_downloader_is_set_up(
    builder: HttpDownloaderBuilder,
    built: ExtendedHttpFileDownloader<HttpFileDownloader, ()>,
)
    requires
        call_ensures(HttpDownloaderBuilder::build::<()>, (builder, ()), (built, ())),
    ensures
        ({
            let config = built.inner.config;
            &&& config.chunk_size == builder.chunk_size
            &&& config.download_connection_count == builder.download_connection_count
            &&& config.url@ == builder.url@
            &&& config.save_dir@ == builder.save_dir@
            &&& config.set_len_in_advance == builder.set_len_in_advance
            &&& config.create_dir == builder.create_dir
            &&& config.request_retry_count == builder.request_retry_count
            &&& header_fields::tag_bytes(config.etag) == header_fields::tag_bytes(builder.etag)
            &&& header_fields::fields(config.header_map) == header_fields::fields(
                builder.header_map,
            )
            &&& config.downloaded_len_send_interval == builder.downloaded_len_send_interval
            &&& config.chunks_send_interval == builder.chunks_send_interval
            &&& config.handle_zero_content == builder.handle_zero_content
            &&& config.strict_check_accept_ranges == builder.strict_check_accept_ranges
            &&& config.handle_redirection == builder.handle_redirection
            &&& builder.file_name matches Some(name) ==> config.file_name@ == name@
            &&& builder.file_name is None ==> {
                let parts = downloader_builder::url_path_segments(builder.url@);
                &&& parts is Some && parts->Some_0.len() > 0 && parts->Some_0.last().len() > 0
                    ==> config.file_name@ == parts->Some_0.last()
                &&& parts is None ==> config.file_name@ == "index.html"@
            }
        }),
        built.inner@.downloading is None,
        built.inner@.downloaded_len() == 0,
        built.inner@.total_size() is None,
        !built.inner@.is_total_size_known,
{
    let downloader = choose|downloader: HttpFileDownloader|
        {
            &&& #[trigger] builder.sets_up(downloader)
            &&& ().builds(downloader, built.inner, (), ())
        };
    downloader_builder::law_settings_are_those_that_were_asked_for(builder, downloader);
}

/// The name that a URL gives is its last part if that is not empty.
pub proof fn law_url_gives_the_name_of_its_last_part(url: String, name: String)
    requires
        call_ensures(<String as UrlFileName>::file_name, (&url,), name),
    ensures
        ({
            let parts = downloader_builder::url_path_segments(url@);
            &&& parts is Some && parts->Some_0.len() > 0 && parts->Some_0.last().len() > 0 ==> name@
                == parts->Some_0.last()
            &&& parts is None ==> name@ == "index.html"@
        }),
{
    let parts = downloader_builder::url_path_segments(url@);
    if parts is Some && parts->Some_0.len() > 0 {
        let parts = parts->Some_0;
        downloader_builder::law_last_part_names_the_file(
            parts.drop_last(),
            parts.last(),
            downloader_builder::url_domain(url@),
        );
        assert(parts.drop_last().push(parts.last()) =~= parts);
    }
}

/// There is a request exactly if its fields fit and there is somewhere for it to go.
pub proof fn law_request_is_made_or_refused(
    config: HttpDownloadConfig,
    location: Option<&str>,
    r: Result<HttpRequest, RequestError>,
)
    requires
        call_ensures(HttpDownloadConfig::try_create_http_request, (&config, location), r),
    ensures
        ({
            let fits = downloader_builder::fits_in_request(
                header_fields::fields(config.header_map),
            );
            match r {
                Ok(request) => {
                    &&& fits
                    &&& location is None ==> request.url@ == config.url@
                    &&& location matches Some(location) ==> downloader_builder::url_joined(
                        config.url@,
                        location@,
                    ) == Some(request.url@)
                    &&& request.method@ == "GET"@
                },
                Err(RequestError::TooManyFields) => !fits,
                Err(RequestError::InvalidLocation) => {
                    &&& fits
                    &&& location matches Some(location) && downloader_builder::url_joined(
                        config.url@,
                        location@,
                    ) is None
                },
            }
        }),
{
    downloader_builder::law_request_is_refused_for_a_reason(config, location);
    if let Ok(request) = r {
        downloader_builder::law_request_gets_the_file(config, location, request);
    }
}

/// What was added to a downloader changes nothing of what it tells.
pub proof fn law_extended_downloader_tells_the_same<W>(
    extended: ExtendedHttpFileDownloader<HttpFileDownloader, W>,
    len: u64,
    inner_len: u64,
    size: Option<u64>,
    inner_size: Option<u64>,
    is_downloading: bool,
    inner_is_downloading: bool,
)
    requires
        call_ensures(
            ExtendedHttpFileDownloader::<HttpFileDownloader, W>::downloaded_len,
            (&extended,),
            len,
        ),
        call_ensures(HttpFileDownloader::downloaded_len, (&extended.inner,), inner_len),
        call_ensures(
            ExtendedHttpFileDownloader::<HttpFileDownloader, W>::current_total_size,
            (&extended,),
            size,
        ),
        call_ensures(HttpFileDownloader::current_total_size, (&extended.inner,), inner_size),
        call_ensures(
            ExtendedHttpFileDownloader::<HttpFileDownloader, W>::is_downloading,
            (&extended,),
            is_downloading,
        ),
        call_ensures(
            HttpFileDownloader::is_downloading,
            (&extended.inner,),
            inner_is_downloading,
        ),
    ensures
        len == inner_len,
        size == inner_size,
        is_downloading == inner_is_downloading,
{
}

/// Where nothing was added, the wish to download is refused exactly while a download goes on.
pub proof fn law_plain_downloader_refuses_a_second_download<C>(
    extended: &mut ExtendedHttpFileDownloader<HttpFileDownloader, ()>,
    r: Result<DirectoryStep, DownloadStartError>,
)
    requires
        call_ensures(
            ExtendedHttpFileDownloader::<HttpFileDownloader, ()>::prepare_download::<
                DirectoryStep,
                DownloadStartError,
                C,
            >,
            (extended,),
            r,
        ),
    ensures
        match r {
            Ok(step) => {
                &&& old(extended).inner@.downloading is None
                &&& step is Create <==> old(extended).inner.config.create_dir
            },
            Err(err) => old(extended).inner@.downloading is Some && err
                == DownloadStartError::AlreadyDownloading,
        },
        final(extended).inner@.downloaded_len() == 0,
        final(extended).inner.config == old(extended).inner.config,
{
    downloader::law_nothing_added_changes_nothing::<
        DirectoryStep,
        DownloadStartError,
        C,
        HttpFileDownloader,
    >(*old(extended), *final(extended), r);
    downloader::law_one_download_at_a_time(old(extended).inner@);
}

/// Cancelling a downloader where nothing was added gives up its download, and there is nothing else
/// to do.
pub proof fn law_plain_downloader_gives_up_its_download<C>(
    extended: &mut ExtendedHttpFileDownloader<HttpFileDownloader, ()>,
    notices: Vec<C>,
    state: Option<DownloadingState>,
)
    requires
        call_ensures(
            ExtendedHttpFileDownloader::<HttpFileDownloader, ()>::cancel::<C>,
            (extended,),
            (notices, state),
        ),
    ensures
        notices@.len() == 0,
        state == old(extended).inner.downloading_state,
        final(extended).inner@.downloading is None,
        final(extended).inner@.content_length == old(extended).inner@.content_length,
        final(extended).inner.config == old(extended).inner.config,
{
}

/// What is wrapped for exclusive use comes out again.
pub proof fn law_wrapped_value_comes_out<T>(t: T, wrapped: Exclusive<T>, out: T)
    requires
        call_ensures(Exclusive::<T>::new, (t,), wrapped),
        call_ensures(Exclusive::<T>::into_inner, (wrapped,), out),
    ensures
        out == t,
{
}

/// The tag of a response is what its only field says, and there is none otherwise.
pub proof fn law_tag_is_what_the_field_says(headers: HeaderMap, tag: Option<ETag>, text: Seq<u8>)
    requires
        call_ensures(header_fields::response_etag, (&headers,), tag),
        !text.contains(34),
        header_fields::field_values(headers, "etag"@) == seq![seq![34u8] + text + seq![34u8]]
            || header_fields::field_values(headers, "etag"@) == seq![
            seq![87u8, 47u8, 34u8] + text + seq![34u8],
        ] || header_fields::field_values(headers, "etag"@).len() != 1,
    ensures
        match tag {
            Some(tag) => header_fields::field_values(headers, "etag"@) == seq![tag.value@],
            None => header_fields::field_values(headers, "etag"@).len() != 1,
        },
{
    let values = header_fields::field_values(headers, "etag"@);
    header_fields::law_quoted_tag_is_the_tag(text, values);
}

/// A request that is changed before it is sent is what the change makes of it, and otherwise what
/// was made of its plain values, which are those of a request for the file.
pub proof fn law_configured_request_is_what_was_made_of_it<
    R,
    M: Fn(HttpRequest) -> R,
    G: Fn(R) -> R,
>(
    config: HttpDownloadConfig,
    location: Option<&str>,
    make: M,
    configure: Option<G>,
    request: R,
)
    requires
        call_ensures(
            HttpDownloadConfig::create_configured_request::<R, M, G>,
            (&config, location, make, configure),
            Ok(request),
        ),
    ensures
        exists|plain: HttpRequest, made: R|
            {
                &&& plain.method@ == "GET"@
                &&& location is None ==> plain.url@ == config.url@
                &&& #[trigger] call_ensures(make, (plain,), made)
                &&& configure is Some ==> call_ensures(configure->Some_0, (made,), request)
                &&& configure is None ==> request == made
            },
{
    let (plain, made) = choose|plain: HttpRequest, made: R|
        {
            &&& config.is_request(location, plain)
            &&& #[trigger] call_ensures(make, (plain,), made)
            &&& match configure {
                Some(configure) => call_ensures(configure, (made,), request),
                None => request == made,
            }
        };
    downloader_builder::law_request_gets_the_file(config, location, plain);
    assert(call_ensures(make, (plain,), made));
}

/// A new downloader has begun nothing and knows nothing of the file.
pub proof fn law_new_downloader_has_begun_nothing(
    config: HttpDownloadConfig,
    downloader: HttpFileDownloader,
    len: u64,
    size: Option<u64>,
    is_downloading: bool,
)
    requires
        call_ensures(HttpFileDownloader::new, (config,), downloader),
        call_ensures(HttpFileDownloader::downloaded_len, (&downloader,), len),
        call_ensures(HttpFileDownloader::current_total_size, (&downloader,), size),
        call_ensures(HttpFileDownloader::is_downloading, (&downloader,), is_downloading),
    ensures
        downloader.config == config,
        len == 0,
        size is None,
        !is_downloading,
        !downloader.is_total_size_known,
{
}

/// The chunks that a downloader lists are those of its download by chunks, each once; without one
/// there are none.
pub proof fn law_downloader_lists_its_chunks(
    downloader: HttpFileDownloader,
    chunks: Vec<ChunkItem>,
    index: usize,
)
    requires
        downloader.valid(),
        call_ensures(HttpFileDownloader::get_chunks, (&downloader,), chunks),
    ensures
        match downloader.downloading_state {
            Some(DownloadingState { download_way: DownloadWay::Ranges(manager), .. }) => {
                &&& chunks@.len() == manager@.current_count()
                &&& manager@.downloading.contains_key(index) <==> exists|j: int|
                    0 <= j < chunks@.len() && (#[trigger] chunks@[j]).chunk_info.index == index
                &&& forall|j: int|
                    0 <= j < chunks@.len() ==> manager@.downloading[(
                    #[trigger] chunks@[j]).chunk_info.index] == chunks@[j]
            },
            _ => chunks@.len() == 0,
        },
{
    if let Some(DownloadingState { download_way: DownloadWay::Ranges(manager), .. }) =
        downloader.downloading_state {
        let downloading = manager@.downloading;
        if downloading.contains_key(index) {
            let j = chunks@.index_of(downloading[index]);
            assert(chunks@[j].chunk_info.index == index);
        }
    }
}

/// What was added to a downloader changes nothing of how its number of connections and the size of
/// its chunks are changed.
pub proof fn law_extended_downloader_is_changed_alike<W>(
    counted: &mut ExtendedHttpFileDownloader<HttpFileDownloader, W>,
    count: u8,
    count_answer: Result<(), ChangeConnectionCountError>,
    sized: &mut ExtendedHttpFileDownloader<HttpFileDownloader, W>,
    chunk_size: usize,
    size_answer: Result<(), ChangeChunkSizeError>,
)
    requires
        count > 0,
        chunk_size > 0,
        call_ensures(
            ExtendedHttpFileDownloader::<HttpFileDownloader, W>::change_connection_count,
            (counted, count),
            count_answer,
        ),
        call_ensures(
            ExtendedHttpFileDownloader::<HttpFileDownloader, W>::change_chunk_size,
            (sized, chunk_size),
            size_answer,
        ),
    ensures
        count_answer is Ok <==> old(counted).inner@.manager() is Some,
        count_answer is Ok ==> final(counted).inner@.manager() is Some
            && final(counted).inner@.manager()->Some_0.connection_count == count,
        count_answer is Err ==> final(counted).inner@ == old(counted).inner@,
        final(counted).downloader_wrapper == old(counted).downloader_wrapper,
        size_answer is Ok <==> old(sized).inner@.manager() is Some,
        size_answer is Ok ==> final(sized).inner@.manager() is Some
            && final(sized).inner@.manager()->Some_0.data.chunk_size == chunk_size,
        size_answer is Err ==> final(sized).inner@ == old(sized).inner@,
        final(sized).downloader_wrapper == old(sized).downloader_wrapper,
{
    downloader::law_changes_reach_a_download_by_chunks(old(counted).inner@, count, chunk_size);
    downloader::law_changes_reach_a_download_by_chunks(old(sized).inner@, count, chunk_size);
}

} // verus!
