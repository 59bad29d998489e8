//! What is answered by that which is added to a download.

use vstd::prelude::*;

use crate::chunk_item::{ChunkItem, DownloadedLenChangeNotify};
use crate::chunk_manager;
use crate::chunk_manager::ChunkManager;
use crate::download_way::DownloadWay;
use crate::downloader::{DownloadStartError, DownloadingEndCause, DownloadingState};
use crate::downloader_builder::HttpDownloadConfig;
use crate::extensions::breakpoint_resume;
use crate::extensions::breakpoint_resume::FileSave;
use crate::extensions::bson_file_archiver::{
    ArchiveFilePath, BsonFileArchiver, BsonFileArchiverBuilder,
};
use crate::extensions::speed_limiter::{
    DefaultSpeedLimiter, DownloadSpeedLimiterExtension, DownloadSpeedLimiterState, LimitStep,
    SpeedLimiter,
};
use crate::extensions::speed_tracker::{
    DownloadSpeedDownloaderWrapper, DownloadSpeedTrackerExtension, DownloadSpeedTrackerState,
};
use crate::extensions::status_tracker::{
    DownloadStatusTrackerController, DownloadStatusTrackerExtension, DownloaderStatus,
    NetworkItemPendingType,
};
use crate::extensions::DownloadArchiveData;
use crate::paths;
use crate::progress;

verus! {

/// A limit that is set is the limit: whether the limiter is new or its limit is changed, nothing is
/// counted then.
pub proof fn law_set_limit_is_the_limit(
    byte_count_per: Option<usize>,
    now: u128,
    new: DefaultSpeedLimiter,
    changed: &mut DefaultSpeedLimiter,
)
    requires
        call_ensures(DefaultSpeedLimiter::new, (byte_count_per, now), new),
        call_ensures(
            <DefaultSpeedLimiter as SpeedLimiter>::change,
            (changed, byte_count_per, now),
            (),
        ),
    ensures
        byte_count_per matches Some(n) ==> new.byte_count_per == n,
        byte_count_per is None ==> new.byte_count_per == 0,
        new.cur_read == 0,
        new.last_instant == now,
        *final(changed) == new,
{
}

/// Where there is a limit, what comes is counted, and whoever brings it has to wait for the limit
/// exactly if that many bytes were counted before. Without a limit nobody waits.
pub proof fn law_limit_has_to_be_waited_for(
    limiter: &mut DefaultSpeedLimiter,
    len: usize,
    wait: Option<usize>,
)
    requires
        old(limiter).cur_read + len <= usize::MAX,
        call_ensures(
            <DefaultSpeedLimiter as DownloadedLenChangeNotify>::receive_len,
            (limiter, len),
            wait,
        ),
    ensures
        final(limiter).byte_count_per == old(limiter).byte_count_per,
        final(limiter).last_instant == old(limiter).last_instant,
        old(limiter).byte_count_per > 0 ==> {
            &&& final(limiter).cur_read == old(limiter).cur_read + len
            &&& wait is Some <==> old(limiter).cur_read >= old(limiter).byte_count_per
            &&& wait matches Some(limit) ==> limit == old(limiter).byte_count_per
        },
        old(limiter).byte_count_per == 0 ==> wait is None && *final(limiter) == *old(limiter),
{
}

/// A wait lasts until one second after the last, and its end grants as many bytes as it was for.
pub proof fn law_wait_lasts_until_the_second_is_over(
    limiter: DefaultSpeedLimiter,
    limit: usize,
    now: u128,
    step: LimitStep,
    waiting: &mut DefaultSpeedLimiter,
    end: u128,
)
    requires
        call_ensures(DefaultSpeedLimiter::begin_wait, (&limiter, limit, now), step),
        limiter == *old(waiting),
        call_ensures(DefaultSpeedLimiter::end_wait, (waiting, limit, end), ()),
    ensures
        step is Pass <==> limiter.cur_read < limit,
        step matches LimitStep::Sleep(nanos) ==> {
            &&& now >= limiter.last_instant ==> now + nanos >= limiter.last_instant
                + 1_000_000_000
            &&& now >= limiter.last_instant && nanos > 0 ==> now + nanos == limiter.last_instant
                + 1_000_000_000
            &&& now < limiter.last_instant ==> nanos == 1_000_000_000
            &&& final(waiting).cur_read + limit == limiter.cur_read
        },
        final(waiting).last_instant == end,
        final(waiting).byte_count_per == limiter.byte_count_per,
{
}

/// The speed of a second is how many more bytes have come at its end than at that of the last, or
/// zero if the count was set back. It is zero once the download has ended.
pub proof fn law_speed_is_of_the_last_second(
    tracker: &mut DownloadSpeedDownloaderWrapper,
    downloaded_len: u64,
    ended: &mut DownloadSpeedDownloaderWrapper,
)
    requires
        call_ensures(DownloadSpeedDownloaderWrapper::meet_second, (tracker, downloaded_len), ()),
        call_ensures(DownloadSpeedDownloaderWrapper::meet_end, (ended,), ()),
    ensures
        downloaded_len >= old(tracker).last_downloaded_len ==> old(tracker).last_downloaded_len
            + final(tracker).download_speed.speed == downloaded_len,
        downloaded_len < old(tracker).last_downloaded_len ==> final(tracker).download_speed.speed
            == 0,
        final(tracker).last_downloaded_len == downloaded_len,
        final(tracker).log == old(tracker).log,
        final(ended).download_speed.speed == 0,
{
}

/// What is counted at the begin of a download by chunks is no speed.
pub proof fn law_speed_begins_with_what_is_counted(
    tracker: &mut DownloadSpeedDownloaderWrapper,
    way: DownloadWay,
)
    requires
        call_ensures(DownloadSpeedDownloaderWrapper::download, (tracker, &way), ()),
    ensures
        match way {
            DownloadWay::Ranges(manager) => final(tracker).last_downloaded_len
                == manager.downloaded_len,
            DownloadWay::Single(_) => final(tracker).last_downloaded_len == 0,
        },
{
}

/// A wish to start is taken unless something goes on, and then the download is about to start.
/// Otherwise it is refused for what goes on, which is not changed.
pub proof fn law_start_is_refused_for_what_goes_on(
    controller: &mut DownloadStatusTrackerController,
    r: Result<(), DownloadStartError>,
)
    requires
        call_ensures(DownloadStatusTrackerController::prepare_download, (controller,), r),
    ensures
        match old(controller).status_sender.status {
            DownloaderStatus::Running => r == Err::<(), DownloadStartError>(
                DownloadStartError::AlreadyDownloading,
            ),
            DownloaderStatus::Pending(NetworkItemPendingType::Starting) => r == Err::<
                (),
                DownloadStartError,
            >(DownloadStartError::Starting),
            DownloaderStatus::Pending(NetworkItemPendingType::Stopping) => r == Err::<
                (),
                DownloadStartError,
            >(DownloadStartError::Stopping),
            DownloaderStatus::Pending(NetworkItemPendingType::Initializing) => r == Err::<
                (),
                DownloadStartError,
            >(DownloadStartError::Initializing),
            _ => r is Ok,
        },
        r is Ok ==> final(controller).status_sender.status == DownloaderStatus::Pending(
            NetworkItemPendingType::Starting,
        ),
        r is Err ==> *final(controller) == *old(controller),
        final(controller).status_sender.log == old(controller).status_sender.log,
{
}

/// The status follows the download: it is not started, initializes, runs, stops, and ends as the
/// download does.
pub proof fn law_status_follows_the_download(
    begun: &mut DownloadStatusTrackerController,
    running: &mut DownloadStatusTrackerController,
    stopping: &mut DownloadStatusTrackerController,
    ended: &mut DownloadStatusTrackerController,
    result: Result<DownloadingEndCause, String>,
    failed: &mut DownloadStatusTrackerController,
    started: Result<(), String>,
)
    requires
        call_ensures(DownloadStatusTrackerController::download, (begun,), ()),
        call_ensures(DownloadStatusTrackerController::meet_running, (running,), ()),
        call_ensures(DownloadStatusTrackerController::cancel, (stopping,), ()),
        call_ensures(DownloadStatusTrackerController::meet_end, (ended, &result), ()),
        call_ensures(
            DownloadStatusTrackerController::handle_prepare_download,
            (failed, started),
            (),
        ),
    ensures
        final(begun).status_sender.status == DownloaderStatus::Pending(
            NetworkItemPendingType::Initializing,
        ),
        final(running).status_sender.status is Running,
        final(stopping).status_sender.status == DownloaderStatus::Pending(
            NetworkItemPendingType::Stopping,
        ),
        match result {
            Ok(DownloadingEndCause::DownloadFinished) => {
                final(ended).status_sender.status is Finished
            },
            Ok(DownloadingEndCause::Cancelled) => final(ended).status_sender.status is NoStart,
            Err(text) => final(ended).status_sender.status matches DownloaderStatus::Error(message)
                && message@ == text@,
        },
        match started {
            Ok(_) => *final(failed) == *old(failed),
            Err(text) => final(failed).status_sender.status matches DownloaderStatus::Error(message)
                && message@ == text@,
        },
{
}

/// What is archived of a download leaves to come exactly the bytes that have not come if it was
/// cancelled, and otherwise also those of chunks that are not finished; and all others count as
/// come.
pub proof fn law_archive_leaves_what_is_to_come(
    manager: ChunkManager,
    is_cancelled: bool,
    downloading_duration: u32,
    archive: DownloadArchiveData,
)
    requires
        manager.valid(),
        progress::is_consistent(manager@),
        call_ensures(
            breakpoint_resume::archive_data,
            (&manager, is_cancelled, downloading_duration),
            archive,
        ),
    ensures
        archive.downloading_duration == downloading_duration,
        archive.chunk_data matches Some(data) && {
            &&& archive.downloaded_len + data@.remaining_len() == manager@.content_length
            &&& data@.iter_count == manager@.data.iter_count
            &&& data@.chunk_size == manager@.data.chunk_size
            &&& forall|i: int| #[trigger]
                data@.coverage(i) == (if progress::is_pending(manager@, i) && !(is_cancelled
                    && breakpoint_resume::has_come(manager@.downloading, i)) {
                    1int
                } else {
                    0
                })
            &&& is_cancelled ==> data@.ranges == manager@.data.ranges
                && breakpoint_resume::has_tails(
                data@.incomplete,
                manager@.data.incomplete.len(),
                manager@.downloading,
            )
            &&& !is_cancelled ==> data@.incomplete == manager@.data.incomplete && forall|
                i: int,
                j: int,
            |
                0 <= i < j < data@.ranges.len() ==> (#[trigger] data@.ranges[i]).start <= (
                #[trigger] data@.ranges[j]).start
        },
{
    let data = archive.chunk_data->Some_0@;
    let chunks = choose|chunks: Seq<ChunkItem>|
        {
            &&& #[trigger] chunk_manager::is_listing(chunks, manager@.downloading)
            &&& breakpoint_resume::is_archive_of(data, manager@.data, chunks, is_cancelled)
        };
    breakpoint_resume::law_archive_keeps_what_is_to_come(manager@, chunks, data, is_cancelled);
    breakpoint_resume::law_archive_keeps_each_chunk(manager@, chunks, data, is_cancelled);
}

/// A file that is saved beside another has the path of the other with the suffix behind it: behind
/// a dot where the other has an extension, and behind two where it has none. At a path of its own,
/// it has that path.
pub proof fn law_file_is_saved_beside_or_elsewhere(
    dir: Seq<char>,
    name: Seq<char>,
    origin: &str,
    suffix: String,
    beside: String,
    path: String,
    elsewhere: String,
)
    requires
        paths::has_no_separator(suffix@),
        paths::is_plain_name(name),
        paths::extension_of(name) is Some || paths::has_slashes_alone(dir + name),
        dir.len() > 0 ==> dir.last() == '/',
        !paths::starts_with_two_separators(dir + name),
        origin@ == dir + name,
        call_ensures(
            FileSave::get_file_path,
            (&FileSave::OriginPathWithSuffix(suffix), origin),
            beside,
        ),
        call_ensures(
            FileSave::get_file_path,
            (&FileSave::AbsolutePath(path), origin),
            elsewhere,
        ),
    ensures
        paths::extension_of(name) is Some ==> beside@ == origin@ + seq!['.'] + suffix@,
        paths::extension_of(name) is None ==> beside@ == origin@ + seq!['.', '.'] + suffix@,
        elsewhere@ == path@,
{
    paths::lemma_name_behind(dir, name);
    paths::lemma_plain_name_is_a_name(origin@);
}

/// The limit of a download is the one that it was made with or that was set last, and a download
/// that begins leaves it.
pub proof fn law_limit_of_a_download_is_the_one_set(
    byte_count_per: Option<usize>,
    now: u128,
    extension: DownloadSpeedLimiterExtension<DefaultSpeedLimiter>,
    built: DownloadSpeedLimiterState<DefaultSpeedLimiter>,
    state: &mut DownloadSpeedLimiterState<DefaultSpeedLimiter>,
    begun: &mut DownloadSpeedLimiterState<DefaultSpeedLimiter>,
    later: u128,
)
    requires
        call_ensures(
            DownloadSpeedLimiterExtension::<DefaultSpeedLimiter>::new,
            (byte_count_per, now),
            extension,
        ),
        call_ensures(
            DownloadSpeedLimiterExtension::<DefaultSpeedLimiter>::build,
            (extension,),
            built,
        ),
        call_ensures(
            DownloadSpeedLimiterState::<DefaultSpeedLimiter>::change_speed,
            (state, byte_count_per, now),
            (),
        ),
        *final(state) == *old(begun),
        call_ensures(
            DownloadSpeedLimiterState::<DefaultSpeedLimiter>::meet_start,
            (begun, later),
            (),
        ),
    ensures
        byte_count_per matches Some(n) ==> built.speed_limiter.byte_count_per == n,
        byte_count_per is None ==> built.speed_limiter.byte_count_per == 0,
        built.speed_limiter.cur_read == 0,
        built.speed_limiter.last_instant == now,
        final(state).speed_limiter == built.speed_limiter,
        final(begun).speed_limiter == (DefaultSpeedLimiter {
            last_instant: later,
            ..built.speed_limiter
        }),
{
}

/// Only of a download by chunks an archive is made, and it tells for how long the download went on.
pub proof fn law_archive_is_of_a_download_by_chunks(
    state: DownloadingState,
    is_cancelled: bool,
    elapsed_secs: u64,
    archive: Option<DownloadArchiveData>,
)
    requires
        elapsed_secs <= u32::MAX,
        call_ensures(
            breakpoint_resume::archive_download,
            (&state, is_cancelled, elapsed_secs),
            archive,
        ),
    ensures
        archive is Some <==> state.download_way is Ranges,
        archive matches Some(archive) ==> {
            &&& archive.downloading_duration == state.downloading_duration + elapsed_secs
            &&& archive.chunk_data matches Some(data)
            &&& state.download_way matches DownloadWay::Ranges(manager) && archive.downloaded_len
                + data@.remaining_len() == manager@.content_length
        },
{
    breakpoint_resume::law_archive_tells_how_long_it_went_on(
        state,
        is_cancelled,
        elapsed_secs,
        archive,
    );
}

/// A copy of an archive is the same.
pub proof fn law_copied_archive_is_the_same(
    archive: DownloadArchiveData,
    copy: DownloadArchiveData,
)
    requires
        call_ensures(<DownloadArchiveData as Clone>::clone, (&archive,), copy),
    ensures
        copy.downloaded_len == archive.downloaded_len,
        copy.downloading_duration == archive.downloading_duration,
        match (archive.chunk_data, copy.chunk_data) {
            (Some(data), Some(kept)) => kept@ == data@,
            (None, None) => true,
            _ => false,
        },
{
}

/// An archive that is to be kept at a path is kept there, whatever is downloaded.
pub proof fn law_archive_is_kept_where_it_should(
    path: String,
    config: HttpDownloadConfig,
    archiver: Option<BsonFileArchiver>,
)
    requires
        call_ensures(
            BsonFileArchiverBuilder::<String>::try_build,
            (
                BsonFileArchiverBuilder {
                    archive_file_path: ArchiveFilePath::<String>::Absolute(path),
                },
                &config,
            ),
            archiver,
        ),
    ensures
        archiver matches Some(archiver) && archiver.archive_file_path@ == path@,
{
}

/// A download that was just added a status is not started, and nothing goes on then.
pub proof fn law_new_status_is_not_started(
    extension: DownloadStatusTrackerExtension,
    controller: DownloadStatusTrackerController,
    is_end: bool,
)
    requires
        call_ensures(DownloadStatusTrackerController::new, (extension,), controller),
        call_ensures(
            DownloaderStatus::is_end,
            (&controller.status_sender.status,),
            is_end,
        ),
    ensures
        controller.status_sender.status is NoStart,
        controller.status_sender.log == extension.log,
        is_end,
{
}

/// Nothing goes on exactly if a download neither runs nor waits for something.
pub proof fn law_end_is_neither_running_nor_waiting(status: DownloaderStatus, is_end: bool)
    requires
        call_ensures(DownloaderStatus::is_end, (&status,), is_end),
    ensures
        is_end <==> !(status is Running) && !(status is Pending),
{
}

/// A text has a separator exactly if a slash or a backslash stands in it.
pub proof fn law_separator_is_a_slash_of_either_kind(text: &str, r: bool)
    requires
        call_ensures(paths::lacks_separator, (text,), r),
    ensures
        r <==> forall|k: int| 0 <= k < text@.len() ==> #[trigger] text@[k] != '/' && text@[k]
            != '\\',
{
    if r {
        assert forall|k: int| 0 <= k < text@.len() implies #[trigger] text@[k] != '/' && text@[k]
            != '\\' by {
            assert(text@.contains(text@[k]));
        }
    } else {
        let c = if text@.contains('/') {
            '/'
        } else {
            '\\'
        };
        let k = text@.index_of(c);
        assert(text@[k] == c);
    }
}

/// A speed that was just added is zero, nothing is counted yet, and it is not logged unless that is
/// asked for.
pub proof fn law_new_speed_is_zero(
    extension: DownloadSpeedTrackerExtension,
    log: bool,
    tracker: DownloadSpeedDownloaderWrapper,
    speed: u64,
)
    requires
        call_ensures(DownloadSpeedTrackerExtension::new, (), extension),
        call_ensures(
            DownloadSpeedDownloaderWrapper::new,
            (DownloadSpeedTrackerExtension { log },),
            tracker,
        ),
        call_ensures(DownloadSpeedTrackerState::download_speed, (&tracker.download_speed,), speed),
    ensures
        !extension.log,
        tracker.log == log,
        tracker.last_downloaded_len == 0,
        speed == 0,
{
}

} // verus!
