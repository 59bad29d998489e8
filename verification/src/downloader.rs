//! The download of a file.

use headers::HeaderMap;
use vstd::prelude::*;

use crate::chunk_item::ChunkItem;
use crate::chunk_iterator;
use crate::chunk_iterator::{
    ChunkData, ChunkDataView, ChunkIterator, ChunkRange, RemainingChunks,
};
use crate::chunk_manager;
use crate::chunk_manager::{ChunkManager, ChunkManagerView, ChunksInfo};
use crate::download_way;
use crate::download_way::{DownloadWay, DownloadWayView, SingleDownload};
use crate::downloader_builder::{HttpDownloadConfig, HttpRedirectionHandle};
use crate::extensions::{DownloadArchiveData, Downloader, DownloaderWrapper};
use crate::header_fields;
use crate::header_fields::ETag;
use crate::spans;

verus! {

/// Why a download ended without an error.
#[derive(Clone, Copy, Eq, PartialEq, Structural, Debug)]
pub enum DownloadingEndCause {
    DownloadFinished,
    Cancelled,
}

/// Why a download does not begin.
#[derive(Clone, Copy, Eq, PartialEq, Structural, Debug)]
pub enum DownloadStartError {
    /// The directory could not be created.
    FileCrateFailed,
    /// Something that was added to the download refuses.
    Other,
    AlreadyDownloading,
    DirectoryDoesNotExist,
    Initializing,
    Starting,
    Stopping,
}

/// What is wrong with a response.
#[derive(Clone, Copy, Eq, PartialEq, Structural, Debug)]
pub enum HttpResponseInvalidCause {
    ContentLengthInvalid,
    StatusCodeUnsuccessful,
    RedirectionNoLocation,
}

/// What went wrong with a download.
#[derive(Clone, Copy, Eq, PartialEq, Structural, Debug)]
pub enum DownloadError {
    Other,
    ArchiveDataLoadError,
    IoError,
    JoinError,
    ChunkRemoveFailed(usize),
    DownloadingChunkRemoveFailed(usize),
    HttpRequestFailed,
    HttpRequestResponseInvalid(HttpResponseInvalidCause),
    ServerFileAlreadyChanged,
    RedirectionTimesTooMany,
}

/// What went wrong between the wish to download and the end.
#[derive(Clone, Copy, Eq, PartialEq, Structural, Debug)]
pub enum DownloadToEndError {
    DownloadStartError(DownloadStartError),
    DownloadError(DownloadError),
}

/// Why the number of connections was not changed.
#[derive(Clone, Copy, Eq, PartialEq, Structural, Debug)]
pub enum ChangeConnectionCountError {
    /// Nobody listens any more.
    SendError,
    NoStart,
    DownloadTargetNotSupported,
}

/// Why the size of the chunks was not changed.
#[derive(Clone, Copy, Eq, PartialEq, Structural, Debug)]
pub enum ChangeChunkSizeError {
    NoStart,
    DownloadTargetNotSupported,
}

/// A download that has begun.
#[derive(Debug)]
pub struct DownloadingState {
    /// For how many seconds it went on before, if it goes on from an archive.
    pub downloading_duration: u32,
    pub download_way: DownloadWay,
}

impl DownloadingState {
    /// For how many seconds the download went on, where it began this many seconds ago.
    ///
    /// Seconds are counted up to 32 bits.
    pub fn get_current_downloading_duration(&self, elapsed_secs: u64) -> (r: u32)
        requires
            self.downloading_duration + elapsed_secs % 0x1_0000_0000 <= u32::MAX,
        ensures
            r == self.downloading_duration + elapsed_secs % 0x1_0000_0000,
    {
        assert(elapsed_secs as u32 == elapsed_secs % 0x1_0000_0000) by (bit_vector);
        self.downloading_duration + elapsed_secs as u32
    }
}

/// What has to be done about the directory before a download begins.
#[derive(Clone, Copy, Eq, PartialEq, Structural, Debug)]
pub enum DirectoryStep {
    /// Create it if it is not there.
    Create,
    /// See that it is there.
    Check,
}

/// How far the first request has come.
#[derive(Debug)]
pub struct RequestState {
    /// Where the request goes, if a response pointed elsewhere.
    pub location: Option<String>,
    pub redirection_times: usize,
    pub retry_count: u8,
}

/// What to do next about the first request.
#[derive(Clone, Copy, Eq, PartialEq, Structural, Debug)]
pub enum RequestStep {
    /// Send it.
    Send,
    /// Take the response.
    Accept,
    /// Give up.
    Fail(DownloadError),
}

/// What the response to the first request says of the file.
#[derive(Debug)]
pub struct ResponseInfo {
    /// The entity tag, if tags are compared.
    pub etag: Option<ETag>,
    /// The length of the file, if it is known and not zero.
    pub content_length: Option<u64>,
    /// Whether ranges can be asked for.
    pub serves_ranges: bool,
}

/// Whether a status says that the file is elsewhere.
pub open spec fn is_redirection(status: u16) -> bool {
    300 <= status < 400
}

/// Whether a status says that all is well.
pub open spec fn is_success(status: u16) -> bool {
    200 <= status < 300
}

/// Where the fields of a response point, if they do so in printable text.
pub open spec fn location_of(values: Seq<Seq<u8>>) -> Option<Seq<char>> {
    if values.len() > 0 && header_fields::is_visible(values[0]) {
        Some(header_fields::ascii_text(values[0]))
    } else {
        None
    }
}

/// The length of the file by the fields of a response, if it is known and not zero.
pub open spec fn file_length_of(values: Seq<Seq<u8>>) -> Option<u64> {
    match header_fields::content_length_of(values) {
        Some(length) => if length == 0 {
            None
        } else {
            Some(length)
        },
        None => None,
    }
}

/// Whether all `Content-Length` fields of a response write the number `n`, and there is at least
/// one.
pub open spec fn length_is_written(headers: HeaderMap, n: u64) -> bool {
    let values = header_fields::field_values(headers, "content-length"@);
    &&& values.len() > 0
    &&& forall|k: int|
        0 <= k < values.len() ==> header_fields::writes(#[trigger] values[k], n as int)
}

/// Whether the fields of a response let ranges be asked for: strictly, if it says so; else also
/// if it says nothing.
pub open spec fn allows_ranges(values: Seq<Seq<u8>>, strict: bool) -> bool {
    ||| values == seq![header_fields::ascii_bytes("bytes"@)]
    ||| !strict && values.len() == 0
}

/// A downloader: how it is set up, and the download that it has begun.
#[derive(Debug)]
pub struct HttpFileDownloader {
    pub config: HttpDownloadConfig,
    /// The length of the file by the last response; zero if it is not known.
    pub content_length: u64,
    /// The number of bytes that had come when the last download ended.
    pub last_downloaded_len: u64,
    pub downloading_state: Option<DownloadingState>,
    /// Whether a response came, or will not come any more.
    pub is_total_size_known: bool,
}

/// The plain values of [`HttpFileDownloader`] that change.
#[verifier::ext_equal]
pub struct HttpFileDownloaderView {
    pub content_length: u64,
    pub last_downloaded_len: u64,
    pub downloading: Option<(u32, DownloadWayView)>,
    pub is_total_size_known: bool,
}

impl View for HttpFileDownloader {
    type V = HttpFileDownloaderView;

    open spec fn view(&self) -> HttpFileDownloaderView {
        HttpFileDownloaderView {
            content_length: self.content_length,
            last_downloaded_len: self.last_downloaded_len,
            downloading: match self.downloading_state {
                Some(state) => Some((state.downloading_duration, state.download_way@)),
                None => None,
            },
            is_total_size_known: self.is_total_size_known,
        }
    }
}

impl HttpFileDownloaderView {
    /// The number of bytes that have come.
    pub open spec fn downloaded_len(self) -> int {
        match self.downloading {
            Some((_, download_way)) => download_way.downloaded_len(),
            None => self.last_downloaded_len as int,
        }
    }

    /// The chunks that are being downloaded, if the download is by chunks.
    pub open spec fn manager(self) -> Option<ChunkManagerView> {
        match self.downloading {
            Some((_, DownloadWayView::Ranges(m))) => Some(m),
            _ => None,
        }
    }

    /// Whether the number of connections can be changed: only while a download by chunks goes on.
    pub open spec fn connection_count_answer(self) -> Result<(), ChangeConnectionCountError> {
        match self.downloading {
            None => Err(ChangeConnectionCountError::NoStart),
            Some((_, DownloadWayView::Single(_))) => Err(
                ChangeConnectionCountError::DownloadTargetNotSupported,
            ),
            Some((_, DownloadWayView::Ranges(_))) => Ok(()),
        }
    }

    /// Whether the size of the chunks can be changed: only while a download by chunks goes on.
    pub open spec fn chunk_size_answer(self) -> Result<(), ChangeChunkSizeError> {
        match self.downloading {
            None => Err(ChangeChunkSizeError::NoStart),
            Some((_, DownloadWayView::Single(_))) => Err(
                ChangeChunkSizeError::DownloadTargetNotSupported,
            ),
            Some((_, DownloadWayView::Ranges(_))) => Ok(()),
        }
    }

    /// The state once a download by chunks is to have these many connections.
    pub open spec fn after_connection_count(self, connection_count: u8) -> HttpFileDownloaderView {
        match self.downloading {
            Some((duration, DownloadWayView::Ranges(m))) => HttpFileDownloaderView {
                downloading: Some(
                    (
                        duration,
                        DownloadWayView::Ranges(
                            ChunkManagerView { connection_count: connection_count as int, ..m },
                        ),
                    ),
                ),
                ..self
            },
            _ => self,
        }
    }

    /// The state once a download by chunks is to take chunks of this size.
    pub open spec fn after_chunk_size(self, chunk_size: usize) -> HttpFileDownloaderView {
        match self.downloading {
            Some((duration, DownloadWayView::Ranges(m))) => HttpFileDownloaderView {
                downloading: Some(
                    (
                        duration,
                        DownloadWayView::Ranges(
                            ChunkManagerView {
                                data: ChunkDataView { chunk_size: chunk_size as nat, ..m.data },
                                ..m
                            },
                        ),
                    ),
                ),
                ..self
            },
            _ => self,
        }
    }

    /// The answer to the wish to download: what to do about the directory first, unless a
    /// download goes on.
    pub open spec fn download_answer(
        self,
        create_dir: bool,
    ) -> Result<DirectoryStep, DownloadStartError> {
        if self.downloading is Some {
            Err(DownloadStartError::AlreadyDownloading)
        } else if create_dir {
            Ok(DirectoryStep::Create)
        } else {
            Ok(DirectoryStep::Check)
        }
    }

    /// The length of the file, if the last response said it.
    pub open spec fn total_size(self) -> Option<u64> {
        if self.content_length == 0 {
            None
        } else {
            Some(self.content_length)
        }
    }

    /// The state once no byte counts as come, also of a download that goes on.
    pub open spec fn after_reset(self) -> HttpFileDownloaderView {
        HttpFileDownloaderView {
            last_downloaded_len: 0,
            downloading: match self.downloading {
                Some((duration, download_way)) => Some(
                    (duration, download_way.with_downloaded_len(0)),
                ),
                None => None,
            },
            ..self
        }
    }

    /// The state once the download is no longer there.
    pub open spec fn after_end(self) -> HttpFileDownloaderView {
        HttpFileDownloaderView {
            last_downloaded_len: self.downloaded_len() as u64,
            downloading: None,
            ..self
        }
    }
}

/// What is left at the begin of a download: what the archive says, in chunks of the current size,
/// or else the whole file.
pub open spec fn data_to_begin_with(
    archive: Option<DownloadArchiveData>,
    chunk_size: usize,
    content_length: u64,
) -> ChunkDataView {
    match archive {
        Some(DownloadArchiveData { chunk_data: Some(data), .. }) => ChunkDataView {
            chunk_size: chunk_size as nat,
            ..data@
        },
        _ => chunk_iterator::fresh_data(chunk_size as nat, content_length),
    }
}

/// How a download begins: by chunks if ranges can be asked for, and otherwise by the body of the
/// response. Only by chunks does it go on from an archive.
pub open spec fn way_to_begin(
    config: HttpDownloadConfig,
    downloaded_len: int,
    response: ResponseInfo,
    archive: Option<DownloadArchiveData>,
) -> DownloadWayView {
    if response.serves_ranges && response.content_length is Some {
        let content_length = response.content_length->Some_0;
        DownloadWayView::Ranges(
            ChunkManagerView {
                content_length: content_length as int,
                data: data_to_begin_with(archive, config.chunk_size, content_length),
                downloading: Map::empty(),
                connection_count: config.download_connection_count as int,
                superfluities: 0,
                downloaded_len: match archive {
                    Some(archive) => archive.downloaded_len as int,
                    None => downloaded_len,
                },
                etag: header_fields::tag_bytes(response.etag),
                retry_count: config.request_retry_count as int,
            },
        )
    } else {
        DownloadWayView::Single(
            SingleDownload {
                downloaded_len: downloaded_len as u64,
                content_length: response.content_length,
            },
        )
    }
}

/// For how many seconds the download went on before.
pub open spec fn duration_to_begin_with(archive: Option<DownloadArchiveData>) -> u32 {
    match archive {
        Some(archive) => archive.downloading_duration,
        None => 0,
    }
}

impl RequestState {
    /// Whether no more place may be requested.
    pub open spec fn is_redirected_too_often(self, handle: HttpRedirectionHandle) -> bool {
        handle matches HttpRedirectionHandle::RequestNewLocation { max_times }
            && self.redirection_times >= max_times
    }

    /// What to do next when the request failed.
    pub open spec fn failed_step(self, request_retry_count: u8) -> RequestStep {
        if self.retry_count < request_retry_count {
            RequestStep::Send
        } else {
            RequestStep::Fail(DownloadError::HttpRequestFailed)
        }
    }

    /// What to do next when this response came.
    pub open spec fn response_step(
        self,
        handle: HttpRedirectionHandle,
        status: u16,
        location: Option<Seq<char>>,
    ) -> RequestStep {
        if handle != HttpRedirectionHandle::Invalid && is_redirection(status) {
            if location is None {
                RequestStep::Fail(
                    DownloadError::HttpRequestResponseInvalid(
                        HttpResponseInvalidCause::RedirectionNoLocation,
                    ),
                )
            } else if handle->max_times <= self.redirection_times + 1 {
                RequestStep::Fail(DownloadError::RedirectionTimesTooMany)
            } else {
                RequestStep::Send
            }
        } else if !is_success(status) {
            RequestStep::Fail(
                DownloadError::HttpRequestResponseInvalid(
                    HttpResponseInvalidCause::StatusCodeUnsuccessful,
                ),
            )
        } else {
            RequestStep::Accept
        }
    }
}

/// The characters of a location, if there is one.
pub open spec fn location_text(location: Option<String>) -> Option<Seq<char>> {
    match location {
        Some(location) => Some(location@),
        None => None,
    }
}

impl HttpFileDownloader {
    /// Whether nothing was downloaded yet.
    pub open spec fn is_fresh(self) -> bool {
        self@ == (HttpFileDownloaderView {
            content_length: 0,
            last_downloaded_len: 0,
            downloading: None,
            is_total_size_known: false,
        })
    }

    /// Whether the download that has begun can hand out chunks.
    pub open spec fn valid(self) -> bool {
        self.downloading_state matches Some(state) ==> state.download_way.valid()
    }

    /// A downloader that has begun nothing.
    pub fn new(config: HttpDownloadConfig) -> (r: Self)
        ensures
            r.config == config,
            r.is_fresh(),
    {
        Self {
            config,
            content_length: 0,
            last_downloaded_len: 0,
            downloading_state: None,
            is_total_size_known: false,
        }
    }

    /// Whether a download has begun and not ended.
    pub fn is_downloading(&self) -> (b: bool)
        ensures
            b == (self@.downloading is Some),
    {
        self.downloading_state.is_some()
    }

    /// Sets the number of connections of the download.
    pub fn change_connection_count(&mut self, connection_count: u8) -> (r: Result<
        (),
        ChangeConnectionCountError,
    >)
        requires
            connection_count > 0,
        ensures
            final(self).config == old(self).config,
            old(self).valid() ==> final(self).valid(),
            r == old(self)@.connection_count_answer(),
            final(self)@ == old(self)@.after_connection_count(connection_count),
    {
        match &mut self.downloading_state {
            None => Err(ChangeConnectionCountError::NoStart),
            Some(state) => match &mut state.download_way {
                DownloadWay::Single(_) => {
                    Err(ChangeConnectionCountError::DownloadTargetNotSupported)
                },
                DownloadWay::Ranges(chunk_manager) => {
                    chunk_manager.change_connection_count(connection_count);
                    Ok(())
                },
            },
        }
    }

    /// Sets the size of the chunks that the download takes from now on.
    pub fn change_chunk_size(&mut self, chunk_size: usize) -> (r: Result<(), ChangeChunkSizeError>)
        requires
            chunk_size > 0,
        ensures
            final(self).config == old(self).config,
            old(self).valid() ==> final(self).valid(),
            r == old(self)@.chunk_size_answer(),
            final(self)@ == old(self)@.after_chunk_size(chunk_size),
    {
        match &mut self.downloading_state {
            None => Err(ChangeChunkSizeError::NoStart),
            Some(state) => match &mut state.download_way {
                DownloadWay::Single(_) => Err(ChangeChunkSizeError::DownloadTargetNotSupported),
                DownloadWay::Ranges(chunk_manager) => {
                    chunk_manager.change_chunk_size(chunk_size);
                    Ok(())
                },
            },
        }
    }

    /// The number of bytes that have come.
    pub fn downloaded_len(&self) -> (r: u64)
        ensures
            r == self@.downloaded_len(),
    {
        match &self.downloading_state {
            Some(state) => state.download_way.downloaded_len(),
            None => self.last_downloaded_len,
        }
    }

    /// The length of the file, if the last response said it.
    pub fn current_total_size(&self) -> (r: Option<u64>)
        ensures
            r == self@.total_size(),
    {
        let content_length: u64 = self.content_length;
        if content_length == 0 {
            None
        } else {
            Some(content_length)
        }
    }

    /// The chunks that are being downloaded, if the download is by chunks.
    pub fn get_chunk_manager(&self) -> (r: Option<&ChunkManager>)
        ensures
            match r {
                Some(chunk_manager) => self@.manager() == Some(chunk_manager@) && (self.valid()
                    ==> chunk_manager.valid()),
                None => self@.manager() is None,
            },
    {
        match self.get_downloading_state() {
            Some(downloading_state) => if let DownloadWay::Ranges(item) =
                &downloading_state.download_way {
                Some(item)
            } else {
                None
            },
            None => None,
        }
    }

    /// The download that has begun.
    pub fn get_downloading_state(&self) -> (r: Option<&DownloadingState>)
        ensures
            match r {
                Some(state) => self.downloading_state == Some(*state),
                None => self.downloading_state is None,
            },
    {
        self.downloading_state.as_ref()
    }

    /// The chunks that are being downloaded, sorted by start.
    pub fn get_chunks(&self) -> (chunks: Vec<ChunkItem>)
        requires
            self.valid(),
        ensures
            match self@.manager() {
                Some(m) => chunk_manager::is_listing(chunks@, m.downloading),
                None => chunks@.len() == 0,
            },
    {
        match self.get_chunk_manager() {
            None => Vec::new(),
            Some(chunk_manager) => chunk_manager.get_chunks(),
        }
    }

    /// What the file looks like while it is downloaded by chunks.
    pub fn get_chunks_info(&self) -> (r: Option<ChunksInfo>)
        requires
            self.valid(),
            self@.manager() matches Some(m) ==> chunk_manager::are_apart(m.downloading) && (
            m.data.ranges.len() == 0 ==> chunk_manager::end_below(
                m.downloading,
                m.content_length,
            )),
        ensures
            match (self@.manager(), r) {
                (Some(m), Some(info)) => {
                    &&& info.no_chunk_remaining == (m.data.ranges.len() == 0)
                    &&& chunk_manager::is_listing(info.downloading_chunks@, m.downloading)
                    &&& info.finished_chunks@ == chunk_manager::finished_around(
                        info.downloading_chunks@,
                        m.content_length,
                        info.no_chunk_remaining,
                    )
                },
                (None, None) => true,
                _ => false,
            },
    {
        match self.get_chunk_manager() {
            None => None,
            Some(chunk_manager) => Some(chunk_manager.get_chunks_info()),
        }
    }

    /// Lets no byte count as come.
    fn reset(&mut self)
        ensures
            final(self).config == old(self).config,
            final(self)@ == old(self)@.after_reset(),
            old(self).valid() ==> final(self).valid(),
    {
        self.last_downloaded_len = 0;
        match &mut self.downloading_state {
            Some(state) => state.download_way.set_downloaded_len(0),
            None => {},
        }
    }

    /// Meets the wish to download, and says what to do about the directory first.
    pub fn download(&mut self) -> (r: Result<DirectoryStep, DownloadStartError>)
        ensures
            final(self).config == old(self).config,
            final(self)@ == old(self)@.after_reset(),
            old(self).valid() ==> final(self).valid(),
            r == old(self)@.download_answer(old(self).config.create_dir),
    {
        self.reset();
        if self.is_downloading() {
            return Err(DownloadStartError::AlreadyDownloading);
        }
        if self.config.create_dir {
            Ok(DirectoryStep::Create)
        } else {
            Ok(DirectoryStep::Check)
        }
    }

    /// Meets what became of the directory: whether it was created, or is there.
    pub fn meet_directory(step: DirectoryStep, succeeded: bool) -> (r: Result<
        (),
        DownloadStartError,
    >)
        ensures
            r == (if succeeded {
                Ok(())
            } else if step == DirectoryStep::Create {
                Err(DownloadStartError::FileCrateFailed)
            } else {
                Err(DownloadStartError::DirectoryDoesNotExist)
            }),
    {
        if succeeded {
            return Ok(());
        }
        match step {
            DirectoryStep::Create => Err(DownloadStartError::FileCrateFailed),
            DirectoryStep::Check => Err(DownloadStartError::DirectoryDoesNotExist),
        }
    }

    /// Gives up the download that has begun, if there is one.
    pub fn take_downloading_state(&mut self) -> (r: Option<DownloadingState>)
        ensures
            final(self).config == old(self).config,
            r == old(self).downloading_state,
            final(self)@ == old(self)@.after_end(),
            final(self).valid(),
    {
        self.last_downloaded_len = self.downloaded_len();
        self.downloading_state.take()
    }

    /// Cancels the download that has begun: gives it up, so that it can be told to end and its end
    /// waited for. There is nothing to do if there is none.
    pub fn cancel(&mut self) -> (r: Option<DownloadingState>)
        ensures
            final(self).config == old(self).config,
            r == old(self).downloading_state,
            final(self)@ == old(self)@.after_end(),
            final(self).valid(),
    {
        self.take_downloading_state()
    }

    /// Begins the first request, and says what to do.
    pub fn start_download(&mut self) -> (r: (RequestState, RequestStep))
        ensures
            final(self).config == old(self).config,
            old(self).valid() ==> final(self).valid(),
            r.0 == (RequestState { location: None, redirection_times: 0, retry_count: 0 }),
            r.1 == (if r.0.is_redirected_too_often(old(self).config.handle_redirection) {
                RequestStep::Fail(DownloadError::RedirectionTimesTooMany)
            } else {
                RequestStep::Send
            }),
            final(self)@ == old(self)@.after_request_step(r.1),
    {
        let state = RequestState { location: None, redirection_times: 0, retry_count: 0 };
        let step = if Self::is_redirected_too_often(&state, self.config.handle_redirection) {
            RequestStep::Fail(DownloadError::RedirectionTimesTooMany)
        } else {
            RequestStep::Send
        };
        self.meet_request_step(step);
        (state, step)
    }

    /// Whether no more place may be requested.
    fn is_redirected_too_often(state: &RequestState, handle: HttpRedirectionHandle) -> (b: bool)
        ensures
            b == state.is_redirected_too_often(handle),
    {
        match handle {
            HttpRedirectionHandle::RequestNewLocation { max_times } => state.redirection_times
                >= max_times,
            HttpRedirectionHandle::Invalid => false,
        }
    }

    /// Lets those who wait for the length of the file go on if it will not come any more.
    fn meet_request_step(&mut self, step: RequestStep)
        ensures
            final(self).config == old(self).config,
            old(self).valid() ==> final(self).valid(),
            final(self)@ == old(self)@.after_request_step(step),
    {
        if let RequestStep::Fail(_) = step {
            self.is_total_size_known = true;
        }
    }

    /// Meets the failure of the first request, and says what to do.
    ///
    /// A response whose status is an error counts as a failure.
    pub fn meet_request_failed(&mut self, state: &mut RequestState) -> (step: RequestStep)
        ensures
            final(self).config == old(self).config,
            old(self).valid() ==> final(self).valid(),
            step == old(state).failed_step(old(self).config.request_retry_count),
            *final(state) == (if step == RequestStep::Send {
                RequestState { retry_count: (old(state).retry_count + 1) as u8, ..*old(state) }
            } else {
                *old(state)
            }),
            final(self)@ == old(self)@.after_request_step(step),
    {
        let step = if state.retry_count < self.config.request_retry_count {
            state.retry_count = state.retry_count + 1;
            RequestStep::Send
        } else {
            RequestStep::Fail(DownloadError::HttpRequestFailed)
        };
        self.meet_request_step(step);
        step
    }

    /// Meets that a response pointed to what is no place, and says what to do.
    pub fn meet_location_invalid(&mut self) -> (step: RequestStep)
        ensures
            final(self).config == old(self).config,
            old(self).valid() ==> final(self).valid(),
            step == RequestStep::Fail(
                DownloadError::HttpRequestResponseInvalid(
                    HttpResponseInvalidCause::RedirectionNoLocation,
                ),
            ),
            final(self)@ == old(self)@.after_request_step(step),
    {
        let step = RequestStep::Fail(
            DownloadError::HttpRequestResponseInvalid(
                HttpResponseInvalidCause::RedirectionNoLocation,
            ),
        );
        self.meet_request_step(step);
        step
    }

    /// Meets a response to the first request, and says what to do.
    pub fn meet_request_response(
        &mut self,
        state: &mut RequestState,
        status: u16,
        headers: &HeaderMap,
    ) -> (step: RequestStep)
        requires
            old(state).redirection_times < usize::MAX,
        ensures
            final(self).config == old(self).config,
            old(self).valid() ==> final(self).valid(),
            ({
                let location = location_of(header_fields::field_values(*headers, "location"@));
                let handle = old(self).config.handle_redirection;
                &&& step == old(state).response_step(handle, status, location)
                &&& if handle != HttpRedirectionHandle::Invalid && is_redirection(status)
                    && location is Some {
                    &&& location_text(final(state).location) == location
                    &&& final(state).redirection_times == old(state).redirection_times + 1
                    &&& final(state).retry_count == 0
                } else {
                    *final(state) == *old(state)
                }
            }),
            final(self)@ == old(self)@.after_request_step(step),
    {
        let step = if self.config.handle_redirection != HttpRedirectionHandle::Invalid && 300
            <= status && status < 400 {
            match Self::response_location(headers) {
                None => RequestStep::Fail(
                    DownloadError::HttpRequestResponseInvalid(
                        HttpResponseInvalidCause::RedirectionNoLocation,
                    ),
                ),
                Some(location) => {
                    state.location = Some(location);
                    state.redirection_times = state.redirection_times + 1;
                    state.retry_count = 0;
                    if Self::is_redirected_too_often(state, self.config.handle_redirection) {
                        RequestStep::Fail(DownloadError::RedirectionTimesTooMany)
                    } else {
                        RequestStep::Send
                    }
                },
            }
        } else if !(200 <= status && status < 300) {
            RequestStep::Fail(
                DownloadError::HttpRequestResponseInvalid(
                    HttpResponseInvalidCause::StatusCodeUnsuccessful,
                ),
            )
        } else {
            RequestStep::Accept
        };
        self.meet_request_step(step);
        step
    }

    /// Where the fields of a response point, if they do so in printable text.
    fn response_location(headers: &HeaderMap) -> (r: Option<String>)
        ensures
            location_text(r) == location_of(
                header_fields::field_values(*headers, "location"@),
            ),
    {
        proof {
            reveal_strlit("location");
        }
        match header_fields::first_value(headers, "location") {
            Some(value) => header_fields::value_text(value.as_slice()),
            None => None,
        }
    }

    /// Meets the fields of the response that was taken.
    ///
    /// If an entity tag was set up and the file has another or none, the download ends: the file on
    /// the server has changed.
    pub fn meet_response(&mut self, headers: &HeaderMap) -> (r: Result<
        ResponseInfo,
        DownloadError,
    >)
        ensures
            final(self).config == old(self).config,
            old(self).valid() ==> final(self).valid(),
            ({
                let expected = header_fields::tag_bytes(old(self).config.etag);
                let etag = header_fields::etag_of(header_fields::field_values(*headers, "etag"@));
                let length = file_length_of(
                    header_fields::field_values(*headers, "content-length"@),
                );
                match r {
                    Ok(info) => {
                        &&& expected is None || etag == expected
                        &&& header_fields::tag_bytes(info.etag) == expected
                        &&& info.content_length == length
                        &&& info.serves_ranges == allows_ranges(
                            header_fields::field_values(*headers, "accept-ranges"@),
                            old(self).config.strict_check_accept_ranges,
                        )
                        &&& final(self)@ == (HttpFileDownloaderView {
                            content_length: match length {
                                Some(length) => length,
                                None => 0,
                            },
                            ..old(self)@
                        })
                    },
                    Err(err) => {
                        &&& err == DownloadError::ServerFileAlreadyChanged
                        &&& expected is Some && etag != expected
                        &&& final(self)@ == (HttpFileDownloaderView {
                            is_total_size_known: true,
                            ..old(self)@
                        })
                    },
                }
            }),
            r matches Ok(info) ==> final(self)@.total_size() == info.content_length,
            forall|n: u64|
                #![trigger length_is_written(*headers, n)]
                length_is_written(*headers, n) && n > 0 && r is Ok ==> r->Ok_0.content_length == Some(n)
                    && final(self)@.content_length == n,
    {
        proof {
            let values = header_fields::field_values(*headers, "content-length"@);
            assert forall|n: u64| #[trigger] length_is_written(*headers, n) implies
                header_fields::content_length_of(values) == Some(n) by {
                header_fields::law_content_length_is_what_is_written(values, n);
            }
        }
        let etag = if self.config.etag.is_some() {
            let cur_etag = header_fields::response_etag(headers);
            if !header_fields::same_tag(&cur_etag, &self.config.etag) {
                self.is_total_size_known = true;
                return Err(DownloadError::ServerFileAlreadyChanged);
            }
            cur_etag
        } else {
            None
        };
        let content_length = match header_fields::content_length(headers) {
            Some(length) => if length == 0 {
                None
            } else {
                Some(length)
            },
            None => None,
        };
        self.content_length = match content_length {
            Some(length) => length,
            None => 0,
        };
        let accept_ranges = header_fields::accepts_byte_ranges(headers);
        let is_ranges_bytes_none = accept_ranges.is_none();
        let is_ranges_bytes = match accept_ranges {
            Some(is_bytes) => is_bytes,
            None => false,
        };
        let serves_ranges = if self.config.strict_check_accept_ranges {
            is_ranges_bytes
        } else {
            is_ranges_bytes_none || is_ranges_bytes
        };
        Ok(ResponseInfo { etag, content_length, serves_ranges })
    }

    /// Begins the download, from an archive if there is one.
    pub fn begin_download(
        &mut self,
        response: ResponseInfo,
        archive_data: Option<DownloadArchiveData>,
    )
        requires
            old(self).config.valid(),
            response.content_length != Some(0u64),
        ensures
            final(self).config == old(self).config,
            final(self)@ == (HttpFileDownloaderView {
                downloading: Some(
                    (
                        duration_to_begin_with(archive_data),
                        way_to_begin(
                            old(self).config,
                            old(self)@.downloaded_len(),
                            response,
                            archive_data,
                        ),
                    ),
                ),
                is_total_size_known: true,
                ..old(self)@
            }),
            (forall|data: ChunkData|
                archive_data matches Some(archive) && archive.chunk_data == Some(data)
                    ==> chunk_iterator::all_valid(data@.ranges)) ==> final(self).valid(),
    {
        let downloading_duration: u32 = match &archive_data {
            Some(archive_data) => archive_data.downloading_duration,
            None => 0,
        };
        let downloaded_len: u64 = self.downloaded_len();
        let download_way = match response.content_length {
            Some(content_length) if response.serves_ranges => {
                let mut begin_len: u64 = downloaded_len;
                let mut archived = None;
                if let Some(archive_data) = archive_data {
                    begin_len = archive_data.downloaded_len;
                    archived = archive_data.chunk_data;
                }
                let chunk_data = match archived {
                    Some(mut data) => {
                        data.remaining.chunk_size = self.config.chunk_size;
                        data
                    },
                    None => ChunkData {
                        iter_count: 0,
                        remaining: RemainingChunks::new(self.config.chunk_size, content_length),
                        last_incomplete_chunks: Vec::new(),
                    },
                };
                let chunk_iterator = ChunkIterator::new(content_length, chunk_data);
                DownloadWay::Ranges(
                    ChunkManager::new(
                        self.config.download_connection_count,
                        begin_len,
                        chunk_iterator,
                        response.etag,
                        self.config.request_retry_count,
                    ),
                )
            },
            _ => DownloadWay::Single(
                SingleDownload::new(downloaded_len, response.content_length),
            ),
        };
        self.downloading_state = Some(DownloadingState { downloading_duration, download_way });
        self.is_total_size_known = true;
    }

    /// The length that the file gets before anything is written, if it is to get one.
    pub fn len_in_advance(&self, content_length: Option<u64>) -> (r: Option<u64>)
        requires
            self.config.set_len_in_advance ==> content_length is Some,
        ensures
            r == (if self.config.set_len_in_advance {
                content_length
            } else {
                None
            }),
    {
        if self.config.set_len_in_advance {
            content_length
        } else {
            None
        }
    }

    /// Meets the end of the download. It may be no longer there if it was cancelled.
    pub fn finish_download(&mut self)
        ensures
            final(self).config == old(self).config,
            final(self)@ == old(self)@.after_end(),
            final(self).valid(),
    {
        if self.is_downloading() {
            self.take_downloading_state();
        }
    }

    /// Where the file is saved.
    ///
    /// The separator is that of the platform, and other names and directories are joined as the
    /// platform does it.
    pub fn get_file_path(&self) -> (r: String)
        ensures
            self.config.is_file_path(r@),
    {
        self.config.file_path()
    }
}

impl HttpFileDownloaderView {
    /// The state once this is to be done about the first request.
    pub open spec fn after_request_step(self, step: RequestStep) -> HttpFileDownloaderView {
        HttpFileDownloaderView {
            is_total_size_known: self.is_total_size_known || step is Fail,
            ..self
        }
    }
}

impl Downloader<DirectoryStep, DownloadStartError> for HttpFileDownloader {
    open spec fn downloads(
        before: Self,
        after: Self,
        r: Result<DirectoryStep, DownloadStartError>,
    ) -> bool {
        &&& after.config == before.config
        &&& after@ == before@.after_reset()
        &&& r == before@.download_answer(before.config.create_dir)
    }

    fn download(&mut self) -> (r: Result<DirectoryStep, DownloadStartError>) {
        HttpFileDownloader::download(self)
    }
}

/// A downloader, and what was added to it.
#[derive(Debug)]
pub struct ExtendedHttpFileDownloader<D, W> {
    pub inner: D,
    pub downloader_wrapper: W,
}

/// What the wish to download may lead to: what was added may refuse it, then the downloader is
/// told of it, then what was added is told what became of it, and given the download.
pub open spec fn leads_to<F, E, C, D: Downloader<F, E>, W: DownloaderWrapper<D, F, E, C>>(
    before: ExtendedHttpFileDownloader<D, W>,
    after: ExtendedHttpFileDownloader<D, W>,
    r: Result<F, E>,
) -> bool {
    exists|told: ExtendedHttpFileDownloader<D, W>, answer: Result<(), E>|
        {
            &&& #[trigger] W::prepares(
                before.downloader_wrapper,
                before.inner,
                told.downloader_wrapper,
                told.inner,
                answer,
            )
            &&& match answer {
                Err(err) => after == told && r == Err::<F, E>(err),
                Ok(_) => begins::<F, E, C, D, W>(told, after, r),
            }
        }
}

/// What a wish to download that nothing that was added refuses may lead to.
pub open spec fn begins<F, E, C, D: Downloader<F, E>, W: DownloaderWrapper<D, F, E, C>>(
    before: ExtendedHttpFileDownloader<D, W>,
    after: ExtendedHttpFileDownloader<D, W>,
    r: Result<F, E>,
) -> bool {
    exists|
        begun: D,
        result: Result<F, E>,
        told: ExtendedHttpFileDownloader<D, W>,
        handled: Result<F, E>,
    |
        {
            &&& #[trigger] D::downloads(before.inner, begun, result)
            &&& #[trigger] W::handles(
                before.downloader_wrapper,
                begun,
                result,
                told.downloader_wrapper,
                told.inner,
                handled,
            )
            &&& match handled {
                Err(err) => after == told && r == Err::<F, E>(err),
                Ok(future) => W::wraps(
                    told.downloader_wrapper,
                    told.inner,
                    future,
                    after.downloader_wrapper,
                    after.inner,
                    r,
                ),
            }
        }
}

impl<D, W> ExtendedHttpFileDownloader<D, W> {
    /// A downloader with this added.
    pub fn new(downloader: D, downloader_wrapper: W) -> (r: Self)
        ensures
            r == (ExtendedHttpFileDownloader { inner: downloader, downloader_wrapper }),
    {
        Self { inner: downloader, downloader_wrapper }
    }

    /// Meets the wish to download.
    pub fn prepare_download<F, E, C>(&mut self) -> (r: Result<F, E>) where
        D: Downloader<F, E>,
        W: DownloaderWrapper<D, F, E, C>,

        ensures
            leads_to::<F, E, C, D, W>(*old(self), *final(self), r),
    {
        let ghost before = *self;
        let answer = self.downloader_wrapper.prepare_download(&mut self.inner);
        let ghost (told, given) = (*self, answer);
        assert(W::prepares(
            before.downloader_wrapper,
            before.inner,
            told.downloader_wrapper,
            told.inner,
            given,
        ));
        if let Err(err) = answer {
            return Err(err);
        }
        let result = self.inner.download();
        let ghost (begun, became) = (self.inner, result);
        assert(D::downloads(told.inner, begun, became));
        let handled = self.downloader_wrapper.handle_prepare_download_result(
            &mut self.inner,
            result,
        );
        let ghost (informed, answered) = (*self, handled);
        assert(W::handles(
            told.downloader_wrapper,
            begun,
            became,
            informed.downloader_wrapper,
            informed.inner,
            answered,
        ));
        let r = match handled {
            Err(err) => Err(err),
            Ok(future) => self.downloader_wrapper.download(&mut self.inner, future),
        };
        assert(begins::<F, E, C, D, W>(told, *self, r));
        r
    }
}

impl<W> ExtendedHttpFileDownloader<HttpFileDownloader, W> {
    /// Gives up the download that has begun, if there is one, and says what is to be done for
    /// what was added.
    pub fn cancel<C>(&mut self) -> (r: (Vec<C>, Option<DownloadingState>)) where
        W: DownloaderWrapper<HttpFileDownloader, DirectoryStep, DownloadStartError, C>,

        ensures
            old(self).downloader_wrapper.notifies((r.0)@),
            r.1 == old(self).inner.downloading_state,
            final(self).inner@ == old(self).inner@.after_end(),
            final(self).inner.config == old(self).inner.config,
            final(self).downloader_wrapper == old(self).downloader_wrapper,
    {
        let notices = self.downloader_wrapper.on_cancel();
        (notices, self.inner.cancel())
    }

    /// Whether a download has begun and not ended.
    pub fn is_downloading(&self) -> (b: bool)
        ensures
            b == (self.inner@.downloading is Some),
    {
        self.inner.is_downloading()
    }

    /// Sets the number of connections of the download.
    pub fn change_connection_count(&mut self, connection_count: u8) -> (r: Result<
        (),
        ChangeConnectionCountError,
    >)
        requires
            connection_count > 0,
        ensures
            r == old(self).inner@.connection_count_answer(),
            final(self).inner@ == old(self).inner@.after_connection_count(connection_count),
            final(self).inner.config == old(self).inner.config,
            final(self).downloader_wrapper == old(self).downloader_wrapper,
    {
        self.inner.change_connection_count(connection_count)
    }

    /// Sets the size of the chunks that the download takes from now on.
    pub fn change_chunk_size(&mut self, chunk_size: usize) -> (r: Result<(), ChangeChunkSizeError>)
        requires
            chunk_size > 0,
        ensures
            r == old(self).inner@.chunk_size_answer(),
            final(self).inner@ == old(self).inner@.after_chunk_size(chunk_size),
            final(self).inner.config == old(self).inner.config,
            final(self).downloader_wrapper == old(self).downloader_wrapper,
    {
        self.inner.change_chunk_size(chunk_size)
    }

    /// The number of bytes that have come.
    pub fn downloaded_len(&self) -> (r: u64)
        ensures
            r == self.inner@.downloaded_len(),
    {
        self.inner.downloaded_len()
    }

    /// The length of the file, if the last response said it.
    pub fn current_total_size(&self) -> (r: Option<u64>)
        ensures
            r == self.inner@.total_size(),
    {
        self.inner.current_total_size()
    }

    /// The chunks that are being downloaded, sorted by start.
    pub fn get_chunks(&self) -> (chunks: Vec<ChunkItem>)
        requires
            self.inner.valid(),
        ensures
            match self.inner@.manager() {
                Some(m) => chunk_manager::is_listing(chunks@, m.downloading),
                None => chunks@.len() == 0,
            },
    {
        self.inner.get_chunks()
    }

    /// Where the file is saved.
    pub fn get_file_path(&self) -> (r: String)
        ensures
            self.inner.config.is_file_path(r@),
    {
        self.inner.get_file_path()
    }

    /// The download that has begun.
    pub fn get_downloading_state(&self) -> (r: Option<&DownloadingState>)
        ensures
            match r {
                Some(state) => self.inner.downloading_state == Some(*state),
                None => self.inner.downloading_state is None,
            },
    {
        self.inner.get_downloading_state()
    }

    /// How the download is done.
    pub fn config(&self) -> (r: &HttpDownloadConfig)
        ensures
            *r == self.inner.config,
    {
        &self.inner.config
    }
}

/// How many requests may still be sent, this one not counted.
pub open spec fn requests_left(state: RequestState, config: HttpDownloadConfig) -> int {
    let tries = config.request_retry_count + 1;
    let places = match config.handle_redirection {
        HttpRedirectionHandle::RequestNewLocation { max_times } => max_times
            - state.redirection_times,
        HttpRedirectionHandle::Invalid => 1,
    };
    places * tries - 1 - state.retry_count
}

/// Whether a request is about to be sent: there is a place that may be requested, and a try for it.
pub open spec fn may_send(state: RequestState, config: HttpDownloadConfig) -> bool {
    !state.is_redirected_too_often(config.handle_redirection) && state.retry_count
        <= config.request_retry_count
}

/// The first request is sent at most once for each place that may be requested, and once more for
/// each new try there: whenever it is sent again, fewer may still be sent.
pub proof fn law_requests_are_bounded(
    state: RequestState,
    config: HttpDownloadConfig,
    status: u16,
    location: Option<String>,
)
    requires
        may_send(state, config),
        state.redirection_times < usize::MAX,
    ensures
        requests_left(state, config) >= 0,
        state.failed_step(config.request_retry_count) == RequestStep::Send ==> {
            let next = RequestState { retry_count: (state.retry_count + 1) as u8, ..state };
            may_send(next, config) && requests_left(next, config) < requests_left(state, config)
        },
        state.response_step(config.handle_redirection, status, location_text(location))
            == RequestStep::Send ==> {
            let next = RequestState {
                location,
                redirection_times: (state.redirection_times + 1) as usize,
                retry_count: 0,
            };
            may_send(next, config) && requests_left(next, config) < requests_left(state, config)
        },
{
    let tries = config.request_retry_count + 1;
    if let HttpRedirectionHandle::RequestNewLocation { max_times } = config.handle_redirection {
        let places = max_times - state.redirection_times;
        assert(places * tries >= tries) by (nonlinear_arith)
            requires
                places >= 1,
                tries >= 1,
        ;
        assert((places - 1) * tries == places * tries - tries) by (nonlinear_arith);
    }
}

/// A download can begin again as soon as the last one is no longer there, and not before.
pub proof fn law_one_download_at_a_time(downloader: HttpFileDownloaderView)
    ensures
        downloader.after_end().downloading is None,
        downloader.after_end().downloaded_len() == downloader.downloaded_len() as u64,
        downloader.after_reset().downloading is Some <==> downloader.downloading is Some,
        downloader.after_reset().downloaded_len() == 0,
{
}

/// The length of a file is exactly the number that its response writes, however large: it is what
/// is reported and kept, and a download by chunks has exactly that many bytes to come. A length is
/// reported only if all fields write it, and never zero.
pub proof fn law_file_has_the_length_that_is_written(
    values: Seq<Seq<u8>>,
    n: u64,
    config: HttpDownloadConfig,
    response: ResponseInfo,
    downloaded_len: int,
)
    requires
        n > 0,
        response.content_length == file_length_of(values),
    ensures
        (values.len() > 0 && forall|k: int|
            0 <= k < values.len() ==> header_fields::writes(#[trigger] values[k], n as int)) ==> {
            &&& file_length_of(values) == Some(n)
            &&& match way_to_begin(config, downloaded_len, response, None) {
                DownloadWayView::Ranges(m) => {
                    &&& m.content_length == n
                    &&& forall|i: int| #[trigger] m.data.coverage(i) == (if 0 <= i < n {
                        1int
                    } else {
                        0
                    })
                },
                DownloadWayView::Single(single) => single.content_length == Some(n),
            }
        },
        file_length_of(values) == Some(n) ==> values.len() > 0 && forall|k: int|
            0 <= k < values.len() ==> header_fields::number_text(#[trigger] values[k]) == Some(n),
        file_length_of(values) != Some(0u64),
{
    if values.len() > 0 && forall|k: int|
        0 <= k < values.len() ==> header_fields::writes(#[trigger] values[k], n as int) {
        header_fields::law_content_length_is_what_is_written(values, n);
        if let DownloadWayView::Ranges(m) = way_to_begin(config, downloaded_len, response, None) {
            let range = ChunkRange { start: 0, end: (n - 1) as u64 };
            assert(chunk_iterator::ranges_of(m.data.incomplete) =~= Seq::empty());
            assert forall|i: int| #[trigger] m.data.coverage(i) == (if 0 <= i < n {
                1int
            } else {
                0
            }) by {
                spans::lemma_single(range, i);
            }
        }
    }
}

/// The length that was kept is the length of the file, and none is known exactly if it is zero.
pub proof fn law_kept_length_is_the_total_size(downloader: HttpFileDownloaderView)
    ensures
        match downloader.total_size() {
            Some(length) => length == downloader.content_length && length > 0,
            None => downloader.content_length == 0,
        },
{
}

/// The class of a status is its first digit.
pub proof fn law_status_class_is_the_first_digit(status: u16)
    ensures
        is_success(status) <==> status / 100 == 2,
        is_redirection(status) <==> status / 100 == 3,
{
}

/// A response is taken exactly if its status says that all is well. Where responses that point
/// elsewhere are not followed, or it is none, any other is a failure.
pub proof fn law_only_success_is_accepted(
    state: RequestState,
    handle: HttpRedirectionHandle,
    status: u16,
    location: Option<Seq<char>>,
)
    ensures
        state.response_step(handle, status, location) == RequestStep::Accept <==> status / 100 == 2,
        handle is Invalid || status / 100 != 3 ==> state.response_step(handle, status, location)
            != RequestStep::Send,
        (handle is Invalid || status / 100 != 3) && status / 100 != 2 ==> state.response_step(
            handle,
            status,
            location,
        ) == RequestStep::Fail(
            DownloadError::HttpRequestResponseInvalid(
                HttpResponseInvalidCause::StatusCodeUnsuccessful,
            ),
        ),
{
}

/// Of responses that point elsewhere one after the other, the first ones are followed, as many as
/// leave `max_times` requests in all; the next one is one too many. One that does not say where is
/// a failure.
pub proof fn law_redirections_are_followed_up_to_the_limit(
    state: RequestState,
    max_times: usize,
    status: u16,
    location: Option<Seq<char>>,
)
    requires
        status / 100 == 3,
    ensures
        ({
            let handle = HttpRedirectionHandle::RequestNewLocation { max_times };
            let step = state.response_step(handle, status, location);
            let places = state.redirection_times + 1;
            match location {
                Some(_) => if places < max_times {
                    step == RequestStep::Send
                } else {
                    step == RequestStep::Fail(DownloadError::RedirectionTimesTooMany)
                },
                None => step == RequestStep::Fail(
                    DownloadError::HttpRequestResponseInvalid(
                        HttpResponseInvalidCause::RedirectionNoLocation,
                    ),
                ),
            }
        }),
        state.is_redirected_too_often(HttpRedirectionHandle::RequestNewLocation { max_times })
            <==> state.redirection_times >= max_times,
        !state.is_redirected_too_often(HttpRedirectionHandle::Invalid),
{
}

/// A request is tried again after each of the first `request_retry_count` failures on end, and
/// given up at the next.
pub proof fn law_failed_request_is_tried_again(state: RequestState, request_retry_count: u8)
    ensures
        match state.failed_step(request_retry_count) {
            RequestStep::Send => state.retry_count + 1 <= request_retry_count,
            RequestStep::Fail(err) => state.retry_count + 1 > request_retry_count && err
                == DownloadError::HttpRequestFailed,
            RequestStep::Accept => false,
        },
{
}

/// Where a response points is, byte for byte, what its first field says, if that is printable.
pub proof fn law_location_is_what_the_field_says(values: Seq<Seq<u8>>)
    ensures
        match location_of(values) {
            Some(location) => values.len() > 0 && header_fields::ascii_bytes(location) == values[0],
            None => values.len() == 0 || !header_fields::is_visible(values[0]),
        },
{
    if values.len() > 0 && header_fields::is_visible(values[0]) {
        let bytes = header_fields::ascii_bytes(header_fields::ascii_text(values[0]));
        assert forall|k: int| 0 <= k < bytes.len() implies bytes[k] == values[0][k] by {
            assert(values[0][k] == 9 || 32 <= values[0][k] < 127);
        }
        assert(bytes =~= values[0]);
    }
}

/// Ranges are asked for where the response says `bytes` and nothing else; if that is not checked
/// strictly, also where it says nothing. Whatever else it says, they are not.
pub proof fn law_ranges_are_asked_for_where_they_are_served(values: Seq<Seq<u8>>, strict: bool)
    ensures
        values.len() == 0 ==> (allows_ranges(values, strict) <==> !strict),
        values.len() == 1 ==> (allows_ranges(values, strict) <==> values[0]
            == header_fields::ascii_bytes("bytes"@)),
        values.len() > 1 ==> !allows_ranges(values, strict),
        header_fields::ascii_bytes("bytes"@) == seq![98u8, 121u8, 116u8, 101u8, 115u8],
{
    reveal_strlit("bytes");
    let bytes = header_fields::ascii_bytes("bytes"@);
    assert(bytes =~= seq![98u8, 121u8, 116u8, 101u8, 115u8]);
    if values.len() == 1 {
        assert(values[0] == bytes ==> values =~= seq![bytes]);
        assert(seq![bytes][0] == bytes);
    }
    if values.len() > 1 {
        assert(seq![bytes].len() == 1);
    }
}

/// The number of connections and the size of the chunks can be changed exactly while a download by
/// chunks goes on. What is changed is that number or that size, and nothing else.
pub proof fn law_changes_reach_a_download_by_chunks(
    downloader: HttpFileDownloaderView,
    connection_count: u8,
    chunk_size: usize,
)
    ensures
        ({
            let counted = downloader.after_connection_count(connection_count);
            let sized = downloader.after_chunk_size(chunk_size);
            match downloader.downloading {
                Some((duration, DownloadWayView::Ranges(m))) => {
                    &&& downloader.connection_count_answer() is Ok
                    &&& downloader.chunk_size_answer() is Ok
                    &&& counted.downloading matches Some((kept, DownloadWayView::Ranges(next)))
                        && kept == duration && next.connection_count == connection_count && m == (
                    ChunkManagerView { connection_count: m.connection_count, ..next })
                    &&& sized.downloading matches Some((kept, DownloadWayView::Ranges(next)))
                        && kept == duration && next.data.chunk_size == chunk_size && m == (
                    ChunkManagerView {
                        data: ChunkDataView { chunk_size: m.data.chunk_size, ..next.data },
                        ..next
                    })
                    &&& downloader == (HttpFileDownloaderView {
                        downloading: downloader.downloading,
                        ..counted
                    })
                    &&& downloader == (HttpFileDownloaderView {
                        downloading: downloader.downloading,
                        ..sized
                    })
                },
                Some((_, DownloadWayView::Single(_))) => {
                    &&& downloader.connection_count_answer() == Err::<
                        (),
                        ChangeConnectionCountError,
                    >(ChangeConnectionCountError::DownloadTargetNotSupported)
                    &&& downloader.chunk_size_answer() == Err::<(), ChangeChunkSizeError>(
                        ChangeChunkSizeError::DownloadTargetNotSupported,
                    )
                    &&& counted == downloader
                    &&& sized == downloader
                },
                None => {
                    &&& downloader.connection_count_answer() == Err::<
                        (),
                        ChangeConnectionCountError,
                    >(ChangeConnectionCountError::NoStart)
                    &&& downloader.chunk_size_answer() == Err::<(), ChangeChunkSizeError>(
                        ChangeChunkSizeError::NoStart,
                    )
                    &&& counted == downloader
                    &&& sized == downloader
                },
            }
        }),
{
}

/// The wish to download is refused exactly while a download goes on. Otherwise the directory is
/// created or looked for, as is set up.
pub proof fn law_wish_is_refused_while_a_download_goes_on(
    downloader: HttpFileDownloaderView,
    create_dir: bool,
)
    ensures
        match downloader.download_answer(create_dir) {
            Ok(DirectoryStep::Create) => downloader.downloading is None && create_dir,
            Ok(DirectoryStep::Check) => downloader.downloading is None && !create_dir,
            Err(err) => downloader.downloading is Some && err
                == DownloadStartError::AlreadyDownloading,
        },
        downloader.after_end().download_answer(create_dir) is Ok,
{
}

/// A reset forgets how many bytes have come, and the end of a download how it was done; nothing
/// else is lost by either. What is to be done about the first request changes nothing, but that
/// nobody waits any longer for the length of a file once that request has failed.
pub proof fn law_only_the_count_is_forgotten(
    downloader: HttpFileDownloaderView,
    step: RequestStep,
)
    requires
        0 <= downloader.downloaded_len() <= u64::MAX,
    ensures
        ({
            let reset = downloader.after_reset();
            let ended = downloader.after_end();
            let met = downloader.after_request_step(step);
            &&& reset.content_length == downloader.content_length
            &&& reset.is_total_size_known == downloader.is_total_size_known
            &&& match (downloader.downloading, reset.downloading) {
                (Some((duration, way)), Some((kept, next))) => kept == duration
                    && next.with_downloaded_len(way.downloaded_len() as u64) == way,
                (None, None) => true,
                _ => false,
            }
            &&& ended.content_length == downloader.content_length
            &&& ended.is_total_size_known == downloader.is_total_size_known
            &&& ended.downloaded_len() == downloader.downloaded_len()
            &&& met == (HttpFileDownloaderView {
                is_total_size_known: met.is_total_size_known,
                ..downloader
            })
            &&& met.is_total_size_known <==> downloader.is_total_size_known || step is Fail
        }),
{
    if let Some((_, way)) = downloader.downloading {
        download_way::law_count_is_set_alone(way, 0, way.downloaded_len() as u64);
    }
}

/// A download begins as it was set up: by chunks exactly if ranges can be asked for and the length
/// is known, by as many connections, in chunks of that size, with as many new tries, for the file
/// with that tag. It counts as come what the archive says, or else what was counted, and goes on
/// from what the archive leaves.
pub proof fn law_download_begins_as_it_was_set_up(
    config: HttpDownloadConfig,
    downloaded_len: u64,
    response: ResponseInfo,
    archive: Option<DownloadArchiveData>,
)
    ensures
        ({
            let way = way_to_begin(config, downloaded_len as int, response, archive);
            match (way, response.content_length) {
                (DownloadWayView::Ranges(m), Some(content_length)) => {
                    &&& response.serves_ranges
                    &&& m.content_length == content_length
                    &&& m.connection_count == config.download_connection_count
                    &&& m.retry_count == config.request_retry_count
                    &&& m.etag == header_fields::tag_bytes(response.etag)
                    &&& m.data.chunk_size == config.chunk_size
                    &&& m.superfluities == 0
                    &&& m.current_count() == 0
                    &&& match archive {
                        Some(archive) => {
                            &&& m.downloaded_len == archive.downloaded_len
                            &&& archive.chunk_data matches Some(data) ==> m.data.ranges
                                == data@.ranges && m.data.incomplete == data@.incomplete
                                && m.data.iter_count == data@.iter_count
                        },
                        None => m.downloaded_len == downloaded_len,
                    }
                    &&& (archive is None || archive->Some_0.chunk_data is None) ==> {
                        &&& m.data.iter_count == 0
                        &&& m.data.incomplete.len() == 0
                        &&& m.data.ranges.len() == 1
                        &&& m.data.ranges[0].start == 0
                        &&& content_length > 0 ==> m.data.ranges[0].length() == content_length
                    }
                },
                (DownloadWayView::Ranges(_), None) => false,
                (DownloadWayView::Single(single), _) => {
                    &&& !response.serves_ranges || response.content_length is None
                    &&& single.downloaded_len == downloaded_len
                    &&& single.content_length == response.content_length
                },
            }
        }),
        match archive {
            Some(archive) => duration_to_begin_with(Some(archive)) == archive.downloading_duration,
            None => duration_to_begin_with(archive) == 0,
        },
{
}

/// Where nothing was added to a downloader, the wish to download leads to what the downloader
/// itself makes of it.
pub proof fn law_nothing_added_changes_nothing<F, E, C, D: Downloader<F, E>>(
    before: ExtendedHttpFileDownloader<D, ()>,
    after: ExtendedHttpFileDownloader<D, ()>,
    r: Result<F, E>,
)
    requires
        leads_to::<F, E, C, D, ()>(before, after, r),
    ensures
        D::downloads(before.inner, after.inner, r),
{
    let (told, answer) = choose|told: ExtendedHttpFileDownloader<D, ()>, answer: Result<(), E>|
        {
            &&& #[trigger] <() as DownloaderWrapper<D, F, E, C>>::prepares(
                before.downloader_wrapper,
                before.inner,
                told.downloader_wrapper,
                told.inner,
                answer,
            )
            &&& match answer {
                Err(err) => after == told && r == Err::<F, E>(err),
                Ok(_) => begins::<F, E, C, D, ()>(told, after, r),
            }
        };
    assert(begins::<F, E, C, D, ()>(told, after, r));
}

} // verus!
