//! The download of one chunk.

use vstd::prelude::*;
use headers::HeaderMap;

use crate::chunk_iterator::{ChunkInfo, ChunkRange};
use crate::header_fields;
use crate::header_fields::{ETag, HttpRequest};
use crate::downloader::DownloadingEndCause;

verus! {

/// Something that is told how many bytes have come, and may have the download wait.
///
/// Of what it does, only that is known which it says itself.
pub trait DownloadedLenChangeNotify: Sized {
    /// What there is to wait for.
    type Wait;

    /// Whether `len` more bytes can be taken note of.
    open spec fn can_receive(&self, len: usize) -> bool {
        true
    }

    /// Whether taking note of `len` more bytes may lead from `before` to `after`, and to this
    /// wait.
    open spec fn receives(
        before: Self,
        len: usize,
        after: Self,
        wait: Option<Self::Wait>,
    ) -> bool {
        true
    }

    /// Takes note of `len` more bytes, and says what to wait for before more is read.
    fn receive_len(&mut self, len: usize) -> (wait: Option<Self::Wait>)
        requires
            old(self).can_receive(len),
        ensures
            Self::receives(*old(self), len, *final(self), wait),
    ;
}

/// A chunk that is being downloaded, and how much of it has come.
#[derive(Debug, Copy, Clone)]
pub struct ChunkItem {
    pub chunk_info: ChunkInfo,
    pub downloaded_len: u64,
}

impl ChunkItem {
    /// Whether no more has come than the chunk has.
    pub open spec fn valid(self) -> bool {
        self.chunk_info.range.valid() && self.downloaded_len <= self.chunk_info.range.length()
    }

    /// The number of bytes that are still to come.
    pub open spec fn outstanding(self) -> int {
        self.chunk_info.range.length() - self.downloaded_len
    }

    /// A chunk of which nothing has come yet.
    pub fn new(chunk_info: ChunkInfo) -> (r: Self)
        ensures
            r.chunk_info == chunk_info,
            r.downloaded_len == 0,
    {
        Self { chunk_info, downloaded_len: 0 }
    }

    /// Counts `len` more bytes.
    pub fn add_downloaded_len(&mut self, len: usize)
        requires
            old(self).downloaded_len + len <= old(self).chunk_info.range.length() <= u64::MAX,
        ensures
            final(self).downloaded_len == old(self).downloaded_len + len,
            final(self).chunk_info == old(self).chunk_info,
    {
        self.downloaded_len = self.downloaded_len + len as u64;
    }
}

/// What happened to the request for a chunk.
#[derive(Debug)]
pub enum ChunkEvent {
    /// The response began, with this entity tag.
    Response { etag: Option<ETag> },
    /// The request failed.
    RequestFailed,
    /// These bytes of the body came.
    Bytes(Vec<u8>),
    /// The body broke off.
    BodyFailed,
    /// The body ended.
    BodyEnded,
    /// The download was cancelled.
    Cancelled,
}

/// What is to be done next.
#[derive(Debug, Copy, Clone)]
pub enum ChunkAction {
    /// Send a request for this range.
    Request(ChunkRange),
    /// Wait for more of the body.
    ReadBody,
    /// Count these many bytes, then wait for more of the body.
    CountAndReadBody(usize),
    /// Give up: the file on the server is another one now.
    FailServerFileChanged,
    /// Write the bytes at this position of the file, as when the download is cancelled, then give
    /// up: the request failed, or the body broke off.
    WriteAndFailRequest(u64),
    /// Write the bytes at this position of the file, then end for this cause.
    WriteAndEnd(u64, DownloadingEndCause),
}

/// The plain values of [`ChunkDownload`].
#[verifier::ext_equal]
pub struct ChunkDownloadView {
    pub chunk: ChunkInfo,
    pub etag: Option<Seq<u8>>,
    pub retry_count: int,
    pub failures: int,
    pub bytes: Seq<u8>,
}

impl ChunkDownloadView {
    /// A download of which nothing has come yet.
    pub open spec fn fresh(
        chunk: ChunkInfo,
        etag: Option<Seq<u8>>,
        retry_count: int,
    ) -> ChunkDownloadView {
        ChunkDownloadView { chunk, etag, retry_count, failures: 0, bytes: Seq::empty() }
    }

    /// The part of the chunk that has not come.
    pub open spec fn missing(self) -> ChunkRange {
        ChunkRange {
            start: (self.chunk.range.start + self.bytes.len()) as u64,
            end: self.chunk.range.end,
        }
    }

    /// Whether one more failure is still to be made good by another request.
    pub open spec fn may_retry(self) -> bool {
        self.failures + 1 <= self.retry_count
    }

    /// Whether the event can be met: no more bytes come than were asked for, and nothing fails for
    /// which no more is to be asked.
    pub open spec fn can_meet(self, event: ChunkEvent) -> bool {
        match event {
            ChunkEvent::Response { .. } => true,
            ChunkEvent::RequestFailed | ChunkEvent::BodyFailed => {
                &&& self.failures < u8::MAX
                &&& self.may_retry() ==> self.bytes.len() < self.chunk.range.length()
            },
            ChunkEvent::Bytes(bytes) => self.bytes.len() + bytes@.len()
                <= self.chunk.range.length(),
            ChunkEvent::BodyEnded | ChunkEvent::Cancelled => true,
        }
    }

    /// Whether a body that ends does so when all that was asked for has come.
    pub open spec fn is_complete_at(self, event: ChunkEvent) -> bool {
        event is BodyEnded ==> self.bytes.len() == self.chunk.range.length()
    }

    /// The state after the event. A response or bytes make up for all earlier failures.
    pub open spec fn after(self, event: ChunkEvent) -> ChunkDownloadView {
        match event {
            ChunkEvent::Response { .. } => ChunkDownloadView { failures: 0, ..self },
            ChunkEvent::RequestFailed | ChunkEvent::BodyFailed => ChunkDownloadView {
                failures: self.failures + 1,
                ..self
            },
            ChunkEvent::Bytes(bytes) => ChunkDownloadView {
                failures: 0,
                bytes: self.bytes + bytes@,
                ..self
            },
            ChunkEvent::BodyEnded | ChunkEvent::Cancelled => self,
        }
    }

    /// What the event calls for.
    pub open spec fn action(self, event: ChunkEvent) -> ChunkAction {
        match event {
            ChunkEvent::Response { etag } => if self.etag is Some && header_fields::tag_bytes(
                etag,
            ) != self.etag {
                ChunkAction::FailServerFileChanged
            } else {
                ChunkAction::ReadBody
            },
            ChunkEvent::RequestFailed | ChunkEvent::BodyFailed => if self.may_retry() {
                ChunkAction::Request(self.missing())
            } else {
                ChunkAction::WriteAndFailRequest(self.chunk.range.start)
            },
            ChunkEvent::Bytes(bytes) => ChunkAction::CountAndReadBody(bytes@.len() as usize),
            ChunkEvent::BodyEnded => ChunkAction::WriteAndEnd(
                self.chunk.range.start,
                DownloadingEndCause::DownloadFinished,
            ),
            ChunkEvent::Cancelled => ChunkAction::WriteAndEnd(
                self.chunk.range.start,
                DownloadingEndCause::Cancelled,
            ),
        }
    }

    /// Whether the bytes are those of `content` from the start of the chunk on.
    pub open spec fn holds(self, content: Seq<u8>) -> bool {
        &&& self.chunk.range.start + self.bytes.len() <= content.len()
        &&& self.bytes == content.subrange(
            self.chunk.range.start as int,
            self.chunk.range.start + self.bytes.len(),
        )
    }
}

/// The state of the download of a chunk: the bytes that have come, in order from the start of
/// the chunk, and the number of failures since anything came.
#[derive(Debug)]
pub struct ChunkDownload {
    chunk_info: ChunkInfo,
    etag: Option<ETag>,
    retry_count: u8,
    cur_retry_count: u8,
    chunk_bytes: Vec<u8>,
}

impl View for ChunkDownload {
    type V = ChunkDownloadView;

    closed spec fn view(&self) -> ChunkDownloadView {
        ChunkDownloadView {
            chunk: self.chunk_info,
            etag: header_fields::tag_bytes(self.etag),
            retry_count: self.retry_count as int,
            failures: self.cur_retry_count as int,
            bytes: self.chunk_bytes@,
        }
    }
}

impl ChunkDownload {
    /// A download that has not begun. The first thing to do is to request the whole chunk.
    pub fn new(chunk_info: ChunkInfo, etag: Option<ETag>, retry_count: u8) -> (r: Self)
        requires
            0 <= chunk_info.range.length() <= isize::MAX,
        ensures
            r@ == ChunkDownloadView::fresh(
                chunk_info,
                header_fields::tag_bytes(etag),
                retry_count as int,
            ),
    {
        Self {
            chunk_info,
            etag,
            retry_count,
            cur_retry_count: 0,
            chunk_bytes: Vec::with_capacity(chunk_info.range.len() as usize),
        }
    }

    /// The bytes that have come.
    pub fn chunk_bytes(&self) -> (r: &Vec<u8>)
        ensures
            r@ == self@.bytes,
    {
        &self.chunk_bytes
    }

    /// The part of the chunk that has not come.
    pub fn missing_range(&self) -> (r: ChunkRange)
        requires
            self@.chunk.range.valid(),
            self@.bytes.len() < self@.chunk.range.length(),
        ensures
            r == self@.missing(),
    {
        ChunkRange::new(
            self.chunk_info.range.start + self.chunk_bytes.len() as u64,
            self.chunk_info.range.end,
        )
    }

    /// Makes `request` ask for the part of the chunk that has not come.
    pub fn ask_for_missing(&self, request: &mut HttpRequest)
        requires
            self@.chunk.range.valid(),
            self@.bytes.len() < self@.chunk.range.length(),
            header_fields::has_room(header_fields::fields(old(request).headers).dom()),
        ensures
            final(request).agrees_with(*old(request)),
            header_fields::fields(final(request).headers) == header_fields::fields(
                old(request).headers,
            ).insert(
                "range"@,
                seq![
                    header_fields::ascii_bytes(
                        header_fields::range_text(self@.missing().start, self@.missing().end),
                    ),
                ],
            ),
    {
        let range = self.missing_range();
        let value = range.to_range_header();
        proof {
            reveal_strlit("range");
            header_fields::lemma_range_text_is_visible(range.start, range.end);
            header_fields::lemma_visible_text_bytes(value@);
        }
        header_fields::insert_field(&mut request.headers, "range", value.as_str().as_bytes());
    }

    /// Meets the begin of a response with these fields, and says what to do next.
    ///
    /// The entity tag matters only if one is expected.
    pub fn meet_response(&mut self, headers: &HeaderMap) -> (action: ChunkAction)
        requires
            old(self)@.chunk.range.valid(),
        ensures
            final(self)@ == (ChunkDownloadView { failures: 0, ..old(self)@ }),
            action == (if old(self)@.etag is Some && header_fields::etag_of(
                header_fields::field_values(*headers, "etag"@),
            ) != old(self)@.etag {
                ChunkAction::FailServerFileChanged
            } else {
                ChunkAction::ReadBody
            }),
    {
        let etag = if self.etag.is_some() {
            header_fields::response_etag(headers)
        } else {
            None
        };
        self.download_chunk(&ChunkEvent::Response { etag })
    }

    /// Meets an event, and says what to do next.
    pub fn download_chunk(&mut self, event: &ChunkEvent) -> (action: ChunkAction)
        requires
            old(self)@.chunk.range.valid(),
            old(self)@.can_meet(*event),
        ensures
            final(self)@ == old(self)@.after(*event),
            action == old(self)@.action(*event),
    {
        let start: u64 = self.chunk_info.range.start;
        match event {
            ChunkEvent::Response { etag } => {
                self.cur_retry_count = 0;
                if self.etag.is_some() && !header_fields::same_tag(etag, &self.etag) {
                    ChunkAction::FailServerFileChanged
                } else {
                    ChunkAction::ReadBody
                }
            },
            ChunkEvent::Bytes(bytes) => {
                self.cur_retry_count = 0;
                let len: usize = bytes.len();
                self.chunk_bytes.extend_from_slice(bytes.as_slice());
                assert(self.chunk_bytes@ =~= old(self)@.bytes + bytes@);
                ChunkAction::CountAndReadBody(len)
            },
            ChunkEvent::RequestFailed | ChunkEvent::BodyFailed => {
                self.cur_retry_count = self.cur_retry_count + 1;
                if self.cur_retry_count > self.retry_count {
                    ChunkAction::WriteAndFailRequest(start)
                } else {
                    ChunkAction::Request(self.missing_range())
                }
            },
            ChunkEvent::BodyEnded => ChunkAction::WriteAndEnd(
                start,
                DownloadingEndCause::DownloadFinished,
            ),
            ChunkEvent::Cancelled => ChunkAction::WriteAndEnd(
                start,
                DownloadingEndCause::Cancelled,
            ),
        }
    }
}

/// If every body continues the file where its request asked it to, and does not end before all has
/// come, then the bytes that have come are always those of the file from the start of the chunk on.
///
/// So what is written is right wherever it is written, a finished chunk is written whole, and
/// every new request asks for the rest.
pub proof fn law_chunk_bytes_follow_the_file(
    download: ChunkDownloadView,
    content: Seq<u8>,
    event: ChunkEvent,
)
    requires
        download.chunk.range.valid(),
        download.chunk.range.end < content.len(),
        download.holds(content),
        download.can_meet(event),
        download.is_complete_at(event),
        event matches ChunkEvent::Bytes(bytes) ==> bytes@ == content.subrange(
            download.chunk.range.start + download.bytes.len(),
            download.chunk.range.start + download.bytes.len() + bytes@.len(),
        ),
    ensures
        download.after(event).holds(content),
        match download.action(event) {
            ChunkAction::Request(range) => {
                &&& range.start == download.chunk.range.start + download.bytes.len()
                &&& range.end == download.chunk.range.end
                &&& range.length() > 0
            },
            ChunkAction::WriteAndFailRequest(position) => position == download.chunk.range.start,
            ChunkAction::WriteAndEnd(position, cause) => {
                &&& position == download.chunk.range.start
                &&& cause == DownloadingEndCause::DownloadFinished ==> download.after(event).bytes
                    == content.subrange(
                    download.chunk.range.start as int,
                    download.chunk.range.end + 1,
                )
            },
            _ => true,
        },
{
    assert(download.after(event).bytes =~= content.subrange(
        download.chunk.range.start as int,
        download.chunk.range.start + download.after(event).bytes.len(),
    ));
}

/// As many bytes of a chunk are counted as have come.
pub proof fn law_chunk_counts_its_bytes(download: ChunkDownloadView, event: ChunkEvent)
    requires
        download.chunk.range.length() <= usize::MAX,
        download.can_meet(event),
        download.is_complete_at(event),
    ensures
        download.after(event).bytes.len() == download.bytes.len() + (match download.action(event) {
            ChunkAction::CountAndReadBody(len) => len as int,
            _ => 0,
        }),
        download.action(event) matches ChunkAction::WriteAndEnd(
            _,
            DownloadingEndCause::DownloadFinished,
        ) ==> download.after(event).bytes.len() == download.chunk.range.length(),
{
}

/// The state after `n` failures on end.
pub open spec fn after_failures(download: ChunkDownloadView, n: nat) -> ChunkDownloadView {
    ChunkDownloadView { failures: download.failures + n, ..download }
}

/// After a response or bytes, `retry_count` failures on end are each answered by a new request,
/// and the next one ends the download of the chunk.
pub proof fn law_chunk_retries(download: ChunkDownloadView, event: ChunkEvent, n: nat)
    requires
        download.failures == 0,
        event is RequestFailed || event is BodyFailed,
    ensures
        after_failures(download, n).after(event) == after_failures(download, n + 1),
        after_failures(download, n).action(event) is Request <==> n < download.retry_count,
        n >= download.retry_count ==> after_failures(download, n).action(event)
            is WriteAndFailRequest,
{
}

/// Where an entity tag is expected, a response with another tag, or without one, ends the download
/// of the chunk; every other response is read. Where none is expected, every response is read.
pub proof fn law_changed_tag_ends_the_chunk(download: ChunkDownloadView, etag: Option<ETag>)
    ensures
        ({
            let action = download.action(ChunkEvent::Response { etag });
            match download.etag {
                Some(expected) => {
                    &&& action is ReadBody <==> (etag matches Some(tag) && tag.value@ == expected)
                    &&& !(action is ReadBody) ==> action is FailServerFileChanged
                },
                None => action is ReadBody,
            }
        }),
{
}

/// A response or bytes make up for all earlier failures, and a failure is counted once. Nothing but
/// bytes changes what has come, and nothing changes what the download is for.
pub proof fn law_event_changes_only_its_own(download: ChunkDownloadView, event: ChunkEvent)
    ensures
        ({
            let after = download.after(event);
            &&& after.chunk == download.chunk
            &&& after.etag == download.etag
            &&& after.retry_count == download.retry_count
            &&& event is Response || event is Bytes ==> after.failures == 0
            &&& event is RequestFailed || event is BodyFailed ==> after.failures
                == download.failures + 1
            &&& event is BodyEnded || event is Cancelled ==> after.failures == download.failures
            &&& match event {
                ChunkEvent::Bytes(bytes) => after.bytes == download.bytes + bytes@,
                _ => after.bytes == download.bytes,
            }
        }),
{
}

/// The download of a chunk is finished exactly when the body ends, and cancelled exactly when it is
/// cancelled. It fails only for a failure or for another tag. Bytes are counted, as many as come.
pub proof fn law_chunk_ends_for_its_cause(download: ChunkDownloadView, event: ChunkEvent)
    ensures
        ({
            let action = download.action(event);
            let start = download.chunk.range.start;
            &&& event is BodyEnded <==> action == ChunkAction::WriteAndEnd(
                start,
                DownloadingEndCause::DownloadFinished,
            )
            &&& event is Cancelled <==> action == ChunkAction::WriteAndEnd(
                start,
                DownloadingEndCause::Cancelled,
            )
            &&& action is FailServerFileChanged ==> event is Response
            &&& action is WriteAndFailRequest || action is Request ==> event is RequestFailed
                || event is BodyFailed
            &&& event matches ChunkEvent::Bytes(bytes) ==> bytes@.len() <= usize::MAX ==> (
            action matches ChunkAction::CountAndReadBody(len) && len == bytes@.len())
        }),
{
}

/// A download that has not begun misses its whole chunk, and has not failed.
pub proof fn law_fresh_download_misses_the_chunk(
    chunk: ChunkInfo,
    etag: Option<Seq<u8>>,
    retry_count: int,
)
    ensures
        ({
            let download = ChunkDownloadView::fresh(chunk, etag, retry_count);
            &&& download.missing() == chunk.range
            &&& download.chunk == chunk
            &&& download.etag == etag
            &&& download.retry_count == retry_count
            &&& download.failures == 0
            &&& download.bytes.len() == 0
        }),
{
}

} // verus!
