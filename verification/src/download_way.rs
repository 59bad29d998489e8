//! The two ways of a download: by chunks, or by the body of a single response.

use vstd::prelude::*;

use crate::chunk_manager::{ChunkManager, ChunkManagerView};
use crate::downloader::DownloadingEndCause;

verus! {

/// The download of a file whose server does not serve ranges.
#[derive(Debug)]
pub struct SingleDownload {
    pub downloaded_len: u64,
    pub content_length: Option<u64>,
}

/// What happened to the body of the response.
#[derive(Debug)]
pub enum SingleEvent {
    /// These bytes came.
    Bytes(Vec<u8>),
    /// The body broke off.
    BodyFailed,
    /// The body ended.
    BodyEnded,
    /// The download was cancelled.
    Cancelled,
}

/// What is to be done next.
#[derive(Debug)]
pub enum SingleAction {
    /// Report that these many bytes came, then wait for more of the body.
    ReadBody(usize),
    /// Write these bytes behind those that were written before, report that these many bytes came,
    /// then wait for more of the body.
    WriteAndReadBody(Vec<u8>, usize),
    /// Give up: the body broke off.
    FailRequest,
    /// Write these bytes behind those that were written before, then end for this cause.
    WriteAndEnd(Vec<u8>, DownloadingEndCause),
    /// End for this cause.
    End(DownloadingEndCause),
}

impl SingleAction {
    /// The bytes to write.
    pub open spec fn written(self) -> Seq<u8> {
        match self {
            SingleAction::WriteAndReadBody(bytes, _) => bytes@,
            SingleAction::WriteAndEnd(bytes, _) => bytes@,
            _ => Seq::empty(),
        }
    }

    /// The number of bytes to report, if any came.
    pub open spec fn reported(self) -> Option<usize> {
        match self {
            SingleAction::ReadBody(len) => Some(len),
            SingleAction::WriteAndReadBody(_, len) => Some(len),
            _ => None,
        }
    }
}

/// The bytes of a body that were not written yet.
#[derive(Debug)]
pub struct SingleBuffer {
    buffer_size: usize,
    chunk_bytes: Vec<u8>,
}

impl View for SingleBuffer {
    type V = Seq<u8>;

    closed spec fn view(&self) -> Seq<u8> {
        self.chunk_bytes@
    }
}

/// How many bytes a vector can hold before it allocates again, by `Vec::capacity`.
///
/// It holds at least what is in it. How much more is up to the allocator.
#[verifier::external_body]
fn capacity(bytes: &Vec<u8>) -> (r: usize)
    ensures
        r >= bytes@.len(),
{
    bytes.capacity()
}

/// Whether `len` more bytes are too many for a buffer of this capacity that holds `buffered`.
pub open spec fn overflows(buffered: Seq<u8>, len: nat, capacity: usize) -> bool {
    buffered.len() + len > capacity
}

/// The bytes of an event.
pub open spec fn event_bytes(event: SingleEvent) -> Seq<u8> {
    match event {
        SingleEvent::Bytes(bytes) => bytes@,
        _ => Seq::empty(),
    }
}

/// What the buffer holds after the event.
pub open spec fn buffered_after(
    buffered: Seq<u8>,
    event: SingleEvent,
    capacity: usize,
) -> Seq<u8> {
    match event {
        SingleEvent::Bytes(bytes) => if overflows(buffered, bytes@.len(), capacity) {
            bytes@
        } else {
            buffered + bytes@
        },
        SingleEvent::BodyEnded => Seq::empty(),
        _ => buffered,
    }
}

/// Whether `action` is what the event calls for: bytes that come are reported; those that do not
/// fit push out those in the buffer, and the end of the body all that are left. A body that broke
/// off or was cancelled leaves the rest unwritten.
pub open spec fn is_action(
    buffered: Seq<u8>,
    event: SingleEvent,
    capacity: usize,
    action: SingleAction,
) -> bool {
    match event {
        SingleEvent::Bytes(bytes) => if overflows(buffered, bytes@.len(), capacity) {
            action matches SingleAction::WriteAndReadBody(written, len) && written@ == buffered
                && len == bytes@.len()
        } else {
            action matches SingleAction::ReadBody(len) && len == bytes@.len()
        },
        SingleEvent::BodyFailed => action == SingleAction::FailRequest,
        SingleEvent::BodyEnded => action matches SingleAction::WriteAndEnd(written, cause)
            && written@ == buffered && cause == DownloadingEndCause::DownloadFinished,
        SingleEvent::Cancelled => action == SingleAction::End(DownloadingEndCause::Cancelled),
    }
}

impl SingleBuffer {
    /// The number of bytes that the buffer is for.
    pub closed spec fn size(self) -> usize {
        self.buffer_size
    }

    /// An empty buffer for `buffer_size` bytes.
    pub fn new(buffer_size: usize) -> (r: Self)
        requires
            buffer_size <= isize::MAX,
        ensures
            r@ == Seq::<u8>::empty(),
            r.size() == buffer_size,
    {
        Self { buffer_size, chunk_bytes: Vec::with_capacity(buffer_size) }
    }

    /// How many bytes the buffer can hold: at least as many as it is for, and as it holds.
    fn capacity(&self) -> (r: usize)
        ensures
            r >= self.size(),
            r >= self@.len(),
    {
        let capacity: usize = capacity(&self.chunk_bytes);
        if capacity < self.buffer_size {
            self.buffer_size
        } else {
            capacity
        }
    }

    /// Gives up what the buffer holds.
    fn empty(&mut self) -> (r: Vec<u8>)
        ensures
            r@ == old(self)@,
            final(self)@ == Seq::<u8>::empty(),
            final(self).size() == old(self).size(),
    {
        let bytes = self.chunk_bytes.clone();
        assert(bytes@ =~= self.chunk_bytes@);
        self.chunk_bytes.clear();
        bytes
    }
}

impl SingleDownload {
    /// A download of which `downloaded_len` bytes are counted already.
    pub fn new(downloaded_len: u64, content_length: Option<u64>) -> (r: Self)
        ensures
            r == (SingleDownload { downloaded_len, content_length }),
    {
        Self { downloaded_len, content_length }
    }

    /// Meets an event, and says what to do next.
    ///
    /// Nothing is written before the buffer holds more than it is for, or the body ends. How much
    /// more it then takes is up to the allocator.
    pub fn download(&mut self, buffer: &mut SingleBuffer, event: &SingleEvent) -> (action:
        SingleAction)
        requires
            old(buffer)@.len() + event_bytes(*event).len() <= usize::MAX,
            old(self).downloaded_len + event_bytes(*event).len() <= u64::MAX,
        ensures
            exists|capacity: usize|
                {
                    &&& capacity >= old(buffer).size()
                    &&& capacity >= old(buffer)@.len()
                    &&& #[trigger] is_action(old(buffer)@, *event, capacity, action)
                    &&& final(buffer)@ == buffered_after(old(buffer)@, *event, capacity)
                },
            final(buffer).size() == old(buffer).size(),
            final(self).downloaded_len == old(self).downloaded_len + event_bytes(*event).len(),
            final(self).content_length == old(self).content_length,
    {
        let capacity: usize = buffer.capacity();
        self.meet_event(buffer, event, capacity)
    }

    /// Meets an event where the buffer has this capacity, and says what to do next.
    pub fn meet_event(
        &mut self,
        buffer: &mut SingleBuffer,
        event: &SingleEvent,
        capacity: usize,
    ) -> (action: SingleAction)
        requires
            old(buffer)@.len() + event_bytes(*event).len() <= usize::MAX,
            old(self).downloaded_len + event_bytes(*event).len() <= u64::MAX,
        ensures
            is_action(old(buffer)@, *event, capacity, action),
            final(buffer)@ == buffered_after(old(buffer)@, *event, capacity),
            final(buffer).size() == old(buffer).size(),
            final(self).downloaded_len == old(self).downloaded_len + event_bytes(*event).len(),
            final(self).content_length == old(self).content_length,
    {
        match event {
            SingleEvent::Bytes(bytes) => {
                let len: usize = bytes.len();
                let is_full = buffer.chunk_bytes.len() + len > capacity;
                let action = if is_full {
                    SingleAction::WriteAndReadBody(buffer.empty(), len)
                } else {
                    SingleAction::ReadBody(len)
                };
                buffer.chunk_bytes.extend_from_slice(bytes.as_slice());
                assert(buffer@ =~= buffered_after(old(buffer)@, *event, capacity));
                self.downloaded_len = self.downloaded_len + len as u64;
                action
            },
            SingleEvent::BodyFailed => SingleAction::FailRequest,
            SingleEvent::BodyEnded => SingleAction::WriteAndEnd(
                buffer.empty(),
                DownloadingEndCause::DownloadFinished,
            ),
            SingleEvent::Cancelled => SingleAction::End(DownloadingEndCause::Cancelled),
        }
    }
}

/// What was written, and what the buffer holds.
pub struct SingleProgress {
    pub written: Seq<u8>,
    pub buffered: Seq<u8>,
}

/// The progress after the events, where the buffer has these capacities.
pub open spec fn single_progress(events: Seq<(SingleEvent, usize)>) -> SingleProgress
    decreases events.len(),
{
    if events.len() == 0 {
        SingleProgress { written: Seq::empty(), buffered: Seq::empty() }
    } else {
        let before = single_progress(events.drop_last());
        let (event, capacity) = events.last();
        SingleProgress {
            written: before.written + written_by(before.buffered, event, capacity),
            buffered: buffered_after(before.buffered, event, capacity),
        }
    }
}

/// What an event has written.
pub open spec fn written_by(buffered: Seq<u8>, event: SingleEvent, capacity: usize) -> Seq<u8> {
    match event {
        SingleEvent::Bytes(bytes) => if overflows(buffered, bytes@.len(), capacity) {
            buffered
        } else {
            Seq::empty()
        },
        SingleEvent::BodyEnded => buffered,
        _ => Seq::empty(),
    }
}

/// All bytes that came.
pub open spec fn received(events: Seq<(SingleEvent, usize)>) -> Seq<u8>
    decreases events.len(),
{
    if events.len() == 0 {
        Seq::empty()
    } else {
        received(events.drop_last()) + event_bytes(events.last().0)
    }
}

/// The bytes that were written and those in the buffer are, in order, all that came, whatever
/// capacities the buffer had. When the body has ended, all are written.
pub proof fn law_single_download_writes_all(events: Seq<(SingleEvent, usize)>)
    ensures
        single_progress(events).written + single_progress(events).buffered == received(events),
        events.len() > 0 && events.last().0 is BodyEnded ==> single_progress(events).written
            == received(events),
    decreases events.len(),
{
    if events.len() > 0 {
        law_single_download_writes_all(events.drop_last());
        let before = single_progress(events.drop_last());
        let after = single_progress(events);
        assert(after.written + after.buffered =~= before.written + before.buffered + event_bytes(
            events.last().0,
        ));
        if events.last().0 is BodyEnded {
            assert(after.written + after.buffered =~= after.written);
        }
    } else {
        let start = single_progress(events);
        assert(start.written + start.buffered =~= received(events));
    }
}

/// What an event has written is what its action says, and every piece that comes is reported once,
/// with its length, and nothing else.
pub proof fn law_single_action_writes(
    buffered: Seq<u8>,
    event: SingleEvent,
    capacity: usize,
    action: SingleAction,
)
    requires
        is_action(buffered, event, capacity, action),
    ensures
        action.written() == written_by(buffered, event, capacity),
        match event {
            SingleEvent::Bytes(bytes) => action.reported() matches Some(len) && len == bytes@.len(),
            _ => action.reported() is None,
        },
{
}

/// The way of a download.
#[derive(Debug)]
pub enum DownloadWay {
    Ranges(ChunkManager),
    Single(SingleDownload),
}

/// The plain values of [`DownloadWay`].
pub enum DownloadWayView {
    Ranges(ChunkManagerView),
    Single(SingleDownload),
}

impl View for DownloadWay {
    type V = DownloadWayView;

    open spec fn view(&self) -> DownloadWayView {
        match self {
            DownloadWay::Ranges(chunk_manager) => DownloadWayView::Ranges(chunk_manager@),
            DownloadWay::Single(single) => DownloadWayView::Single(*single),
        }
    }
}

impl DownloadWayView {
    /// The number of bytes that have come.
    pub open spec fn downloaded_len(self) -> int {
        match self {
            DownloadWayView::Ranges(m) => m.downloaded_len,
            DownloadWayView::Single(single) => single.downloaded_len as int,
        }
    }

    /// The same way with another number of bytes that have come.
    pub open spec fn with_downloaded_len(self, downloaded_len: u64) -> DownloadWayView {
        match self {
            DownloadWayView::Ranges(m) => DownloadWayView::Ranges(
                ChunkManagerView { downloaded_len: downloaded_len as int, ..m },
            ),
            DownloadWayView::Single(single) => DownloadWayView::Single(
                SingleDownload { downloaded_len, ..single },
            ),
        }
    }
}

impl DownloadWay {
    /// Whether a chunk manager is fit to hand out chunks.
    pub open spec fn valid(self) -> bool {
        self matches DownloadWay::Ranges(chunk_manager) ==> chunk_manager.valid()
    }

    /// The number of bytes that have come.
    pub fn downloaded_len(&self) -> (r: u64)
        ensures
            r == self@.downloaded_len(),
    {
        match self {
            DownloadWay::Ranges(chunk_manager) => chunk_manager.downloaded_len(),
            DownloadWay::Single(single) => single.downloaded_len,
        }
    }

    /// Sets the number of bytes that have come.
    pub fn set_downloaded_len(&mut self, downloaded_len: u64)
        ensures
            final(self)@ == old(self)@.with_downloaded_len(downloaded_len),
            old(self).valid() ==> final(self).valid(),
    {
        match self {
            DownloadWay::Ranges(chunk_manager) => {
                chunk_manager.downloaded_len = downloaded_len;
            },
            DownloadWay::Single(single) => {
                single.downloaded_len = downloaded_len;
            },
        }
    }
}

/// Setting the number of bytes that have come sets that number, and nothing else.
pub proof fn law_count_is_set_alone(way: DownloadWayView, downloaded_len: u64, other: u64)
    ensures
        way.with_downloaded_len(downloaded_len).downloaded_len() == downloaded_len,
        way.with_downloaded_len(downloaded_len).with_downloaded_len(other)
            == way.with_downloaded_len(other),
        way.downloaded_len() == downloaded_len ==> way.with_downloaded_len(downloaded_len) == way,
        way.with_downloaded_len(downloaded_len) is Ranges <==> way is Ranges,
{
}

/// Bytes are kept in the buffer as long as they fit in it. Bytes that do not fit push out what it
/// holds, so that it never holds more than fits, or than came at once.
pub proof fn law_bytes_are_kept_while_they_fit(
    buffered: Seq<u8>,
    event: SingleEvent,
    capacity: usize,
    action: SingleAction,
)
    requires
        is_action(buffered, event, capacity, action),
        event is Bytes,
    ensures
        ({
            let bytes = event_bytes(event);
            let after = buffered_after(buffered, event, capacity);
            &&& action.written().len() > 0 ==> buffered.len() + bytes.len() > capacity
            &&& buffered.len() + bytes.len() > capacity ==> action.written() == buffered
            &&& action.written() + after == buffered + bytes
            &&& after.len() <= capacity || after == bytes
            &&& action is ReadBody || action is WriteAndReadBody
        }),
{
    let after = buffered_after(buffered, event, capacity);
    assert(action.written() + after =~= buffered + event_bytes(event));
}

/// The end of the body finishes the download, and all that the buffer holds is written. A body that
/// broke off makes it fail, and a cancelled download ends as cancelled; both write nothing.
pub proof fn law_single_download_ends(
    buffered: Seq<u8>,
    event: SingleEvent,
    capacity: usize,
    action: SingleAction,
)
    requires
        is_action(buffered, event, capacity, action),
    ensures
        action is FailRequest <==> event is BodyFailed,
        event is BodyEnded <==> (action matches SingleAction::WriteAndEnd(_, cause) && cause
            == DownloadingEndCause::DownloadFinished),
        event is Cancelled <==> (action matches SingleAction::End(cause) && cause
            == DownloadingEndCause::Cancelled),
        event is BodyEnded ==> action.written() == buffered,
        event is BodyFailed || event is Cancelled ==> action.written().len() == 0
            && buffered_after(buffered, event, capacity) == buffered,
{
}

} // verus!
